//! The operation layer: the four logical operations over an arbitrary
//! persistence backend. An add hashes the long URL, encodes the hash as the
//! short code, and stores a freshly constructed entry under it; an edit
//! merges a partial update into the stored entry without writing it back; a
//! get passes through to the store.
//!
//! `add_url` and `add_entry` demand up front that the hash is encodable and,
//! for `add_url`, that the short code is still free; the checked variants
//! test both at run time and report a typed error instead.

use vstd::prelude::*;

use crate::codec::create_hash;
use crate::codec::encodable;
use crate::codec::encode_hash;
use crate::codec::encode_spec;
use crate::codec::hash_of;
use crate::codec::is_encodable;
use crate::persistence::Persistence;
use crate::url_entry::merge_spec;
use crate::url_entry::EntryView;
use crate::url_entry::UrlEntry;
use crate::url_entry::UrlEntryRequest;

verus! {

/// Why an add was refused: the short code is already taken, or the hash has
/// a base-62 remainder outside the alphabet.
#[derive(Debug, PartialEq, Eq, Structural, Clone, Copy)]
pub enum AddUrlError {
    Collision,
    UnencodableHash,
}

/// The entry an add constructs for `long_url`: its short code is the encoded
/// hash of the long URL, it has no expiration, and it carries the caller's
/// identity and clock reading.
pub open spec fn added_entry(long_url: Seq<char>, author: Seq<char>, now: u64) -> EntryView {
    EntryView {
        long_url: long_url,
        short_url: encode_spec(hash_of(long_url) as nat),
        expiration_date: None,
        creation_date: now,
        author: author,
    }
}

/// Adds a URL to the persistence layer: hashes it, encodes the short code,
/// constructs the entry and stores it. The short code must still be free;
/// `add_url_checked` tests that instead of demanding it.
pub fn add_url<T: Persistence>(long_url: &str, author: &str, now: u64, map: &mut T) -> (r: Option<
    UrlEntry,
>)
    requires
        old(map).wf(),
        encodable(hash_of(long_url@) as nat),
        !old(map).pmap().contains_key(encode_spec(hash_of(long_url@) as nat)),
    ensures
        final(map).wf(),
        (r matches Some(e) && e@ == added_entry(long_url@, author@, now)),
        final(map).pmap() == old(map).pmap().insert(
            encode_spec(hash_of(long_url@) as nat),
            added_entry(long_url@, author@, now),
        ),
{
    let hash = match create_hash(long_url) {
        Some(h) => h,
        None => {
            return None;
        },
    };
    let short_url = encode_hash(hash);
    let entry = UrlEntry::new(long_url, short_url.as_str(), author, now);
    map.insert(short_url.as_str(), entry.clone());
    Some(entry)
}

/// Adds a URL after testing at run time that the hash is encodable and the
/// short code still free; on failure the store is untouched and the reason
/// is reported.
pub fn add_url_checked<T: Persistence>(long_url: &str, author: &str, now: u64, map: &mut T) -> (r:
    Result<UrlEntry, AddUrlError>)
    requires
        old(map).wf(),
    ensures
        final(map).wf(),
        !encodable(hash_of(long_url@) as nat) ==> r == Result::<
            UrlEntry,
            AddUrlError,
        >::Err(AddUrlError::UnencodableHash) && final(map).pmap() == old(map).pmap(),
        encodable(hash_of(long_url@) as nat) && old(map).pmap().contains_key(
            encode_spec(hash_of(long_url@) as nat),
        ) ==> r == Result::<UrlEntry, AddUrlError>::Err(AddUrlError::Collision)
            && final(map).pmap() == old(map).pmap(),
        encodable(hash_of(long_url@) as nat) && !old(map).pmap().contains_key(
            encode_spec(hash_of(long_url@) as nat),
        ) ==> (r matches Ok(e) && e@ == added_entry(long_url@, author@, now)) && final(map).pmap()
            == old(map).pmap().insert(
            encode_spec(hash_of(long_url@) as nat),
            added_entry(long_url@, author@, now),
        ),
{
    let hash = match create_hash(long_url) {
        Some(h) => h,
        None => {
            return Err(AddUrlError::UnencodableHash);
        },
    };
    if !is_encodable(hash) {
        return Err(AddUrlError::UnencodableHash);
    }
    let short_url = encode_hash(hash);
    if map.contains_key(short_url.as_str()) {
        return Err(AddUrlError::Collision);
    }
    match add_url(long_url, author, now, map) {
        Some(e) => Ok(e),
        None => Err(AddUrlError::UnencodableHash),
    }
}

/// The entry an `add_entry` stores: the given entry, except that its short
/// code is recomputed from its long URL and its creation date is stamped
/// fresh.
pub open spec fn restamped_entry(e: EntryView, now: u64) -> EntryView {
    EntryView {
        long_url: e.long_url,
        short_url: encode_spec(hash_of(e.long_url) as nat),
        expiration_date: e.expiration_date,
        creation_date: now,
        author: e.author,
    }
}

/// Adds a ready-made entry, bypassing the collision check: the short code is
/// recomputed from the entry's long URL, whatever the entry carried, and the
/// creation date is stamped fresh; an entry already under that code is
/// overwritten.
pub fn add_entry<T: Persistence>(entry: UrlEntry, now: u64, map: &mut T) -> (r: Option<UrlEntry>)
    requires
        old(map).wf(),
        encodable(hash_of(entry.long_url@) as nat),
    ensures
        final(map).wf(),
        (r matches Some(e) && e@ == restamped_entry(entry@, now)),
        final(map).pmap() == old(map).pmap().insert(
            encode_spec(hash_of(entry.long_url@) as nat),
            restamped_entry(entry@, now),
        ),
{
    let hash = match create_hash(entry.long_url.as_str()) {
        Some(h) => h,
        None => {
            return None;
        },
    };
    let short_url = encode_hash(hash);
    let key = short_url.clone();
    let stored = UrlEntry {
        long_url: entry.long_url.clone(),
        short_url,
        expiration_date: entry.expiration_date,
        creation_date: now,
        author: entry.author,
    };
    map.insert(key.as_str(), stored)
}

/// Adds a ready-made entry after testing at run time that the hash of its
/// long URL is encodable; `None` reports an unencodable hash, with the store
/// untouched.
pub fn add_entry_checked<T: Persistence>(entry: UrlEntry, now: u64, map: &mut T) -> (r: Option<
    UrlEntry,
>)
    requires
        old(map).wf(),
    ensures
        final(map).wf(),
        !encodable(hash_of(entry.long_url@) as nat) ==> r is None
            && final(map).pmap() == old(map).pmap(),
        encodable(hash_of(entry.long_url@) as nat) ==> (r matches Some(e) && e@ == restamped_entry(
            entry@,
            now,
        )) && final(map).pmap() == old(map).pmap().insert(
            encode_spec(hash_of(entry.long_url@) as nat),
            restamped_entry(entry@, now),
        ),
{
    let hash = match create_hash(entry.long_url.as_str()) {
        Some(h) => h,
        None => {
            return None;
        },
    };
    if !is_encodable(hash) {
        return None;
    }
    add_entry(entry, now, map)
}

/// Merges the request into the entry stored under `short_url` and hands the
/// merged copy back; the store itself is not changed — the merge result is
/// not written back, the operation's current non-persistent behavior.
pub fn edit_entry<T: Persistence>(
    short_url: &str,
    goal_entry: UrlEntryRequest,
    persistence: &T,
) -> (r: Option<UrlEntry>)
    requires
        persistence.wf(),
    ensures
        (match r {
            Some(e) => persistence.pmap().contains_key(short_url@) && e@ == merge_spec(
                persistence.pmap()[short_url@],
                goal_entry@,
            ),
            None => !persistence.pmap().contains_key(short_url@),
        }),
{
    let mut entry = match persistence.get(short_url) {
        Some(e) => e,
        None => {
            return None;
        },
    };
    entry.merge_with(&goal_entry);
    Some(entry)
}

/// Hands back a copy of the entry stored under `short_url`.
pub fn get_url<T: Persistence>(short_url: &str, url_map: &T) -> (r: Option<UrlEntry>)
    requires
        url_map.wf(),
    ensures
        (match r {
            Some(e) => url_map.pmap().contains_key(short_url@) && e@ == url_map.pmap()[short_url@],
            None => !url_map.pmap().contains_key(short_url@),
        }),
{
    url_map.get(short_url)
}

} // verus!
