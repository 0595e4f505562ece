//! The persistence capability: insert, get, remove and a membership check
//! over a map from short code to entry, with an in-memory backend and a
//! file-backed backend.
//!
//! The file-backed backend mirrors an append-only log in a read cache: the
//! cache is an association list keyed by the short code, and the log is held
//! as the sequence of its lines. Loading parses each line and skips failures
//! silently; insertion appends the serialized line; removal rewrites the log
//! keeping only the lines that do not contain the key as a substring — a
//! substring match, not an exact-key match, so a key occurring inside an
//! unrelated line deletes that line too. Reads are served from the cache
//! alone.

use vstd::prelude::*;

use crate::strutil::contains_sub;
use crate::strutil::contains_sub_exec;
use crate::strutil::str_eq;
use crate::url_entry::line_of;
use crate::url_entry::parse_line_spec;
use crate::url_entry::EntryView;
use crate::url_entry::UrlEntry;
use vstd::string::StringExecFns;

verus! {

/// The map an association list of entries denotes; a later binding of a key
/// overrides an earlier one.
pub open spec fn entries_map(s: Seq<(String, UrlEntry)>) -> Map<Seq<char>, EntryView>
    decreases s.len(),
{
    if s.len() == 0 {
        Map::empty()
    } else {
        entries_map(s.drop_last()).insert(s.last().0@, s.last().1@)
    }
}

/// No two bindings of the list share a key.
pub open spec fn unique_keys(s: Seq<(String, UrlEntry)>) -> bool {
    forall|i: int, j: int|
        0 <= i < j < s.len() ==> (#[trigger] s[i].0@) != (#[trigger] s[j].0@)
}

/// No binding of the list has the key `k`.
pub open spec fn no_key(s: Seq<(String, UrlEntry)>, k: Seq<char>) -> bool {
    forall|i: int| 0 <= i < s.len() ==> (#[trigger] s[i].0@) != k
}

/// A key is in the denoted map exactly when some binding carries it.
pub proof fn lemma_entries_map_dom(s: Seq<(String, UrlEntry)>, k: Seq<char>)
    ensures
        entries_map(s).contains_key(k) <==> (exists|i: int|
            0 <= i < s.len() && (#[trigger] s[i].0@) == k),
    decreases s.len(),
{
    if s.len() > 0 {
        lemma_entries_map_dom(s.drop_last(), k);
        assert(forall|i: int| 0 <= i < s.len() - 1 ==> s.drop_last()[i] == s[i]);
        if s.last().0@ == k {
            assert(s[s.len() - 1].0@ == k);
        }
    }
}

/// With unique keys, the denoted map sends each binding's key to its entry.
pub proof fn lemma_entries_map_at(s: Seq<(String, UrlEntry)>, i: int)
    requires
        unique_keys(s),
        0 <= i < s.len(),
    ensures
        entries_map(s).contains_key(s[i].0@),
        entries_map(s)[s[i].0@] == s[i].1@,
    decreases s.len(),
{
    if i < s.len() - 1 {
        assert(forall|x: int| 0 <= x < s.len() - 1 ==> s.drop_last()[x] == s[x]);
        lemma_entries_map_at(s.drop_last(), i);
    }
}

/// With unique keys, removing the binding at `i` removes exactly its key
/// from the denoted map.
pub proof fn lemma_entries_map_remove_at(s: Seq<(String, UrlEntry)>, i: int)
    requires
        unique_keys(s),
        0 <= i < s.len(),
    ensures
        entries_map(s.remove(i)) == entries_map(s).remove(s[i].0@),
    decreases s.len(),
{
    assert(forall|x: int| 0 <= x < s.len() - 1 ==> s.drop_last()[x] == s[x]);
    if i == s.len() - 1 {
        assert(s.remove(i) =~= s.drop_last());
        lemma_entries_map_dom(s.drop_last(), s[i].0@);
        if entries_map(s.drop_last()).contains_key(s[i].0@) {
            let k = s[i].0@;
            let x = choose|x: int| 0 <= x < s.len() - 1 && (#[trigger] s.drop_last()[x].0@) == k;
            assert(s[x].0@ == s[i].0@);
            assert(false);
        }
        assert(entries_map(s.remove(i)) =~= entries_map(s).remove(s[i].0@));
    } else {
        let t = s.remove(i);
        assert(t.drop_last() =~= s.drop_last().remove(i));
        assert(t.last() == s.last());
        lemma_entries_map_remove_at(s.drop_last(), i);
        assert(s[i].0@ != s.last().0@);
        assert(entries_map(t) =~= entries_map(s).remove(s[i].0@));
    }
}

/// Finds the index of the binding carrying `key`, if one does.
fn assoc_find(v: &Vec<(String, UrlEntry)>, key: &str) -> (r: Option<usize>)
    ensures
        (match r {
            Some(i) => i < v@.len() && v@[i as int].0@ == key@,
            None => no_key(v@, key@),
        }),
{
    let mut i: usize = 0;
    while i < v.len()
        invariant
            i <= v@.len(),
            forall|j: int| 0 <= j < i ==> (#[trigger] v@[j].0@) != key@,
        decreases v@.len() - i,
    {
        if str_eq(v[i].0.as_str(), key) {
            return Some(i);
        }
        i += 1;
    }
    None
}

/// Binds `key` to `entry` in the list, replacing an existing binding.
fn cache_insert(v: &mut Vec<(String, UrlEntry)>, key: &str, entry: UrlEntry)
    requires
        unique_keys(old(v)@),
    ensures
        unique_keys(final(v)@),
        entries_map(final(v)@) == entries_map(old(v)@).insert(key@, entry@),
{
    match assoc_find(v, key) {
        Some(i) => {
            proof {
                lemma_entries_map_remove_at(v@, i as int);
                assert forall|x: int| 0 <= x < v@.remove(i as int).len() implies (
                #[trigger] v@.remove(i as int)[x].0@) != key@ by {
                    if x < i {
                        assert(v@.remove(i as int)[x] == v@[x]);
                    } else {
                        assert(v@.remove(i as int)[x] == v@[x + 1]);
                    }
                }
                assert forall|x: int, y: int|
                    0 <= x < y < v@.remove(i as int).len() implies (#[trigger] v@.remove(
                    i as int,
                )[x].0@) != (#[trigger] v@.remove(i as int)[y].0@) by {
                    let xo: int = if x < i {
                        x
                    } else {
                        x + 1
                    };
                    let yo: int = if y < i {
                        y
                    } else {
                        y + 1
                    };
                    assert(v@.remove(i as int)[x] == v@[xo]);
                    assert(v@.remove(i as int)[y] == v@[yo]);
                }
            }
            v.remove(i);
        },
        None => {},
    }
    let ghost mid = v@;
    let ghost oldv = old(v)@;
    v.push((String::from_str(key), entry));
    proof {
        assert(no_key(mid, key@));
        assert(v@.drop_last() =~= mid);
        assert(v@.last().0@ == key@ && v@.last().1@ == entry@);
        assert forall|x: int, y: int| 0 <= x < y < v@.len() implies (#[trigger] v@[x].0@) != (
        #[trigger] v@[y].0@) by {
            if y < v@.len() - 1 {
                assert(v@[x] == mid[x] && v@[y] == mid[y]);
            } else {
                assert(v@[x] == mid[x]);
            }
        }
        assert(entries_map(v@) =~= entries_map(oldv).insert(key@, entry@));
    }
}

/// Looks `key` up in the list and hands back a copy of its entry.
fn cache_get(v: &Vec<(String, UrlEntry)>, key: &str) -> (r: Option<UrlEntry>)
    requires
        unique_keys(v@),
    ensures
        (match r {
            Some(e) => entries_map(v@).contains_key(key@) && e@ == entries_map(v@)[key@],
            None => !entries_map(v@).contains_key(key@),
        }),
{
    match assoc_find(v, key) {
        Some(i) => {
            proof {
                lemma_entries_map_at(v@, i as int);
            }
            Some(v[i].1.clone())
        },
        None => {
            proof {
                lemma_entries_map_dom(v@, key@);
            }
            None
        },
    }
}

/// Unbinds `key` from the list, handing back the entry it was bound to.
fn cache_remove(v: &mut Vec<(String, UrlEntry)>, key: &str) -> (r: Option<UrlEntry>)
    requires
        unique_keys(old(v)@),
    ensures
        unique_keys(final(v)@),
        entries_map(final(v)@) == entries_map(old(v)@).remove(key@),
        (match r {
            Some(e) => entries_map(old(v)@).contains_key(key@) && e@ == entries_map(old(v)@)[key@],
            None => !entries_map(old(v)@).contains_key(key@),
        }),
{
    match assoc_find(v, key) {
        Some(i) => {
            let e = v[i].1.clone();
            proof {
                lemma_entries_map_at(v@, i as int);
                lemma_entries_map_remove_at(v@, i as int);
                assert forall|x: int, y: int|
                    0 <= x < y < v@.remove(i as int).len() implies (#[trigger] v@.remove(
                    i as int,
                )[x].0@) != (#[trigger] v@.remove(i as int)[y].0@) by {
                    let xo: int = if x < i {
                        x
                    } else {
                        x + 1
                    };
                    let yo: int = if y < i {
                        y
                    } else {
                        y + 1
                    };
                    assert(v@.remove(i as int)[x] == v@[xo]);
                    assert(v@.remove(i as int)[y] == v@[yo]);
                }
            }
            v.remove(i);
            Some(e)
        },
        None => {
            proof {
                lemma_entries_map_dom(v@, key@);
                assert(entries_map(v@).remove(key@) =~= entries_map(v@));
            }
            None
        },
    }
}

/// Whether some binding of the list carries `key`.
fn cache_contains(v: &Vec<(String, UrlEntry)>, key: &str) -> (r: bool)
    requires
        unique_keys(v@),
    ensures
        r == entries_map(v@).contains_key(key@),
{
    proof {
        lemma_entries_map_dom(v@, key@);
    }
    match assoc_find(v, key) {
        Some(_) => true,
        None => false,
    }
}

/// The capability a backend offers: a mutable map from short code to entry.
pub trait Persistence: Sized {
    /// The map the backend currently holds.
    spec fn pmap(&self) -> Map<Seq<char>, EntryView>;

    /// The backend's internal invariant.
    spec fn wf(&self) -> bool;

    /// Stores `entry` under `short_url` and hands back the entry now
    /// resident under that key.
    fn insert(&mut self, short_url: &str, entry: UrlEntry) -> (r: Option<UrlEntry>)
        requires
            old(self).wf(),
        ensures
            final(self).wf(),
            final(self).pmap() == old(self).pmap().insert(short_url@, entry@),
            (r matches Some(e) && e@ == entry@),
    ;

    /// Hands back a copy of the entry under `short_url`, if one is stored.
    fn get(&self, short_url: &str) -> (r: Option<UrlEntry>)
        requires
            self.wf(),
        ensures
            (match r {
                Some(e) => self.pmap().contains_key(short_url@) && e@ == self.pmap()[short_url@],
                None => !self.pmap().contains_key(short_url@),
            }),
    ;

    /// Deletes the entry under `short_url` and hands it back, if one was
    /// stored.
    fn remove(&mut self, short_url: &str) -> (r: Option<UrlEntry>)
        requires
            old(self).wf(),
        ensures
            final(self).wf(),
            final(self).pmap() == old(self).pmap().remove(short_url@),
            (match r {
                Some(e) => old(self).pmap().contains_key(short_url@) && e@ == old(
                    self,
                ).pmap()[short_url@],
                None => !old(self).pmap().contains_key(short_url@),
            }),
    ;

    /// Whether an entry is stored under `short_url`.
    fn contains_key(&self, short_url: &str) -> (r: bool)
        requires
            self.wf(),
        ensures
            r == self.pmap().contains_key(short_url@),
    ;
}

/// The in-memory backend: the map alone, with no persistence across runs.
pub struct InMemory {
    map: Vec<(String, UrlEntry)>,
}

impl InMemory {
    /// An empty in-memory store.
    pub fn new() -> (r: Self)
        ensures
            r.wf(),
            r.pmap() == Map::<Seq<char>, EntryView>::empty(),
    {
        InMemory { map: Vec::new() }
    }
}

impl Persistence for InMemory {
    closed spec fn pmap(&self) -> Map<Seq<char>, EntryView> {
        entries_map(self.map@)
    }

    closed spec fn wf(&self) -> bool {
        unique_keys(self.map@)
    }

    fn insert(&mut self, short_url: &str, entry: UrlEntry) -> (r: Option<UrlEntry>) {
        let ret = entry.clone();
        cache_insert(&mut self.map, short_url, entry);
        Some(ret)
    }

    fn get(&self, short_url: &str) -> (r: Option<UrlEntry>) {
        cache_get(&self.map, short_url)
    }

    fn remove(&mut self, short_url: &str) -> (r: Option<UrlEntry>) {
        cache_remove(&mut self.map, short_url)
    }

    fn contains_key(&self, short_url: &str) -> (r: bool) {
        cache_contains(&self.map, short_url)
    }
}

/// The character sequences of a vector of lines.
pub open spec fn views_of(ls: Seq<String>) -> Seq<Seq<char>> {
    Seq::new(ls.len(), |i: int| ls[i]@)
}

/// The map a log loads to: each line parsed in order, failures skipped, a
/// later line overriding an earlier one with the same short code.
pub open spec fn load_map(ls: Seq<Seq<char>>, now: u64) -> Map<Seq<char>, EntryView>
    decreases ls.len(),
{
    if ls.len() == 0 {
        Map::empty()
    } else {
        let m = load_map(ls.drop_last(), now);
        match parse_line_spec(ls.last(), now) {
            Some(e) => m.insert(e.short_url, e),
            None => m,
        }
    }
}

/// The lines that survive a removal: those that do not contain the key as a
/// substring, in their original order.
pub open spec fn drop_matching_lines(ls: Seq<Seq<char>>, key: Seq<char>) -> Seq<Seq<char>>
    decreases ls.len(),
{
    if ls.len() == 0 {
        Seq::empty()
    } else {
        let rest = drop_matching_lines(ls.drop_last(), key);
        if contains_sub(ls.last(), key) {
            rest
        } else {
            rest.push(ls.last())
        }
    }
}

/// The file-backed backend: a read cache mirroring an append-only log.
pub struct File {
    cache: Vec<(String, UrlEntry)>,
    lines: Vec<String>,
}

impl File {
    /// The log's lines, as character sequences.
    pub closed spec fn lines_view(&self) -> Seq<Seq<char>> {
        views_of(self.lines@)
    }

    /// A file-backed store over an absent or empty log.
    pub fn new() -> (r: Self)
        ensures
            r.wf(),
            r.pmap() == Map::<Seq<char>, EntryView>::empty(),
            r.lines_view() == Seq::<Seq<char>>::empty(),
    {
        let r = File { cache: Vec::new(), lines: Vec::new() };
        proof {
            assert(r.lines_view() =~= Seq::<Seq<char>>::empty());
        }
        r
    }

    /// Loads a store from the lines of an existing log: each line is parsed,
    /// failures are skipped silently, and every loaded entry takes `now` as
    /// its creation date, the format's lossy timestamp policy.
    #[verifier::loop_isolation(false)]
    pub fn from_lines(lines: Vec<String>, now: u64) -> (r: Self)
        ensures
            r.wf(),
            r.pmap() == load_map(views_of(lines@), now),
            r.lines_view() == views_of(lines@),
    {
        let mut cache: Vec<(String, UrlEntry)> = Vec::new();
        let mut i: usize = 0;
        while i < lines.len()
            invariant
                i <= lines@.len(),
                unique_keys(cache@),
                entries_map(cache@) == load_map(views_of(lines@).take(i as int), now),
            decreases lines@.len() - i,
        {
            let ghost pre = views_of(lines@).take(i as int);
            proof {
                assert(views_of(lines@).take(i + 1).drop_last() =~= pre);
                assert(views_of(lines@).take(i + 1).last() == lines@[i as int]@);
            }
            match UrlEntry::from_line(lines[i].as_str(), now) {
                Ok(e) => {
                    let key = e.short_url.clone();
                    cache_insert(&mut cache, key.as_str(), e);
                },
                Err(_) => {},
            }
            i += 1;
        }
        proof {
            assert(views_of(lines@).take(lines@.len() as int) =~= views_of(lines@));
        }
        File { cache, lines }
    }

    /// The log's lines, for a caller that persists them.
    pub fn file_lines(&self) -> (r: &Vec<String>)
        ensures
            views_of(r@) == self.lines_view(),
    {
        &self.lines
    }

    /// Write-through insertion: binds the entry in the cache and appends its
    /// serialized line to the log.
    pub fn insert_entry(&mut self, short_url: &str, entry: UrlEntry) -> (r: Option<UrlEntry>)
        requires
            old(self).wf(),
        ensures
            final(self).wf(),
            final(self).pmap() == old(self).pmap().insert(short_url@, entry@),
            final(self).lines_view() == old(self).lines_view().push(line_of(entry@)),
            (r matches Some(e) && e@ == entry@),
    {
        let ret = entry.clone();
        let line = entry.to_file_string();
        cache_insert(&mut self.cache, short_url, entry);
        self.lines.push(line);
        proof {
            assert(self.lines_view() =~= old(self).lines_view().push(line_of(entry@)));
        }
        Some(ret)
    }

    /// Reads the entry under `short_url` from the cache alone.
    pub fn get_entry(&self, short_url: &str) -> (r: Option<UrlEntry>)
        requires
            self.wf(),
        ensures
            (match r {
                Some(e) => self.pmap().contains_key(short_url@) && e@ == self.pmap()[short_url@],
                None => !self.pmap().contains_key(short_url@),
            }),
    {
        cache_get(&self.cache, short_url)
    }

    /// Removal: rewrites the log keeping only the lines that do not contain
    /// `short_url` as a substring — a line of an unrelated entry whose text
    /// happens to contain the key is dropped with it — then unbinds the key
    /// from the cache and hands back its entry.
    #[verifier::loop_isolation(false)]
    pub fn remove_entry(&mut self, short_url: &str) -> (r: Option<UrlEntry>)
        requires
            old(self).wf(),
        ensures
            final(self).wf(),
            final(self).pmap() == old(self).pmap().remove(short_url@),
            final(self).lines_view() == drop_matching_lines(old(self).lines_view(), short_url@),
            (match r {
                Some(e) => old(self).pmap().contains_key(short_url@) && e@ == old(
                    self,
                ).pmap()[short_url@],
                None => !old(self).pmap().contains_key(short_url@),
            }),
    {
        let mut kept: Vec<String> = Vec::new();
        let mut i: usize = 0;
        while i < self.lines.len()
            invariant
                i <= self.lines@.len(),
                views_of(kept@) == drop_matching_lines(self.lines_view().take(i as int), short_url@),
            decreases self.lines@.len() - i,
        {
            let ghost prefix = self.lines_view().take(i as int);
            proof {
                assert(self.lines_view().take(i + 1).drop_last() =~= prefix);
                assert(self.lines_view().take(i + 1).last() == self.lines@[i as int]@);
            }
            if !contains_sub_exec(self.lines[i].as_str(), short_url) {
                let ghost kept_pre = kept@;
                kept.push(self.lines[i].clone());
                proof {
                    assert(views_of(kept@) =~= views_of(kept_pre).push(self.lines@[i as int]@));
                }
            }
            i += 1;
        }
        proof {
            assert(self.lines_view().take(self.lines@.len() as int) =~= self.lines_view());
        }
        self.lines = kept;
        cache_remove(&mut self.cache, short_url)
    }
}

impl Persistence for File {
    closed spec fn pmap(&self) -> Map<Seq<char>, EntryView> {
        entries_map(self.cache@)
    }

    closed spec fn wf(&self) -> bool {
        unique_keys(self.cache@)
    }

    fn insert(&mut self, short_url: &str, entry: UrlEntry) -> (r: Option<UrlEntry>) {
        self.insert_entry(short_url, entry)
    }

    fn get(&self, short_url: &str) -> (r: Option<UrlEntry>) {
        self.get_entry(short_url)
    }

    fn remove(&mut self, short_url: &str) -> (r: Option<UrlEntry>) {
        self.remove_entry(short_url)
    }

    fn contains_key(&self, short_url: &str) -> (r: bool) {
        cache_contains(&self.cache, short_url)
    }
}

} // verus!
