//! The encoder: a deterministic hash of the long URL and the positional
//! encoding of that hash over the fixed alphabet of the short codes.
//!
//! The alphabet holds the digits except `'7'`, then the lowercase letters,
//! then the uppercase letters, in that order; the order is significant. The
//! encoder takes the hash modulo 62 as the next alphabet index and divides by
//! 62 until the hash reaches zero, so the code of hash `0` is the empty
//! string, and a hash is encodable only while every remainder stays inside
//! the alphabet.

use vstd::prelude::*;

use std::collections::hash_map::DefaultHasher;
use std::hash::Hasher;
use vstd::std_specs::hash::DefaultHasherAdditionalSpecFns;
use vstd::utf8::encode_utf8;

use crate::strutil::push_char;

verus! {

/// The alphabet character at position `d`: `'0'` to `'6'`, then `'8'`,
/// `'9'`, then `'a'` to `'z'`, then `'A'` to `'Z'`.
pub open spec fn alpha_char(d: int) -> char {
    if d < 7 {
        ((48 + d) as u8) as char
    } else if d == 7 {
        56u8 as char
    } else if d == 8 {
        57u8 as char
    } else if d < 35 {
        ((97 + (d - 9)) as u8) as char
    } else {
        ((65 + (d - 35)) as u8) as char
    }
}

/// The fixed alphabet of the short codes, as a sequence of its 61 symbols.
pub open spec fn alphabet() -> Seq<char> {
    Seq::new(61, |d: int| alpha_char(d))
}

/// The code of a hash: the alphabet character of each base-62 remainder, the
/// least significant first, with nothing for a hash of zero.
pub open spec fn encode_spec(h: nat) -> Seq<char>
    decreases h,
{
    if h == 0 {
        Seq::empty()
    } else {
        seq![alpha_char((h % 62) as int)] + encode_spec(h / 62)
    }
}

/// A hash is encodable when no base-62 remainder of it is 61, the one value
/// the 61-symbol alphabet has no character for.
pub open spec fn encodable(h: nat) -> bool
    decreases h,
{
    h == 0 || (h % 62 < 61 && encodable(h / 62))
}

/// The hash of a string: what `DefaultHasher` returns after one write of the
/// string's UTF-8 bytes. A function of the characters alone, so equal inputs
/// hash equally within a run.
pub open spec fn hash_of(s: Seq<char>) -> u64 {
    DefaultHasher::spec_finish(Seq::<Seq<u8>>::empty().push(encode_utf8(s)))
}

/// Hashes a long URL deterministically; the result depends on the characters
/// of the input alone.
pub fn create_hash(long_url: &str) -> (r: Option<u64>)
    ensures
        r == Some(hash_of(long_url@)),
{
    let mut hasher = DefaultHasher::new();
    hasher.write(long_url.as_bytes());
    Some(hasher.finish())
}

/// The alphabet character at index `d`, computed.
fn alpha(d: u64) -> (c: char)
    requires
        d < 61,
    ensures
        c == alpha_char(d as int),
{
    if d < 7 {
        (48 + d as u8) as char
    } else if d == 7 {
        56u8 as char
    } else if d == 8 {
        57u8 as char
    } else if d < 35 {
        (97 + (d as u8 - 9)) as char
    } else {
        (65 + (d as u8 - 35)) as char
    }
}

/// Whether every base-62 remainder of `hash` has an alphabet character.
pub fn is_encodable(hash: u64) -> (r: bool)
    ensures
        r == encodable(hash as nat),
{
    let mut h = hash;
    while h > 0
        invariant
            encodable(hash as nat) == encodable(h as nat),
        decreases h,
    {
        if h % 62 == 61 {
            return false;
        }
        h = h / 62;
    }
    true
}

/// Encodes a hash as a short code over the fixed alphabet, least significant
/// remainder first; hash `0` encodes to the empty string.
pub fn encode_hash(hash: u64) -> (r: String)
    requires
        encodable(hash as nat),
    ensures
        r@ == encode_spec(hash as nat),
{
    let mut encoded = String::new();
    let mut h = hash;
    while h > 0
        invariant
            encodable(h as nat),
            encoded@ + encode_spec(h as nat) == encode_spec(hash as nat),
        decreases h,
    {
        let d = h % 62;
        let c = alpha(d);
        let ghost pre = encoded@;
        push_char(&mut encoded, c);
        proof {
            assert(encoded@ + encode_spec((h / 62) as nat) =~= pre + encode_spec(h as nat));
        }
        h = h / 62;
    }
    proof {
        assert(encoded@ + encode_spec(0) =~= encoded@);
    }
    encoded
}

/// Every character of an encoded hash comes from the fixed alphabet, and a
/// positive hash never encodes to the empty string.
pub proof fn lemma_encode_alphabet(h: nat)
    requires
        encodable(h),
    ensures
        forall|i: int|
            0 <= i < encode_spec(h).len() ==> alphabet().contains(#[trigger] encode_spec(h)[i]),
        h > 0 ==> encode_spec(h).len() > 0,
    decreases h,
{
    if h > 0 {
        lemma_encode_alphabet(h / 62);
        assert forall|i: int| 0 <= i < encode_spec(h).len() implies alphabet().contains(
            #[trigger] encode_spec(h)[i],
        ) by {
            if i == 0 {
                let d = (h % 62) as int;
                assert(alphabet()[d] == encode_spec(h)[0]);
            } else {
                assert(encode_spec(h)[i] == encode_spec(h / 62)[i - 1]);
            }
        }
    }
}

} // verus!
