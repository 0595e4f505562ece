//! Character classes and string scanning used by the record grammar: first
//! and last occurrence of a separator, word runs, string equality, substring
//! search, and decimal rendering of the timestamp fields.

use vstd::prelude::*;

use vstd::string::StrSliceExecFns;

verus! {

/// A character the grammar accepts in a short code: an ASCII letter or digit.
pub open spec fn is_short_char(c: char) -> bool {
    (48 <= c as u32 && c as u32 <= 57) || (97 <= c as u32 && c as u32 <= 122) || (65 <= c as u32
        && c as u32 <= 90)
}

/// A word character of the grammar: an ASCII letter, digit or underscore.
pub open spec fn is_word_char(c: char) -> bool {
    is_short_char(c) || c == '_'
}

pub open spec fn all_short_chars(s: Seq<char>) -> bool {
    forall|i: int| 0 <= i < s.len() ==> is_short_char(#[trigger] s[i])
}

pub open spec fn all_word_chars(s: Seq<char>) -> bool {
    forall|i: int| 0 <= i < s.len() ==> is_word_char(#[trigger] s[i])
}

fn is_short_char_exec(c: char) -> (r: bool)
    ensures
        r == is_short_char(c),
{
    let u = c as u32;
    (48 <= u && u <= 57) || (97 <= u && u <= 122) || (65 <= u && u <= 90)
}

fn is_word_char_exec(c: char) -> (r: bool)
    ensures
        r == is_word_char(c),
{
    is_short_char_exec(c) || c == '_'
}

/// The first index at or after `i` holding `c`, or the length if none does.
pub open spec fn find_char_from(s: Seq<char>, c: char, i: int) -> int
    decreases s.len() - i,
{
    if i < 0 || i >= s.len() {
        s.len() as int
    } else if s[i] == c {
        i
    } else {
        find_char_from(s, c, i + 1)
    }
}

pub proof fn lemma_find_char_from(s: Seq<char>, c: char, i: int)
    requires
        0 <= i <= s.len(),
    ensures
        i <= find_char_from(s, c, i) <= s.len(),
        find_char_from(s, c, i) < s.len() ==> s[find_char_from(s, c, i)] == c,
        forall|j: int| i <= j < find_char_from(s, c, i) ==> s[j] != c,
    decreases s.len() - i,
{
    if i < s.len() && s[i] != c {
        lemma_find_char_from(s, c, i + 1);
    }
}

/// Where the first occurrence is known, `find_char_from` lands on it.
pub proof fn lemma_find_char_at(s: Seq<char>, c: char, i: int, k: int)
    requires
        0 <= i <= k < s.len(),
        s[k] == c,
        forall|j: int| i <= j < k ==> s[j] != c,
    ensures
        find_char_from(s, c, i) == k,
    decreases k - i,
{
    if i < k {
        lemma_find_char_at(s, c, i + 1, k);
    }
}

/// The first index at or after `i` whose character is no word character, or
/// the length if the word run reaches the end.
pub open spec fn word_end(s: Seq<char>, i: int) -> int
    decreases s.len() - i,
{
    if i < 0 || i >= s.len() {
        s.len() as int
    } else if !is_word_char(s[i]) {
        i
    } else {
        word_end(s, i + 1)
    }
}

pub proof fn lemma_word_end(s: Seq<char>, i: int)
    requires
        0 <= i <= s.len(),
    ensures
        i <= word_end(s, i) <= s.len(),
        word_end(s, i) < s.len() ==> !is_word_char(s[word_end(s, i)]),
        forall|j: int| i <= j < word_end(s, i) ==> is_word_char(#[trigger] s[j]),
    decreases s.len() - i,
{
    if i < s.len() && is_word_char(s[i]) {
        lemma_word_end(s, i + 1);
    }
}

/// Where the end of the word run is known, `word_end` lands on it.
pub proof fn lemma_word_end_at(s: Seq<char>, i: int, k: int)
    requires
        0 <= i <= k < s.len(),
        !is_word_char(s[k]),
        forall|j: int| i <= j < k ==> is_word_char(#[trigger] s[j]),
    ensures
        word_end(s, i) == k,
    decreases k - i,
{
    if i < k {
        lemma_word_end_at(s, i + 1, k);
    }
}

/// The last index holding `c`, or `-1` if none does.
pub open spec fn rfind_char(s: Seq<char>, c: char) -> int
    decreases s.len(),
{
    if s.len() == 0 {
        -1
    } else if s[s.len() - 1] == c {
        s.len() - 1
    } else {
        rfind_char(s.drop_last(), c)
    }
}

/// Where the last occurrence is known, `rfind_char` lands on it.
pub proof fn lemma_rfind_char_at(s: Seq<char>, c: char, k: int)
    requires
        0 <= k < s.len(),
        s[k] == c,
        forall|j: int| k < j < s.len() ==> s[j] != c,
    ensures
        rfind_char(s, c) == k,
    decreases s.len(),
{
    if k < s.len() - 1 {
        assert(s.drop_last()[k] == c);
        lemma_rfind_char_at(s.drop_last(), c, k);
    }
}

/// Finds the first occurrence of `c` at or after `from`; the length if none.
pub fn find_char(s: &str, c: char, from: usize) -> (r: usize)
    requires
        from as int <= s@.len(),
    ensures
        r as int == find_char_from(s@, c, from as int),
{
    let len = s.unicode_len();
    let mut j = from;
    while j < len
        invariant
            from <= j <= len,
            len as int == s@.len(),
            find_char_from(s@, c, from as int) == find_char_from(s@, c, j as int),
        decreases len - j,
    {
        if s.get_char(j) == c {
            return j;
        }
        j += 1;
    }
    j
}

/// Finds the end of the word run beginning at `from`; the length if it runs out.
pub fn find_word_end(s: &str, from: usize) -> (r: usize)
    requires
        from as int <= s@.len(),
    ensures
        r as int == word_end(s@, from as int),
{
    let len = s.unicode_len();
    let mut j = from;
    while j < len
        invariant
            from <= j <= len,
            len as int == s@.len(),
            word_end(s@, from as int) == word_end(s@, j as int),
        decreases len - j,
    {
        if !is_word_char_exec(s.get_char(j)) {
            return j;
        }
        j += 1;
    }
    j
}

/// Finds the last occurrence of `c` strictly before `end`.
pub fn rfind_upto(s: &str, c: char, end: usize) -> (r: Option<usize>)
    requires
        end as int <= s@.len(),
    ensures
        match r {
            Some(k) => k as int == rfind_char(s@.subrange(0, end as int), c) && k < end,
            None => rfind_char(s@.subrange(0, end as int), c) == -1,
        },
{
    let mut j = end;
    while j > 0
        invariant
            j <= end,
            end as int <= s@.len(),
            rfind_char(s@.subrange(0, end as int), c) == rfind_char(s@.subrange(0, j as int), c),
        decreases j,
    {
        j -= 1;
        let at_j = s.get_char(j);
        proof {
            assert(s@.subrange(0, j + 1).len() == j + 1);
            assert(s@.subrange(0, j + 1)[j as int] == at_j);
            assert(s@.subrange(0, j + 1).drop_last() =~= s@.subrange(0, j as int));
        }
        if at_j == c {
            return Some(j);
        }
    }
    proof {
        assert(s@.subrange(0, 0).len() == 0);
    }
    None
}

/// Character-for-character string equality.
pub fn str_eq(a: &str, b: &str) -> (r: bool)
    ensures
        r == (a@ == b@),
{
    let alen = a.unicode_len();
    let blen = b.unicode_len();
    if alen != blen {
        return false;
    }
    let mut i: usize = 0;
    while i < alen
        invariant
            i <= alen,
            alen as int == a@.len(),
            blen as int == b@.len(),
            alen == blen,
            forall|j: int| 0 <= j < i ==> a@[j] == b@[j],
        decreases alen - i,
    {
        if a.get_char(i) != b.get_char(i) {
            return false;
        }
        i += 1;
    }
    proof {
        assert(a@ =~= b@);
    }
    true
}

/// Whether `sub` occurs contiguously anywhere inside `s`.
pub open spec fn contains_sub(s: Seq<char>, sub: Seq<char>) -> bool {
    exists|off: int|
        0 <= off && off + sub.len() <= s.len() && #[trigger] s.subrange(off, off + sub.len())
            == sub
}

/// Substring search: whether `sub` occurs anywhere inside `s`.
pub fn contains_sub_exec(s: &str, sub: &str) -> (r: bool)
    ensures
        r == contains_sub(s@, sub@),
{
    let len = s.unicode_len();
    let sublen = sub.unicode_len();
    if sublen > len {
        proof {
            if contains_sub(s@, sub@) {
                let off = choose|off: int|
                    0 <= off && off + sub@.len() <= s@.len() && #[trigger] s@.subrange(
                        off,
                        off + sub@.len(),
                    ) == sub@;
                assert(false);
            }
        }
        return false;
    }
    if sublen == 0 {
        proof {
            assert(s@.subrange(0, 0 + sub@.len() as int) =~= sub@);
        }
        return true;
    }
    let mut off: usize = 0;
    while off <= len - sublen
        invariant
            1 <= sublen <= len,
            len as int == s@.len(),
            sublen as int == sub@.len(),
            off <= len - sublen + 1,
            forall|o: int| 0 <= o < off ==> #[trigger] s@.subrange(o, o + sub@.len()) != sub@,
        decreases len - sublen - off + 1,
    {
        let piece = s.substring_char(off, off + sublen);
        if str_eq(piece, sub) {
            proof {
                assert(s@.subrange(off as int, off as int + sub@.len()) == sub@);
            }
            return true;
        }
        off += 1;
    }
    proof {
        if contains_sub(s@, sub@) {
            let o = choose|o: int|
                0 <= o && o + sub@.len() <= s@.len() && #[trigger] s@.subrange(o, o + sub@.len())
                    == sub@;
            assert(false);
        }
    }
    false
}

/// Relies on `String::push`: appends exactly the one character.
#[verifier::external_body]
pub(crate) fn push_char(s: &mut String, c: char)
    ensures
        final(s)@ == old(s)@.push(c),
{
    s.push(c);
}

/// The decimal digits of `n`, most significant first.
pub open spec fn dec_spec(n: nat) -> Seq<char>
    decreases n,
{
    if n < 10 {
        seq![((48 + n) as u8) as char]
    } else {
        dec_spec(n / 10) + seq![((48 + n % 10) as u8) as char]
    }
}

/// Every decimal rendering is a non-empty run of ASCII digits.
pub proof fn lemma_dec_digits(n: nat)
    ensures
        dec_spec(n).len() > 0,
        forall|i: int|
            0 <= i < dec_spec(n).len() ==> 48 <= (#[trigger] dec_spec(n)[i]) as u32 <= 57,
    decreases n,
{
    if n >= 10 {
        lemma_dec_digits(n / 10);
    }
}

/// Appends the decimal rendering of `n`.
pub fn append_u64(s: &mut String, n: u64)
    ensures
        final(s)@ == old(s)@ + dec_spec(n as nat),
    decreases n,
{
    if n >= 10 {
        append_u64(s, n / 10);
    }
    let d = (n % 10) as u8;
    push_char(s, (48 + d) as char);
    proof {
        assert(s@ =~= old(s)@ + dec_spec(n as nat));
    }
}

} // verus!
