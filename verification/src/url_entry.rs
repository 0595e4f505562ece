//! The entry model: the stored record, its partial-update semantics, and its
//! line-oriented serialization.
//!
//! A record is persisted as one line,
//! `short_url:long_url,expiration,creation,author`, where the short code is
//! alphanumeric, the long URL and the author are word-character runs, and the
//! two timestamp fields are written in a debug style. Parsing a line back
//! does not restore the timestamps: the expiration is cleared and the
//! creation date is reset to the caller's clock, a deliberately lossy policy
//! of the format.

use vstd::prelude::*;

use crate::strutil::all_short_chars;
use crate::strutil::all_word_chars;
use crate::strutil::dec_spec;
use crate::strutil::find_char;
use crate::strutil::find_char_from;
use crate::strutil::find_word_end;
use crate::strutil::is_short_char;
use crate::strutil::lemma_dec_digits;
use crate::strutil::push_char;
use crate::strutil::rfind_char;
use crate::strutil::rfind_upto;
use crate::strutil::word_end;
use crate::strutil::append_u64;
use vstd::string::StrSliceExecFns;
use vstd::string::StringExecFns;

verus! {

/// The canonical stored record: one short-to-long mapping with its metadata.
#[derive(Debug, PartialEq, Eq)]
pub struct UrlEntry {
    pub long_url: String,
    pub short_url: String,
    pub expiration_date: Option<u64>,
    pub creation_date: u64,
    pub author: String,
}

/// The mathematical value of a `UrlEntry`.
pub struct EntryView {
    pub long_url: Seq<char>,
    pub short_url: Seq<char>,
    pub expiration_date: Option<u64>,
    pub creation_date: u64,
    pub author: Seq<char>,
}

impl View for UrlEntry {
    type V = EntryView;

    open spec fn view(&self) -> EntryView {
        EntryView {
            long_url: self.long_url@,
            short_url: self.short_url@,
            expiration_date: self.expiration_date,
            creation_date: self.creation_date,
            author: self.author@,
        }
    }
}

impl Clone for UrlEntry {
    fn clone(&self) -> (r: Self)
        ensures
            r@ == self@,
    {
        UrlEntry {
            long_url: self.long_url.clone(),
            short_url: self.short_url.clone(),
            expiration_date: self.expiration_date,
            creation_date: self.creation_date,
            author: self.author.clone(),
        }
    }
}

/// A partial-update descriptor: the fields a caller wants to change.
#[derive(Debug, PartialEq, Eq)]
pub struct UrlEntryRequest {
    pub long_url: Option<String>,
    pub short_url: Option<String>,
    pub expiration_date: Option<u64>,
    pub author: String,
}

/// The mathematical value of a `UrlEntryRequest`.
pub struct RequestView {
    pub long_url: Option<Seq<char>>,
    pub short_url: Option<Seq<char>>,
    pub expiration_date: Option<u64>,
    pub author: Seq<char>,
}

impl View for UrlEntryRequest {
    type V = RequestView;

    open spec fn view(&self) -> RequestView {
        RequestView {
            long_url: match self.long_url {
                Some(u) => Some(u@),
                None => None,
            },
            short_url: match self.short_url {
                Some(u) => Some(u@),
                None => None,
            },
            expiration_date: self.expiration_date,
            author: self.author@,
        }
    }
}

impl Clone for UrlEntryRequest {
    fn clone(&self) -> (r: Self)
        ensures
            r@ == self@,
    {
        UrlEntryRequest {
            long_url: match &self.long_url {
                Some(u) => Some(u.clone()),
                None => None,
            },
            short_url: match &self.short_url {
                Some(u) => Some(u.clone()),
                None => None,
            },
            expiration_date: self.expiration_date,
            author: self.author.clone(),
        }
    }
}

/// A parse failure on a persisted line, carrying a diagnostic message.
#[derive(Debug, Clone, PartialEq, Eq)]
pub struct EntryParseError {
    message: String,
}

/// What a merge leaves behind: the request's long URL and expiration where it
/// supplies them, and the entry's own identity, creation date and author in
/// every case.
pub open spec fn merge_spec(e: EntryView, q: RequestView) -> EntryView {
    EntryView {
        long_url: match q.long_url {
            Some(u) => u,
            None => e.long_url,
        },
        short_url: e.short_url,
        expiration_date: match q.expiration_date {
            Some(d) => Some(d),
            None => e.expiration_date,
        },
        creation_date: e.creation_date,
        author: e.author,
    }
}

/// What an associate leaves behind: as a merge, except that the request's
/// author replaces the entry's unconditionally.
pub open spec fn assoc_spec(e: EntryView, q: RequestView) -> EntryView {
    EntryView { author: q.author, ..merge_spec(e, q) }
}

/// The serialized line of an entry:
/// `short_url:long_url,expiration,creation,author`, timestamps debug-style.
pub open spec fn line_of(e: EntryView) -> Seq<char> {
    e.short_url + seq![':'] + e.long_url + seq![','] + opt_dbg(e.expiration_date) + seq![',']
        + dec_spec(e.creation_date as nat) + seq![','] + e.author
}

/// The debug rendering of an optional timestamp: `None`, or `Some(` digits `)`.
pub open spec fn opt_dbg(d: Option<u64>) -> Seq<char> {
    match d {
        None => seq!['N', 'o', 'n', 'e'],
        Some(n) => seq!['S', 'o', 'm', 'e', '('] + dec_spec(n as nat) + seq![')'],
    }
}

/// Whether the two discarded timestamp fields, the characters strictly
/// between the long URL's comma at `j` and the author's comma at `k` other
/// than the separating comma at `k2`, are free of newlines.
pub open spec fn middle_clean(s: Seq<char>, j: int, k: int, k2: int) -> bool {
    forall|m: int| j < m < k && m != k2 ==> s[m] != '\n'
}

/// The parse of one persisted line, against the record grammar. The short
/// code is everything before the first colon and must be a non-empty
/// alphanumeric run; the long URL is the word run after the colon and must
/// end at a comma; the author is everything after the last comma and must be
/// a non-empty word run; between them two comma-separated timestamp fields
/// are accepted in any newline-free form and discarded: the parsed entry has
/// no expiration and carries `now` as its creation date.
pub open spec fn parse_line_spec(s: Seq<char>, now: u64) -> Option<EntryView> {
    let i = find_char_from(s, ':', 0);
    if i >= s.len() || i == 0 || !all_short_chars(s.subrange(0, i)) {
        None
    } else {
        let j = word_end(s, i + 1);
        if j == i + 1 || j >= s.len() || s[j] != ',' {
            None
        } else {
            let k = rfind_char(s, ',');
            if k <= j {
                None
            } else {
                let k2 = rfind_char(s.subrange(0, k), ',');
                if k2 <= j {
                    None
                } else if !middle_clean(s, j, k, k2) {
                    None
                } else if k + 1 >= s.len() || !all_word_chars(s.subrange(k + 1, s.len() as int)) {
                    None
                } else {
                    Some(
                        EntryView {
                            long_url: s.subrange(i + 1, j),
                            short_url: s.subrange(0, i),
                            expiration_date: None,
                            creation_date: now,
                            author: s.subrange(k + 1, s.len() as int),
                        },
                    )
                }
            }
        }
    }
}

impl UrlEntry {
    /// Constructs an entry: no expiration, and the caller supplies the
    /// creator's identity and the clock reading for the creation date.
    pub fn new(long_url: &str, short_url: &str, author: &str, now: u64) -> (r: Self)
        ensures
            r@ == (EntryView {
                long_url: long_url@,
                short_url: short_url@,
                expiration_date: None::<u64>,
                creation_date: now,
                author: author@,
            }),
    {
        UrlEntry {
            long_url: long_url.to_owned(),
            short_url: short_url.to_owned(),
            expiration_date: None,
            creation_date: now,
            author: author.to_owned(),
        }
    }

    /// Merges a partial update into this entry: the long URL and the
    /// expiration are overwritten where the request supplies them; the short
    /// code, the creation date and the author never change.
    pub fn merge_with(&mut self, entry: &UrlEntryRequest)
        ensures
            final(self)@ == merge_spec(old(self)@, entry@),
    {
        match &entry.long_url {
            Some(u) => {
                self.long_url = u.clone();
            },
            None => {},
        }
        match entry.expiration_date {
            Some(d) => {
                self.expiration_date = Some(d);
            },
            None => {},
        }
    }

    /// Whether the long URL passes the validity predicate: a non-empty run
    /// of ASCII letters and digits, the grammar's restricted character class.
    pub fn has_valid_url(&self) -> (r: bool)
        ensures
            r == (self.long_url@.len() > 0 && all_short_chars(self.long_url@)),
    {
        let u = self.long_url.as_str();
        let len = u.unicode_len();
        if len == 0 {
            return false;
        }
        let mut i: usize = 0;
        while i < len
            invariant
                i <= len,
                len as int == u@.len(),
                u@ == self.long_url@,
                forall|j: int| 0 <= j < i ==> is_short_char(#[trigger] u@[j]),
            decreases len - i,
        {
            let c = u.get_char(i);
            let ok = {
                let v = c as u32;
                (48 <= v && v <= 57) || (97 <= v && v <= 122) || (65 <= v && v <= 90)
            };
            if !ok {
                return false;
            }
            i += 1;
        }
        true
    }

    /// An updated copy: as a merge, except that the request's author
    /// replaces this entry's author unconditionally.
    pub fn assoc_with(&self, entry: &UrlEntryRequest) -> (r: Self)
        ensures
            r@ == assoc_spec(self@, entry@),
    {
        let long_url = match &entry.long_url {
            Some(u) => u.clone(),
            None => self.long_url.clone(),
        };
        let short_url = self.short_url.clone();
        let creation_date = self.creation_date;
        let expiration_date = match entry.expiration_date {
            Some(d) => Some(d),
            None => self.expiration_date,
        };
        let author = entry.author.clone();

        UrlEntry { long_url, short_url, expiration_date, creation_date, author }
    }

    /// Serializes this entry as one line of the persisted format.
    pub fn to_file_string(&self) -> (r: String)
        ensures
            r@ == line_of(self@),
    {
        let mut s = String::new();
        s.append(self.short_url.as_str());
        push_char(&mut s, ':');
        s.append(self.long_url.as_str());
        push_char(&mut s, ',');
        match self.expiration_date {
            None => {
                proof {
                    reveal_strlit("None");
                    assert("None"@ =~= seq!['N', 'o', 'n', 'e']);
                }
                s.append("None");
            },
            Some(n) => {
                proof {
                    reveal_strlit("Some(");
                    assert("Some("@ =~= seq!['S', 'o', 'm', 'e', '(']);
                }
                s.append("Some(");
                append_u64(&mut s, n);
                push_char(&mut s, ')');
            },
        }
        push_char(&mut s, ',');
        append_u64(&mut s, self.creation_date);
        push_char(&mut s, ',');
        s.append(self.author.as_str());
        proof {
            assert(s@ =~= line_of(self@));
        }
        s
    }

    /// Parses one persisted line back into an entry. The timestamps of the
    /// line are discarded: the result has no expiration and takes `now` as
    /// its creation date.
    #[verifier::loop_isolation(false)]
    pub fn from_line(s: &str, now: u64) -> (r: Result<UrlEntry, EntryParseError>)
        ensures
            (match parse_line_spec(s@, now) {
                Some(e) => r matches Ok(u) && u@ == e,
                None => r is Err,
            }),
    {
        let len = s.unicode_len();
        let i = find_char(s, ':', 0);
        proof {
            crate::strutil::lemma_find_char_from(s@, ':', 0);
        }
        if i >= len || i == 0 {
            return Err(EntryParseError::unmatched());
        }
        if !all_short_chars_range(s, 0, i) {
            return Err(EntryParseError::unmatched());
        }
        let j = find_word_end(s, i + 1);
        proof {
            crate::strutil::lemma_word_end(s@, i as int + 1);
        }
        if j == i + 1 || j >= len {
            return Err(EntryParseError::unmatched());
        }
        if s.get_char(j) != ',' {
            return Err(EntryParseError::unmatched());
        }
        proof {
            assert(s@.subrange(0, len as int) =~= s@);
        }
        let k = match rfind_upto(s, ',', len) {
            Some(k) => k,
            None => {
                return Err(EntryParseError::unmatched());
            },
        };
        if k <= j {
            return Err(EntryParseError::unmatched());
        }
        let k2 = match rfind_upto(s, ',', k) {
            Some(k2) => k2,
            None => {
                return Err(EntryParseError::unmatched());
            },
        };
        if k2 <= j {
            return Err(EntryParseError::unmatched());
        }
        let mut m = j + 1;
        while m < k
            invariant
                j < m <= k,
                k < len,
                len as int == s@.len(),
                forall|p: int| j < p < m && p != k2 ==> s@[p] != '\n',
            decreases k - m,
        {
            let at_m = s.get_char(m);
            if m != k2 && at_m == '\n' {
                proof {
                    assert(!middle_clean(s@, j as int, k as int, k2 as int)) by {
                        assert(j < m && m < k && m != k2 && s@[m as int] == '\n');
                    }
                }
                return Err(EntryParseError::unmatched());
            }
            m += 1;
        }
        proof {
            assert(middle_clean(s@, j as int, k as int, k2 as int)) by {
                assert forall|p: int| j < p < k && p != k2 implies s@[p] != '\n' by {
                    assert(j < p < m && p != k2);
                }
            }
        }
        if k + 1 >= len {
            return Err(EntryParseError::unmatched());
        }
        if !all_word_chars_range(s, k + 1, len) {
            return Err(EntryParseError::unmatched());
        }
        let short_url = s.substring_char(0, i).to_owned();
        let long_url = s.substring_char(i + 1, j).to_owned();
        let author = s.substring_char(k + 1, len).to_owned();
        Ok(UrlEntry { long_url, short_url, expiration_date: None, creation_date: now, author })
    }
}

impl EntryParseError {
    /// The failure of a line that does not match the record grammar.
    fn unmatched() -> Self {
        EntryParseError { message: String::from_str("line does not match the record grammar") }
    }
}

/// The debug rendering of an optional timestamp is never empty and holds no
/// newline and no comma.
pub proof fn lemma_opt_dbg_chars(d: Option<u64>)
    ensures
        opt_dbg(d).len() > 0,
        forall|i: int|
            0 <= i < opt_dbg(d).len() ==> (#[trigger] opt_dbg(d)[i]) as u32 != 10 && opt_dbg(d)[i]
                as u32 != 44,
{
    match d {
        None => {
            assert forall|i: int| 0 <= i < opt_dbg(d).len() implies (#[trigger] opt_dbg(d)[i])
                as u32 != 10 && opt_dbg(d)[i] as u32 != 44 by {
                assert(opt_dbg(d) == seq!['N', 'o', 'n', 'e']);
            }
        },
        Some(n) => {
            lemma_dec_digits(n as nat);
            let pre = seq!['S', 'o', 'm', 'e', '('];
            let digits = dec_spec(n as nat);
            assert forall|i: int| 0 <= i < opt_dbg(d).len() implies (#[trigger] opt_dbg(d)[i])
                as u32 != 10 && opt_dbg(d)[i] as u32 != 44 by {
                if i < 5 {
                    assert(opt_dbg(d)[i] == pre[i]);
                } else if i < 5 + digits.len() {
                    assert(opt_dbg(d)[i] == digits[i - 5]);
                } else {
                    assert(opt_dbg(d)[i] == ')');
                }
            }
        },
    }
}

/// Serializing an entry whose fields fit the grammar and parsing the line
/// back preserves the short code, the long URL and the author; the parsed
/// entry has no expiration and takes the parse-time clock as its creation
/// date, the format's lossy timestamp policy.
pub proof fn lemma_line_round_trip(e: EntryView, now: u64)
    requires
        e.short_url.len() > 0,
        all_short_chars(e.short_url),
        e.long_url.len() > 0,
        all_word_chars(e.long_url),
        e.author.len() > 0,
        all_word_chars(e.author),
    ensures
        parse_line_spec(line_of(e), now) == Some(
            EntryView {
                long_url: e.long_url,
                short_url: e.short_url,
                expiration_date: None,
                creation_date: now,
                author: e.author,
            },
        ),
{
    let s = line_of(e);
    let a = e.short_url.len() as int;
    let lg = e.long_url.len() as int;
    let ed = opt_dbg(e.expiration_date);
    let cd = dec_spec(e.creation_date as nat);
    let p2 = a + 1 + lg;
    let p3 = p2 + 1 + ed.len();
    let p4 = p3 + 1 + cd.len();
    let n = s.len() as int;
    lemma_opt_dbg_chars(e.expiration_date);
    lemma_dec_digits(e.creation_date as nat);
    assert(n == p4 + 1 + e.author.len());
    assert(s[a] == ':');
    assert(s[p2] == ',');
    assert(s[p3] == ',');
    assert(s[p4] == ',');

    // the first colon sits right after the short code
    assert forall|x: int| 0 <= x < a implies s[x] != ':' by {
        assert(s[x] == e.short_url[x]);
        assert(is_short_char(e.short_url[x]));
        assert(':' as u32 == 58);
    }
    crate::strutil::lemma_find_char_at(s, ':', 0, a);
    assert(s.subrange(0, a) =~= e.short_url);

    // the word run after the colon is exactly the long URL
    assert forall|x: int| a + 1 <= x < p2 implies crate::strutil::is_word_char(s[x]) by {
        assert(s[x] == e.long_url[x - a - 1]);
        assert(crate::strutil::is_word_char(e.long_url[x - a - 1]));
    }
    assert(!crate::strutil::is_word_char(s[p2])) by {
        assert(',' as u32 == 44 && '_' as u32 == 95);
    }
    crate::strutil::lemma_word_end_at(s, a + 1, p2);
    assert(s.subrange(a + 1, p2) =~= e.long_url);

    // the last comma sits right before the author
    assert forall|x: int| p4 < x < n implies s[x] != ',' by {
        assert(s[x] == e.author[x - p4 - 1]);
        assert(crate::strutil::is_word_char(e.author[x - p4 - 1]));
        assert(',' as u32 == 44 && '_' as u32 == 95);
    }
    crate::strutil::lemma_rfind_char_at(s, ',', p4);
    assert(s.subrange(p4 + 1, n) =~= e.author);

    // the last comma before it separates the two timestamp fields
    let s0 = s.subrange(0, p4);
    assert(s0[p3] == ',');
    assert forall|x: int| p3 < x < p4 implies s0[x] != ',' by {
        assert(s0[x] == s[x]);
        assert(s[x] == cd[x - p3 - 1]);
        assert(48 <= cd[x - p3 - 1] as u32 <= 57);
    }
    crate::strutil::lemma_rfind_char_at(s0, ',', p3);

    // the discarded middle holds no newline
    assert(middle_clean(s, p2, p4, p3)) by {
        assert forall|m: int| p2 < m < p4 && m != p3 implies s[m] != '\n' by {
            assert('\n' as u32 == 10);
            if m < p3 {
                assert(s[m] == ed[m - p2 - 1]);
            } else {
                assert(s[m] == cd[m - p3 - 1]);
                assert(48 <= cd[m - p3 - 1] as u32 <= 57);
            }
        }
    }
}

/// Whether every character of `s` in `[from, to)` is alphanumeric.
fn all_short_chars_range(s: &str, from: usize, to: usize) -> (r: bool)
    requires
        from <= to <= s@.len(),
    ensures
        r == all_short_chars(s@.subrange(from as int, to as int)),
{
    let mut i = from;
    while i < to
        invariant
            from <= i <= to,
            to as int <= s@.len(),
            forall|j: int| from <= j < i ==> is_short_char(#[trigger] s@[j]),
        decreases to - i,
    {
        let c = s.get_char(i);
        let v = c as u32;
        if !((48 <= v && v <= 57) || (97 <= v && v <= 122) || (65 <= v && v <= 90)) {
            proof {
                assert(s@.subrange(from as int, to as int)[i - from] == c);
            }
            return false;
        }
        i += 1;
    }
    proof {
        assert forall|j: int| 0 <= j < to - from implies is_short_char(
            #[trigger] s@.subrange(from as int, to as int)[j],
        ) by {
            assert(s@.subrange(from as int, to as int)[j] == s@[from + j]);
        }
    }
    true
}

/// Whether every character of `s` in `[from, to)` is a word character.
fn all_word_chars_range(s: &str, from: usize, to: usize) -> (r: bool)
    requires
        from <= to <= s@.len(),
    ensures
        r == all_word_chars(s@.subrange(from as int, to as int)),
{
    let mut i = from;
    while i < to
        invariant
            from <= i <= to,
            to as int <= s@.len(),
            forall|j: int| from <= j < i ==> crate::strutil::is_word_char(#[trigger] s@[j]),
        decreases to - i,
    {
        let c = s.get_char(i);
        let v = c as u32;
        if !((48 <= v && v <= 57) || (97 <= v && v <= 122) || (65 <= v && v <= 90) || c == '_') {
            proof {
                assert(s@.subrange(from as int, to as int)[i - from] == c);
            }
            return false;
        }
        i += 1;
    }
    proof {
        assert forall|j: int| 0 <= j < to - from implies crate::strutil::is_word_char(
            #[trigger] s@.subrange(from as int, to as int)[j],
        ) by {
            assert(s@.subrange(from as int, to as int)[j] == s@[from + j]);
        }
    }
    true
}

} // verus!
