//! A small streaming XML scanner for the provider's update replies.
//!
//! The scanner turns a document into a sequence of events: start tags, end
//! tags and text runs. Declarations (`<?...?>`), comments (`<!--...-->`),
//! CDATA sections and self-closing elements are recognised and skipped, as
//! the interpreter ignores them. A `<` that is never closed, or an empty tag
//! name, makes the whole document malformed.

use vstd::prelude::*;
use vstd::string::StrSliceExecFns;
use vstd::string::StringExecFns;
use crate::is_space;
use crate::text::{trim_spec, trim};

verus! {

/// One scanned event, at the specification level.
pub enum Token {
    Start { name: Seq<char> },
    End { name: Seq<char> },
    Text { text: Seq<char> },
}

/// One scanned event.
pub enum XmlEvent {
    Start { name: String },
    End { name: String },
    Text { text: String },
}

impl View for XmlEvent {
    type V = Token;

    open spec fn view(&self) -> Token {
        match self {
            XmlEvent::Start { name } => Token::Start { name: name@ },
            XmlEvent::End { name } => Token::End { name: name@ },
            XmlEvent::Text { text } => Token::Text { text: text@ },
        }
    }
}

impl DeepView for XmlEvent {
    type V = Token;

    open spec fn deep_view(&self) -> Token {
        self.view()
    }
}

/// First position at or after `p` holding `c`, or the length of `s`.
pub open spec fn find_from(s: Seq<char>, p: int, c: char) -> int
    decreases s.len() - p when 0 <= p <= s.len()
{
    if p >= s.len() {
        s.len() as int
    } else if s[p] == c {
        p
    } else {
        find_from(s, p + 1, c)
    }
}

pub proof fn lemma_find_from(s: Seq<char>, p: int, c: char)
    requires
        0 <= p <= s.len(),
    ensures
        p <= find_from(s, p, c) <= s.len(),
        find_from(s, p, c) < s.len() ==> s[find_from(s, p, c)] == c,
    decreases s.len() - p,
{
    if p < s.len() && s[p] != c {
        lemma_find_from(s, p + 1, c);
    }
}

/// First position at or after `p` where `a` is followed by `b`, or the
/// length of `s` when there is none.
pub open spec fn find2_from(s: Seq<char>, p: int, a: char, b: char) -> int
    decreases s.len() - p when 0 <= p <= s.len()
{
    if p + 1 >= s.len() {
        s.len() as int
    } else if s[p] == a && s[p + 1] == b {
        p
    } else {
        find2_from(s, p + 1, a, b)
    }
}

pub proof fn lemma_find2_from(s: Seq<char>, p: int, a: char, b: char)
    requires
        0 <= p <= s.len(),
    ensures
        p <= find2_from(s, p, a, b) <= s.len(),
        find2_from(s, p, a, b) < s.len() ==> find2_from(s, p, a, b) + 2 <= s.len(),
    decreases s.len() - p,
{
    if !(p + 1 >= s.len()) && !(s[p] == a && s[p + 1] == b) {
        lemma_find2_from(s, p + 1, a, b);
    }
}

/// First position at or after `p` where `a`, `b`, `c` appear in a row, or
/// the length of `s` when there is none.
pub open spec fn find3_from(s: Seq<char>, p: int, a: char, b: char, c: char) -> int
    decreases s.len() - p when 0 <= p <= s.len()
{
    if p + 2 >= s.len() {
        s.len() as int
    } else if s[p] == a && s[p + 1] == b && s[p + 2] == c {
        p
    } else {
        find3_from(s, p + 1, a, b, c)
    }
}

pub proof fn lemma_find3_from(s: Seq<char>, p: int, a: char, b: char, c: char)
    requires
        0 <= p <= s.len(),
    ensures
        p <= find3_from(s, p, a, b, c) <= s.len(),
        find3_from(s, p, a, b, c) < s.len() ==> find3_from(s, p, a, b, c) + 3 <= s.len(),
    decreases s.len() - p,
{
    if !(p + 2 >= s.len()) && !(s[p] == a && s[p + 1] == b && s[p + 2] == c) {
        lemma_find3_from(s, p + 1, a, b, c);
    }
}

/// Whether `c` ends a tag name: whitespace, `>` or `/`.
pub open spec fn is_name_end(c: char) -> bool {
    is_space(c) || c == '>' || c == '/'
}

/// First position at or after `p` that ends a tag name, or the length of `s`.
pub open spec fn name_end_from(s: Seq<char>, p: int) -> int
    decreases s.len() - p when 0 <= p <= s.len()
{
    if p >= s.len() {
        s.len() as int
    } else if is_name_end(s[p]) {
        p
    } else {
        name_end_from(s, p + 1)
    }
}

pub proof fn lemma_name_end_from(s: Seq<char>, p: int)
    requires
        0 <= p <= s.len(),
    ensures
        p <= name_end_from(s, p) <= s.len(),
    decreases s.len() - p,
{
    if p < s.len() && !is_name_end(s[p]) {
        lemma_name_end_from(s, p + 1);
    }
}

/// Position of the `>` that closes a tag opened before `p`, skipping over
/// quoted attribute values, or the length of `s` when the tag never closes.
pub open spec fn tag_close_from(s: Seq<char>, p: int, quote: Option<char>) -> int
    decreases s.len() - p when 0 <= p <= s.len()
{
    if p >= s.len() {
        s.len() as int
    } else if quote is Some {
        if s[p] == quote->0 {
            tag_close_from(s, p + 1, None)
        } else {
            tag_close_from(s, p + 1, quote)
        }
    } else if s[p] == '>' {
        p
    } else if s[p] == '"' || s[p] == '\'' {
        tag_close_from(s, p + 1, Some(s[p]))
    } else {
        tag_close_from(s, p + 1, None)
    }
}

pub proof fn lemma_tag_close_from(s: Seq<char>, p: int, quote: Option<char>)
    requires
        0 <= p <= s.len(),
    ensures
        p <= tag_close_from(s, p, quote) <= s.len(),
        tag_close_from(s, p, quote) < s.len() ==> s[tag_close_from(s, p, quote)] == '>',
    decreases s.len() - p,
{
    if p < s.len() {
        if quote is Some {
            if s[p] == quote->0 {
                lemma_tag_close_from(s, p + 1, None);
            } else {
                lemma_tag_close_from(s, p + 1, quote);
            }
        } else if s[p] == '>' {
        } else if s[p] == '"' || s[p] == '\'' {
            lemma_tag_close_from(s, p + 1, Some(s[p]));
        } else {
            lemma_tag_close_from(s, p + 1, None);
        }
    }
}

/// Whether position `p` opens a comment: `<!--`.
pub open spec fn opens_comment(s: Seq<char>, p: int) -> bool {
    p + 4 <= s.len() && s[p + 2] == '-' && s[p + 3] == '-'
}

/// Whether position `p` opens a CDATA section: `<![CDATA[`.
pub open spec fn opens_cdata(s: Seq<char>, p: int) -> bool {
    p + 9 <= s.len() && s[p + 2] == '[' && s[p + 3] == 'C' && s[p + 4] == 'D' && s[p + 5] == 'A'
        && s[p + 6] == 'T' && s[p + 7] == 'A' && s[p + 8] == '['
}

/// The events of `s` from position `p` on, or `None` when the document is
/// malformed from `p` on: a tag that never closes, or an empty tag name.
pub open spec fn tokens_from(s: Seq<char>, p: int) -> Option<Seq<Token>>
    decreases s.len() - p when 0 <= p <= s.len() via tokens_from_decreases
{
    if p >= s.len() {
        Some(Seq::empty())
    } else if s[p] != '<' {
        let q = find_from(s, p, '<');
        match tokens_from(s, q) {
            None => None,
            Some(evs) => Some(
                seq![Token::Text { text: s.subrange(p, q) }] + evs,
            ),
        }
    } else if p + 1 >= s.len() {
        None
    } else if s[p + 1] == '/' {
        let e = find_from(s, p + 2, '>');
        if e >= s.len() {
            None
        } else {
            let name = trim_spec(s.subrange(p + 2, e));
            if name.len() == 0 {
                None
            } else {
                match tokens_from(s, e + 1) {
                    None => None,
                    Some(evs) => Some(seq![Token::End { name }] + evs),
                }
            }
        }
    } else if s[p + 1] == '?' {
        let q = find2_from(s, p + 2, '?', '>');
        if q >= s.len() {
            None
        } else {
            tokens_from(s, q + 2)
        }
    } else if s[p + 1] == '!' {
        if opens_comment(s, p) {
            let q = find3_from(s, p + 4, '-', '-', '>');
            if q >= s.len() {
                None
            } else {
                tokens_from(s, q + 3)
            }
        } else if opens_cdata(s, p) {
            let q = find3_from(s, p + 9, ']', ']', '>');
            if q >= s.len() {
                None
            } else {
                tokens_from(s, q + 3)
            }
        } else {
            let e = find_from(s, p + 2, '>');
            if e >= s.len() {
                None
            } else {
                tokens_from(s, e + 1)
            }
        }
    } else {
        let ne = name_end_from(s, p + 1);
        let name = s.subrange(p + 1, ne);
        if name.len() == 0 {
            None
        } else {
            let e = tag_close_from(s, ne, None);
            if e >= s.len() {
                None
            } else {
                match tokens_from(s, e + 1) {
                    None => None,
                    Some(evs) => if s[e - 1] == '/' {
                        // Self-closing element: no event.
                        Some(evs)
                    } else {
                        Some(seq![Token::Start { name }] + evs)
                    },
                }
            }
        }
    }
}

#[via_fn]
proof fn tokens_from_decreases(s: Seq<char>, p: int) {
    if 0 <= p <= s.len() && p < s.len() {
        if s[p] != '<' {
            lemma_find_from(s, p, '<');
        } else if p + 1 < s.len() {
            if s[p + 1] == '/' {
                lemma_find_from(s, p + 2, '>');
            } else if s[p + 1] == '?' {
                lemma_find2_from(s, p + 2, '?', '>');
            } else if s[p + 1] == '!' {
                if opens_comment(s, p) {
                    lemma_find3_from(s, p + 4, '-', '-', '>');
                } else if opens_cdata(s, p) {
                    lemma_find3_from(s, p + 9, ']', ']', '>');
                } else {
                    lemma_find_from(s, p + 2, '>');
                }
            } else {
                lemma_name_end_from(s, p + 1);
                lemma_tag_close_from(s, name_end_from(s, p + 1), None);
            }
        }
    }
}

/// The events of the whole document, or `None` when it is malformed.
pub open spec fn tokens(s: Seq<char>) -> Option<Seq<Token>> {
    tokens_from(s, 0)
}

/// Exec twin of `find_from`.
pub fn find_char(s: &str, p: usize, c: char) -> (r: usize)
    requires
        p <= s@.len(),
    ensures
        r as int == find_from(s@, p as int, c),
        p <= r <= s@.len(),
        r < s@.len() ==> s@[r as int] == c,
{
    let n: usize = s.unicode_len();
    let mut i: usize = p;
    while i < n && s.get_char(i) != c
        invariant
            p <= i <= n,
            n == s@.len(),
            find_from(s@, p as int, c) == find_from(s@, i as int, c),
        decreases n - i,
    {
        i = i + 1;
    }
    i
}

/// Exec twin of `find2_from`.
fn find_pair(s: &str, p: usize, a: char, b: char) -> (r: usize)
    requires
        p <= s@.len(),
    ensures
        r as int == find2_from(s@, p as int, a, b),
        p <= r <= s@.len(),
        r < s@.len() ==> r + 2 <= s@.len(),
{
    let n: usize = s.unicode_len();
    let mut i: usize = p;
    while n - i > 1 && !(s.get_char(i) == a && s.get_char(i + 1) == b)
        invariant
            p <= i <= n,
            n == s@.len(),
            find2_from(s@, p as int, a, b) == find2_from(s@, i as int, a, b),
        decreases n - i,
    {
        i = i + 1;
    }
    if n - i > 1 {
        i
    } else {
        n
    }
}

/// Exec twin of `find3_from`.
fn find_triple(s: &str, p: usize, a: char, b: char, c: char) -> (r: usize)
    requires
        p <= s@.len(),
    ensures
        r as int == find3_from(s@, p as int, a, b, c),
        p <= r <= s@.len(),
        r < s@.len() ==> r + 3 <= s@.len(),
{
    let n: usize = s.unicode_len();
    let mut i: usize = p;
    while n - i > 2 && !(s.get_char(i) == a && s.get_char(i + 1) == b && s.get_char(i + 2) == c)
        invariant
            p <= i <= n,
            n == s@.len(),
            find3_from(s@, p as int, a, b, c) == find3_from(s@, i as int, a, b, c),
        decreases n - i,
    {
        i = i + 1;
    }
    if n - i > 2 {
        i
    } else {
        n
    }
}

/// Exec twin of `name_end_from`.
fn find_name_end(s: &str, p: usize) -> (r: usize)
    requires
        p <= s@.len(),
    ensures
        r as int == name_end_from(s@, p as int),
        p <= r <= s@.len(),
{
    let n: usize = s.unicode_len();
    let mut i: usize = p;
    loop
        invariant
            p <= i <= n,
            n == s@.len(),
            name_end_from(s@, p as int) == name_end_from(s@, i as int),
        decreases n - i,
    {
        if i >= n {
            return i;
        }
        let c = s.get_char(i);
        if c == ' ' || c == '\t' || c == '\n' || c == '\r' || c == '>' || c == '/' {
            return i;
        }
        i = i + 1;
    }
}

/// Exec twin of `tag_close_from`, started outside any quote.
fn find_tag_close(s: &str, p: usize) -> (r: usize)
    requires
        p <= s@.len(),
    ensures
        r as int == tag_close_from(s@, p as int, None),
        p <= r <= s@.len(),
        r < s@.len() ==> s@[r as int] == '>',
{
    let n: usize = s.unicode_len();
    let mut i: usize = p;
    let mut quote: Option<char> = None;
    loop
        invariant
            p <= i <= n,
            n == s@.len(),
            tag_close_from(s@, p as int, None) == tag_close_from(s@, i as int, quote),
        decreases n - i,
    {
        if i >= n {
            return i;
        }
        let c = s.get_char(i);
        match quote {
            Some(q) => {
                if c == q {
                    quote = None;
                }
            },
            None => {
                if c == '>' {
                    proof {
                        lemma_tag_close_from(s@, i as int, None);
                    }
                    return i;
                } else if c == '"' || c == '\'' {
                    quote = Some(c);
                }
            },
        }
        i = i + 1;
    }
}

/// Scans the whole document. Returns its events in order, or `None` when it
/// is malformed, exactly as `tokens` says.
pub fn scan_tokens(s: &str) -> (r: Option<Vec<XmlEvent>>)
    ensures
        r is Some <==> tokens(s@) is Some,
        r is Some ==> r->0.deep_view() == tokens(s@)->0,
{
    let n: usize = s.unicode_len();
    let mut out: Vec<XmlEvent> = Vec::new();
    let mut i: usize = 0;
    loop
        invariant
            0 <= i <= n,
            n == s@.len(),
            tokens(s@) is Some <==> tokens_from(s@, i as int) is Some,
            tokens(s@) is Some ==> tokens(s@)->0 == out.deep_view() + tokens_from(
                s@,
                i as int,
            )->0,
        decreases n - i,
    {
        if i >= n {
            assert(tokens_from(s@, i as int) == Some(Seq::<Token>::empty()));
            proof {
                if tokens(s@) is Some {
                    assert(tokens(s@)->0 =~= out.deep_view());
                }
            }
            return Some(out);
        }
        let c = s.get_char(i);
        if c != '<' {
            let q = find_char(s, i, '<');
            let text = String::from_str(s.substring_char(i, q));
            out.push(XmlEvent::Text { text });
            proof {
                if tokens(s@) is Some {
                    assert(tokens(s@)->0 =~= out.deep_view() + tokens_from(s@, q as int)->0);
                }
            }
            i = q;
        } else if i + 1 >= n {
            return None;
        } else {
            let c1 = s.get_char(i + 1);
            if c1 == '/' {
                let e = find_char(s, i + 2, '>');
                if e >= n {
                    return None;
                }
                let trimmed = trim(s.substring_char(i + 2, e));
                if trimmed.unicode_len() == 0 {
                    return None;
                }
                let name = String::from_str(trimmed);
                out.push(XmlEvent::End { name });
                proof {
                    if tokens(s@) is Some {
                        assert(tokens(s@)->0 =~= out.deep_view() + tokens_from(
                            s@,
                            e + 1,
                        )->0);
                    }
                }
                i = e + 1;
            } else if c1 == '?' {
                let q = find_pair(s, i + 2, '?', '>');
                if q >= n {
                    return None;
                }
                i = q + 2;
            } else if c1 == '!' {
                let comment = n - i >= 4 && s.get_char(i + 2) == '-' && s.get_char(i + 3) == '-';
                assert(comment == opens_comment(s@, i as int));
                if comment {
                    let q = find_triple(s, i + 4, '-', '-', '>');
                    if q >= n {
                        return None;
                    }
                    i = q + 3;
                } else {
                    let cdata = n - i >= 9 && s.get_char(i + 2) == '[' && s.get_char(i + 3) == 'C'
                        && s.get_char(i + 4) == 'D' && s.get_char(i + 5) == 'A' && s.get_char(i + 6)
                        == 'T' && s.get_char(i + 7) == 'A' && s.get_char(i + 8) == '[';
                    assert(cdata == opens_cdata(s@, i as int));
                    if cdata {
                        let q = find_triple(s, i + 9, ']', ']', '>');
                        if q >= n {
                            return None;
                        }
                        i = q + 3;
                    } else {
                        let e = find_char(s, i + 2, '>');
                        if e >= n {
                            return None;
                        }
                        i = e + 1;
                    }
                }
            } else {
                let ne = find_name_end(s, i + 1);
                if ne == i + 1 {
                    return None;
                }
                let name = String::from_str(s.substring_char(i + 1, ne));
                let e = find_tag_close(s, ne);
                if e >= n {
                    return None;
                }
                if s.get_char(e - 1) == '/' {
                    // Self-closing element: no event.
                } else {
                    out.push(XmlEvent::Start { name });
                }
                proof {
                    if tokens(s@) is Some {
                        assert(tokens(s@)->0 =~= out.deep_view() + tokens_from(
                            s@,
                            e + 1,
                        )->0);
                    }
                }
                i = e + 1;
            }
        }
    }
}

} // verus!
