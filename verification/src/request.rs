//! Parsing a raw request buffer into a message: the header section is split
//! from the body at the first CRLF-CRLF, and the header section is split on
//! CRLF into lines.  Also the body-size query over the parsed header lines.

use vstd::prelude::*;
use vstd::utf8::encode_utf8;

use crate::msg::HttpMsg;
use crate::strutil::{
    all_digits, dec_rep, dec_val, lemma_dec_rep_val, parse_dec, spec_starts_with, starts_with,
    string_skip,
};

verus! {

/// The fatal conditions a connection can hit while its request is read.
#[derive(Clone, Copy, PartialEq, Eq, Structural, Debug)]
pub enum HttpError {
    /// The header/body separator (a blank line) is missing.
    MalformedRequest,
}

/// A CRLF pair starts at position `i` of `s`.
pub open spec fn crlf_at(s: Seq<char>, i: int) -> bool {
    &&& 0 <= i
    &&& i + 2 <= s.len()
    &&& s[i] == '\r'
    &&& s[i + 1] == '\n'
}

/// The four-character sequence CRLF-CRLF starts at position `i` of `s`.
pub open spec fn crlf2_at(s: Seq<char>, i: int) -> bool {
    crlf_at(s, i) && crlf_at(s, i + 2)
}

/// The least position at or after `i` where CRLF-CRLF starts, if any.
pub open spec fn find_crlf2(s: Seq<char>, i: int) -> Option<int>
    decreases s.len() - i,
{
    if i < 0 || i + 4 > s.len() {
        None
    } else if crlf2_at(s, i) {
        Some(i)
    } else {
        find_crlf2(s, i + 1)
    }
}

/// `s` split on CRLF: the pieces contain no CRLF and, joined by CRLF, give
/// back `s`.  Splitting the empty sequence gives one empty piece.
pub open spec fn split_crlf(s: Seq<char>) -> Seq<Seq<char>>
    decreases s.len(),
{
    if s.len() >= 2 && s[0] == '\r' && s[1] == '\n' {
        seq![Seq::<char>::empty()] + split_crlf(s.skip(2))
    } else if s.len() == 0 {
        seq![s]
    } else {
        let rest = split_crlf(s.skip(1));
        seq![seq![s[0]] + rest[0]] + rest.skip(1)
    }
}

/// A split always yields at least one piece.
pub proof fn lemma_split_crlf_len(s: Seq<char>)
    ensures
        split_crlf(s).len() >= 1,
    decreases s.len(),
{
    if s.len() >= 2 && s[0] == '\r' && s[1] == '\n' {
        lemma_split_crlf_len(s.skip(2));
    } else if s.len() == 0 {
    } else {
        lemma_split_crlf_len(s.skip(1));
    }
}

/// A sequence without CRLF splits into itself alone.
pub proof fn lemma_split_crlf_none(s: Seq<char>)
    requires
        forall|j: int| !crlf_at(s, j),
    ensures
        split_crlf(s) == seq![s],
    decreases s.len(),
{
    if s.len() >= 2 && s[0] == '\r' && s[1] == '\n' {
        assert(crlf_at(s, 0));
    } else if s.len() == 0 {
    } else {
        assert forall|j: int| !crlf_at(s.skip(1), j) by {
            if crlf_at(s.skip(1), j) {
                assert(s.skip(1)[j] == s[j + 1]);
                assert(s.skip(1)[j + 1] == s[j + 2]);
                assert(crlf_at(s, j + 1));
            }
        }
        lemma_split_crlf_none(s.skip(1));
        let rest = split_crlf(s.skip(1));
        assert(rest[0] == s.skip(1));
        assert(seq![s[0]] + rest[0] =~= s);
        assert(rest.skip(1) =~= Seq::<Seq<char>>::empty());
        assert(split_crlf(s) =~= seq![s]);
    }
}

/// Splitting at the first CRLF: the piece before it, then the split of what
/// follows it.
pub proof fn lemma_split_crlf_at(s: Seq<char>, p: int)
    requires
        crlf_at(s, p),
        forall|j: int| 0 <= j < p ==> !crlf_at(s, j),
    ensures
        split_crlf(s) == seq![s.take(p)] + split_crlf(s.skip(p + 2)),
    decreases p,
{
    if p == 0 {
        assert(s.take(0) =~= Seq::<char>::empty());
    } else {
        assert(!crlf_at(s, 0));
        assert(crlf_at(s.skip(1), p - 1)) by {
            assert(s.skip(1)[p - 1] == s[p]);
            assert(s.skip(1)[p] == s[p + 1]);
        }
        assert forall|j: int| 0 <= j < p - 1 implies !crlf_at(s.skip(1), j) by {
            if crlf_at(s.skip(1), j) {
                assert(s.skip(1)[j] == s[j + 1]);
                assert(s.skip(1)[j + 1] == s[j + 2]);
                assert(crlf_at(s, j + 1));
            }
        }
        lemma_split_crlf_at(s.skip(1), p - 1);
        let rest = split_crlf(s.skip(1));
        assert(rest == seq![s.skip(1).take(p - 1)] + split_crlf(s.skip(1).skip(p + 1)));
        assert(s.skip(1).skip(p + 1) =~= s.skip(p + 2));
        assert(rest[0] == s.skip(1).take(p - 1));
        assert(seq![s[0]] + rest[0] =~= s.take(p));
        assert(rest.skip(1) =~= split_crlf(s.skip(p + 2)));
        assert(split_crlf(s) =~= seq![s.take(p)] + split_crlf(s.skip(p + 2)));
    }
}

/// The position where the header/body separator starts, if the buffer has
/// one.
fn find_separator(s: &str) -> (r: Option<usize>)
    ensures
        match r {
            Some(p) => find_crlf2(s@, 0) == Some(p as int) && crlf2_at(s@, p as int),
            None => find_crlf2(s@, 0) is None,
        },
{
    let n: usize = s.unicode_len();
    if n < 4 {
        return None;
    }
    let mut i: usize = 0;
    while i <= n - 4
        invariant
            n == s@.len(),
            n >= 4,
            i <= n,
            find_crlf2(s@, 0) == find_crlf2(s@, i as int),
        decreases n - i,
    {
        if s.get_char(i) == '\r' && s.get_char(i + 1) == '\n' && s.get_char(i + 2) == '\r'
            && s.get_char(i + 3) == '\n' {
            proof {
                assert(crlf2_at(s@, i as int));
            }
            return Some(i);
        }
        proof {
            assert(!crlf2_at(s@, i as int));
        }
        i += 1;
    }
    None
}

/// Split a CRLF-free-terminated header section into its lines.
fn split_headers(section: &str) -> (r: Vec<String>)
    ensures
        r.deep_view() == split_crlf(section@),
{
    let n: usize = section.unicode_len();
    let mut lines: Vec<String> = Vec::new();
    proof {
        assert(lines.deep_view() =~= Seq::<Seq<char>>::empty());
        assert(section@.skip(0) =~= section@);
        assert(split_crlf(section@) =~= lines.deep_view() + split_crlf(section@.skip(0)));
    }
    let mut start: usize = 0;
    let mut i: usize = 0;
    while i < n
        invariant
            start <= i <= n,
            n == section@.len(),
            split_crlf(section@) == lines.deep_view() + split_crlf(section@.skip(start as int)),
            forall|j: int| start <= j < i ==> !crlf_at(section@, j),
        decreases n - i,
    {
        if section.get_char(i) == '\r' && i + 1 < n && section.get_char(i + 1) == '\n' {
            let piece = section.substring_char(start, i).to_owned();
            proof {
                let sec = section@;
                let tail = sec.skip(start as int);
                let p = i - start;
                assert(crlf_at(tail, p as int)) by {
                    assert(tail[p as int] == sec[i as int]);
                    assert(tail[p + 1] == sec[i + 1]);
                }
                assert forall|j: int| 0 <= j < p implies !crlf_at(tail, j) by {
                    if crlf_at(tail, j) {
                        assert(tail[j] == sec[start + j]);
                        assert(tail[j + 1] == sec[start + j + 1]);
                        assert(crlf_at(sec, start + j));
                    }
                }
                lemma_split_crlf_at(tail, p as int);
                assert(tail.take(p as int) =~= sec.subrange(start as int, i as int));
                assert(tail.skip(p + 2) =~= sec.skip(i + 2));
            }
            let ghost old_lines = lines.deep_view();
            lines.push(piece);
            proof {
                assert(lines.deep_view() =~= old_lines.push(piece@));
                assert(split_crlf(section@) =~= lines.deep_view() + split_crlf(
                    section@.skip(i + 2),
                ));
            }
            start = i + 2;
            i = start;
        } else {
            proof {
                assert(!crlf_at(section@, i as int));
            }
            i += 1;
        }
    }
    let last = section.substring_char(start, n).to_owned();
    proof {
        let tail = section@.skip(start as int);
        assert forall|j: int| !crlf_at(tail, j) by {
            if crlf_at(tail, j) {
                assert(tail[j] == section@[start + j]);
                assert(tail[j + 1] == section@[start + j + 1]);
                assert(crlf_at(section@, start + j));
            }
        }
        lemma_split_crlf_none(tail);
        assert(last@ =~= tail);
    }
    let ghost old_lines = lines.deep_view();
    lines.push(last);
    proof {
        assert(lines.deep_view() =~= old_lines.push(last@));
        assert(lines.deep_view() =~= split_crlf(section@));
    }
    lines
}

impl HttpMsg {
    /// Parse a raw request buffer.  The buffer splits at the first CRLF-CRLF:
    /// the part before it becomes the header lines (split on CRLF), the part
    /// after it becomes the body bytes.  A buffer without the separator is
    /// malformed and yields no message.
    pub fn from(input: &str) -> (r: Result<HttpMsg, HttpError>)
        ensures
            match r {
                Ok(msg) => find_crlf2(input@, 0) is Some && {
                    let sep = find_crlf2(input@, 0)->0;
                    &&& msg@.headers == split_crlf(input@.take(sep))
                    &&& msg@.headers.len() >= 1
                    &&& msg@.body == encode_utf8(input@.skip(sep + 4))
                },
                Err(e) => find_crlf2(input@, 0) is None && e == HttpError::MalformedRequest,
            },
    {
        let n: usize = input.unicode_len();
        let sep = match find_separator(input) {
            Some(p) => p,
            None => {
                return Err(HttpError::MalformedRequest);
            },
        };
        let header_sec = input.substring_char(0, sep);
        proof {
            assert(header_sec@ =~= input@.take(sep as int));
        }
        let headers = split_headers(header_sec);
        let body_str = input.substring_char(sep + 4, n);
        let body = body_str.as_bytes_vec();
        proof {
            assert(body_str@ =~= input@.skip(sep + 4));
            lemma_split_crlf_len(input@.take(sep as int));
        }
        Ok(HttpMsg { headers, body })
    }
}

/// The least index at or after `i` of a header line starting with `p`.
pub open spec fn find_prefixed(headers: Seq<Seq<char>>, p: Seq<char>, i: int) -> Option<int>
    decreases headers.len() - i,
{
    if i < 0 || i >= headers.len() {
        None
    } else if spec_starts_with(headers[i], p) {
        Some(i)
    } else {
        find_prefixed(headers, p, i + 1)
    }
}

/// Scanning from `k`, the first prefixed line is the one at `i` when the
/// lines before it lack the prefix and the one at `i` has it.
pub proof fn lemma_find_prefixed_some(headers: Seq<Seq<char>>, p: Seq<char>, k: int, i: int)
    requires
        0 <= k <= i < headers.len(),
        spec_starts_with(headers[i], p),
        forall|j: int| k <= j < i ==> !spec_starts_with(#[trigger] headers[j], p),
    ensures
        find_prefixed(headers, p, k) == Some(i),
    decreases i - k,
{
    if k < i {
        lemma_find_prefixed_some(headers, p, k + 1, i);
    }
}

/// Scanning from `k` finds nothing when no line at or after `k` has the
/// prefix.
pub proof fn lemma_find_prefixed_none(headers: Seq<Seq<char>>, p: Seq<char>, k: int)
    requires
        forall|j: int| k <= j < headers.len() ==> !spec_starts_with(#[trigger] headers[j], p),
    ensures
        find_prefixed(headers, p, k) is None,
    decreases headers.len() - k,
{
    if 0 <= k < headers.len() {
        lemma_find_prefixed_none(headers, p, k + 1);
    }
}

/// What follows the prefix `p` on the first header line that starts with it.
pub open spec fn spec_header_value(headers: Seq<Seq<char>>, p: Seq<char>) -> Option<Seq<char>> {
    match find_prefixed(headers, p, 0) {
        Some(i) => Some(headers[i].skip(p.len() as int)),
        None => None,
    }
}

/// The value part of the first header line starting with `prefix`, if any.
pub fn header_value(headers: &Vec<String>, prefix: &str) -> (r: Option<String>)
    ensures
        match spec_header_value(headers.deep_view(), prefix@) {
            Some(v) => r is Some && r->0@ == v,
            None => r is None,
        },
{
    let mut i: usize = 0;
    while i < headers.len()
        invariant
            i <= headers.len(),
            find_prefixed(headers.deep_view(), prefix@, 0) == find_prefixed(
                headers.deep_view(),
                prefix@,
                i as int,
            ),
        decreases headers.len() - i,
    {
        let line: &String = &headers[i];
        proof {
            assert(line@ == headers.deep_view()[i as int]);
        }
        if starts_with(line.as_str(), prefix) {
            let v = string_skip(line.as_str(), prefix.unicode_len());
            return Some(v);
        }
        i += 1;
    }
    None
}

/// The declared body size of a header set: the value of the first
/// `Content-Length: ` line read as a decimal numeral, zero when no such line
/// exists, and nothing when the line's value is not a numeral.
pub open spec fn spec_content_length(headers: Seq<Seq<char>>) -> Option<nat> {
    match spec_header_value(headers, "Content-Length: "@) {
        Some(v) => if v.len() > 0 && all_digits(v) {
            Some(dec_val(v))
        } else {
            None
        },
        None => Some(0),
    }
}

impl HttpMsg {
    /// The body-size query: the declared `Content-Length` of this message's
    /// header lines, zero when absent, saturated at `usize::MAX`, and `None`
    /// when the declared value is not a decimal numeral.
    pub fn content_length(&self) -> (r: Option<usize>)
        ensures
            match spec_content_length(self@.headers) {
                Some(n) => r == Some(
                    if n <= usize::MAX {
                        n as usize
                    } else {
                        usize::MAX
                    },
                ),
                None => r is None,
            },
    {
        match header_value(&self.headers, "Content-Length: ") {
            Some(v) => parse_dec(v.as_str()),
            None => Some(0),
        }
    }
}

/// The body-size law: on a header set whose first `Content-Length: ` line
/// carries the decimal numeral of `n`, the body-size query answers exactly
/// `n`.
pub proof fn lemma_body_size_query(headers: Seq<Seq<char>>, i: int, n: nat)
    requires
        0 <= i < headers.len(),
        headers[i] == "Content-Length: "@ + dec_rep(n),
        forall|j: int|
            0 <= j < i ==> !spec_starts_with(#[trigger] headers[j], "Content-Length: "@),
    ensures
        spec_content_length(headers) == Some(n),
{
    let p = "Content-Length: "@;
    assert(headers[i].subrange(0, p.len() as int) =~= p);
    lemma_find_prefixed_some(headers, p, 0, i);
    assert(headers[i].skip(p.len() as int) =~= dec_rep(n));
    lemma_dec_rep_val(n);
}

} // verus!
