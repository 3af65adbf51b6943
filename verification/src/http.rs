//! The permission server's HTTP framing: reading one `Content-Length`-framed
//! request from the bytes a socket yields, header lookup, and the response head.
//!
//! A declared `Content-Length` is never trusted beyond `MAX_BODY`, and neither
//! the header block nor the body may grow past it: an oversized request is
//! refused before its body is buffered.
use vstd::prelude::*;
use crate::text::{
    append_str, chars_of, slice, spec_usize_decimal, split, split_seq, string_of, trim, trim_seq,
    usize_decimal,
};

verus! {

/// The largest request body (and header block) accepted, in bytes.
pub const MAX_BODY: usize = 16384;

/// The per-run authentication header a permission-gate request must present.
pub const GATE_TOKEN_HEADER: &'static str = "x-gate-token";

/// The text `String::from_utf8_lossy` makes of these bytes.
pub uninterp spec fn spec_utf8_lossy(bytes: Seq<u8>) -> Seq<char>;

/// Decodes bytes as UTF-8, replacing invalid sequences (`String::from_utf8_lossy`).
#[verifier::external_body]
fn utf8_lossy(bytes: &[u8]) -> (r: String)
    ensures
        r@ == spec_utf8_lossy(bytes@),
{
    String::from_utf8_lossy(bytes).into_owned()
}

/// `needle` occurs in `hay` at `i`.
pub open spec fn bytes_at(hay: Seq<u8>, needle: Seq<u8>, i: int) -> bool {
    0 <= i && i + needle.len() <= hay.len() && hay.subrange(i, i + needle.len()) == needle
}

/// The first index where `needle` occurs in `hay`.
pub open spec fn find_bytes_spec(hay: Seq<u8>, needle: Seq<u8>) -> Option<int> {
    if exists|i: int| bytes_at(hay, needle, i) {
        Some(choose|i: int| bytes_at(hay, needle, i) && forall|j: int| 0 <= j < i ==> !bytes_at(hay, needle, j))
    } else {
        None
    }
}

/// The end of the header block: `\r\n\r\n`.
pub open spec fn header_terminator() -> Seq<u8> {
    seq![13u8, 10u8, 13u8, 10u8]
}

/// The first index where `needle` occurs in `hay` (a sliding-window search).
pub fn find_subslice(hay: &[u8], needle: &[u8]) -> (r: Option<usize>)
    ensures
        match r {
            Some(i) => bytes_at(hay@, needle@, i as int) && forall|j: int|
                0 <= j < i ==> !bytes_at(hay@, needle@, j),
            None => forall|j: int| !bytes_at(hay@, needle@, j),
        },
{
    if needle.len() == 0 {
        assert(hay@.subrange(0, 0) =~= needle@);
        return Some(0);
    }
    let n = hay.len();
    if needle.len() > n {
        return None;
    }
    let last = n - needle.len();
    let mut i: usize = 0;
    while i <= last
        invariant
            n == hay@.len(),
            needle@.len() > 0,
            last == hay@.len() - needle@.len(),
            0 <= i <= last + 1,
            forall|j: int| 0 <= j < i ==> !bytes_at(hay@, needle@, j),
        decreases last + 1 - i,
    {
        let mut k: usize = 0;
        let mut same = true;
        while k < needle.len()
            invariant
                n == hay@.len(),
                i + needle@.len() <= hay@.len(),
                0 <= k <= needle@.len(),
                same == forall|m: int| 0 <= m < k ==> hay@[i + m] == needle@[m],
            decreases needle.len() - k,
        {
            if hay[i + k] != needle[k] {
                same = false;
            }
            k = k + 1;
        }
        if same {
            assert(hay@.subrange(i as int, i + needle@.len()) =~= needle@);
            return Some(i);
        }
        assert(!bytes_at(hay@, needle@, i as int)) by {
            if bytes_at(hay@, needle@, i as int) {
                let m = choose|m: int| 0 <= m < needle@.len() && hay@[i + m] != needle@[m];
                assert(hay@.subrange(i as int, i + needle@.len())[m] == hay@[i + m]);
            }
        }
        i = i + 1;
    }
    None
}

// ---- headers ----------------------------------------------------------------------

/// The code of a character with ASCII letters folded to lower case.
pub open spec fn ascii_lower(c: char) -> int {
    if 'A' <= c && c <= 'Z' {
        (c as u32) + 32
    } else {
        c as u32 as int
    }
}

/// Equality up to ASCII case (`str::eq_ignore_ascii_case`).
pub open spec fn eq_ignore_ascii_case_spec(a: Seq<char>, b: Seq<char>) -> bool {
    a.len() == b.len() && forall|i: int| 0 <= i < a.len() ==> ascii_lower(a[i]) == ascii_lower(b[i])
}

fn ascii_lower_exec(c: char) -> (r: u32)
    ensures
        r == ascii_lower(c),
{
    if 'A' <= c && c <= 'Z' {
        c as u32 + 32
    } else {
        c as u32
    }
}

/// Whether two strings are equal up to ASCII case.
pub fn eq_ignore_ascii_case(a: &[char], b: &[char]) -> (r: bool)
    ensures
        r == eq_ignore_ascii_case_spec(a@, b@),
{
    if a.len() != b.len() {
        return false;
    }
    let mut i: usize = 0;
    while i < a.len()
        invariant
            a@.len() == b@.len(),
            0 <= i <= a@.len(),
            forall|j: int| 0 <= j < i ==> ascii_lower(a@[j]) == ascii_lower(b@[j]),
        decreases a.len() - i,
    {
        if ascii_lower_exec(a[i]) != ascii_lower_exec(b[i]) {
            return false;
        }
        i = i + 1;
    }
    true
}

/// A header line split at its first `:` into name and value.
pub open spec fn split_once_colon(line: Seq<char>) -> Option<(Seq<char>, Seq<char>)> {
    if exists|i: int| 0 <= i < line.len() && line[i] == ':' {
        let i = choose|i: int|
            0 <= i < line.len() && line[i] == ':' && forall|j: int| 0 <= j < i ==> line[j] != ':';
        Some((line.take(i), line.skip(i + 1)))
    } else {
        None
    }
}

/// The value of the first line whose name is `name` (ignoring ASCII case),
/// trimmed.
pub open spec fn header_lookup(lines: Seq<Seq<char>>, name: Seq<char>) -> Option<Seq<char>>
    decreases lines.len(),
{
    if lines.len() == 0 {
        None
    } else {
        match split_once_colon(lines[0]) {
            Some((k, v)) => if eq_ignore_ascii_case_spec(trim_seq(k), name) {
                Some(trim_seq(v))
            } else {
                header_lookup(lines.drop_first(), name)
            },
            None => header_lookup(lines.drop_first(), name),
        }
    }
}

/// The value of a header in a raw header block, by case-insensitive name.
pub open spec fn header_value_spec(headers: Seq<char>, name: Seq<char>) -> Option<Seq<char>> {
    header_lookup(split_seq(headers, "\n"@), name)
}

/// Splits a line at its first `:`.
fn split_colon(line: &[char]) -> (r: Option<(Vec<char>, Vec<char>)>)
    ensures
        match r {
            None => split_once_colon(line@) is None,
            Some(p) => split_once_colon(line@) == Some((p.0@, p.1@)),
        },
{
    let mut i: usize = 0;
    while i < line.len()
        invariant
            0 <= i <= line@.len(),
            forall|j: int| 0 <= j < i ==> line@[j] != ':',
        decreases line.len() - i,
    {
        if line[i] == ':' {
            let k = slice(line, 0, i);
            let v = slice(line, i + 1, line.len());
            proof {
                let c = choose|c: int|
                    0 <= c < line@.len() && line@[c] == ':' && forall|j: int| 0 <= j < c ==> line@[j] != ':';
                assert(c == i);
                assert(k@ == line@.take(i as int));
                assert(v@ == line@.skip(i + 1));
            }
            return Some((k, v));
        }
        i = i + 1;
    }
    None
}

/// The value of a header in a raw header block (see `header_value_spec`).
pub fn header_value(headers: &str, name: &str) -> (r: Option<String>)
    ensures
        match r {
            None => header_value_spec(headers@, name@) is None,
            Some(v) => header_value_spec(headers@, name@) == Some(v@),
        },
{
    let h = chars_of(headers);
    let nl = chars_of("\n");
    proof {
        reveal_strlit("\n");
    }
    let lines = split(&h, &nl);
    let n = chars_of(name);
    let ghost ls = lines@.map_values(|p: Vec<char>| p@);
    let mut i: usize = 0;
    assert(ls.skip(0) == ls);
    while i < lines.len()
        invariant
            0 <= i <= lines@.len(),
            ls == lines@.map_values(|p: Vec<char>| p@),
            n@ == name@,
            header_value_spec(headers@, name@) == header_lookup(ls.skip(i as int), name@),
        decreases lines.len() - i,
    {
        proof {
            assert(ls.skip(i as int)[0] == lines@[i as int]@);
            assert(ls.skip(i as int).drop_first() == ls.skip(i + 1));
        }
        match split_colon(&lines[i]) {
            Some((k, v)) => {
                let kt = trim(&k);
                if eq_ignore_ascii_case(&kt, &n) {
                    return Some(string_of(&trim(&v)));
                }
            },
            None => {},
        }
        i = i + 1;
    }
    None
}

/// An ASCII digit.
pub open spec fn is_digit(c: char) -> bool {
    '0' <= c && c <= '9'
}

/// The value of a run of decimal digits.
pub open spec fn digits_value(s: Seq<char>) -> int
    decreases s.len(),
{
    if s.len() == 0 {
        0
    } else {
        digits_value(s.drop_last()) * 10 + ((s.last() as u32) - ('0' as u32))
    }
}

/// What `str::parse::<usize>` yields: an optional `+`, then one or more ASCII
/// digits whose value fits in `usize`.
pub open spec fn parse_usize_spec(s: Seq<char>) -> Option<usize> {
    let d = unsigned_digits(s);
    if d.len() > 0 && all_digits(d) && digits_value(d) <= usize::MAX {
        Some(digits_value(d) as usize)
    } else {
        None
    }
}

/// The digits of a number text: without one leading `+`.
pub open spec fn unsigned_digits(s: Seq<char>) -> Seq<char> {
    if s.len() > 0 && s[0] == '+' {
        s.skip(1)
    } else {
        s
    }
}

/// Every character is an ASCII digit.
pub open spec fn all_digits(d: Seq<char>) -> bool {
    forall|i: int| 0 <= i < d.len() ==> is_digit(d[i])
}

/// Parses a decimal `usize` (see `parse_usize_spec`).
pub fn parse_usize(s: &[char]) -> (r: Option<usize>)
    ensures
        r == parse_usize_spec(s@),
{
    let start: usize = if s.len() > 0 && s[0] == '+' {
        1
    } else {
        0
    };
    let ghost d = unsigned_digits(s@);
    assert(d == s@.skip(start as int));
    if start >= s.len() {
        return None;
    }
    let mut acc: usize = 0;
    let mut i = start;
    let mut overflow = false;
    while i < s.len()
        invariant
            start <= i <= s@.len(),
            d == s@.skip(start as int),
            d == unsigned_digits(s@),
            forall|j: int| start <= j < i ==> is_digit(s@[j]),
            !overflow ==> acc as int == digits_value(s@.subrange(start as int, i as int)),
            overflow ==> digits_value(s@.subrange(start as int, i as int)) > usize::MAX,
        decreases s.len() - i,
    {
        let c = s[i];
        if !('0' <= c && c <= '9') {
            proof {
                assert(d[i - start] == c);
                assert(!is_digit(d[i - start]));
                assert(!(forall|j: int| 0 <= j < d.len() ==> is_digit(d[j])));
                assert(!all_digits(d));
            }
            return None;
        }
        let digit: usize = (c as u32 - '0' as u32) as usize;
        proof {
            let sub = s@.subrange(start as int, i + 1);
            assert(sub.drop_last() == s@.subrange(start as int, i as int));
            assert(sub.last() == c);
            assert(digits_value(sub) == digits_value(s@.subrange(start as int, i as int)) * 10 + digit);
        }
        if !overflow {
            match acc.checked_mul(10) {
                Some(m) => match m.checked_add(digit) {
                    Some(v) => {
                        acc = v;
                    },
                    None => {
                        overflow = true;
                    },
                },
                None => {
                    overflow = true;
                    proof {
                        assert(digits_value(s@.subrange(start as int, i + 1)) >= acc * 10)
                            by (nonlinear_arith)
                            requires
                                digits_value(s@.subrange(start as int, i + 1)) == acc * 10 + digit,
                                digit >= 0,
                        ;
                    }
                },
            }
        } else {
            proof {
                let x = digits_value(s@.subrange(start as int, i as int));
                assert(x * 10 + digit > usize::MAX) by (nonlinear_arith)
                    requires
                        x > usize::MAX,
                        digit >= 0,
                ;
            }
        }
        i = i + 1;
    }
    assert(s@.subrange(start as int, s@.len() as int) == d);
    if overflow {
        None
    } else {
        Some(acc)
    }
}

/// The declared body length: the first `Content-Length` line (ignoring ASCII
/// case) whose value parses; 0 when there is none.
pub open spec fn content_length_lookup(lines: Seq<Seq<char>>) -> Option<usize>
    decreases lines.len(),
{
    if lines.len() == 0 {
        None
    } else {
        let here = match split_once_colon(lines[0]) {
            Some((k, v)) => if eq_ignore_ascii_case_spec(trim_seq(k), "content-length"@) {
                parse_usize_spec(trim_seq(v))
            } else {
                None
            },
            None => None,
        };
        match here {
            Some(n) => Some(n),
            None => content_length_lookup(lines.drop_first()),
        }
    }
}

/// The declared body length of a header block.
pub open spec fn content_length_spec(headers: Seq<char>) -> usize {
    match content_length_lookup(split_seq(headers, "\n"@)) {
        Some(n) => n,
        None => 0,
    }
}

/// The declared body length of a header block (see `content_length_spec`).
pub fn content_length(headers: &str) -> (r: usize)
    ensures
        r == content_length_spec(headers@),
{
    let h = chars_of(headers);
    let nl = chars_of("\n");
    proof {
        reveal_strlit("\n");
    }
    let lines = split(&h, &nl);
    let key = chars_of("content-length");
    let ghost ls = lines@.map_values(|p: Vec<char>| p@);
    let mut i: usize = 0;
    assert(ls.skip(0) == ls);
    while i < lines.len()
        invariant
            0 <= i <= lines@.len(),
            ls == lines@.map_values(|p: Vec<char>| p@),
            key@ == "content-length"@,
            content_length_lookup(split_seq(headers@, "\n"@)) == content_length_lookup(ls.skip(i as int)),
        decreases lines.len() - i,
    {
        proof {
            assert(ls.skip(i as int)[0] == lines@[i as int]@);
            assert(ls.skip(i as int).drop_first() == ls.skip(i + 1));
        }
        match split_colon(&lines[i]) {
            Some((k, v)) => {
                let kt = trim(&k);
                if eq_ignore_ascii_case(&kt, &key) {
                    match parse_usize(&trim(&v)) {
                        Some(n) => {
                            return n;
                        },
                        None => {},
                    }
                }
            },
            None => {},
        }
        i = i + 1;
    }
    0
}

// ---- reading one request ------------------------------------------------------------

/// Where reading a request stands.
pub enum RequestReader {
    /// Reading the header block: everything read so far.
    Headers { buf: Vec<u8> },
    /// Reading the body of a request with this header block and declared length.
    Body { headers: String, content_length: usize, body: Vec<u8> },
    /// Finished: the header block and body, or `None` for a refused request.
    Finished { result: Option<(String, Vec<u8>)> },
}

/// The views of a read result.
pub open spec fn result_view(r: Option<(String, Vec<u8>)>) -> Option<(Seq<char>, Seq<u8>)> {
    match r {
        Some(p) => Some((p.0@, p.1@)),
        None => None,
    }
}

/// What the reader needs next.
pub enum Poll {
    /// Read more bytes from the socket and feed them.
    NeedRead,
    /// The request is read (or refused).
    Done(Option<(String, Vec<u8>)>),
}

impl RequestReader {
    /// Every buffer stays within `MAX_BODY`, and a body is never longer than
    /// the declared length once finished.
    pub open spec fn wf(&self) -> bool {
        match self {
            RequestReader::Headers { buf } => buf@.len() <= MAX_BODY,
            RequestReader::Body { content_length, body, .. } => content_length <= MAX_BODY
                && body@.len() <= MAX_BODY,
            RequestReader::Finished { result } => result matches Some(p) ==> p.1@.len() <= MAX_BODY,
        }
    }

    /// A reader at the start of a request.
    pub fn new() -> (r: Self)
        ensures
            r.wf(),
            r matches RequestReader::Headers { buf } && buf@.len() == 0,
    {
        RequestReader::Headers { buf: Vec::new() }
    }

    /// Decides without reading: a complete header block moves on to the body
    /// (refusing a declared length over `MAX_BODY`); a body of the declared
    /// length finishes the request; otherwise more bytes are needed.
    pub fn poll(&mut self) -> (p: Poll)
        requires
            old(self).wf(),
        ensures
            final(self).wf(),
            match *old(self) {
                RequestReader::Headers { buf } => match find_bytes_spec(buf@, header_terminator()) {
                    None => p is NeedRead && *final(self) == *old(self),
                    Some(pos) => {
                        let headers = spec_utf8_lossy(buf@.take(pos + 4));
                        let cl = content_length_spec(headers);
                        if cl > MAX_BODY {
                            p matches Poll::Done(None) && (*final(self) matches RequestReader::Finished { result: None })
                        } else if buf@.len() - (pos + 4) >= cl {
                            p matches Poll::Done(Some(r)) && r.0@ == headers && r.1@ == buf@.subrange(
                                pos + 4,
                                pos + 4 + cl,
                            ) && (*final(self) matches RequestReader::Finished { result: Some(q) }
                                && q.0@ == r.0@ && q.1@ == r.1@)
                        } else {
                            p is NeedRead && (*final(self) matches RequestReader::Body { headers: h, content_length: c, body: b }
                                && h@ == headers && c == cl && b@ == buf@.skip(pos + 4))
                        }
                    },
                },
                RequestReader::Body { headers, content_length, body } => if body@.len() < content_length {
                    p is NeedRead && *final(self) == *old(self)
                } else {
                    p matches Poll::Done(Some(r)) && r.0@ == headers@ && r.1@ == body@.take(
                        content_length as int,
                    ) && (*final(self) matches RequestReader::Finished { result: Some(q) }
                        && q.0@ == r.0@ && q.1@ == r.1@)
                },
                RequestReader::Finished { result } => p matches Poll::Done(r) && result_view(r) == result_view(result)
                    && (*final(self) matches RequestReader::Finished { result: f } && result_view(f)
                    == result_view(result)),
            },
    {
        let term: [u8; 4] = [13u8, 10u8, 13u8, 10u8];
        let mut cur = RequestReader::Finished { result: None };
        std::mem::swap(&mut cur, self);
        match cur {
            RequestReader::Headers { buf } => {
                assert(term@ == header_terminator());
                match find_subslice(&buf, &term) {
                    None => {
                        proof {
                            assert(find_bytes_spec(buf@, header_terminator()) is None);
                        }
                        *self = RequestReader::Headers { buf };
                        Poll::NeedRead
                    },
                    Some(pos) => {
                        proof {
                            lemma_find_bytes_first(buf@, header_terminator(), pos as int);
                        }
                        let end = pos + 4;
                        let head_bytes = slice_bytes(&buf, 0, end);
                        let headers = utf8_lossy(&head_bytes);
                        let cl = content_length(headers.as_str());
                        if cl > MAX_BODY {
                            *self = RequestReader::Finished { result: None };
                            return Poll::Done(None);
                        }
                        let body = slice_bytes(&buf, end, buf.len());
                        assert(body@ == buf@.skip(end as int));
                        if body.len() >= cl {
                            let b = slice_bytes(&body, 0, cl);
                            assert(b@ == buf@.subrange(end as int, end + cl));
                            let h2 = headers.clone();
                            let b2 = slice_bytes(&b, 0, b.len());
                            *self = RequestReader::Finished { result: Some((h2, b2)) };
                            Poll::Done(Some((headers, b)))
                        } else {
                            *self = RequestReader::Body { headers, content_length: cl, body };
                            Poll::NeedRead
                        }
                    },
                }
            },
            RequestReader::Body { headers, content_length, body } => {
                if body.len() < content_length {
                    *self = RequestReader::Body { headers, content_length, body };
                    Poll::NeedRead
                } else {
                    let b = slice_bytes(&body, 0, content_length);
                    let h2 = headers.clone();
                    let b2 = slice_bytes(&b, 0, b.len());
                    *self = RequestReader::Finished { result: Some((h2, b2)) };
                    Poll::Done(Some((headers, b)))
                }
            },
            RequestReader::Finished { result } => {
                let copy = match &result {
                    Some((h, b)) => Some((h.clone(), slice_bytes(b, 0, b.len()))),
                    None => None,
                };
                *self = RequestReader::Finished { result: copy };
                Poll::Done(result)
            },
        }
    }

    /// Feeds the bytes of one socket read (empty at end of stream): end of
    /// stream refuses an unfinished header block and ends a body early; a
    /// buffer that grows past `MAX_BODY` refuses the request.
    pub fn feed(&mut self, chunk: &[u8])
        requires
            old(self).wf(),
        ensures
            final(self).wf(),
            match *old(self) {
                RequestReader::Headers { buf } => if chunk@.len() == 0 || buf@.len() + chunk@.len() > MAX_BODY {
                    *final(self) matches RequestReader::Finished { result: None }
                } else {
                    *final(self) matches RequestReader::Headers { buf: b } && b@ == buf@ + chunk@
                },
                RequestReader::Body { headers, content_length, body } => if chunk@.len() == 0 {
                    *final(self) matches RequestReader::Finished { result: Some(r) } && r.0@ == headers@
                        && r.1@ == (if body@.len() <= content_length { body@ } else { body@.take(content_length as int) })
                } else if body@.len() + chunk@.len() > MAX_BODY {
                    *final(self) matches RequestReader::Finished { result: None }
                } else {
                    *final(self) matches RequestReader::Body { headers: h, content_length: c, body: b }
                        && h@ == headers@ && c == content_length && b@ == body@ + chunk@
                },
                RequestReader::Finished { .. } => *final(self) == *old(self),
            },
    {
        let mut cur = RequestReader::Finished { result: None };
        std::mem::swap(&mut cur, self);
        match cur {
            RequestReader::Headers { buf } => {
                if chunk.len() == 0 || chunk.len() > MAX_BODY - buf.len() {
                    *self = RequestReader::Finished { result: None };
                } else {
                    let mut b = buf;
                    append_bytes(&mut b, chunk);
                    *self = RequestReader::Headers { buf: b };
                }
            },
            RequestReader::Body { headers, content_length, body } => {
                if chunk.len() == 0 {
                    let n = if body.len() <= content_length {
                        body.len()
                    } else {
                        content_length
                    };
                    let b = slice_bytes(&body, 0, n);
                    *self = RequestReader::Finished { result: Some((headers, b)) };
                } else if chunk.len() > MAX_BODY - body.len() {
                    *self = RequestReader::Finished { result: None };
                } else {
                    let mut b = body;
                    append_bytes(&mut b, chunk);
                    *self = RequestReader::Body { headers, content_length, body: b };
                }
            },
            RequestReader::Finished { result } => {
                *self = RequestReader::Finished { result };
            },
        }
    }
}

/// The first occurrence found is the one `find_bytes_spec` names.
proof fn lemma_find_bytes_first(hay: Seq<u8>, needle: Seq<u8>, pos: int)
    requires
        bytes_at(hay, needle, pos),
        forall|j: int| 0 <= j < pos ==> !bytes_at(hay, needle, j),
    ensures
        find_bytes_spec(hay, needle) == Some(pos),
{
    let c = choose|i: int| bytes_at(hay, needle, i) && forall|j: int| 0 <= j < i ==> !bytes_at(hay, needle, j);
    assert(bytes_at(hay, needle, c));
    if c < pos {
        assert(!bytes_at(hay, needle, c));
    }
    if pos < c {
        assert(!bytes_at(hay, needle, pos));
    }
}

/// `v[from..to]` as a new vector.
fn slice_bytes(v: &[u8], from: usize, to: usize) -> (r: Vec<u8>)
    requires
        from <= to <= v.len(),
    ensures
        r@ == v@.subrange(from as int, to as int),
{
    let mut r: Vec<u8> = Vec::new();
    let mut i = from;
    while i < to
        invariant
            from <= i <= to,
            to <= v.len(),
            r@ == v@.subrange(from as int, i as int),
        decreases to - i,
    {
        r.push(v[i]);
        assert(v@.subrange(from as int, i + 1) == v@.subrange(from as int, i as int).push(v@[i as int]));
        i = i + 1;
    }
    r
}

/// Appends `extra` to `v`.
fn append_bytes(v: &mut Vec<u8>, extra: &[u8])
    ensures
        final(v)@ == old(v)@ + extra@,
{
    let mut i: usize = 0;
    while i < extra.len()
        invariant
            i <= extra.len(),
            v@ == old(v)@ + extra@.take(i as int),
        decreases extra.len() - i,
    {
        v.push(extra[i]);
        assert(extra@.take(i + 1) == extra@.take(i as int).push(extra@[i as int]));
        i = i + 1;
    }
    assert(extra@.take(extra.len() as int) == extra@);
}

// ---- responses ------------------------------------------------------------------------

/// The reason phrase of a response status.
pub open spec fn reason_spec(status: u16) -> Seq<char> {
    if status == 200 {
        "OK"@
    } else if status == 401 {
        "Unauthorized"@
    } else {
        "Bad Request"@
    }
}

/// The head of a JSON response with a body of `body_len` bytes.
pub open spec fn response_head_spec(status: u16, body_len: usize) -> Seq<char> {
    "HTTP/1.1 "@ + spec_usize_decimal(status as usize) + " "@ + reason_spec(status)
        + "\r\nContent-Type: application/json\r\nContent-Length: "@ + spec_usize_decimal(body_len)
        + "\r\nConnection: close\r\n\r\n"@
}

/// Builds the head of a JSON response (see `response_head_spec`).
pub fn response_head(status: u16, body_len: usize) -> (r: String)
    ensures
        r@ == response_head_spec(status, body_len),
{
    let reason = if status == 200 {
        "OK"
    } else if status == 401 {
        "Unauthorized"
    } else {
        "Bad Request"
    };
    let mut v: Vec<char> = Vec::new();
    append_str(&mut v, "HTTP/1.1 ");
    let s = usize_decimal(status as usize);
    append_str(&mut v, s.as_str());
    append_str(&mut v, " ");
    append_str(&mut v, reason);
    append_str(&mut v, "\r\nContent-Type: application/json\r\nContent-Length: ");
    let n = usize_decimal(body_len);
    append_str(&mut v, n.as_str());
    append_str(&mut v, "\r\nConnection: close\r\n\r\n");
    string_of(&v)
}

/// A request is authentic when its gate-token header equals the run's token.
pub fn is_authentic(headers: &str, expected_token: &str) -> (r: bool)
    ensures
        r == (header_value_spec(headers@, GATE_TOKEN_HEADER@) == Some(expected_token@)),
{
    match header_value(headers, GATE_TOKEN_HEADER) {
        Some(v) => crate::text::str_eq(v.as_str(), expected_token),
        None => false,
    }
}

} // verus!
