//! Balanced-`{…}`-object scanning for JSON embedded in prose or fences.
//!
//! The scan is string- and escape-aware: braces inside `"…"` strings are not
//! delimiters. Its behaviour is the fold `scan` below over the characters.
use vstd::prelude::*;
use vstd::string::StrSliceExecFns;

verus! {

/// The scanner's state after some prefix of the text.
pub struct ScanState {
    pub depth: nat,
    pub start: int,
    pub in_str: bool,
    pub escaped: bool,
    /// `(first, last)` character indices of each completed top-level object.
    pub spans: Seq<(int, int)>,
}

pub open spec fn scan_init() -> ScanState {
    ScanState { depth: 0, start: 0, in_str: false, escaped: false, spans: Seq::empty() }
}

/// One scanner step on character `c` at index `i`.
pub open spec fn scan_step(st: ScanState, i: int, c: char) -> ScanState {
    if st.in_str {
        if st.escaped {
            ScanState { escaped: false, ..st }
        } else if c == '\\' {
            ScanState { escaped: true, ..st }
        } else if c == '"' {
            ScanState { in_str: false, ..st }
        } else {
            st
        }
    } else if c == '"' {
        ScanState { in_str: true, ..st }
    } else if c == '{' {
        ScanState {
            depth: st.depth + 1,
            start: if st.depth == 0 { i } else { st.start },
            ..st
        }
    } else if c == '}' {
        if st.depth > 0 {
            if st.depth == 1 {
                ScanState { depth: 0, spans: st.spans.push((st.start, i)), ..st }
            } else {
                ScanState { depth: (st.depth - 1) as nat, ..st }
            }
        } else {
            st
        }
    } else {
        st
    }
}

/// The scanner state after the first `n` characters of `s`.
pub open spec fn scan(s: Seq<char>, n: int) -> ScanState
    decreases n,
{
    if n <= 0 {
        scan_init()
    } else {
        scan_step(scan(s, n - 1), n - 1, s[n - 1])
    }
}

/// The spans of every top-level balanced object in `s`, in order.
pub open spec fn object_spans(s: Seq<char>) -> Seq<(int, int)> {
    scan(s, s.len() as int).spans
}

/// The texts of every top-level balanced object in `s`, in order.
pub open spec fn balanced_object_texts(s: Seq<char>) -> Seq<Seq<char>> {
    object_spans(s).map_values(|p: (int, int)| s.subrange(p.0, p.1 + 1))
}

/// Well-formedness of a scan state over the first `n` characters.
pub open spec fn scan_wf(s: Seq<char>, n: int, st: ScanState) -> bool {
    &&& st.depth > 0 ==> 0 <= st.start < n && s[st.start] == '{'
    &&& forall|k: int|
        0 <= k < st.spans.len() ==> {
            let p = #[trigger] st.spans[k];
            0 <= p.0 < p.1 < n && s[p.0] == '{' && s[p.1] == '}'
        }
    &&& forall|k: int|
        0 <= k < st.spans.len() - 1 ==> (#[trigger] st.spans[k]).1 < st.spans[k + 1].0
    &&& (st.depth > 0 && st.spans.len() > 0) ==> st.spans.last().1 < st.start
}

/// Every span the scan yields is a `{`…`}` substring, and spans are disjoint and
/// in increasing order.
pub proof fn lemma_scan_wf(s: Seq<char>, n: int)
    requires
        0 <= n <= s.len(),
    ensures
        scan_wf(s, n, scan(s, n)),
    decreases n,
{
    if n > 0 {
        lemma_scan_wf(s, n - 1);
        let st = scan(s, n - 1);
        let st2 = scan(s, n);
        if !st.in_str && s[n - 1] == '}' && st.depth == 1 {
            assert(st2.spans == st.spans.push((st.start, n - 1)));
            assert forall|k: int| 0 <= k < st2.spans.len() - 1 implies (
            #[trigger] st2.spans[k]).1 < st2.spans[k + 1].0 by {
                if k < st.spans.len() - 1 {
                    assert(st2.spans[k] == st.spans[k]);
                    assert(st2.spans[k + 1] == st.spans[k + 1]);
                }
            }
        }
    }
}

/// Every top-level balanced `{…}` object substring in `text`, in order.
pub fn balanced_objects(text: &str) -> (r: Vec<&str>)
    ensures
        r@.len() == balanced_object_texts(text@).len(),
        forall|k: int| 0 <= k < r@.len() ==> (#[trigger] r@[k])@ == balanced_object_texts(text@)[k],
        forall|k: int|
            0 <= k < r@.len() ==> {
                let o = (#[trigger] r@[k])@;
                o.len() >= 2 && o[0] == '{' && o.last() == '}'
            },
{
    let ghost s = text@;
    let chars = crate::text::chars_of(text);
    let mut out: Vec<&str> = Vec::new();
    let mut depth: usize = 0;
    let mut start: usize = 0;
    let mut in_str = false;
    let mut escaped = false;
    let mut i: usize = 0;
    while i < chars.len()
        invariant
            chars@ == s,
            s == text@,
            i <= chars.len(),
            depth <= i,
            ({
                let st = scan(s, i as int);
                &&& st.depth == depth
                &&& st.depth > 0 ==> st.start == start
                &&& st.in_str == in_str
                &&& st.escaped == escaped
                &&& out@.len() == st.spans.len()
                &&& forall|k: int|
                    0 <= k < out@.len() ==> (#[trigger] out@[k])@ == s.subrange(
                        st.spans[k].0,
                        st.spans[k].1 + 1,
                    )
            }),
        decreases chars.len() - i,
    {
        let b = chars[i];
        proof {
            lemma_scan_wf(s, i as int);
        }
        if in_str {
            if escaped {
                escaped = false;
            } else if b == '\\' {
                escaped = true;
            } else if b == '"' {
                in_str = false;
            }
        } else if b == '"' {
            in_str = true;
        } else if b == '{' {
            if depth == 0 {
                start = i;
            }
            depth = depth + 1;
        } else if b == '}' {
            if depth > 0 {
                depth = depth - 1;
                if depth == 0 {
                    let piece = text.substring_char(start, i + 1);
                    out.push(piece);
                }
            }
        }
        i = i + 1;
    }
    proof {
        lemma_scan_wf(s, s.len() as int);
        let st = scan(s, s.len() as int);
        assert forall|k: int| 0 <= k < out@.len() implies {
            let o = (#[trigger] out@[k])@;
            o.len() >= 2 && o[0] == '{' && o.last() == '}'
        } by {
            let p = st.spans[k];
            assert(s.subrange(p.0, p.1 + 1)[0] == s[p.0]);
            assert(s.subrange(p.0, p.1 + 1)[p.1 - p.0] == s[p.1]);
        }
    }
    out
}

/// The first top-level balanced `{…}` object substring, if any.
pub fn first_balanced_object(text: &str) -> (r: Option<&str>)
    ensures
        match r {
            Some(o) => balanced_object_texts(text@).len() > 0 && o@ == balanced_object_texts(
                text@,
            )[0],
            None => balanced_object_texts(text@).len() == 0,
        },
{
    let objs = balanced_objects(text);
    if objs.len() > 0 {
        Some(objs[0])
    } else {
        None
    }
}

} // verus!
