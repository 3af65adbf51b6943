//! Which schema references are safe to follow. A `$ref` is resolved while
//! validating; a chain of references that comes back to where it started makes
//! the validator recurse without end. A schema is accepted when every
//! reference is a plain pointer into the schema itself and the references do
//! not form a cycle: no reference reaches, through the subschemas it points
//! into, back to itself.
use vstd::prelude::*;
use crate::json_value::{
    json_pointer_array_len, json_pointer_keys, json_pointer_str, spec_json_pointer_array_len,
    spec_json_pointer_keys, spec_json_pointer_str,
};
use crate::memory::is_ascii_alnum;
use crate::text::{
    append, append_str, chars_of, decimal_spec, seq_eq, slice, spec_usize_decimal, starts_with,
    starts_with_seq, str_eq, string_of, usize_decimal,
};

verus! {

/// How deep the walk over a schema goes; a deeper schema is not accepted.
pub const WALK_DEPTH: u32 = 200;

/// A key as a JSON Pointer token: `~` written `~0`, `/` written `~1`.
pub open spec fn escape_token(k: Seq<char>) -> Seq<char>
    decreases k.len(),
{
    if k.len() == 0 {
        Seq::empty()
    } else {
        escape_token(k.drop_last()) + (if k.last() == '~' {
            seq!['~', '0']
        } else if k.last() == '/' {
            seq!['~', '1']
        } else {
            seq![k.last()]
        })
    }
}

/// The pointer to the entry `k` of the object at `p`.
pub open spec fn key_pointer(p: Seq<char>, k: Seq<char>) -> Seq<char> {
    p + seq!['/'] + escape_token(k)
}

/// The pointer to the item `i` of the array at `p`.
pub open spec fn index_pointer(p: Seq<char>, i: nat) -> Seq<char> {
    p + seq!['/'] + decimal_spec(i)
}

/// The reference an entry contributes: `(where, what)` for a `$ref` entry whose
/// value is a string.
pub open spec fn key_refs(v: serde_json::Value, p: Seq<char>, key: Seq<char>) -> Seq<(Seq<char>, Seq<char>)> {
    if key == "$ref"@ {
        match spec_json_pointer_str(v, key_pointer(p, key)) {
            Some(s) => seq![(p, s)],
            None => Seq::empty(),
        }
    } else {
        Seq::empty()
    }
}

/// An entry that changes how references resolve: an identifier (`$id`, or
/// `id`) below the root, or an `unevaluatedProperties` / `unevaluatedItems`
/// keyword (which follows references while compiling).
pub open spec fn key_flag(v: serde_json::Value, p: Seq<char>, key: Seq<char>) -> bool {
    ((key == "$id"@ || key == "id"@) && p.len() > 0 && spec_json_pointer_str(v, key_pointer(p, key)) is Some)
        || key == "unevaluatedProperties"@ || key == "unevaluatedItems"@
}

/// What a walk of the value at `p` found, with `fuel` levels left: the
/// references in walk order, whether the walk ran out of depth, and whether an
/// entry that changes resolution was seen.
pub open spec fn walk_spec(v: serde_json::Value, p: Seq<char>, fuel: nat) -> (Seq<(Seq<char>, Seq<char>)>, bool, bool)
    decreases fuel, 0nat, 0nat,
{
    if fuel == 0 {
        (Seq::empty(), true, false)
    } else {
        match spec_json_pointer_keys(v, p) {
            Some(ks) => walk_keys_spec(v, p, ks, ks.len(), (fuel - 1) as nat),
            None => match spec_json_pointer_array_len(v, p) {
                Some(n) => walk_items_spec(v, p, n as nat, (fuel - 1) as nat),
                None => (Seq::empty(), false, false),
            },
        }
    }
}

/// The walk over the first `k` entries of the object at `p`.
pub open spec fn walk_keys_spec(v: serde_json::Value, p: Seq<char>, ks: Seq<Seq<char>>, k: nat, fuel: nat) -> (Seq<(Seq<char>, Seq<char>)>, bool, bool)
    decreases fuel, 1nat, k,
{
    if k == 0 || k > ks.len() {
        (Seq::empty(), false, false)
    } else {
        let a = walk_keys_spec(v, p, ks, (k - 1) as nat, fuel);
        let key = ks[k - 1];
        let b = walk_spec(v, key_pointer(p, key), fuel);
        (a.0 + key_refs(v, p, key) + b.0, a.1 || b.1, a.2 || key_flag(v, p, key) || b.2)
    }
}

/// The walk over the first `n` items of the array at `p`.
pub open spec fn walk_items_spec(v: serde_json::Value, p: Seq<char>, n: nat, fuel: nat) -> (Seq<(Seq<char>, Seq<char>)>, bool, bool)
    decreases fuel, 1nat, n,
{
    if n == 0 {
        (Seq::empty(), false, false)
    } else {
        let a = walk_items_spec(v, p, (n - 1) as nat, fuel);
        let b = walk_spec(v, index_pointer(p, (n - 1) as nat), fuel);
        (a.0 + b.0, a.1 || b.1, a.2 || b.2)
    }
}

/// The texts of a list of string pairs.
pub open spec fn pairs_view(s: Seq<(String, String)>) -> Seq<(Seq<char>, Seq<char>)> {
    s.map_values(|q: (String, String)| (q.0@, q.1@))
}

fn escape_token_exec(k: &str) -> (r: Vec<char>)
    ensures
        r@ == escape_token(k@),
{
    let cs = chars_of(k);
    let mut r: Vec<char> = Vec::new();
    let mut i: usize = 0;
    while i < cs.len()
        invariant
            i <= cs.len(),
            cs@ == k@,
            r@ == escape_token(cs@.take(i as int)),
        decreases cs.len() - i,
    {
        let c = cs[i];
        let ghost before = r@;
        if c == '~' {
            r.push('~');
            r.push('0');
        } else if c == '/' {
            r.push('~');
            r.push('1');
        } else {
            r.push(c);
        }
        proof {
            let t = cs@.take(i + 1);
            assert(t.drop_last() =~= cs@.take(i as int));
            assert(t.last() == c);
            assert(r@ =~= escape_token(t));
        }
        i = i + 1;
    }
    assert(cs@.take(cs.len() as int) =~= cs@);
    r
}

fn key_pointer_exec(p: &str, k: &str) -> (r: String)
    ensures
        r@ == key_pointer(p@, k@),
{
    let mut v = chars_of(p);
    v.push('/');
    let e = escape_token_exec(k);
    append(&mut v, &e);
    let r = string_of(&v);
    assert(r@ =~= key_pointer(p@, k@));
    r
}

fn index_pointer_exec(p: &str, i: usize) -> (r: String)
    ensures
        r@ == index_pointer(p@, i as nat),
{
    let mut v = chars_of(p);
    v.push('/');
    let d = usize_decimal(i);
    append_str(&mut v, d.as_str());
    let r = string_of(&v);
    assert(r@ =~= index_pointer(p@, i as nat));
    r
}

proof fn lemma_pairs_push(s: Seq<(String, String)>, x: (String, String))
    ensures
        pairs_view(s.push(x)) == pairs_view(s).push((x.0@, x.1@)),
{
    assert(pairs_view(s.push(x)) =~= pairs_view(s).push((x.0@, x.1@)));
}

/// Walks the value at `p` (see `walk_spec`), appending the references to `out`;
/// gives whether the walk ran out of depth and whether a resolution-changing
/// entry was seen.
fn walk_into(v: &serde_json::Value, p: &str, fuel: u32, out: &mut Vec<(String, String)>) -> (r: (bool, bool))
    ensures
        pairs_view(final(out)@) == pairs_view(old(out)@) + walk_spec(*v, p@, fuel as nat).0,
        r.0 == walk_spec(*v, p@, fuel as nat).1,
        r.1 == walk_spec(*v, p@, fuel as nat).2,
    decreases fuel,
{
    let ghost base = pairs_view(out@);
    if fuel == 0 {
        assert(pairs_view(out@) =~= base + Seq::<(Seq<char>, Seq<char>)>::empty());
        return (true, false);
    }
    let f = fuel - 1;
    match json_pointer_keys(v, p) {
        Some(ks) => {
            let ghost ksv = ks@.map_values(|k: String| k@);
            let mut deep = false;
            let mut flagged = false;
            let mut i: usize = 0;
            assert(pairs_view(out@) =~= base + Seq::<(Seq<char>, Seq<char>)>::empty());
            while i < ks.len()
                invariant
                    i <= ks.len(),
                    f < fuel,
                    f as nat == fuel as nat - 1,
                    spec_json_pointer_keys(*v, p@) == Some(ksv),
                    ksv == ks@.map_values(|k: String| k@),
                    pairs_view(out@) == base + walk_keys_spec(*v, p@, ksv, i as nat, f as nat).0,
                    deep == walk_keys_spec(*v, p@, ksv, i as nat, f as nat).1,
                    flagged == walk_keys_spec(*v, p@, ksv, i as nat, f as nat).2,
                decreases ks.len() - i,
            {
                let key = ks[i].as_str();
                assert(ksv[i as int] == key@);
                let child = key_pointer_exec(p, key);
                let ghost mid0 = pairs_view(out@);
                if str_eq(key, "$ref") {
                    match json_pointer_str(v, child.as_str()) {
                        Some(s) => {
                            let ghost before = out@;
                            let entry = (p.to_owned(), s);
                            let ghost e = entry;
                            out.push(entry);
                            proof {
                                lemma_pairs_push(before, e);
                            }
                        },
                        None => {},
                    }
                }
                let ghost mid = pairs_view(out@);
                assert(mid == mid0 + key_refs(*v, p@, key@));
                let is_id = str_eq(key, "$id") || str_eq(key, "id");
                let at_root = chars_of(p).len() == 0;
                let id_flag = if is_id && !at_root {
                    json_pointer_str(v, child.as_str()).is_some()
                } else {
                    false
                };
                let flag = id_flag || str_eq(key, "unevaluatedProperties") || str_eq(key, "unevaluatedItems");
                assert(flag == key_flag(*v, p@, key@));
                let (d, fl) = walk_into(v, child.as_str(), f, out);
                proof {
                    assert(pairs_view(out@) =~= base + walk_keys_spec(*v, p@, ksv, (i + 1) as nat, f as nat).0);
                }
                deep = deep || d;
                flagged = flagged || flag || fl;
                i = i + 1;
            }
            (deep, flagged)
        },
        None => match json_pointer_array_len(v, p) {
            Some(n) => {
                let mut deep = false;
                let mut flagged = false;
                let mut i: usize = 0;
                assert(pairs_view(out@) =~= base + Seq::<(Seq<char>, Seq<char>)>::empty());
                while i < n
                    invariant
                        i <= n,
                        f < fuel,
                        f as nat == fuel as nat - 1,
                        spec_json_pointer_keys(*v, p@) is None,
                        spec_json_pointer_array_len(*v, p@) == Some(n),
                        pairs_view(out@) == base + walk_items_spec(*v, p@, i as nat, f as nat).0,
                        deep == walk_items_spec(*v, p@, i as nat, f as nat).1,
                        flagged == walk_items_spec(*v, p@, i as nat, f as nat).2,
                    decreases n - i,
                {
                    let child = index_pointer_exec(p, i);
                    let (d, fl) = walk_into(v, child.as_str(), f, out);
                    proof {
                        assert(pairs_view(out@) =~= base + walk_items_spec(*v, p@, (i + 1) as nat, f as nat).0);
                    }
                    deep = deep || d;
                    flagged = flagged || fl;
                    i = i + 1;
                }
                (deep, flagged)
            },
            None => {
                assert(pairs_view(out@) =~= base + Seq::<(Seq<char>, Seq<char>)>::empty());
                (false, false)
            },
        },
    }
}


// ---- which references are safe ---------------------------------------------------------

/// A character a followed reference may hold: an ASCII letter or digit, or one
/// of `/ _ - . $` (nothing that a URL would escape or strip, and no `~`).
pub open spec fn ref_char(c: char) -> bool {
    is_ascii_alnum(c) || c == '/' || c == '_' || c == '-' || c == '.' || c == '$'
}

/// A reference that is a plain pointer into the schema itself: `#`, or `#/`
/// followed by reference characters.
pub open spec fn local_ref(s: Seq<char>) -> bool {
    &&& s.len() >= 1
    &&& s[0] == '#'
    &&& (s.len() == 1 || s[1] == '/')
    &&& forall|i: int| 1 <= i < s.len() ==> ref_char(#[trigger] s[i])
}

/// The pointer `t` names the location `l` or a place inside it.
pub open spec fn within(t: Seq<char>, l: Seq<char>) -> bool {
    l == t || starts_with_seq(l, t + seq!['/'])
}

/// Reference `i` points into a subschema that holds reference `j`.
pub open spec fn ref_edge(refs: Seq<(Seq<char>, Seq<char>)>, i: int, j: int) -> bool {
    within(refs[i].1.drop_first(), refs[j].0)
}

/// `rank` decreases along every edge among the references.
pub open spec fn ranked(refs: Seq<(Seq<char>, Seq<char>)>, rank: spec_fn(int) -> int) -> bool {
    forall|i: int, j: int|
        0 <= i < refs.len() && 0 <= j < refs.len() && #[trigger] ref_edge(refs, i, j) ==> rank(i) > rank(j)
}

/// The references form no cycle.
pub open spec fn acyclic(refs: Seq<(Seq<char>, Seq<char>)>) -> bool {
    exists|rank: spec_fn(int) -> int| ranked(refs, rank)
}

/// The references of a schema value, walked from its root.
pub open spec fn schema_walk(v: serde_json::Value) -> (Seq<(Seq<char>, Seq<char>)>, bool, bool) {
    walk_spec(v, Seq::empty(), WALK_DEPTH as nat)
}

/// A schema whose references can be followed without end is not: the walk
/// reached every level of it, and either it has no reference, or no entry
/// changes how references resolve, every reference is a plain pointer into
/// the schema, and the references form no cycle.
pub open spec fn references_safe(v: serde_json::Value) -> bool {
    let w = schema_walk(v);
    &&& !w.1
    &&& (w.0.len() == 0 || {
        &&& !w.2
        &&& forall|i: int| 0 <= i < w.0.len() ==> local_ref(#[trigger] w.0[i].1)
        &&& acyclic(w.0)
    })
}

fn ref_char_exec(c: char) -> (r: bool)
    ensures
        r == ref_char(c),
{
    ('a' <= c && c <= 'z') || ('A' <= c && c <= 'Z') || ('0' <= c && c <= '9') || c == '/' || c == '_'
        || c == '-' || c == '.' || c == '$'
}

fn local_ref_exec(s: &str) -> (r: bool)
    ensures
        r == local_ref(s@),
{
    let cs = chars_of(s);
    if cs.len() == 0 || cs[0] != '#' {
        return false;
    }
    if cs.len() > 1 && cs[1] != '/' {
        return false;
    }
    let mut i: usize = 1;
    while i < cs.len()
        invariant
            1 <= i <= cs.len(),
            cs@ == s@,
            forall|k: int| 1 <= k < i ==> ref_char(#[trigger] cs@[k]),
        decreases cs.len() - i,
    {
        if !ref_char_exec(cs[i]) {
            return false;
        }
        i = i + 1;
    }
    true
}

fn within_exec(t: &Vec<char>, l: &Vec<char>) -> (r: bool)
    ensures
        r == within(t@, l@),
{
    if seq_eq(l.as_slice(), t.as_slice()) {
        return true;
    }
    let mut tp = slice(t.as_slice(), 0, t.len());
    tp.push('/');
    assert(tp@ =~= t@ + seq!['/']);
    starts_with(l.as_slice(), tp.as_slice())
}

/// How many entries are `false`.
pub open spec fn count_false(s: Seq<bool>) -> nat
    decreases s.len(),
{
    if s.len() == 0 {
        0
    } else {
        count_false(s.drop_last()) + if s.last() {
            0nat
        } else {
            1nat
        }
    }
}

proof fn lemma_count_false_set(s: Seq<bool>, j: int)
    requires
        0 <= j < s.len(),
        !s[j],
    ensures
        count_false(s.update(j, true)) + 1 == count_false(s),
    decreases s.len(),
{
    let u = s.update(j, true);
    if j == s.len() - 1 {
        assert(u.drop_last() =~= s.drop_last());
    } else {
        assert(u.drop_last() =~= s.drop_last().update(j, true));
        lemma_count_false_set(s.drop_last(), j);
    }
}

proof fn lemma_count_false_all(s: Seq<bool>)
    requires
        forall|i: int| 0 <= i < s.len() ==> !#[trigger] s[i],
    ensures
        count_false(s) == s.len(),
    decreases s.len(),
{
    if s.len() > 0 {
        lemma_count_false_all(s.drop_last());
    }
}

/// Among the set marked by `in_s` (non-empty) some member has the largest rank.
proof fn lemma_max_rank(n: int, in_s: spec_fn(int) -> bool, rank: spec_fn(int) -> int) -> (m: int)
    requires
        0 <= n,
        exists|j: int| 0 <= j < n && #[trigger] in_s(j),
    ensures
        0 <= m < n,
        in_s(m),
        forall|k: int| 0 <= k < n && #[trigger] in_s(k) ==> rank(k) <= rank(m),
    decreases n,
{
    if in_s(n - 1) && !(exists|j: int| 0 <= j < n - 1 && #[trigger] in_s(j)) {
        n - 1
    } else if !in_s(n - 1) {
        let j = choose|j: int| 0 <= j < n && #[trigger] in_s(j);
        assert(j < n - 1);
        lemma_max_rank(n - 1, in_s, rank)
    } else {
        let m0 = lemma_max_rank(n - 1, in_s, rank);
        if rank(n - 1) > rank(m0) {
            n - 1
        } else {
            m0
        }
    }
}

/// A non-empty set in which every member is entered by an edge from a member
/// admits no ranking.
proof fn lemma_stuck_not_acyclic(refs: Seq<(Seq<char>, Seq<char>)>, in_s: spec_fn(int) -> bool)
    requires
        exists|j: int| 0 <= j < refs.len() && #[trigger] in_s(j),
        forall|j: int|
            0 <= j < refs.len() && #[trigger] in_s(j) ==> exists|i: int|
                0 <= i < refs.len() && in_s(i) && #[trigger] ref_edge(refs, i, j),
    ensures
        !acyclic(refs),
{
    if acyclic(refs) {
        let rank = choose|rank: spec_fn(int) -> int| ranked(refs, rank);
        let m = lemma_max_rank(refs.len() as int, in_s, rank);
        let i = choose|i: int| 0 <= i < refs.len() && in_s(i) && #[trigger] ref_edge(refs, i, m);
        assert(rank(i) > rank(m));
    }
}

/// Whether the references in `refs` form no cycle (see `acyclic`).
fn refs_acyclic(refs: &Vec<(String, String)>) -> (r: bool)
    requires
        forall|i: int| 0 <= i < refs@.len() ==> local_ref(#[trigger] refs@[i].1@),
    ensures
        r == acyclic(pairs_view(refs@)),
{
    let ghost rv = pairs_view(refs@);
    let n = refs.len();
    let mut targets: Vec<Vec<char>> = Vec::new();
    let mut locs: Vec<Vec<char>> = Vec::new();
    let mut k: usize = 0;
    while k < n
        invariant
            k <= n,
            n == refs@.len(),
            rv == pairs_view(refs@),
            forall|i: int| 0 <= i < refs@.len() ==> local_ref(#[trigger] refs@[i].1@),
            targets@.len() == k,
            locs@.len() == k,
            forall|i: int| 0 <= i < k ==> (#[trigger] targets@[i])@ == rv[i].1.drop_first(),
            forall|i: int| 0 <= i < k ==> (#[trigger] locs@[i])@ == rv[i].0,
        decreases n - k,
    {
        let s = chars_of(refs[k].1.as_str());
        assert(local_ref(refs@[k as int].1@));
        let t = slice(s.as_slice(), 1, s.len());
        assert(t@ =~= rv[k as int].1.drop_first());
        targets.push(t);
        locs.push(chars_of(refs[k].0.as_str()));
        k = k + 1;
    }
    let mut removed: Vec<bool> = Vec::new();
    let mut stamp: Vec<usize> = Vec::new();
    k = 0;
    while k < n
        invariant
            k <= n,
            removed@.len() == k,
            stamp@.len() == k,
            forall|i: int| 0 <= i < k ==> !#[trigger] removed@[i],
        decreases n - k,
    {
        removed.push(false);
        stamp.push(0);
        k = k + 1;
    }
    proof {
        lemma_count_false_all(removed@);
    }
    let mut count: usize = 0;
    loop
        invariant
            n == rv.len(),
            targets@.len() == n,
            locs@.len() == n,
            forall|i: int| 0 <= i < n ==> (#[trigger] targets@[i])@ == rv[i].1.drop_first(),
            forall|i: int| 0 <= i < n ==> (#[trigger] locs@[i])@ == rv[i].0,
            removed@.len() == n,
            stamp@.len() == n,
            count + count_false(removed@) == n,
            forall|j: int| 0 <= j < n && #[trigger] removed@[j] ==> stamp@[j] < count,
            forall|i: int, j: int|
                0 <= i < n && 0 <= j < n && removed@[j] && #[trigger] ref_edge(rv, i, j) ==> removed@[i]
                    && stamp@[i] < stamp@[j],
        ensures
            removed@.len() == n,
            stamp@.len() == n,
            forall|i: int, j: int|
                0 <= i < n && 0 <= j < n && removed@[j] && #[trigger] ref_edge(rv, i, j) ==> removed@[i]
                    && stamp@[i] < stamp@[j],
            forall|j: int|
                0 <= j < n && !removed@[j] ==> exists|i: int|
                    0 <= i < n && !removed@[i] && #[trigger] ref_edge(rv, i, j),
        decreases count_false(removed@),
    {
        // find a remaining reference that no remaining reference points into
        let mut found: Option<usize> = None;
        let mut j: usize = 0;
        while j < n
            invariant_except_break
                found is None,
            invariant
                j <= n,
                n == rv.len(),
                targets@.len() == n,
                locs@.len() == n,
                forall|i: int| 0 <= i < n ==> (#[trigger] targets@[i])@ == rv[i].1.drop_first(),
                forall|i: int| 0 <= i < n ==> (#[trigger] locs@[i])@ == rv[i].0,
                removed@.len() == n,
                forall|jj: int|
                    0 <= jj < j && !removed@[jj] ==> exists|i: int|
                        0 <= i < n && !removed@[i] && #[trigger] ref_edge(rv, i, jj),
            ensures
                match found {
                    None => forall|jj: int|
                        0 <= jj < n && !removed@[jj] ==> exists|i: int|
                            0 <= i < n && !removed@[i] && #[trigger] ref_edge(rv, i, jj),
                    Some(jj) => jj < n && !removed@[jj as int] && forall|q: int|
                        0 <= q < n && !removed@[q] ==> !#[trigger] ref_edge(rv, q, jj as int),
                },
            decreases n - j,
        {
            if !removed[j] {
                let mut entered = false;
                let mut i: usize = 0;
                while i < n
                    invariant
                        i <= n,
                        j < n,
                        n == rv.len(),
                        targets@.len() == n,
                        locs@.len() == n,
                        forall|q: int| 0 <= q < n ==> (#[trigger] targets@[q])@ == rv[q].1.drop_first(),
                        forall|q: int| 0 <= q < n ==> (#[trigger] locs@[q])@ == rv[q].0,
                        removed@.len() == n,
                        entered ==> exists|q: int| 0 <= q < n && !removed@[q] && #[trigger] ref_edge(rv, q, j as int),
                        !entered ==> forall|q: int| 0 <= q < i && !removed@[q] ==> !#[trigger] ref_edge(rv, q, j as int),
                    decreases n - i,
                {
                    if !removed[i] && within_exec(&targets[i], &locs[j]) {
                        assert(ref_edge(rv, i as int, j as int));
                        entered = true;
                    }
                    i = i + 1;
                }
                if !entered {
                    found = Some(j);
                    break;
                }
            }
            j = j + 1;
        }
        match found {
            None => {
                break;
            },
            Some(j) => {
                proof {
                    lemma_count_false_set(removed@, j as int);
                }
                removed.set(j, true);
                stamp.set(j, count);
                count = count + 1;
            },
        }
    }
    let mut all = true;
    let mut q: usize = 0;
    while q < n
        invariant
            q <= n,
            removed@.len() == n,
            all == forall|k: int| 0 <= k < q ==> #[trigger] removed@[k],
        decreases n - q,
    {
        if !removed[q] {
            all = false;
        }
        q = q + 1;
    }
    if all {
        proof {
            let rank = |i: int| -(stamp@[i] as int);
            assert(ranked(rv, rank));
        }
        true
    } else {
        proof {
            let in_s = |i: int| !removed@[i];
            let w = choose|k: int| 0 <= k < n && !removed@[k];
            assert(in_s(w));
            lemma_stuck_not_acyclic(rv, in_s);
        }
        false
    }
}

/// Whether a schema value's references are safe to follow (see
/// `references_safe`).
pub fn schema_references_safe(v: &serde_json::Value) -> (r: bool)
    ensures
        r == references_safe(*v),
{
    let mut out: Vec<(String, String)> = Vec::new();
    assert(pairs_view(out@) =~= Seq::<(Seq<char>, Seq<char>)>::empty());
    let root = "";
    proof {
        reveal_strlit("");
    }
    assert(root@ =~= Seq::<char>::empty());
    let (deep, flagged) = walk_into(v, root, WALK_DEPTH, &mut out);
    assert(pairs_view(out@) =~= schema_walk(*v).0);
    if deep {
        return false;
    }
    if out.len() == 0 {
        return true;
    }
    if flagged {
        return false;
    }
    let mut i: usize = 0;
    while i < out.len()
        invariant
            i <= out@.len(),
            pairs_view(out@) == schema_walk(*v).0,
            forall|k: int| 0 <= k < i ==> local_ref(#[trigger] out@[k].1@),
        decreases out.len() - i,
    {
        if !local_ref_exec(out[i].1.as_str()) {
            proof {
                assert(pairs_view(out@)[i as int].1 == out@[i as int].1@);
                assert(!local_ref(schema_walk(*v).0[i as int].1));
            }
            return false;
        }
        i = i + 1;
    }
    proof {
        assert forall|k: int| 0 <= k < pairs_view(out@).len() implies local_ref(#[trigger] pairs_view(out@)[k].1) by {
            assert(pairs_view(out@)[k].1 == out@[k].1@);
        }
    }
    refs_acyclic(&out)
}

} // verus!
