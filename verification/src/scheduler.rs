//! Scheduler planning: how many subtasks run at once, which colliding writers
//! need an isolated worktree, and how subtasks partition into waves whose
//! members never write the same path.
use vstd::prelude::*;
use crate::text::{chars_of, seq_eq};
use crate::workflow::{first_index, lemma_first_index_props, lemma_first_index_skip};

verus! {

/// CPUs held back for the app/UI when sizing the concurrency cap.
pub const CPU_RESERVE: usize = 2;

/// Floor on concurrent subtasks.
pub const MIN_CONCURRENCY: usize = 1;

/// Ceiling on concurrent subtasks.
pub const MAX_CONCURRENCY: usize = 4;

/// Default concurrency cap: `cpus - CPU_RESERVE` (saturating), clamped to
/// `[MIN_CONCURRENCY, MAX_CONCURRENCY]`.
pub fn default_concurrency(cpus: usize) -> (r: usize)
    ensures
        r == if cpus <= CPU_RESERVE + MIN_CONCURRENCY {
            MIN_CONCURRENCY as int
        } else if cpus >= CPU_RESERVE + MAX_CONCURRENCY {
            MAX_CONCURRENCY as int
        } else {
            cpus - CPU_RESERVE
        },
{
    let spare = if cpus > CPU_RESERVE {
        cpus - CPU_RESERVE
    } else {
        0
    };
    if spare < MIN_CONCURRENCY {
        MIN_CONCURRENCY
    } else if spare > MAX_CONCURRENCY {
        MAX_CONCURRENCY
    } else {
        spare
    }
}

pub open spec fn paths_view(p: Seq<String>) -> Seq<Seq<char>> {
    p.map_values(|s: String| s@)
}

/// Two write-path sets share a path.
pub open spec fn overlap(a: Seq<Seq<char>>, b: Seq<Seq<char>>) -> bool {
    exists|i: int, j: int| 0 <= i < a.len() && 0 <= j < b.len() && #[trigger] a[i] == #[trigger] b[j]
}

pub proof fn lemma_overlap_symmetric(a: Seq<Seq<char>>, b: Seq<Seq<char>>)
    ensures
        overlap(a, b) == overlap(b, a),
{
    if overlap(a, b) {
        let (i, j) = choose|i: int, j: int| 0 <= i < a.len() && 0 <= j < b.len() && #[trigger] a[i] == #[trigger] b[j];
        assert(b[j] == a[i]);
    }
    if overlap(b, a) {
        let (i, j) = choose|i: int, j: int| 0 <= i < b.len() && 0 <= j < a.len() && #[trigger] b[i] == #[trigger] a[j];
        assert(a[j] == b[i]);
    }
}

fn contains_path(paths: &Vec<Vec<char>>, p: &[char]) -> (r: bool)
    ensures
        r == exists|j: int| 0 <= j < paths@.len() && (#[trigger] paths@[j])@ == p@,
{
    let mut j: usize = 0;
    while j < paths.len()
        invariant
            j <= paths@.len(),
            forall|q: int| 0 <= q < j ==> (#[trigger] paths@[q])@ != p@,
        decreases paths.len() - j,
    {
        if seq_eq(&paths[j], p) {
            return true;
        }
        j = j + 1;
    }
    false
}

fn to_char_paths(a: &[String]) -> (r: Vec<Vec<char>>)
    ensures
        r@.len() == a@.len(),
        forall|i: int| 0 <= i < a@.len() ==> (#[trigger] r@[i])@ == a@[i]@,
{
    let mut r: Vec<Vec<char>> = Vec::new();
    let mut i: usize = 0;
    while i < a.len()
        invariant
            i <= a@.len(),
            r@.len() == i,
            forall|q: int| 0 <= q < i ==> (#[trigger] r@[q])@ == a@[q]@,
        decreases a.len() - i,
    {
        r.push(chars_of(a[i].as_str()));
        i = i + 1;
    }
    r
}

/// Whether two subtasks' declared write-path sets overlap.
pub fn paths_overlap(a: &[String], b: &[String]) -> (r: bool)
    ensures
        r == overlap(paths_view(a@), paths_view(b@)),
{
    let ac = to_char_paths(a);
    let mut j: usize = 0;
    while j < b.len()
        invariant
            j <= b@.len(),
            ac@.len() == a@.len(),
            forall|i: int| 0 <= i < a@.len() ==> (#[trigger] ac@[i])@ == a@[i]@,
            forall|q: int, i: int| 0 <= q < j && 0 <= i < a@.len() ==> #[trigger] a@[i]@ != #[trigger] b@[q]@,
        decreases b.len() - j,
    {
        let bj = chars_of(b[j].as_str());
        let found = contains_path(&ac, &bj);
        if !found {
            assert forall|i: int| 0 <= i < a@.len() implies a@[i]@ != b@[j as int]@ by {
                assert(ac@[i]@ == a@[i]@);
            }
        }
        if found {
            proof {
                let i = choose|i: int| 0 <= i < ac@.len() && (#[trigger] ac@[i])@ == bj@;
                assert(paths_view(a@)[i] == paths_view(b@)[j as int]);
            }
            return true;
        }
        j = j + 1;
    }
    proof {
        if overlap(paths_view(a@), paths_view(b@)) {
            let (i, q) = choose|i: int, q: int| 0 <= i < a@.len() && 0 <= q < b@.len() && #[trigger] paths_view(a@)[i] == #[trigger] paths_view(b@)[q];
            assert(a@[i]@ == paths_view(a@)[i]);
            assert(b@[q]@ == paths_view(b@)[q]);
        }
    }
    false
}

/// The wave member `i` must be isolated: it writes something, and some other
/// member writes an overlapping path.
pub open spec fn needs_isolation(wave: Seq<Seq<Seq<char>>>, i: int) -> bool {
    wave[i].len() > 0 && exists|j: int| 0 <= j < wave.len() && j != i && #[trigger] overlap(wave[i], wave[j])
}

/// The indices `i < n` satisfying `p`, in increasing order.
pub open spec fn indices_where(p: spec_fn(int) -> bool, n: int) -> Seq<usize>
    decreases n,
{
    if n <= 0 {
        Seq::empty()
    } else if p(n - 1) {
        indices_where(p, n - 1).push((n - 1) as usize)
    } else {
        indices_where(p, n - 1)
    }
}

pub open spec fn wave_view(wave: Seq<Vec<String>>) -> Seq<Seq<Seq<char>>> {
    wave.map_values(|v: Vec<String>| paths_view(v@))
}

/// Given the write-path sets of the subtasks running together in one wave,
/// the indices that must run in an isolated worktree because they collide
/// with a peer; read-only subtasks (empty paths) never need isolation.
pub fn isolation_required(wave: &[Vec<String>]) -> (r: Vec<usize>)
    ensures
        r@ == indices_where(|i: int| needs_isolation(wave_view(wave@), i), wave@.len() as int),
{
    let ghost wv = wave_view(wave@);
    let ghost p = |i: int| needs_isolation(wv, i);
    let mut required: Vec<usize> = Vec::new();
    let mut i: usize = 0;
    while i < wave.len()
        invariant
            i <= wave@.len(),
            wv == wave_view(wave@),
            p == (|i: int| needs_isolation(wv, i)),
            required@ == indices_where(p, i as int),
        decreases wave.len() - i,
    {
        let mut collides = false;
        if wave[i].len() > 0 {
            let mut j: usize = 0;
            while j < wave.len()
                invariant
                    i < wave@.len(),
                    wv == wave_view(wave@),
                    j <= wave@.len(),
                    !collides ==> forall|q: int| 0 <= q < j && q != i ==> !#[trigger] overlap(wv[i as int], wv[q]),
                    collides ==> exists|q: int| 0 <= q < wave@.len() && q != i && #[trigger] overlap(wv[i as int], wv[q]),
                decreases wave.len() - j,
            {
                if !collides && i != j && paths_overlap(&wave[i], &wave[j]) {
                    collides = true;
                    assert(overlap(wv[i as int], wv[j as int]));
                }
                j = j + 1;
            }
        }
        if collides {
            required.push(i);
        }
        assert(p(i as int) == collides);
        i = i + 1;
    }
    required
}

/// One greedy placement: member `i` joins the first wave none of whose members
/// it overlaps, or opens a new wave.
pub open spec fn place(waves: Seq<Seq<usize>>, paths: Seq<Seq<Seq<char>>>, i: int) -> Seq<Seq<usize>> {
    match first_index(
        |w: int| !(exists|k: int| 0 <= k < waves[w].len() && #[trigger] overlap(paths[i], paths[waves[w][k] as int])),
        0,
        waves.len() as int,
    ) {
        Some(w) => waves.update(w, waves[w].push(i as usize)),
        None => waves.push(seq![i as usize]),
    }
}

/// The greedy, order-preserving wave partition of the first `n` subtasks.
pub open spec fn waves_of(paths: Seq<Seq<Seq<char>>>, n: int) -> Seq<Seq<usize>>
    decreases n,
{
    if n <= 0 {
        Seq::empty()
    } else {
        place(waves_of(paths, n - 1), paths, n - 1)
    }
}

/// Within every wave, no two members' write-paths overlap; every member is
/// below `n`; and every subtask below `n` sits in some wave.
pub open spec fn waves_sound(waves: Seq<Seq<usize>>, paths: Seq<Seq<Seq<char>>>, n: int) -> bool {
    &&& forall|w: int, k: int| 0 <= w < waves.len() && 0 <= k < waves[w].len() ==> (#[trigger] waves[w][k]) < n
    &&& forall|w: int, k1: int, k2: int|
        0 <= w < waves.len() && 0 <= k1 < waves[w].len() && 0 <= k2 < waves[w].len() && k1 != k2
            ==> !overlap(paths[#[trigger] waves[w][k1] as int], paths[#[trigger] waves[w][k2] as int])
    &&& forall|m: int| 0 <= m < n ==> #[trigger] in_some_wave(waves, m)
}

/// Subtask `m` sits in some wave.
pub open spec fn in_some_wave(waves: Seq<Seq<usize>>, m: int) -> bool {
    exists|w: int, k: int| 0 <= w < waves.len() && 0 <= k < waves[w].len() && #[trigger] waves[w][k] == m
}

/// The greedy partition never puts two overlapping writers in one wave, and
/// places every subtask.
pub proof fn lemma_waves_sound(paths: Seq<Seq<Seq<char>>>, n: int)
    requires
        0 <= n <= paths.len(),
        n <= usize::MAX,
    ensures
        waves_sound(waves_of(paths, n), paths, n),
    decreases n,
{
    if n > 0 {
        lemma_waves_sound(paths, n - 1);
        let ws = waves_of(paths, n - 1);
        let i = n - 1;
        let pred = |w: int| !(exists|k: int| 0 <= k < ws[w].len() && #[trigger] overlap(paths[i], paths[ws[w][k] as int]));
        lemma_first_index_props(pred, 0, ws.len() as int);
        let ws2 = waves_of(paths, n);
        assert(ws2 == place(ws, paths, i));
        match first_index(pred, 0, ws.len() as int) {
            Some(w0) => {
                assert(pred(w0));
                assert(ws2 == ws.update(w0, ws[w0].push(i as usize)));
                assert forall|w: int, k1: int, k2: int|
                    0 <= w < ws2.len() && 0 <= k1 < ws2[w].len() && 0 <= k2 < ws2[w].len() && k1 != k2
                        implies !overlap(paths[#[trigger] ws2[w][k1] as int], paths[#[trigger] ws2[w][k2] as int]) by {
                    if w == w0 {
                        let last = ws[w0].len() as int;
                        if k1 == last {
                            assert(ws2[w][k1] == i as usize);
                            assert(ws2[w][k2] == ws[w0][k2]);
                            assert(!overlap(paths[i], paths[ws[w0][k2] as int]));
                        } else if k2 == last {
                            assert(ws2[w][k2] == i as usize);
                            assert(ws2[w][k1] == ws[w0][k1]);
                            assert(!overlap(paths[i], paths[ws[w0][k1] as int]));
                            lemma_overlap_symmetric(paths[i], paths[ws[w0][k1] as int]);
                        } else {
                            assert(ws2[w][k1] == ws[w][k1]);
                            assert(ws2[w][k2] == ws[w][k2]);
                        }
                    } else {
                        assert(ws2[w] == ws[w]);
                    }
                }
                assert forall|m: int| 0 <= m < n implies #[trigger] in_some_wave(ws2, m) by {
                    if m == i {
                        assert(ws2[w0][ws[w0].len() as int] == m);
                    } else {
                        assert(in_some_wave(ws, m));
                        let (w, k) = choose|w: int, k: int| 0 <= w < ws.len() && 0 <= k < ws[w].len() && #[trigger] ws[w][k] == m;
                        if w == w0 {
                            assert(ws2[w][k] == m);
                        } else {
                            assert(ws2[w][k] == m);
                        }
                    }
                }
                assert forall|w: int, k: int| 0 <= w < ws2.len() && 0 <= k < ws2[w].len() implies (#[trigger] ws2[w][k]) < n by {
                    if w == w0 && k == ws[w0].len() {
                    } else {
                        assert(ws2[w][k] == ws[w][k]);
                    }
                }
            },
            None => {
                assert(ws2 == ws.push(seq![i as usize]));
                assert forall|m: int| 0 <= m < n implies #[trigger] in_some_wave(ws2, m) by {
                    if m == i {
                        assert(ws2[ws.len() as int][0] == m);
                    } else {
                        assert(in_some_wave(ws, m));
                        let (w, k) = choose|w: int, k: int| 0 <= w < ws.len() && 0 <= k < ws[w].len() && #[trigger] ws[w][k] == m;
                        assert(ws2[w][k] == m);
                    }
                }
                assert forall|w: int, k: int| 0 <= w < ws2.len() && 0 <= k < ws2[w].len() implies (#[trigger] ws2[w][k]) < n by {
                    if w < ws.len() {
                        assert(ws2[w][k] == ws[w][k]);
                    }
                }
                assert forall|w: int, k1: int, k2: int|
                    0 <= w < ws2.len() && 0 <= k1 < ws2[w].len() && 0 <= k2 < ws2[w].len() && k1 != k2
                        implies !overlap(paths[#[trigger] ws2[w][k1] as int], paths[#[trigger] ws2[w][k2] as int]) by {
                    if w < ws.len() {
                        assert(ws2[w] == ws[w]);
                    }
                }
            },
        }
    }
}


/// The first wave none of whose members overlaps subtask `i`.
fn first_free_wave(waves: &Vec<Vec<usize>>, write_paths: &[Vec<String>], i: usize) -> (r: Option<usize>)
    requires
        i < write_paths@.len(),
        forall|a: int, b: int| 0 <= a < waves@.len() && 0 <= b < waves@[a]@.len() ==> (#[trigger] waves@[a]@[b]) < i,
    ensures
        ({
            let ws = waves_view(waves@);
            let pv = wave_view(write_paths@);
            let pred = |w: int| !(exists|k: int| 0 <= k < ws[w].len() && #[trigger] overlap(pv[i as int], pv[ws[w][k] as int]));
            match r {
                Some(w) => first_index(pred, 0, ws.len() as int) == Some(w as int) && w < waves@.len(),
                None => first_index(pred, 0, ws.len() as int) is None,
            }
        }),
{
    let ghost ws = waves_view(waves@);
    let ghost pv = wave_view(write_paths@);
    let ghost pred = |w: int| !(exists|k: int| 0 <= k < ws[w].len() && #[trigger] overlap(pv[i as int], pv[ws[w][k] as int]));
    let mut w: usize = 0;
    while w < waves.len()
        invariant
            i < write_paths@.len(),
            pv == wave_view(write_paths@),
            ws == waves_view(waves@),
            pred == (|w: int| !(exists|k: int| 0 <= k < ws[w].len() && #[trigger] overlap(pv[i as int], pv[ws[w][k] as int]))),
            w <= waves@.len(),
            forall|q: int| 0 <= q < w ==> !#[trigger] pred(q),
            forall|a: int, b: int| 0 <= a < waves@.len() && 0 <= b < waves@[a]@.len() ==> (#[trigger] waves@[a]@[b]) < i,
        decreases waves.len() - w,
    {
        let mut conflict = false;
        let mut k: usize = 0;
        while k < waves[w].len()
            invariant
                i < write_paths@.len(),
                w < waves@.len(),
                pv == wave_view(write_paths@),
                ws == waves_view(waves@),
                k <= waves@[w as int]@.len(),
                forall|a: int, b: int| 0 <= a < waves@.len() && 0 <= b < waves@[a]@.len() ==> (#[trigger] waves@[a]@[b]) < i,
                !conflict ==> forall|q: int| 0 <= q < k ==> !#[trigger] overlap(pv[i as int], pv[ws[w as int][q] as int]),
                conflict ==> exists|q: int| 0 <= q < ws[w as int].len() && #[trigger] overlap(pv[i as int], pv[ws[w as int][q] as int]),
            decreases waves@[w as int]@.len() - k,
        {
            let j = waves[w][k];
            if !conflict && paths_overlap(&write_paths[i], &write_paths[j]) {
                conflict = true;
                assert(ws[w as int][k as int] == j);
                assert(overlap(pv[i as int], pv[ws[w as int][k as int] as int]));
            }
            k = k + 1;
        }
        if !conflict {
            proof {
                assert(pred(w as int));
                lemma_first_index_skip(pred, 0, w as int, ws.len() as int);
            }
            return Some(w);
        }
        assert(!pred(w as int));
        w = w + 1;
    }
    proof {
        lemma_first_index_skip(pred, 0, ws.len() as int, ws.len() as int);
    }
    None
}

pub open spec fn waves_view(w: Seq<Vec<usize>>) -> Seq<Seq<usize>> {
    w.map_values(|v: Vec<usize>| v@)
}

/// Partition subtasks (by their declared write-path sets) into waves such that
/// within a wave no two subtasks' write-paths overlap. Greedy and
/// order-preserving: each subtask joins the earliest wave with no conflict.
pub fn non_overlapping_waves(write_paths: &[Vec<String>]) -> (r: Vec<Vec<usize>>)
    ensures
        waves_view(r@) == waves_of(wave_view(write_paths@), write_paths@.len() as int),
        waves_sound(waves_view(r@), wave_view(write_paths@), write_paths@.len() as int),
{
    let ghost pv = wave_view(write_paths@);
    let mut waves: Vec<Vec<usize>> = Vec::new();
    let mut i: usize = 0;
    while i < write_paths.len()
        invariant
            i <= write_paths@.len(),
            pv == wave_view(write_paths@),
            waves_view(waves@) == waves_of(pv, i as int),
        decreases write_paths.len() - i,
    {
        let ghost ws = waves_view(waves@);
        proof {
            lemma_waves_sound(pv, i as int);
            assert forall|a: int, b: int| 0 <= a < waves@.len() && 0 <= b < waves@[a]@.len() implies (#[trigger] waves@[a]@[b]) < i by {
                assert(ws[a][b] == waves@[a]@[b]);
            }
        }
        match first_free_wave(&waves, write_paths, i) {
            Some(w) => {
                waves[w].push(i);
            },
            None => {
                let mut fresh: Vec<usize> = Vec::new();
                fresh.push(i);
                waves.push(fresh);
            },
        }
        assert(waves_view(waves@) =~= place(ws, pv, i as int));
        i = i + 1;
    }
    proof {
        lemma_waves_sound(pv, write_paths@.len() as int);
    }
    waves
}

} // verus!
