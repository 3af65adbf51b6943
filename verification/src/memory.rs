//! The memory store's own rules: note titles, slugs, the Markdown projection of
//! a learning, tiered retrieval over a project's notes, the relationship walk,
//! and the recall block folded into a goal. The store itself (the database and
//! the files) performs the reads and writes these decide.
use vstd::prelude::*;
use crate::identity::first_nonblank;
use crate::text::{
    append, append_str, chars_of, contains, contains_seq, lowercase, slice, spec_lowercase, split,
    is_ascii, is_ascii_upper, ascii_lower_char, all_ascii,
    split_from, split_seq, str_eq, string_of, trim, trim_char, trim_char_end, trim_char_seq,
    trim_char_start, trim_seq, trim_start_seq, trim_end_seq, is_ws, occurs_at,
};

verus! {

/// A new learning to persist.
#[derive(Debug, Clone)]
pub struct MemoryInput {
    pub project_id: String,
    pub text: String,
    pub tags: Vec<String>,
    pub source_type: Option<String>,
    pub source_ref: Option<String>,
}

/// The vault metadata of a note; `relationships` is `(target, rel_type)`.
#[derive(Debug, Clone)]
pub struct NoteMeta {
    /// Display name for the link index; derived from the body when blank.
    pub title: String,
    pub summary: String,
    pub tier: String,
    pub lifecycle: String,
    pub provenance: String,
    pub relationships: Vec<(String, String)>,
}

/// A tiered-retrieval query.
pub struct TieredQuery<'a> {
    pub project_id: &'a str,
    pub terms: &'a str,
    pub limit: usize,
}

/// A stored learning. Absent values are stored as empty strings.
#[derive(Debug, Clone, PartialEq)]
pub struct MemoryRecord {
    pub uid: String,
    pub user_id: String,
    pub project_id: String,
    pub text: String,
    pub tags: Vec<String>,
    pub created_at: String,
    pub curation_state: String,
    pub source_type: String,
    pub source_ref: String,
    /// A short summary that powers cheap retrieval.
    pub summary: String,
    /// core | supporting | peripheral (or empty).
    pub tier: String,
    /// draft | reviewed | verified | disputed | archived (or empty).
    pub lifecycle: String,
    /// extracted | inferred | ambiguous (or empty).
    pub provenance: String,
}

impl Default for MemoryRecord {
    fn default() -> (r: Self)
        ensures
            r.uid@.len() == 0 && r.user_id@.len() == 0 && r.project_id@.len() == 0
                && r.text@.len() == 0 && r.tags@.len() == 0 && r.created_at@.len() == 0
                && r.curation_state@.len() == 0 && r.source_type@.len() == 0
                && r.source_ref@.len() == 0 && r.summary@.len() == 0 && r.tier@.len() == 0
                && r.lifecycle@.len() == 0 && r.provenance@.len() == 0,
    {
        MemoryRecord {
            uid: String::new(),
            user_id: String::new(),
            project_id: String::new(),
            text: String::new(),
            tags: Vec::new(),
            created_at: String::new(),
            curation_state: String::new(),
            source_type: String::new(),
            source_ref: String::new(),
            summary: String::new(),
            tier: String::new(),
            lifecycle: String::new(),
            provenance: String::new(),
        }
    }
}

impl MemoryRecord {
    /// Field-for-field equality of two records' contents.
    pub open spec fn same_as(&self, other: MemoryRecord) -> bool {
        &&& self.uid@ == other.uid@
        &&& self.user_id@ == other.user_id@
        &&& self.project_id@ == other.project_id@
        &&& self.text@ == other.text@
        &&& self.tags@.map_values(|t: String| t@) == other.tags@.map_values(|t: String| t@)
        &&& self.created_at@ == other.created_at@
        &&& self.curation_state@ == other.curation_state@
        &&& self.source_type@ == other.source_type@
        &&& self.source_ref@ == other.source_ref@
        &&& self.summary@ == other.summary@
        &&& self.tier@ == other.tier@
        &&& self.lifecycle@ == other.lifecycle@
        &&& self.provenance@ == other.provenance@
    }

    /// A field-for-field copy.
    pub fn duplicate(&self) -> (r: Self)
        ensures
            r.same_as(*self),
    {
        let tags = self.tags.clone();
        proof {
            assert(tags@ =~= self.tags@);
        }
        MemoryRecord {
            uid: self.uid.clone(),
            user_id: self.user_id.clone(),
            project_id: self.project_id.clone(),
            text: self.text.clone(),
            tags,
            created_at: self.created_at.clone(),
            curation_state: self.curation_state.clone(),
            source_type: self.source_type.clone(),
            source_ref: self.source_ref.clone(),
            summary: self.summary.clone(),
            tier: self.tier.clone(),
            lifecycle: self.lifecycle.clone(),
            provenance: self.provenance.clone(),
        }
    }
}

/// One tiered-retrieval hit, tagged by the tier it matched at.
#[derive(Debug, Clone, PartialEq)]
pub enum TieredResult {
    Summary(MemoryRecord),
    Section(MemoryRecord),
    Full(MemoryRecord),
    Related(MemoryRecord),
}

impl TieredResult {
    pub open spec fn record_spec(&self) -> MemoryRecord {
        match self {
            TieredResult::Summary(r) => *r,
            TieredResult::Section(r) => *r,
            TieredResult::Full(r) => *r,
            TieredResult::Related(r) => *r,
        }
    }

    /// The record of a hit, whatever its tier.
    pub fn record(&self) -> (r: &MemoryRecord)
        ensures
            *r == self.record_spec(),
    {
        match self {
            TieredResult::Summary(r) | TieredResult::Section(r) | TieredResult::Full(r)
            | TieredResult::Related(r) => r,
        }
    }
}

/// A persisted workflow template; `content` is the serialized workflow graph.
#[derive(Debug, Clone, PartialEq)]
pub struct StoredTemplate {
    pub uid: String,
    pub author_id: String,
    pub name: String,
    pub description: String,
    pub content: String,
    pub tags: Vec<String>,
    pub created_at: String,
    pub updated_at: String,
}

// ---- titles and slugs ----------------------------------------------------------

/// The longest title kept for the link index, in characters.
pub const TITLE_MAX: usize = 80;

/// At most the first `n` characters of `s`.
pub open spec fn take_at_most(s: Seq<char>, n: int) -> Seq<char> {
    if s.len() <= n {
        s
    } else {
        s.take(n)
    }
}

/// A note's title: its first non-blank line, without leading `#`s, trimmed and
/// cut to eighty characters; empty when the body is blank.
pub open spec fn derive_title_spec(text: Seq<char>) -> Seq<char> {
    match first_nonblank(split_seq(text, "\n"@)) {
        Some(line) => take_at_most(trim_seq(trim_char_start(line, '#')), TITLE_MAX as int),
        None => Seq::empty(),
    }
}

/// A note's display title for the link index (see `derive_title_spec`).
pub fn derive_title(text: &str) -> (r: String)
    ensures
        r@ == derive_title_spec(text@),
{
    let t = chars_of(text);
    let nl = chars_of("\n");
    proof {
        reveal_strlit("\n");
    }
    let lines = split(&t, &nl);
    let ghost ls = lines@.map_values(|p: Vec<char>| p@);
    let mut i: usize = 0;
    assert(ls.skip(0) == ls);
    while i < lines.len()
        invariant
            0 <= i <= lines@.len(),
            ls == lines@.map_values(|p: Vec<char>| p@),
            first_nonblank(split_seq(text@, "\n"@)) == first_nonblank(ls.skip(i as int)),
        decreases lines.len() - i,
    {
        let l = trim(&lines[i]);
        proof {
            assert(ls.skip(i as int)[0] == lines@[i as int]@);
            assert(ls.skip(i as int).drop_first() == ls.skip(i + 1));
        }
        if l.len() > 0 {
            let mut k: usize = 0;
            assert(l@.subrange(0, l.len() as int) =~= l@);
            while k < l.len() && l[k] == '#'
                invariant
                    k <= l.len(),
                    trim_char_start(l@, '#') == trim_char_start(
                        l@.subrange(k as int, l.len() as int),
                        '#',
                    ),
                decreases l.len() - k,
            {
                assert(l@.subrange(k as int, l.len() as int).drop_first() =~= l@.subrange(
                    k + 1,
                    l.len() as int,
                ));
                k = k + 1;
            }
            let rest = slice(&l, k, l.len());
            let tt = trim(&rest);
            let n = if tt.len() <= TITLE_MAX {
                tt.len()
            } else {
                TITLE_MAX
            };
            let cut = slice(&tt, 0, n);
            assert(cut@ == take_at_most(tt@, TITLE_MAX as int));
            return string_of(&cut);
        }
        i = i + 1;
    }
    String::new()
}

/// An ASCII letter or digit.
pub open spec fn is_ascii_alnum(c: char) -> bool {
    ('a' <= c && c <= 'z') || ('A' <= c && c <= 'Z') || ('0' <= c && c <= '9')
}

/// Every character that is not an ASCII letter or digit replaced by `-`.
pub open spec fn dash_non_alnum(s: Seq<char>) -> Seq<char> {
    s.map_values(|c: char| if is_ascii_alnum(c) { c } else { '-' })
}

/// Some piece of `ps` is non-empty.
pub open spec fn has_piece(ps: Seq<Seq<char>>) -> bool {
    exists|i: int| 0 <= i < ps.len() && (#[trigger] ps[i]).len() > 0
}

/// The non-empty pieces of `ps`, joined by `-`.
pub open spec fn join_nonempty_dash(ps: Seq<Seq<char>>) -> Seq<char>
    decreases ps.len(),
{
    if ps.len() == 0 {
        Seq::empty()
    } else {
        let w = ps.last();
        let prev = join_nonempty_dash(ps.drop_last());
        if w.len() == 0 {
            prev
        } else if has_piece(ps.drop_last()) {
            prev + "-"@ + w
        } else {
            w
        }
    }
}

/// A stable id from a name: trimmed, lowercased, every run of characters other
/// than ASCII letters and digits collapsed to one `-`, no `-` at either end.
pub open spec fn slug_spec(name: Seq<char>) -> Seq<char> {
    dash_collapse(spec_lowercase(trim_seq(name)))
}

/// The step of a slug after lowercasing: every run of characters other than
/// ASCII letters and digits collapsed to one `-`, no `-` at either end.
pub open spec fn dash_collapse(s: Seq<char>) -> Seq<char> {
    join_nonempty_dash(split_seq(trim_char_seq(dash_non_alnum(s), '-'), "-"@))
}

/// Without a non-empty piece, the join is empty.
proof fn lemma_join_empty(ps: Seq<Seq<char>>)
    requires
        !has_piece(ps),
    ensures
        join_nonempty_dash(ps).len() == 0,
    decreases ps.len(),
{
    if ps.len() > 0 {
        assert(!has_piece(ps.drop_last())) by {
            if has_piece(ps.drop_last()) {
                let j = choose|j: int| 0 <= j < ps.drop_last().len() && (#[trigger] ps.drop_last()[j]).len() > 0;
                assert(ps[j] == ps.drop_last()[j]);
            }
        }
        assert(ps.last().len() == 0) by {
            assert(ps[ps.len() - 1] == ps.last());
        }
        lemma_join_empty(ps.drop_last());
    }
}

/// A stable id from a name (template ids, memory slugs). It holds only
/// lowercase ASCII letters, digits and `-`, never starts or ends with `-` nor
/// holds `--`, is empty exactly when the lowercased, trimmed name holds no
/// ASCII letter or digit, and is its own slug.
pub fn slug(name: &str) -> (r: String)
    ensures
        r@ == slug_spec(name@),
        slug_shaped(r@),
        forall|i: int| 0 <= i < r@.len() ==> lower_slug_char(#[trigger] r@[i]),
        r@.len() == 0 <==> !has_alnum(spec_lowercase(trim_seq(name@))),
        all_ascii(name@) ==> (r@.len() == 0 <==> !has_alnum(name@)),
        slug_spec(r@) == r@,
{
    let trimmed = trim_str_chars(name);
    let lower = lowercase(string_of(&trimmed).as_str());
    let lc = chars_of(lower.as_str());
    let mut mapped: Vec<char> = Vec::new();
    let mut i: usize = 0;
    while i < lc.len()
        invariant
            0 <= i <= lc.len(),
            mapped@ == dash_non_alnum(lc@.take(i as int)),
        decreases lc.len() - i,
    {
        let c = lc[i];
        let m = if ('a' <= c && c <= 'z') || ('A' <= c && c <= 'Z') || ('0' <= c && c <= '9') {
            c
        } else {
            '-'
        };
        mapped.push(m);
        proof {
            assert(lc@.take(i + 1) == lc@.take(i as int).push(c));
            assert(dash_non_alnum(lc@.take(i + 1)) =~= dash_non_alnum(lc@.take(i as int)).push(m));
        }
        i = i + 1;
    }
    assert(lc@.take(lc.len() as int) == lc@);
    let stripped = trim_char(&mapped, '-');
    let dash = chars_of("-");
    proof {
        reveal_strlit("-");
    }
    let pieces = split(&stripped, &dash);
    let ghost pv = pieces@.map_values(|p: Vec<char>| p@);
    let mut out: Vec<char> = Vec::new();
    let mut any = false;
    let mut j: usize = 0;
    assert(pv.take(0) == Seq::<Seq<char>>::empty());
    while j < pieces.len()
        invariant
            0 <= j <= pieces@.len(),
            pv == pieces@.map_values(|p: Vec<char>| p@),
            out@ == join_nonempty_dash(pv.take(j as int)),
            any == has_piece(pv.take(j as int)),
        decreases pieces.len() - j,
    {
        let p = &pieces[j];
        proof {
            let t = pv.take(j + 1);
            assert(t.drop_last() == pv.take(j as int));
            assert(t.last() == p@);
        }
        if p.len() > 0 {
            let ghost out0 = out@;
            if any {
                out.push('-');
            }
            let ghost out1 = out@;
            append(&mut out, p);
            proof {
                let t = pv.take(j + 1);
                reveal_strlit("-");
                if any {
                    assert(out1 == out0 + "-"@);
                } else {
                    lemma_join_empty(pv.take(j as int));
                }
                assert(has_piece(t)) by {
                    assert(t[j as int] == p@);
                }
            }
            any = true;
        } else {
            proof {
                let t = pv.take(j + 1);
                assert(has_piece(t) == has_piece(pv.take(j as int))) by {
                    if has_piece(t) {
                        let k = choose|k: int| 0 <= k < t.len() && (#[trigger] t[k]).len() > 0;
                        assert(pv.take(j as int)[k] == t[k]);
                    }
                    if has_piece(pv.take(j as int)) {
                        let k = choose|k: int| 0 <= k < j && (#[trigger] pv.take(j as int)[k]).len() > 0;
                        assert(t[k] == pv.take(j as int)[k]);
                    }
                }
            }
        }
        j = j + 1;
    }
    assert(pv.take(pieces.len() as int) == pv);
    let r = string_of(&out);
    proof {
        lemma_slug_shape(name@);
        let low = spec_lowercase(trim_seq(name@));
        assert(lc@ == low);
        let okc = |c: char| lower_slug_char(c);
        assert forall|m: int| 0 <= m < dash_non_alnum(low).len() implies okc(
            #[trigger] dash_non_alnum(low)[m],
        ) by {
            assert(!is_ascii_upper(low[m]));
        }
        lemma_collapse_keeps(low, okc);
        assert forall|i: int| 0 <= i < r@.len() implies lower_slug_char(#[trigger] r@[i]) by {
            assert(okc(r@[i]));
        }
        lemma_lower_slug_is_own_lowercase(r@);
        lemma_slug_idempotent(name@);
        if all_ascii(name@) {
            lemma_ascii_alnum_survives(name@);
        }
    }
    r
}

/// The characters of `s` with surrounding whitespace removed.
fn trim_str_chars(s: &str) -> (r: Vec<char>)
    ensures
        r@ == trim_seq(s@),
{
    let v = chars_of(s);
    trim(&v)
}

// ---- the shape of a slug ---------------------------------------------------------

/// A character a slug may hold: an ASCII letter or digit, or `-`.
pub open spec fn slug_char(c: char) -> bool {
    is_ascii_alnum(c) || c == '-'
}

/// The shape every slug has: only slug characters, no `-` at either end, and
/// never two `-` in a row.
pub open spec fn slug_shaped(r: Seq<char>) -> bool {
    &&& forall|i: int| 0 <= i < r.len() ==> slug_char(#[trigger] r[i])
    &&& r.len() > 0 ==> r[0] != '-' && r[r.len() - 1] != '-'
    &&& forall|i: int| 0 <= i < r.len() - 1 && #[trigger] r[i] == '-' ==> r[i + 1] != '-'
}

/// `s` holds an ASCII letter or digit.
pub open spec fn has_alnum(s: Seq<char>) -> bool {
    exists|i: int| 0 <= i < s.len() && is_ascii_alnum(#[trigger] s[i])
}

/// `s` holds a character other than `-`.
pub open spec fn has_non_dash(s: Seq<char>) -> bool {
    exists|i: int| 0 <= i < s.len() && #[trigger] s[i] != '-'
}

/// Every piece of `ps` holds only ASCII letters and digits.
pub open spec fn pieces_alnum(ps: Seq<Seq<char>>) -> bool {
    forall|k: int, j: int| 0 <= k < ps.len() && 0 <= j < ps[k].len() ==> is_ascii_alnum(#[trigger] ps[k][j])
}

proof fn lemma_has_piece_cons(a: Seq<char>, rest: Seq<Seq<char>>)
    ensures
        has_piece(seq![a] + rest) == (a.len() > 0 || has_piece(rest)),
{
    let ps = seq![a] + rest;
    if has_piece(rest) {
        let k = choose|k: int| 0 <= k < rest.len() && (#[trigger] rest[k]).len() > 0;
        assert(ps[k + 1] == rest[k]);
    }
    if a.len() > 0 {
        assert(ps[0] == a);
    }
    if has_piece(ps) {
        let k = choose|k: int| 0 <= k < ps.len() && (#[trigger] ps[k]).len() > 0;
        if k > 0 {
            assert(rest[k - 1] == ps[k]);
        }
    }
}

/// A non-empty join has a non-empty piece.
proof fn lemma_join_nonempty_has_piece(ps: Seq<Seq<char>>)
    requires
        join_nonempty_dash(ps).len() > 0,
    ensures
        has_piece(ps),
{
    if !has_piece(ps) {
        lemma_join_empty(ps);
    }
}

/// The join read from the front.
proof fn lemma_join_cons(a: Seq<char>, rest: Seq<Seq<char>>)
    ensures
        join_nonempty_dash(seq![a] + rest) == if a.len() == 0 {
            join_nonempty_dash(rest)
        } else if has_piece(rest) {
            a + "-"@ + join_nonempty_dash(rest)
        } else {
            a
        },
    decreases rest.len(),
{
    let ps = seq![a] + rest;
    lemma_has_piece_cons(a, rest);
    if rest.len() == 0 {
        assert(ps.drop_last() =~= Seq::<Seq<char>>::empty());
        assert(ps.last() == a);
        assert(!has_piece(rest));
        assert(join_nonempty_dash(ps.drop_last()) == Seq::<char>::empty());
        assert(join_nonempty_dash(rest) == Seq::<char>::empty());
    } else {
        let r0 = rest.drop_last();
        let w = rest.last();
        assert(ps.drop_last() =~= seq![a] + r0);
        assert(ps.last() == w);
        lemma_join_cons(a, r0);
        lemma_has_piece_cons(a, r0);
        assert(has_piece(rest) == (has_piece(r0) || w.len() > 0)) by {
            if has_piece(r0) {
                let k = choose|k: int| 0 <= k < r0.len() && (#[trigger] r0[k]).len() > 0;
                assert(rest[k] == r0[k]);
            }
            if w.len() > 0 {
                assert(rest[rest.len() - 1] == w);
            }
            if has_piece(rest) {
                let k = choose|k: int| 0 <= k < rest.len() && (#[trigger] rest[k]).len() > 0;
                if k < rest.len() - 1 {
                    assert(r0[k] == rest[k]);
                }
            }
        }
        let jp = join_nonempty_dash(ps);
        let j0 = join_nonempty_dash(seq![a] + r0);
        let jr = join_nonempty_dash(rest);
        let jr0 = join_nonempty_dash(r0);
        assert(jr == if w.len() == 0 {
            jr0
        } else if has_piece(r0) {
            jr0 + "-"@ + w
        } else {
            w
        });
        assert(jp == if w.len() == 0 {
            j0
        } else if has_piece(seq![a] + r0) {
            j0 + "-"@ + w
        } else {
            w
        });
        if a.len() > 0 && w.len() > 0 {
            if has_piece(r0) {
                assert(a + "-"@ + jr0 + "-"@ + w =~= a + "-"@ + (jr0 + "-"@ + w));
            }
        }
    }
}

/// Joining pieces of letters and digits gives a slug-shaped text, empty exactly
/// when no piece is non-empty.
proof fn lemma_join_shaped(ps: Seq<Seq<char>>)
    requires
        pieces_alnum(ps),
    ensures
        slug_shaped(join_nonempty_dash(ps)),
        join_nonempty_dash(ps).len() == 0 <==> !has_piece(ps),
    decreases ps.len(),
{
    reveal_strlit("-");
    if ps.len() == 0 {
    } else {
        let p0 = ps.drop_last();
        let w = ps.last();
        assert(pieces_alnum(p0)) by {
            assert forall|k: int, j: int| 0 <= k < p0.len() && 0 <= j < p0[k].len() implies is_ascii_alnum(
                #[trigger] p0[k][j],
            ) by {
                assert(p0[k] == ps[k]);
            }
        }
        lemma_join_shaped(p0);
        assert(forall|j: int| 0 <= j < w.len() ==> is_ascii_alnum(#[trigger] w[j])) by {
            assert(w == ps[ps.len() - 1]);
        }
        let prev = join_nonempty_dash(p0);
        assert(has_piece(ps) == (has_piece(p0) || w.len() > 0)) by {
            if has_piece(p0) {
                let k = choose|k: int| 0 <= k < p0.len() && (#[trigger] p0[k]).len() > 0;
                assert(ps[k] == p0[k]);
            }
            if w.len() > 0 {
                assert(ps[ps.len() - 1] == w);
            }
            if has_piece(ps) {
                let k = choose|k: int| 0 <= k < ps.len() && (#[trigger] ps[k]).len() > 0;
                if k < ps.len() - 1 {
                    assert(p0[k] == ps[k]);
                }
            }
        }
        if w.len() > 0 && has_piece(p0) {
            let r = prev + "-"@ + w;
            assert forall|i: int| 0 <= i < r.len() implies slug_char(#[trigger] r[i]) by {
                if i < prev.len() {
                    assert(r[i] == prev[i]);
                } else if i > prev.len() {
                    assert(r[i] == w[i - prev.len() - 1]);
                }
            }
            assert(r[0] == prev[0]);
            assert(r[r.len() - 1] == w[w.len() - 1]);
            assert forall|i: int| 0 <= i < r.len() - 1 && #[trigger] r[i] == '-' implies r[i + 1] != '-' by {
                if i < prev.len() - 1 {
                    assert(r[i] == prev[i]);
                    assert(r[i + 1] == prev[i + 1]);
                } else if i == prev.len() - 1 {
                    assert(r[i] == prev[prev.len() - 1]);
                } else if i == prev.len() {
                    assert(r[i + 1] == w[0]);
                } else {
                    assert(r[i] == w[i - prev.len() - 1]);
                }
            }
        }
    }
}

/// The pieces of a split at `-` hold no `-`, and only letters and digits when
/// every other character of the text is one.
proof fn lemma_split_pieces(s: Seq<char>, start: int, i: int)
    requires
        0 <= start <= i <= s.len(),
        forall|m: int| 0 <= m < s.len() ==> slug_char(#[trigger] s[m]),
        forall|m: int| start <= m < i ==> #[trigger] s[m] != '-',
    ensures
        pieces_alnum(split_from(s, "-"@, start, i)),
        has_piece(split_from(s, "-"@, start, i)) <==> exists|m: int|
            start <= m < s.len() && #[trigger] s[m] != '-',
    decreases s.len() - i,
{
    reveal_strlit("-");
    let sep = "-"@;
    if i + 1 > s.len() {
        let a = s.subrange(start, s.len() as int);
        let ps = seq![a];
        assert forall|k: int, j: int| 0 <= k < ps.len() && 0 <= j < ps[k].len() implies is_ascii_alnum(
            #[trigger] ps[k][j],
        ) by {
            assert(ps[k][j] == s[start + j]);
        }
        if exists|m: int| start <= m < s.len() && #[trigger] s[m] != '-' {
            assert(ps[0].len() > 0);
        }
        if has_piece(ps) {
            assert(s[start] != '-');
        }
    } else if occurs_at(s, sep, i) {
        assert(s[i] == '-') by {
            assert(s.subrange(i, i + 1)[0] == s[i]);
        }
        let a = s.subrange(start, i);
        let rest = split_from(s, sep, i + 1, i + 1);
        lemma_split_pieces(s, i + 1, i + 1);
        assert(split_from(s, sep, start, i) == seq![a] + rest);
        lemma_has_piece_cons(a, rest);
        let ps = seq![a] + rest;
        assert forall|k: int, j: int| 0 <= k < ps.len() && 0 <= j < ps[k].len() implies is_ascii_alnum(
            #[trigger] ps[k][j],
        ) by {
            if k == 0 {
                assert(ps[k][j] == s[start + j]);
            } else {
                assert(ps[k] == rest[k - 1]);
            }
        }
        if exists|m: int| start <= m < s.len() && #[trigger] s[m] != '-' {
            let m = choose|m: int| start <= m < s.len() && #[trigger] s[m] != '-';
            if m < i {
                assert(a.len() > 0);
            } else {
                assert(m > i);
            }
        }
        if a.len() > 0 {
            assert(s[start] != '-');
        }
    } else {
        assert(s[i] != '-') by {
            if s[i] == '-' {
                assert(s.subrange(i, i + 1) =~= sep);
            }
        }
        lemma_split_pieces(s, start, i + 1);
    }
}

/// Trimming `-` from the ends keeps the slug characters and every other
/// character.
proof fn lemma_trim_dash(s: Seq<char>)
    requires
        forall|m: int| 0 <= m < s.len() ==> slug_char(#[trigger] s[m]),
    ensures
        forall|m: int| 0 <= m < trim_char_seq(s, '-').len() ==> slug_char(
            #[trigger] trim_char_seq(s, '-')[m],
        ),
        has_non_dash(trim_char_seq(s, '-')) == has_non_dash(s),
{
    lemma_trim_start_dash(s);
    lemma_trim_end_dash(trim_char_start(s, '-'));
}

proof fn lemma_trim_start_dash(s: Seq<char>)
    requires
        forall|m: int| 0 <= m < s.len() ==> slug_char(#[trigger] s[m]),
    ensures
        forall|m: int| 0 <= m < trim_char_start(s, '-').len() ==> slug_char(
            #[trigger] trim_char_start(s, '-')[m],
        ),
        has_non_dash(trim_char_start(s, '-')) == has_non_dash(s),
    decreases s.len(),
{
    if s.len() > 0 && s[0] == '-' {
        let t = s.drop_first();
        assert(forall|m: int| 0 <= m < t.len() ==> #[trigger] t[m] == s[m + 1]);
        lemma_trim_start_dash(t);
        if has_non_dash(s) {
            let m = choose|m: int| 0 <= m < s.len() && #[trigger] s[m] != '-';
            assert(t[m - 1] == s[m]);
        }
        if has_non_dash(t) {
            let m = choose|m: int| 0 <= m < t.len() && #[trigger] t[m] != '-';
            assert(s[m + 1] == t[m]);
        }
    }
}

proof fn lemma_trim_end_dash(s: Seq<char>)
    requires
        forall|m: int| 0 <= m < s.len() ==> slug_char(#[trigger] s[m]),
    ensures
        forall|m: int| 0 <= m < trim_char_end(s, '-').len() ==> slug_char(
            #[trigger] trim_char_end(s, '-')[m],
        ),
        has_non_dash(trim_char_end(s, '-')) == has_non_dash(s),
    decreases s.len(),
{
    if s.len() > 0 && s.last() == '-' {
        let t = s.drop_last();
        assert(forall|m: int| 0 <= m < t.len() ==> #[trigger] t[m] == s[m]);
        lemma_trim_end_dash(t);
        if has_non_dash(s) {
            let m = choose|m: int| 0 <= m < s.len() && #[trigger] s[m] != '-';
            assert(t[m] == s[m]);
        }
        if has_non_dash(t) {
            let m = choose|m: int| 0 <= m < t.len() && #[trigger] t[m] != '-';
            assert(s[m] == t[m]);
        }
    }
}

/// The dash-collapse step always yields a slug-shaped text, empty exactly when
/// its input holds no ASCII letter or digit.
proof fn lemma_dash_collapse_shape(s: Seq<char>)
    ensures
        slug_shaped(dash_collapse(s)),
        dash_collapse(s).len() == 0 <==> !has_alnum(s),
{
    let d = dash_non_alnum(s);
    assert forall|m: int| 0 <= m < d.len() implies slug_char(#[trigger] d[m]) by {}
    assert(has_non_dash(d) == has_alnum(s)) by {
        if has_alnum(s) {
            let m = choose|m: int| 0 <= m < s.len() && is_ascii_alnum(#[trigger] s[m]);
            assert(d[m] == s[m]);
        }
        if has_non_dash(d) {
            let m = choose|m: int| 0 <= m < d.len() && #[trigger] d[m] != '-';
            assert(is_ascii_alnum(s[m]));
        }
    }
    lemma_trim_dash(d);
    let t = trim_char_seq(d, '-');
    lemma_split_pieces(t, 0, 0);
    lemma_join_shaped(split_seq(t, "-"@));
}

/// A slug-shaped text is left unchanged by the dash-collapse step.
proof fn lemma_dash_collapse_fixes_shaped(r: Seq<char>)
    requires
        slug_shaped(r),
    ensures
        dash_collapse(r) == r,
{
    let d = dash_non_alnum(r);
    assert(d =~= r);
    assert(trim_char_start(r, '-') == r);
    assert(trim_char_end(r, '-') == r);
    assert(trim_char_seq(d, '-') == r);
    reveal_strlit("-");
    if r.len() > 0 {
        lemma_split_rejoins(r, 0, 0);
        assert(r.subrange(0, r.len() as int) =~= r);
    } else {
        let ps = split_seq(r, "-"@);
        assert(ps == seq![r.subrange(0, 0)]);
        assert(ps.drop_last() =~= Seq::<Seq<char>>::empty());
        assert(join_nonempty_dash(ps.drop_last()) == Seq::<char>::empty());
        assert(r =~= Seq::<char>::empty());
    }
}

/// Splitting a slug-shaped text at `-` and joining the pieces gives it back.
proof fn lemma_split_rejoins(r: Seq<char>, start: int, i: int)
    requires
        slug_shaped(r),
        0 <= start <= i <= r.len(),
        start < r.len(),
        r[start] != '-',
        forall|m: int| start <= m < i ==> #[trigger] r[m] != '-',
    ensures
        join_nonempty_dash(split_from(r, "-"@, start, i)) == r.subrange(start, r.len() as int),
    decreases r.len() - i,
{
    reveal_strlit("-");
    let sep = "-"@;
    if i + 1 > r.len() {
        let a = r.subrange(start, r.len() as int);
        lemma_join_cons(a, Seq::empty());
        assert(seq![a] + Seq::<Seq<char>>::empty() =~= seq![a]);
    } else if occurs_at(r, sep, i) {
        assert(r[i] == '-') by {
            assert(r.subrange(i, i + 1)[0] == r[i]);
        }
        assert(i > start);
        assert(i + 1 < r.len());
        assert(r[i + 1] != '-');
        let a = r.subrange(start, i);
        let rest = split_from(r, sep, i + 1, i + 1);
        lemma_split_rejoins(r, i + 1, i + 1);
        lemma_join_cons(a, rest);
        lemma_join_nonempty_has_piece(rest);
        assert(split_from(r, sep, start, i) == seq![a] + rest);
        assert(a + sep + r.subrange(i + 1, r.len() as int) =~= r.subrange(start, r.len() as int));
    } else {
        assert(r[i] != '-') by {
            if r[i] == '-' {
                assert(r.subrange(i, i + 1) =~= sep);
            }
        }
        lemma_split_rejoins(r, start, i + 1);
    }
}

/// Every slug holds only ASCII letters, digits and `-`, never starts or ends
/// with `-` and never holds `--`; it is empty exactly when the lowercased,
/// trimmed name holds no ASCII letter or digit.
pub proof fn lemma_slug_shape(name: Seq<char>)
    ensures
        slug_shaped(slug_spec(name)),
        slug_spec(name).len() == 0 <==> !has_alnum(spec_lowercase(trim_seq(name))),
{
    lemma_dash_collapse_shape(spec_lowercase(trim_seq(name)));
}

/// The step of a slug after lowercasing is idempotent: collapsing a collapsed
/// text changes nothing.
pub proof fn lemma_dash_collapse_idempotent(s: Seq<char>)
    ensures
        dash_collapse(dash_collapse(s)) == dash_collapse(s),
{
    lemma_dash_collapse_shape(s);
    lemma_dash_collapse_fixes_shaped(dash_collapse(s));
}

/// A slug is its own slug, wherever lowercasing leaves it unchanged (so for
/// every slug whose letters are already lowercase).
pub proof fn lemma_slug_idempotent(name: Seq<char>)
    requires
        spec_lowercase(slug_spec(name)) == slug_spec(name),
    ensures
        slug_spec(slug_spec(name)) == slug_spec(name),
{
    let r = slug_spec(name);
    lemma_slug_shape(name);
    if r.len() > 0 {
        assert(!is_ws(r[0]) && !is_ws(r[r.len() - 1])) by {
            assert(slug_char(r[0]));
            assert(slug_char(r[r.len() - 1]));
        }
        assert(r.last() == r[r.len() - 1]);
    }
    assert(trim_start_seq(r) == r);
    assert(trim_end_seq(r) == r);
    lemma_dash_collapse_fixes_shaped(r);
}

/// A character a slug is made of: a lowercase ASCII letter, a digit, or `-`.
pub open spec fn lower_slug_char(c: char) -> bool {
    ('a' <= c && c <= 'z') || ('0' <= c && c <= '9') || c == '-'
}

/// Text made of slug characters is its own lowercase.
proof fn lemma_lower_slug_is_own_lowercase(r: Seq<char>)
    requires
        forall|i: int| 0 <= i < r.len() ==> lower_slug_char(#[trigger] r[i]),
    ensures
        spec_lowercase(r) == r,
{
    reveal(spec_lowercase);
    assert forall|i: int| 0 <= i < r.len() implies is_ascii(#[trigger] r[i]) by {
        assert(lower_slug_char(r[i]));
    }
    assert(r.map_values(|c: char| ascii_lower_char(c)) =~= r) by {
        assert forall|i: int| 0 <= i < r.len() implies #[trigger] ascii_lower_char(r[i]) == r[i] by {
            assert(lower_slug_char(r[i]));
        }
    }
}

/// Trimming whitespace keeps whether a text holds a letter or digit, and
/// keeps ASCII text ASCII.
proof fn lemma_trim_start_alnum(s: Seq<char>)
    ensures
        has_alnum(trim_start_seq(s)) == has_alnum(s),
        all_ascii(s) ==> all_ascii(trim_start_seq(s)),
    decreases s.len(),
{
    if s.len() > 0 && is_ws(s[0]) {
        let t = s.drop_first();
        lemma_trim_start_alnum(t);
        assert(!is_ascii_alnum(s[0]));
        if has_alnum(s) {
            let i = choose|i: int| 0 <= i < s.len() && is_ascii_alnum(#[trigger] s[i]);
            assert(t[i - 1] == s[i]);
        }
        if has_alnum(t) {
            let i = choose|i: int| 0 <= i < t.len() && is_ascii_alnum(#[trigger] t[i]);
            assert(s[i + 1] == t[i]);
        }
        if all_ascii(s) {
            assert forall|i: int| 0 <= i < t.len() implies is_ascii(#[trigger] t[i]) by {
                assert(t[i] == s[i + 1]);
            }
        }
    }
}

proof fn lemma_trim_end_alnum(s: Seq<char>)
    ensures
        has_alnum(trim_end_seq(s)) == has_alnum(s),
        all_ascii(s) ==> all_ascii(trim_end_seq(s)),
    decreases s.len(),
{
    if s.len() > 0 && is_ws(s.last()) {
        let t = s.drop_last();
        lemma_trim_end_alnum(t);
        assert(!is_ascii_alnum(s.last()));
        if has_alnum(s) {
            let i = choose|i: int| 0 <= i < s.len() && is_ascii_alnum(#[trigger] s[i]);
            assert(i < s.len() - 1);
            assert(t[i] == s[i]);
        }
        if has_alnum(t) {
            let i = choose|i: int| 0 <= i < t.len() && is_ascii_alnum(#[trigger] t[i]);
            assert(s[i] == t[i]);
        }
        if all_ascii(s) {
            assert forall|i: int| 0 <= i < t.len() implies is_ascii(#[trigger] t[i]) by {
                assert(t[i] == s[i]);
            }
        }
    }
}

/// On an ASCII name, lowercasing the trimmed name keeps exactly whether the
/// name holds a letter or digit.
proof fn lemma_ascii_alnum_survives(name: Seq<char>)
    requires
        all_ascii(name),
    ensures
        has_alnum(spec_lowercase(trim_seq(name))) == has_alnum(name),
{
    lemma_trim_start_alnum(name);
    lemma_trim_end_alnum(trim_start_seq(name));
    let t = trim_seq(name);
    reveal(spec_lowercase);
    let l = t.map_values(|c: char| ascii_lower_char(c));
    assert(spec_lowercase(t) == l);
    if has_alnum(t) {
        let i = choose|i: int| 0 <= i < t.len() && is_ascii_alnum(#[trigger] t[i]);
        assert(is_ascii_alnum(l[i]));
    }
    if has_alnum(l) {
        let i = choose|i: int| 0 <= i < l.len() && is_ascii_alnum(#[trigger] l[i]);
        assert(l[i] == ascii_lower_char(t[i]));
        assert(is_ascii_alnum(t[i]));
    }
}

proof fn lemma_trim_start_keeps(s: Seq<char>, okc: spec_fn(char) -> bool)
    requires
        forall|m: int| 0 <= m < s.len() ==> okc(#[trigger] s[m]),
    ensures
        forall|m: int| 0 <= m < trim_char_start(s, '-').len() ==> okc(#[trigger] trim_char_start(s, '-')[m]),
    decreases s.len(),
{
    if s.len() > 0 && s[0] == '-' {
        let t = s.drop_first();
        assert(forall|m: int| 0 <= m < t.len() ==> #[trigger] t[m] == s[m + 1]);
        lemma_trim_start_keeps(t, okc);
        assert(trim_char_start(s, '-') == trim_char_start(t, '-'));
    } else {
        assert(trim_char_start(s, '-') == s);
    }
}

proof fn lemma_trim_end_keeps(s: Seq<char>, okc: spec_fn(char) -> bool)
    requires
        forall|m: int| 0 <= m < s.len() ==> okc(#[trigger] s[m]),
    ensures
        forall|m: int| 0 <= m < trim_char_end(s, '-').len() ==> okc(#[trigger] trim_char_end(s, '-')[m]),
    decreases s.len(),
{
    if s.len() > 0 && s.last() == '-' {
        let t = s.drop_last();
        assert(forall|m: int| 0 <= m < t.len() ==> #[trigger] t[m] == s[m]);
        lemma_trim_end_keeps(t, okc);
        assert(trim_char_end(s, '-') == trim_char_end(t, '-'));
    } else {
        assert(trim_char_end(s, '-') == s);
    }
}

proof fn lemma_split_keeps(s: Seq<char>, start: int, i: int, okc: spec_fn(char) -> bool)
    requires
        0 <= start <= i <= s.len(),
        forall|m: int| 0 <= m < s.len() ==> okc(#[trigger] s[m]),
    ensures
        forall|k: int, j: int|
            0 <= k < split_from(s, "-"@, start, i).len() && 0 <= j < split_from(s, "-"@, start, i)[k].len()
                ==> okc(#[trigger] split_from(s, "-"@, start, i)[k][j]),
    decreases s.len() - i,
{
    reveal_strlit("-");
    let sep = "-"@;
    let ps = split_from(s, sep, start, i);
    if i + 1 > s.len() {
        assert forall|k: int, j: int| 0 <= k < ps.len() && 0 <= j < ps[k].len() implies okc(#[trigger] ps[k][j]) by {
            assert(ps[k][j] == s[start + j]);
        }
    } else if occurs_at(s, sep, i) {
        let a = s.subrange(start, i);
        let rest = split_from(s, sep, i + 1, i + 1);
        lemma_split_keeps(s, i + 1, i + 1, okc);
        assert(ps == seq![a] + rest);
        assert forall|k: int, j: int| 0 <= k < ps.len() && 0 <= j < ps[k].len() implies okc(#[trigger] ps[k][j]) by {
            if k == 0 {
                assert(ps[k][j] == s[start + j]);
            } else {
                assert(ps[k] == rest[k - 1]);
            }
        }
    } else {
        lemma_split_keeps(s, start, i + 1, okc);
        assert(ps == split_from(s, sep, start, i + 1));
    }
}

proof fn lemma_join_keeps(ps: Seq<Seq<char>>, okc: spec_fn(char) -> bool)
    requires
        okc('-'),
        forall|k: int, j: int| 0 <= k < ps.len() && 0 <= j < ps[k].len() ==> okc(#[trigger] ps[k][j]),
    ensures
        forall|m: int| 0 <= m < join_nonempty_dash(ps).len() ==> okc(#[trigger] join_nonempty_dash(ps)[m]),
    decreases ps.len(),
{
    reveal_strlit("-");
    if ps.len() > 0 {
        let p0 = ps.drop_last();
        let w = ps.last();
        assert forall|k: int, j: int| 0 <= k < p0.len() && 0 <= j < p0[k].len() implies okc(#[trigger] p0[k][j]) by {
            assert(p0[k] == ps[k]);
        }
        lemma_join_keeps(p0, okc);
        let prev = join_nonempty_dash(p0);
        assert forall|j: int| 0 <= j < w.len() implies okc(#[trigger] w[j]) by {
            assert(w == ps[ps.len() - 1]);
        }
        if w.len() > 0 && has_piece(p0) {
            let r = prev + "-"@ + w;
            assert forall|m: int| 0 <= m < r.len() implies okc(#[trigger] r[m]) by {
                if m < prev.len() {
                    assert(r[m] == prev[m]);
                } else if m > prev.len() {
                    assert(r[m] == w[m - prev.len() - 1]);
                }
            }
        }
    }
}

/// Every character of the dash-collapse step's result satisfies `okc` when
/// `-` and every character of the dashed input do.
proof fn lemma_collapse_keeps(s: Seq<char>, okc: spec_fn(char) -> bool)
    requires
        okc('-'),
        forall|m: int| 0 <= m < dash_non_alnum(s).len() ==> okc(#[trigger] dash_non_alnum(s)[m]),
    ensures
        forall|m: int| 0 <= m < dash_collapse(s).len() ==> okc(#[trigger] dash_collapse(s)[m]),
{
    let d = dash_non_alnum(s);
    lemma_trim_start_keeps(d, okc);
    lemma_trim_end_keeps(trim_char_start(d, '-'), okc);
    let t = trim_char_seq(d, '-');
    lemma_split_keeps(t, 0, 0, okc);
    lemma_join_keeps(split_seq(t, "-"@), okc);
}

// ---- the Markdown projection -----------------------------------------------------

/// A frontmatter scalar: line breaks become spaces, double quotes become single
/// quotes, and the whole is wrapped in double quotes, so no value can break out
/// of its line.
pub open spec fn quote_spec(s: Seq<char>) -> Seq<char> {
    "\""@ + s.map_values(
        |c: char|
            if c == '\n' || c == '\r' {
                ' '
            } else if c == '"' {
                '\''
            } else {
                c
            },
    ) + "\""@
}

/// The quoted tags, joined by `, `.
pub open spec fn quoted_tags(tags: Seq<Seq<char>>) -> Seq<char>
    decreases tags.len(),
{
    if tags.len() == 0 {
        Seq::empty()
    } else if tags.len() == 1 {
        quote_spec(tags[0])
    } else {
        quoted_tags(tags.drop_last()) + ", "@ + quote_spec(tags.last())
    }
}

/// One optional vault line: `key: "value"\n`, or nothing when the value is empty.
pub open spec fn vault_line(key: Seq<char>, val: Seq<char>) -> Seq<char> {
    if val.len() == 0 {
        Seq::empty()
    } else {
        key + ": "@ + quote_spec(val) + "\n"@
    }
}

/// The Markdown projection of a learning: YAML frontmatter of quoted scalars
/// (the vault fields only when set), then the body.
pub open spec fn memory_markdown_spec(rec: MemoryRecord) -> Seq<char> {
    "---\nuid: "@ + quote_spec(rec.uid@) + "\nproject: "@ + quote_spec(rec.project_id@)
        + "\ntags: ["@ + quoted_tags(rec.tags@.map_values(|t: String| t@)) + "]\ncreated: "@
        + quote_spec(rec.created_at@) + "\ncuration: "@ + quote_spec(rec.curation_state@) + "\n"@
        + vault_line("summary"@, rec.summary@) + vault_line("tier"@, rec.tier@) + vault_line(
        "lifecycle"@,
        rec.lifecycle@,
    ) + vault_line("provenance"@, rec.provenance@) + "---\n\n"@ + rec.text@ + "\n"@
}

/// Appends a quoted frontmatter scalar.
fn push_quoted(out: &mut Vec<char>, s: &str)
    ensures
        final(out)@ == old(out)@ + quote_spec(s@),
{
    let v = chars_of(s);
    let ghost start = out@;
    out.push('"');
    proof {
        reveal_strlit("\"");
        assert(v@.take(0).map_values(
            |c: char|
                if c == '\n' || c == '\r' {
                    ' '
                } else if c == '"' {
                    '\''
                } else {
                    c
                },
        ) =~= Seq::<char>::empty());
    }
    let mut i: usize = 0;
    while i < v.len()
        invariant
            0 <= i <= v.len(),
            out@ == start + "\""@ + v@.take(i as int).map_values(
                |c: char|
                    if c == '\n' || c == '\r' {
                        ' '
                    } else if c == '"' {
                        '\''
                    } else {
                        c
                    },
            ),
        decreases v.len() - i,
    {
        let c = v[i];
        let m = if c == '\n' || c == '\r' {
            ' '
        } else if c == '"' {
            '\''
        } else {
            c
        };
        out.push(m);
        proof {
            reveal_strlit("\"");
            assert(v@.take(i + 1) == v@.take(i as int).push(c));
        }
        i = i + 1;
    }
    out.push('"');
    proof {
        reveal_strlit("\"");
        assert(v@.take(v.len() as int) == v@);
    }
}

/// Appends an optional vault line.
fn push_vault_line(out: &mut Vec<char>, key: &str, val: &str)
    ensures
        final(out)@ == old(out)@ + vault_line(key@, val@),
{
    if val.is_empty() {
        return;
    }
    append_str(out, key);
    append_str(out, ": ");
    push_quoted(out, val);
    append_str(out, "\n");
}

/// Projects a learning to git-diffable Markdown (see `memory_markdown_spec`).
pub fn memory_markdown(rec: &MemoryRecord) -> (r: String)
    ensures
        r@ == memory_markdown_spec(*rec),
{
    let mut out: Vec<char> = Vec::new();
    append_str(&mut out, "---\nuid: ");
    push_quoted(&mut out, rec.uid.as_str());
    append_str(&mut out, "\nproject: ");
    push_quoted(&mut out, rec.project_id.as_str());
    append_str(&mut out, "\ntags: [");
    let ghost tv = rec.tags@.map_values(|t: String| t@);
    let ghost before_tags = out@;
    let mut i: usize = 0;
    while i < rec.tags.len()
        invariant
            0 <= i <= rec.tags@.len(),
            tv == rec.tags@.map_values(|t: String| t@),
            out@ == before_tags + quoted_tags(tv.take(i as int)),
        decreases rec.tags.len() - i,
    {
        if i > 0 {
            append_str(&mut out, ", ");
        }
        push_quoted(&mut out, rec.tags[i].as_str());
        proof {
            let t = tv.take(i + 1);
            assert(t.drop_last() == tv.take(i as int));
            assert(t.last() == rec.tags@[i as int]@);
            if i == 0 {
                assert(tv.take(0) == Seq::<Seq<char>>::empty());
            }
        }
        i = i + 1;
    }
    assert(tv.take(rec.tags.len() as int) == tv);
    append_str(&mut out, "]\ncreated: ");
    push_quoted(&mut out, rec.created_at.as_str());
    append_str(&mut out, "\ncuration: ");
    push_quoted(&mut out, rec.curation_state.as_str());
    append_str(&mut out, "\n");
    push_vault_line(&mut out, "summary", rec.summary.as_str());
    push_vault_line(&mut out, "tier", rec.tier.as_str());
    push_vault_line(&mut out, "lifecycle", rec.lifecycle.as_str());
    push_vault_line(&mut out, "provenance", rec.provenance.as_str());
    append_str(&mut out, "---\n\n");
    append_str(&mut out, rec.text.as_str());
    append_str(&mut out, "\n");
    string_of(&out)
}

/// A quoted scalar is one line: it holds no line break, and its only double
/// quotes are the two that wrap it.
pub proof fn lemma_quoted_scalar_is_one_line(s: Seq<char>)
    ensures
        ({
            let q = quote_spec(s);
            &&& q.len() == s.len() + 2
            &&& q[0] == '"' && q.last() == '"'
            &&& forall|i: int| 0 <= i < q.len() ==> q[i] != '\n' && q[i] != '\r'
            &&& forall|i: int| 0 < i < q.len() - 1 ==> q[i] != '"'
        }),
{
    reveal_strlit("\"");
    let q = quote_spec(s);
    assert forall|i: int| 0 <= i < q.len() implies q[i] != '\n' && q[i] != '\r' by {
        if 0 < i < q.len() - 1 {
            assert(q[i] == ("\""@ + s.map_values(
                |c: char|
                    if c == '\n' || c == '\r' {
                        ' '
                    } else if c == '"' {
                        '\''
                    } else {
                        c
                    },
            ))[i]);
        }
    }
}

// ---- notes ----------------------------------------------------------------------

/// The title indexed for a note: the given title trimmed, or the title derived
/// from the body when the given one is blank.
pub fn note_title(given: &str, text: &str) -> (r: String)
    ensures
        r@ == (if trim_seq(given@).len() == 0 {
            derive_title_spec(text@)
        } else {
            trim_seq(given@)
        }),
{
    let t = trim_str_chars(given);
    if t.len() == 0 {
        derive_title(text)
    } else {
        string_of(&t)
    }
}

/// A text of `Option`, empty when absent.
pub open spec fn or_empty(s: Option<String>) -> Seq<char> {
    match s {
        Some(v) => v@,
        None => Seq::empty(),
    }
}

/// The record of a new note: the input's fields, the caller's uid, user and
/// time, curation state `auto`, and the vault scalars of `meta`.
pub fn note_record(uid: String, user_id: String, input: MemoryInput, meta: NoteMeta, now: &str) -> (r:
    MemoryRecord)
    ensures
        r.uid == uid,
        r.user_id == user_id,
        r.project_id == input.project_id,
        r.text == input.text,
        r.tags == input.tags,
        r.created_at@ == now@,
        r.curation_state@ == "auto"@,
        r.source_type@ == or_empty(input.source_type),
        r.source_ref@ == or_empty(input.source_ref),
        r.summary == meta.summary,
        r.tier == meta.tier,
        r.lifecycle == meta.lifecycle,
        r.provenance == meta.provenance,
{
    let source_type = match input.source_type {
        Some(s) => s,
        None => String::new(),
    };
    let source_ref = match input.source_ref {
        Some(s) => s,
        None => String::new(),
    };
    MemoryRecord {
        uid,
        user_id,
        project_id: input.project_id,
        text: input.text,
        tags: input.tags,
        created_at: now.to_owned(),
        curation_state: "auto".to_owned(),
        source_type,
        source_ref,
        summary: meta.summary,
        tier: meta.tier,
        lifecycle: meta.lifecycle,
        provenance: meta.provenance,
    }
}

/// The record of a new learning: like a note, with empty vault scalars.
pub fn memory_record(uid: String, user_id: String, input: MemoryInput, now: &str) -> (r:
    MemoryRecord)
    ensures
        r.uid == uid,
        r.user_id == user_id,
        r.project_id == input.project_id,
        r.text == input.text,
        r.tags == input.tags,
        r.created_at@ == now@,
        r.curation_state@ == "auto"@,
        r.source_type@ == or_empty(input.source_type),
        r.source_ref@ == or_empty(input.source_ref),
        r.summary@.len() == 0 && r.tier@.len() == 0 && r.lifecycle@.len() == 0
            && r.provenance@.len() == 0,
{
    let meta = NoteMeta {
        title: String::new(),
        summary: String::new(),
        tier: String::new(),
        lifecycle: String::new(),
        provenance: String::new(),
        relationships: Vec::new(),
    };
    note_record(uid, user_id, input, meta, now)
}

// ---- recall ---------------------------------------------------------------------

/// The learnings as `- ` lines, joined by newlines.
pub open spec fn learning_lines(texts: Seq<Seq<char>>) -> Seq<char>
    decreases texts.len(),
{
    if texts.len() == 0 {
        Seq::empty()
    } else if texts.len() == 1 {
        "- "@ + texts[0]
    } else {
        learning_lines(texts.drop_last()) + "\n- "@ + texts.last()
    }
}

/// The heading of the recall block.
pub const RECALL_HEADING: &'static str = "PRIOR LEARNINGS (from earlier runs):\n";

/// The block of prior learnings folded into a goal: `None` when there are none.
pub fn recall_block(learnings: &Vec<MemoryRecord>) -> (r: Option<String>)
    ensures
        learnings@.len() == 0 <==> r is None,
        r matches Some(b) ==> b@ == RECALL_HEADING@ + learning_lines(
            learnings@.map_values(|m: MemoryRecord| m.text@),
        ),
{
    if learnings.len() == 0 {
        return None;
    }
    let ghost tv = learnings@.map_values(|m: MemoryRecord| m.text@);
    let mut out: Vec<char> = Vec::new();
    append_str(&mut out, RECALL_HEADING);
    let ghost head = out@;
    let mut i: usize = 0;
    assert(tv.take(0) == Seq::<Seq<char>>::empty());
    while i < learnings.len()
        invariant
            0 <= i <= learnings@.len(),
            tv == learnings@.map_values(|m: MemoryRecord| m.text@),
            out@ == head + learning_lines(tv.take(i as int)),
        decreases learnings.len() - i,
    {
        if i > 0 {
            append_str(&mut out, "\n- ");
        } else {
            append_str(&mut out, "- ");
        }
        append_str(&mut out, learnings[i].text.as_str());
        proof {
            let t = tv.take(i + 1);
            assert(t.drop_last() == tv.take(i as int));
            assert(t.last() == learnings@[i as int].text@);
        }
        i = i + 1;
    }
    assert(tv.take(learnings.len() as int) == tv);
    Some(string_of(&out))
}

// ---- tiered retrieval ---------------------------------------------------------------

/// How many leading characters of a body the section tier looks at.
pub const SECTION_CHARS: usize = 300;

/// The text a tier matches against: the summary (tier 0), the body's first 300
/// characters (tier 1), or the whole body (tier 2).
pub open spec fn tier_field(n: MemoryRecord, tier: int) -> Seq<char> {
    if tier == 0 {
        n.summary@
    } else if tier == 1 {
        take_at_most(n.text@, SECTION_CHARS as int)
    } else {
        n.text@
    }
}

/// A note matches a (lowercased, non-empty) term at a tier when the tier's text,
/// lowercased, contains it.
pub open spec fn tier_hit(n: MemoryRecord, term: Seq<char>, tier: int) -> bool {
    term.len() > 0 && contains_seq(spec_lowercase(tier_field(n, tier)), term)
}

/// Matching ignores case at every tier: two notes whose text for a tier reads
/// the same once lowercased hit the same terms at that tier.
pub proof fn lemma_tier_hit_ignores_case(n1: MemoryRecord, n2: MemoryRecord, term: Seq<char>, tier: int)
    requires
        spec_lowercase(tier_field(n1, tier)) == spec_lowercase(tier_field(n2, tier)),
    ensures
        tier_hit(n1, term, tier) == tier_hit(n2, term, tier),
{
}

/// On ASCII text a note hits a term at a tier exactly when the term is
/// non-empty and occurs in the tier's text with every capital lowered, at the
/// summary, section and full-body tiers alike.
pub proof fn lemma_tier_hit_ascii(n: MemoryRecord, term: Seq<char>, tier: int)
    requires
        all_ascii(tier_field(n, tier)),
    ensures
        tier_hit(n, term, tier) <==> (term.len() > 0 && contains_seq(
            tier_field(n, tier).map_values(|c: char| ascii_lower_char(c)),
            term,
        )),
{
    reveal(spec_lowercase);
}

/// Every hit names a note among the first `n`.
pub open spec fn hits_in_range(hits: Seq<(int, int)>, n: int) -> bool {
    forall|k: int| 0 <= k < hits.len() ==> 0 <= (#[trigger] hits[k]).1 < n
}

proof fn lemma_tier_pass_ignores_case(
    ns1: Seq<MemoryRecord>,
    ns2: Seq<MemoryRecord>,
    term: Seq<char>,
    limit: int,
    tier: int,
    n: int,
    start: Seq<(int, int)>,
)
    requires
        ns1.len() == ns2.len(),
        n <= ns1.len(),
        hits_in_range(start, ns1.len() as int),
        forall|i: int| 0 <= i < ns1.len() ==> (#[trigger] ns1[i]).uid@ == ns2[i].uid@,
        forall|i: int|
            0 <= i < ns1.len() ==> spec_lowercase(tier_field(#[trigger] ns1[i], tier)) == spec_lowercase(
                tier_field(ns2[i], tier),
            ),
    ensures
        tier_pass(ns1, term, limit, tier, n, start) == tier_pass(ns2, term, limit, tier, n, start),
        hits_in_range(tier_pass(ns1, term, limit, tier, n, start), ns1.len() as int),
    decreases n,
{
    if n > 0 {
        lemma_tier_pass_ignores_case(ns1, ns2, term, limit, tier, n - 1, start);
        let prev = tier_pass(ns1, term, limit, tier, n - 1, start);
        let i = n - 1;
        assert(ns1[i].uid@ == ns2[i].uid@);
        assert(matched_uid(ns1, prev, ns1[i].uid@) == matched_uid(ns2, prev, ns2[i].uid@)) by {
            if matched_uid(ns1, prev, ns1[i].uid@) {
                let k = choose|k: int| 0 <= k < prev.len() && ns1[(#[trigger] prev[k]).1].uid@ == ns1[i].uid@;
                assert(ns1[prev[k].1].uid@ == ns2[prev[k].1].uid@);
            }
            if matched_uid(ns2, prev, ns2[i].uid@) {
                let k = choose|k: int| 0 <= k < prev.len() && ns2[(#[trigger] prev[k]).1].uid@ == ns2[i].uid@;
                assert(ns1[prev[k].1].uid@ == ns2[prev[k].1].uid@);
            }
        }
        lemma_tier_hit_ignores_case(ns1[i], ns2[i], term, tier);
        let next = tier_pass(ns1, term, limit, tier, n, start);
        assert forall|k: int| 0 <= k < next.len() implies 0 <= (#[trigger] next[k]).1 < ns1.len() by {
            if k < prev.len() {
                assert(next[k] == prev[k]);
            }
        }
    }
}

/// Matching ignores case across a whole query: two lists of notes that differ
/// only in the case of their summaries and bodies give the same hits, in the
/// same order and at the same tiers.
pub proof fn lemma_tiered_hits_ignore_case(ns1: Seq<MemoryRecord>, ns2: Seq<MemoryRecord>, term: Seq<char>, limit: int)
    requires
        ns1.len() == ns2.len(),
        forall|i: int| 0 <= i < ns1.len() ==> (#[trigger] ns1[i]).uid@ == ns2[i].uid@,
        forall|i: int, tier: int|
            0 <= i < ns1.len() && 0 <= tier < 3 ==> spec_lowercase(#[trigger] tier_field(ns1[i], tier))
                == spec_lowercase(tier_field(ns2[i], tier)),
    ensures
        tiered_hits(ns1, term, limit) == tiered_hits(ns2, term, limit),
{
    let len = ns1.len() as int;
    assert forall|i: int| 0 <= i < ns1.len() implies spec_lowercase(tier_field(#[trigger] ns1[i], 0))
        == spec_lowercase(tier_field(ns2[i], 0)) by {
        assert(spec_lowercase(tier_field(ns1[i], 0)) == spec_lowercase(tier_field(ns2[i], 0)));
    }
    assert forall|i: int| 0 <= i < ns1.len() implies spec_lowercase(tier_field(#[trigger] ns1[i], 1))
        == spec_lowercase(tier_field(ns2[i], 1)) by {
        assert(spec_lowercase(tier_field(ns1[i], 1)) == spec_lowercase(tier_field(ns2[i], 1)));
    }
    assert forall|i: int| 0 <= i < ns1.len() implies spec_lowercase(tier_field(#[trigger] ns1[i], 2))
        == spec_lowercase(tier_field(ns2[i], 2)) by {
        assert(spec_lowercase(tier_field(ns1[i], 2)) == spec_lowercase(tier_field(ns2[i], 2)));
    }
    let s0: Seq<(int, int)> = Seq::empty();
    lemma_tier_pass_ignores_case(ns1, ns2, term, limit, 0, len, s0);
    let s1 = tier_pass(ns1, term, limit, 0, len, s0);
    lemma_tier_pass_ignores_case(ns1, ns2, term, limit, 1, len, s1);
    let s2 = tier_pass(ns1, term, limit, 1, len, s1);
    lemma_tier_pass_ignores_case(ns1, ns2, term, limit, 2, len, s2);
}

/// Some hit so far is a note with this uid.
pub open spec fn matched_uid(notes: Seq<MemoryRecord>, hits: Seq<(int, int)>, uid: Seq<char>) -> bool {
    exists|k: int| 0 <= k < hits.len() && notes[(#[trigger] hits[k]).1].uid@ == uid
}

/// One candidate (`tier`, note `i`): taken unless the limit is reached, its uid
/// already matched, or it does not match at this tier.
pub open spec fn tier_step(
    notes: Seq<MemoryRecord>,
    term: Seq<char>,
    limit: int,
    tier: int,
    i: int,
    prev: Seq<(int, int)>,
) -> Seq<(int, int)> {
    if prev.len() >= limit || matched_uid(notes, prev, notes[i].uid@) || !tier_hit(
        notes[i],
        term,
        tier,
    ) {
        prev
    } else {
        prev.push((tier, i))
    }
}

/// One tier's pass over the first `n` notes, after the hits in `start`.
pub open spec fn tier_pass(
    notes: Seq<MemoryRecord>,
    term: Seq<char>,
    limit: int,
    tier: int,
    n: int,
    start: Seq<(int, int)>,
) -> Seq<(int, int)>
    decreases n,
{
    if n <= 0 {
        start
    } else {
        tier_step(notes, term, limit, tier, n - 1, tier_pass(notes, term, limit, tier, n - 1, start))
    }
}

/// The direct hits as (tier, note index), in tier order then note order: each
/// note at most once (its cheapest tier wins), at most `limit` in all.
pub open spec fn tiered_hits(notes: Seq<MemoryRecord>, term: Seq<char>, limit: int) -> Seq<(int, int)> {
    let len = notes.len() as int;
    tier_pass(
        notes,
        term,
        limit,
        2,
        len,
        tier_pass(notes, term, limit, 1, len, tier_pass(notes, term, limit, 0, len, Seq::empty())),
    )
}

/// The result for a hit at a tier.
pub open spec fn hit_result_matches(r: TieredResult, tier: int, n: MemoryRecord) -> bool {
    &&& r.record_spec().same_as(n)
    &&& (tier == 0 ==> r is Summary)
    &&& (tier == 1 ==> r is Section)
    &&& (tier == 2 ==> r is Full)
}

/// Whether a note's text for a tier, lowercased, contains the term.
fn tier_hit_exec(n: &MemoryRecord, term: &Vec<char>, tier: usize) -> (r: bool)
    requires
        tier < 3,
    ensures
        r == tier_hit(*n, term@, tier as int),
{
    if term.len() == 0 {
        return false;
    }
    let field: String = if tier == 0 {
        n.summary.clone()
    } else if tier == 1 {
        let t = chars_of(n.text.as_str());
        let k = if t.len() <= SECTION_CHARS {
            t.len()
        } else {
            SECTION_CHARS
        };
        let head = slice(&t, 0, k);
        assert(head@ == take_at_most(n.text@, SECTION_CHARS as int));
        string_of(&head)
    } else {
        n.text.clone()
    };
    let low = lowercase(field.as_str());
    let lv = chars_of(low.as_str());
    contains(&lv, term)
}

/// Whether some hit so far is a note with this uid.
fn uid_matched(notes: &Vec<MemoryRecord>, hits: &Vec<(usize, usize)>, uid: &String) -> (r: bool)
    requires
        forall|k: int| 0 <= k < hits@.len() ==> (#[trigger] hits@[k]).1 < notes@.len(),
    ensures
        r == matched_uid(notes@, hits@.map_values(|h: (usize, usize)| (h.0 as int, h.1 as int)), uid@),
{
    let ghost hv = hits@.map_values(|h: (usize, usize)| (h.0 as int, h.1 as int));
    let mut k: usize = 0;
    while k < hits.len()
        invariant
            0 <= k <= hits@.len(),
            hv == hits@.map_values(|h: (usize, usize)| (h.0 as int, h.1 as int)),
            forall|j: int| 0 <= j < hits@.len() ==> (#[trigger] hits@[j]).1 < notes@.len(),
            forall|j: int| 0 <= j < k ==> notes@[(#[trigger] hv[j]).1].uid@ != uid@,
        decreases hits.len() - k,
    {
        if notes[hits[k].1].uid == *uid {
            assert(notes@[hv[k as int].1].uid@ == uid@);
            return true;
        }
        k = k + 1;
    }
    false
}

/// The direct hits of a tiered query over a project's notes: summary matches,
/// then section matches, then full-body matches, each note once, at most
/// `limit` of them. `terms` is matched case-insensitively; empty terms match
/// nothing.
pub fn tiered_matches(notes: &Vec<MemoryRecord>, terms: &str, limit: usize) -> (r: Vec<
    TieredResult,
>)
    ensures
        ({
            let hits = tiered_hits(notes@, spec_lowercase(terms@), limit as int);
            &&& r@.len() == hits.len()
            &&& forall|k: int|
                0 <= k < r@.len() ==> hit_result_matches(
                    #[trigger] r@[k],
                    hits[k].0,
                    notes@[hits[k].1],
                )
        }),
{
    let low = lowercase(terms);
    let term = chars_of(low.as_str());
    let ghost tv = term@;
    let ghost len = notes@.len() as int;
    let mut hits: Vec<(usize, usize)> = Vec::new();
    let mut out: Vec<TieredResult> = Vec::new();
    let mut tier: usize = 0;
    let ghost mut before: Seq<(int, int)> = Seq::empty();
    while tier < 3
        invariant
            0 <= tier <= 3,
            tv == term@,
            tv == spec_lowercase(terms@),
            len == notes@.len(),
            hits@.map_values(|h: (usize, usize)| (h.0 as int, h.1 as int)) == (if tier == 0 {
                Seq::empty()
            } else if tier == 1 {
                tier_pass(notes@, tv, limit as int, 0, len, Seq::empty())
            } else if tier == 2 {
                tier_pass(notes@, tv, limit as int, 1, len, tier_pass(notes@, tv, limit as int, 0, len, Seq::empty()))
            } else {
                tiered_hits(notes@, tv, limit as int)
            }),
            out@.len() == hits@.len(),
            forall|k: int| 0 <= k < hits@.len() ==> (#[trigger] hits@[k]).1 < notes@.len() && hits@[k].0 < 3,
            forall|k: int|
                0 <= k < out@.len() ==> hit_result_matches(
                    #[trigger] out@[k],
                    hits@[k].0 as int,
                    notes@[hits@[k].1 as int],
                ),
        decreases 3 - tier,
    {
        let ghost start = hits@.map_values(|h: (usize, usize)| (h.0 as int, h.1 as int));
        let mut i: usize = 0;
        while i < notes.len()
            invariant
                0 <= tier < 3,
                0 <= i <= notes@.len(),
                tv == term@,
                len == notes@.len(),
                hits@.map_values(|h: (usize, usize)| (h.0 as int, h.1 as int)) == tier_pass(
                    notes@,
                    tv,
                    limit as int,
                    tier as int,
                    i as int,
                    start,
                ),
                out@.len() == hits@.len(),
                forall|k: int| 0 <= k < hits@.len() ==> (#[trigger] hits@[k]).1 < notes@.len() && hits@[k].0 < 3,
                forall|k: int|
                    0 <= k < out@.len() ==> hit_result_matches(
                        #[trigger] out@[k],
                        hits@[k].0 as int,
                        notes@[hits@[k].1 as int],
                    ),
            decreases notes.len() - i,
        {
            let ghost prev = hits@.map_values(|h: (usize, usize)| (h.0 as int, h.1 as int));
            if hits.len() < limit && !uid_matched(notes, &hits, &notes[i].uid) && tier_hit_exec(
                &notes[i],
                &term,
                tier,
            ) {
                let rec = notes[i].duplicate();
                let res = if tier == 0 {
                    TieredResult::Summary(rec)
                } else if tier == 1 {
                    TieredResult::Section(rec)
                } else {
                    TieredResult::Full(rec)
                };
                out.push(res);
                hits.push((tier, i));
                proof {
                    assert(hits@.map_values(|h: (usize, usize)| (h.0 as int, h.1 as int)) =~= prev.push(
                        (tier as int, i as int),
                    ));
                    assert(out@[out@.len() - 1] == res);
                }
            }
            i = i + 1;
        }
        tier = tier + 1;
    }
    out
}

/// Whether `uids` holds `uid`.
pub open spec fn holds_uid(uids: Seq<String>, uid: Seq<char>) -> bool {
    exists|k: int| 0 <= k < uids.len() && (#[trigger] uids[k])@ == uid
}

/// The related notes that were not direct hits, in the order given.
pub open spec fn new_related(matched: Seq<String>, related: Seq<MemoryRecord>) -> Seq<MemoryRecord>
    decreases related.len(),
{
    if related.len() == 0 {
        Seq::empty()
    } else {
        let prev = new_related(matched, related.drop_last());
        if holds_uid(matched, related.last().uid@) {
            prev
        } else {
            prev.push(related.last())
        }
    }
}

/// Appends the notes reached through a relationship hop that were not direct
/// hits, tagged `Related`.
pub fn append_related(out: &mut Vec<TieredResult>, matched: &Vec<String>, related: Vec<MemoryRecord>)
    ensures
        final(out)@.len() == old(out)@.len() + new_related(matched@, related@).len(),
        forall|k: int| 0 <= k < old(out)@.len() ==> #[trigger] final(out)@[k] == old(out)@[k],
        forall|k: int|
            0 <= k < new_related(matched@, related@).len() ==> (#[trigger] final(out)@[old(out)@.len() + k])
                == TieredResult::Related(new_related(matched@, related@)[k]),
{
    let ghost base = out@;
    let ghost all = related@;
    let n = related.len();
    let mut rest = related;
    let mut i: usize = 0;
    while rest.len() > 0
        invariant
            all.len() == n,
            0 <= i <= all.len(),
            rest@ == all.skip(i as int),
            base == old(out)@,
            out@.len() == base.len() + new_related(matched@, all.take(i as int)).len(),
            forall|k: int| 0 <= k < base.len() ==> #[trigger] out@[k] == base[k],
            forall|k: int|
                0 <= k < new_related(matched@, all.take(i as int)).len() ==> (#[trigger] out@[base.len() + k])
                    == TieredResult::Related(new_related(matched@, all.take(i as int))[k]),
        decreases rest.len(),
    {
        let r = rest.remove(0);
        proof {
            assert(r == all[i as int]);
            assert(rest@ == all.skip(i + 1));
            let t = all.take(i + 1);
            assert(t.drop_last() == all.take(i as int));
            assert(t.last() == all[i as int]);
        }
        let mut seen = false;
        let mut k: usize = 0;
        while k < matched.len()
            invariant
                0 <= k <= matched@.len(),
                seen == exists|j: int| 0 <= j < k && (#[trigger] matched@[j])@ == r.uid@,
            decreases matched.len() - k,
        {
            if matched[k] == r.uid {
                seen = true;
            }
            k = k + 1;
        }
        if !seen {
            out.push(TieredResult::Related(r));
        }
        i = i + 1;
    }
    assert(all.take(all.len() as int) == all);
}

// ---- the relationship walk -----------------------------------------------------------

/// The views of a list of strings.
pub open spec fn views(v: Seq<String>) -> Seq<Seq<char>> {
    v.map_values(|s: String| s@)
}

/// The targets not yet visited, each kept once, in the order given.
pub open spec fn fresh_targets(visited: Seq<Seq<char>>, targets: Seq<Seq<char>>) -> Seq<Seq<char>>
    decreases targets.len(),
{
    if targets.len() == 0 {
        Seq::empty()
    } else {
        let prev = fresh_targets(visited, targets.drop_last());
        let t = targets.last();
        if visited.contains(t) || prev.contains(t) {
            prev
        } else {
            prev.push(t)
        }
    }
}

/// A breadth-first walk over relationship edges from a set of seed notes.
/// Each note is visited once; the seeds are never reported as reached.
pub struct RelationWalk {
    /// The seeds followed by every note reached so far.
    pub visited: Vec<String>,
    /// The notes reached by the latest hop.
    pub frontier: Vec<String>,
    /// The notes reached so far, in the order reached.
    pub reached: Vec<String>,
    /// The seeds the walk started from.
    pub seeds: Ghost<Seq<Seq<char>>>,
}

impl RelationWalk {
    pub open spec fn wf(&self) -> bool {
        &&& views(self.visited@) == self.seeds@ + views(self.reached@)
        &&& forall|i: int, j: int|
            0 <= i < j < self.reached@.len() ==> (#[trigger] self.reached@[i])@ != (#[trigger] self.reached@[j])@
        &&& forall|i: int|
            0 <= i < self.reached@.len() ==> !self.seeds@.contains((#[trigger] self.reached@[i])@)
    }

    /// Starts a walk at the seeds.
    pub fn new(seeds: &Vec<String>) -> (w: RelationWalk)
        ensures
            w.wf(),
            w.seeds@ == views(seeds@),
            views(w.frontier@) == views(seeds@),
            w.reached@.len() == 0,
    {
        let v = copy_strings(seeds);
        let f = copy_strings(seeds);
        RelationWalk { visited: v, frontier: f, reached: Vec::new(), seeds: Ghost(views(seeds@)) }
    }

    /// Whether another hop is due: fewer than `max_hops` taken and a non-empty frontier.
    pub fn should_continue(&self, hops_taken: usize, max_hops: usize) -> (r: bool)
        ensures
            r == (hops_taken < max_hops && self.frontier@.len() > 0),
    {
        hops_taken < max_hops && self.frontier.len() > 0
    }

    /// Takes one hop: of the targets the frontier's edges lead to, those not yet
    /// visited (each once) are reached and form the next frontier.
    pub fn hop(&mut self, targets: &Vec<String>)
        requires
            old(self).wf(),
        ensures
            final(self).wf(),
            final(self).seeds == old(self).seeds,
            views(final(self).frontier@) == fresh_targets(views(old(self).visited@), views(targets@)),
            views(final(self).reached@) == views(old(self).reached@) + fresh_targets(
                views(old(self).visited@),
                views(targets@),
            ),
    {
        let ghost v0 = views(self.visited@);
        let ghost r0 = views(self.reached@);
        let mut next: Vec<String> = Vec::new();
        let mut i: usize = 0;
        while i < targets.len()
            invariant
                0 <= i <= targets@.len(),
                v0 == old(self).seeds@ + r0,
                self.seeds == old(self).seeds,
                views(next@) == fresh_targets(v0, views(targets@).take(i as int)),
                views(self.visited@) == v0 + views(next@),
                views(self.reached@) == r0 + views(next@),
                self.wf(),
            decreases targets.len() - i,
        {
            let t = &targets[i];
            let known = contains_string_exec(&self.visited, t);
            let ghost vs = views(self.visited@);
            proof {
                let tt = views(targets@).take(i + 1);
                assert(tt.drop_last() == views(targets@).take(i as int));
                assert(tt.last() == t@);
                assert(known == (v0.contains(t@) || views(next@).contains(t@))) by {
                    lemma_contains_concat(v0, views(next@), t@);
                }
            }
            if !known {
                let ghost reached_before = self.reached@;
                self.visited.push(t.clone());
                self.reached.push(t.clone());
                next.push(t.clone());
                proof {
                    assert(views(self.visited@) =~= vs.push(t@));
                    assert(views(self.reached@) =~= views(reached_before).push(t@));
                    assert(views(next@) =~= fresh_targets(v0, views(targets@).take(i as int)).push(t@));
                    assert forall|a: int, b: int|
                        0 <= a < b < self.reached@.len() implies (#[trigger] self.reached@[a])@
                        != (#[trigger] self.reached@[b])@ by {
                        if b == self.reached@.len() - 1 {
                            assert(self.reached@[a] == reached_before[a]);
                            assert(vs[self.seeds@.len() + a] == reached_before[a]@);
                        }
                    }
                    assert forall|a: int| 0 <= a < self.reached@.len() implies !self.seeds@.contains(
                        (#[trigger] self.reached@[a])@,
                    ) by {
                        if a == self.reached@.len() - 1 {
                            if self.seeds@.contains(t@) {
                                let k = choose|k: int| 0 <= k < self.seeds@.len() && self.seeds@[k] == t@;
                                assert(vs[k] == t@);
                                assert(self.visited@[k]@ == t@);
                            }
                        } else {
                            assert(self.reached@[a] == reached_before[a]);
                        }
                    }
                }
            }
            i = i + 1;
        }
        proof {
            assert(views(targets@).take(targets@.len() as int) == views(targets@));
        }
        self.frontier = next;
    }
}

/// An element of a concatenation is an element of one of its parts.
proof fn lemma_contains_concat(a: Seq<Seq<char>>, b: Seq<Seq<char>>, x: Seq<char>)
    ensures
        (a + b).contains(x) == (a.contains(x) || b.contains(x)),
{
    if (a + b).contains(x) {
        let k = choose|k: int| 0 <= k < (a + b).len() && (a + b)[k] == x;
        if k < a.len() {
            assert(a[k] == x);
        } else {
            assert(b[k - a.len()] == x);
        }
    }
    if a.contains(x) {
        let k = choose|k: int| 0 <= k < a.len() && a[k] == x;
        assert((a + b)[k] == x);
    }
    if b.contains(x) {
        let k = choose|k: int| 0 <= k < b.len() && b[k] == x;
        assert((a + b)[a.len() + k] == x);
    }
}

/// Whether `v` holds a string equal to `s`.
fn contains_string_exec(v: &Vec<String>, s: &String) -> (r: bool)
    ensures
        r == views(v@).contains(s@),
{
    proof {
        assert forall|m: int| 0 <= m < v@.len() implies views(v@)[m] == (#[trigger] v@[m])@ by {}
    }
    let mut k: usize = 0;
    while k < v.len()
        invariant
            0 <= k <= v@.len(),
            forall|m: int| 0 <= m < k ==> (#[trigger] v@[m])@ != s@,
        decreases v.len() - k,
    {
        if v[k] == *s {
            assert(views(v@)[k as int] == s@);
            return true;
        }
        k = k + 1;
    }
    assert(!views(v@).contains(s@)) by {
        if views(v@).contains(s@) {
            let m = choose|m: int| 0 <= m < views(v@).len() && views(v@)[m] == s@;
            assert(v@[m]@ == s@);
        }
    }
    false
}

/// A copy of a list of strings.
pub fn copy_strings(v: &Vec<String>) -> (r: Vec<String>)
    ensures
        r@ == v@,
{
    let mut r: Vec<String> = Vec::new();
    let mut i: usize = 0;
    while i < v.len()
        invariant
            0 <= i <= v@.len(),
            r@ == v@.take(i as int),
        decreases v.len() - i,
    {
        r.push(v[i].clone());
        assert(v@.take(i + 1) == v@.take(i as int).push(v@[i as int]));
        i = i + 1;
    }
    assert(v@.take(v.len() as int) == v@);
    r
}

/// The last record in `recs` with this uid.
pub open spec fn last_with_uid(recs: Seq<MemoryRecord>, uid: Seq<char>) -> Option<MemoryRecord>
    decreases recs.len(),
{
    if recs.len() == 0 {
        None
    } else if recs.last().uid@ == uid {
        Some(recs.last())
    } else {
        last_with_uid(recs.drop_last(), uid)
    }
}

/// For each uid in order, the record fetched for it (the last one when the same
/// uid was fetched twice); uids without a record are dropped.
pub open spec fn in_uid_order(uids: Seq<Seq<char>>, recs: Seq<MemoryRecord>) -> Seq<MemoryRecord>
    decreases uids.len(),
{
    if uids.len() == 0 {
        Seq::empty()
    } else {
        let prev = in_uid_order(uids.drop_last(), recs);
        match last_with_uid(recs, uids.last()) {
            Some(r) => prev.push(r),
            None => prev,
        }
    }
}

/// Orders fetched records by the given uids (see `in_uid_order`).
pub fn records_in_order(uids: &Vec<String>, recs: &Vec<MemoryRecord>) -> (r: Vec<MemoryRecord>)
    ensures
        r@.len() == in_uid_order(views(uids@), recs@).len(),
        forall|k: int| 0 <= k < r@.len() ==> (#[trigger] r@[k]).same_as(in_uid_order(views(uids@), recs@)[k]),
{
    let ghost uv = views(uids@);
    let mut out: Vec<MemoryRecord> = Vec::new();
    let mut i: usize = 0;
    while i < uids.len()
        invariant
            0 <= i <= uids@.len(),
            uv == views(uids@),
            out@.len() == in_uid_order(uv.take(i as int), recs@).len(),
            forall|k: int| 0 <= k < out@.len() ==> (#[trigger] out@[k]).same_as(in_uid_order(uv.take(i as int), recs@)[k]),
        decreases uids.len() - i,
    {
        let u = &uids[i];
        proof {
            let t = uv.take(i + 1);
            assert(t.drop_last() == uv.take(i as int));
            assert(t.last() == u@);
        }
        let mut j = recs.len();
        assert(recs@.take(j as int) == recs@);
        while j > 0 && !(recs[j - 1].uid == *u)
            invariant
                j <= recs@.len(),
                last_with_uid(recs@, u@) == last_with_uid(recs@.take(j as int), u@),
            decreases j,
        {
            proof {
                let t = recs@.take(j as int);
                assert(t.drop_last() == recs@.take(j - 1));
                assert(t.last() == recs@[j - 1]);
            }
            j = j - 1;
        }
        if j > 0 {
            proof {
                let t = recs@.take(j as int);
                assert(t.last() == recs@[j - 1]);
            }
            out.push(recs[j - 1].duplicate());
        } else {
            assert(recs@.take(0) == Seq::<MemoryRecord>::empty());
        }
        i = i + 1;
    }
    assert(uv.take(uids.len() as int) == uv);
    out
}

// ---- templates -------------------------------------------------------------------------

/// Why a template cannot be saved.
pub const UNUSABLE_TEMPLATE_NAME: &'static str = "template name has no usable characters";

/// The record of a saved template: keyed by the slug of its name (an error when
/// the slug is empty), keeping the creation time of an earlier save of the same
/// template and stamping `now` as its update time.
pub fn template_record(
    name: &str,
    description: &str,
    content: String,
    tags: Vec<String>,
    author_id: String,
    existing_created_at: Option<String>,
    now: &str,
) -> (r: Result<StoredTemplate, String>)
    ensures
        slug_spec(name@).len() == 0 <==> r is Err,
        r matches Err(e) ==> e@ == UNUSABLE_TEMPLATE_NAME@,
        r matches Ok(t) ==> {
            &&& t.uid@ == slug_spec(name@)
            &&& t.author_id == author_id
            &&& t.name@ == name@
            &&& t.description@ == description@
            &&& t.content == content
            &&& t.tags == tags
            &&& t.created_at@ == (match existing_created_at {
                Some(c) => c@,
                None => now@,
            })
            &&& t.updated_at@ == now@
        },
{
    let uid = slug(name);
    if uid.as_str().is_empty() {
        return Err(UNUSABLE_TEMPLATE_NAME.to_owned());
    }
    let created_at = match existing_created_at {
        Some(c) => c,
        None => now.to_owned(),
    };
    Ok(
        StoredTemplate {
            uid,
            author_id,
            name: name.to_owned(),
            description: description.to_owned(),
            content,
            tags,
            created_at,
            updated_at: now.to_owned(),
        },
    )
}

} // verus!
