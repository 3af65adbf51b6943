//! The catalog of hireable identities and of skills.
//!
//! An agent file is markdown with `name`/`description` frontmatter and an
//! optional `## Identity` section; a skill file (`SKILL.md`) carries the same
//! frontmatter. This module parses both and merges what a scan finds: the
//! first entry of an id wins, and an empty agent catalog falls back to the
//! built-in pair.
use vstd::prelude::*;
use crate::text::{
    append, append_str, char_uppercase, chars_of, find, find_seq, find_seq_from, is_whitespace,
    occurs_at, slice, spec_char_uppercase, split, split_seq, starts_with, starts_with_seq,
    str_eq, string_of, trim, trim_char, trim_char_seq, trim_seq, trim_start_crlf, trim_start_crlf_exec,
    trim_start_seq,
};

verus! {

/// One selectable operative identity, distilled from an agent markdown file.
#[derive(Debug, Clone, PartialEq)]
pub struct AgentIdentity {
    /// Stable id: the frontmatter `name`.
    pub id: String,
    /// Display name: the first bold token of the `## Identity` section, else
    /// the title-cased id.
    pub name: String,
    /// One-line role: the frontmatter `description`.
    pub role: String,
    /// Standing instructions: the `**Mandate:**` paragraph, else the first
    /// Identity paragraph, else the role.
    pub mandate: String,
    /// Where it came from.
    pub source: String,
}

/// A discoverable skill, parsed from a `SKILL.md` file.
#[derive(Debug, Clone, PartialEq)]
pub struct SkillRef {
    /// Stable id: the frontmatter `name`.
    pub id: String,
    /// Display name: the title-cased id.
    pub name: String,
    /// One-line description: the frontmatter `description`.
    pub description: String,
    /// The slash command that invokes the skill: `/` and the id.
    pub command: String,
    /// Where the `SKILL.md` lives.
    pub source: String,
    /// Provenance: `repo`, `global` or `plugin:<name>`.
    pub origin: String,
}

// ---- the format, as spec functions ------------------------------------------

/// `---\n<frontmatter>\n---\n<body>`: the frontmatter and the body, or `None`
/// when the text has no leading frontmatter. Line breaks right after either
/// fence are skipped.
pub open spec fn split_frontmatter_spec(md: Seq<char>) -> Option<(Seq<char>, Seq<char>)> {
    if !starts_with_seq(md, "---"@) {
        None
    } else {
        let rest = trim_start_crlf(md.skip(3));
        match find_seq(rest, "\n---"@) {
            None => None,
            Some(end) => Some((rest.take(end), trim_start_crlf(rest.skip(end + 4)))),
        }
    }
}

/// A frontmatter value with surrounding whitespace and quotes removed.
pub open spec fn clean_value(v: Seq<char>) -> Seq<char> {
    trim_seq(trim_char_seq(trim_char_seq(trim_seq(v), '"'), '\''))
}

/// The value of `key` on one frontmatter line, if the line is `key: value`.
pub open spec fn line_value(line: Seq<char>, key: Seq<char>) -> Option<Seq<char>> {
    let l = trim_seq(line);
    if starts_with_seq(l, key) {
        let rest = trim_start_seq(l.skip(key.len() as int));
        if rest.len() > 0 && rest[0] == ':' {
            Some(clean_value(rest.skip(1)))
        } else {
            None
        }
    } else {
        None
    }
}

/// The value of `key` on the first line that has one.
pub open spec fn first_line_value(lines: Seq<Seq<char>>, key: Seq<char>) -> Option<Seq<char>>
    decreases lines.len(),
{
    if lines.len() == 0 {
        None
    } else {
        match line_value(lines[0], key) {
            Some(v) => Some(v),
            None => first_line_value(lines.drop_first(), key),
        }
    }
}

/// The value of `key` in a frontmatter block.
pub open spec fn frontmatter_value_spec(fm: Seq<char>, key: Seq<char>) -> Option<Seq<char>> {
    first_line_value(split_seq(fm, "\n"@), key)
}

/// The body of the first `heading` section, up to the next `## ` heading, trimmed.
pub open spec fn section_spec(body: Seq<char>, heading: Seq<char>) -> Option<Seq<char>> {
    match find_seq(body, heading) {
        None => None,
        Some(start) => {
            let after0 = body.skip(start + heading.len());
            let after = if after0.len() > 0 && after0[0] == '\n' {
                after0.skip(1)
            } else {
                after0
            };
            let end = match find_seq(after, "\n## "@) {
                Some(e) => e,
                None => after.len() as int,
            };
            Some(trim_seq(after.take(end)))
        },
    }
}

/// The first non-empty `**bold**` token, trimmed.
pub open spec fn first_bold_spec(s: Seq<char>) -> Option<Seq<char>> {
    match find_seq(s, "**"@) {
        None => None,
        Some(open) => {
            let after = s.skip(open + 2);
            match find_seq(after, "**"@) {
                None => None,
                Some(close) => {
                    let t = trim_seq(after.take(close));
                    if t.len() == 0 {
                        None
                    } else {
                        Some(t)
                    }
                },
            }
        },
    }
}

/// The label that opens a mandate paragraph.
pub open spec fn mandate_label() -> Seq<char> {
    "**Mandate:**"@
}

/// The first paragraph that opens with the mandate label, label removed, trimmed.
pub open spec fn first_mandate(paras: Seq<Seq<char>>) -> Option<Seq<char>>
    decreases paras.len(),
{
    if paras.len() == 0 {
        None
    } else {
        let p = trim_seq(paras[0]);
        if starts_with_seq(p, mandate_label()) {
            Some(trim_seq(p.skip(mandate_label().len() as int)))
        } else {
            first_mandate(paras.drop_first())
        }
    }
}

/// The first paragraph that is not blank, trimmed.
pub open spec fn first_nonblank(paras: Seq<Seq<char>>) -> Option<Seq<char>>
    decreases paras.len(),
{
    if paras.len() == 0 {
        None
    } else if trim_seq(paras[0]).len() > 0 {
        Some(trim_seq(paras[0]))
    } else {
        first_nonblank(paras.drop_first())
    }
}

/// A word separator of an id.
pub open spec fn is_word_sep(c: char) -> bool {
    c == '-' || c == '_'
}

/// The words of `s` split at `-` and `_`, scanning from `i` with the current
/// word starting at `start`.
pub open spec fn words_from(s: Seq<char>, start: int, i: int) -> Seq<Seq<char>>
    decreases s.len() - i,
{
    if i >= s.len() {
        seq![s.subrange(start, s.len() as int)]
    } else if is_word_sep(s[i]) {
        seq![s.subrange(start, i)] + words_from(s, i + 1, i + 1)
    } else {
        words_from(s, start, i + 1)
    }
}

/// A word with its first character uppercased.
pub open spec fn capitalize(w: Seq<char>) -> Seq<char> {
    spec_char_uppercase(w[0]) + w.drop_first()
}

/// Some word of `ws` is non-empty.
pub open spec fn has_word(ws: Seq<Seq<char>>) -> bool {
    exists|i: int| 0 <= i < ws.len() && (#[trigger] ws[i]).len() > 0
}

/// The non-empty words of `ws`, capitalized and joined by single spaces.
pub open spec fn title_words(ws: Seq<Seq<char>>) -> Seq<char>
    decreases ws.len(),
{
    if ws.len() == 0 {
        Seq::empty()
    } else {
        let w = ws.last();
        let prev = title_words(ws.drop_last());
        if w.len() == 0 {
            prev
        } else if has_word(ws.drop_last()) {
            prev + " "@ + capitalize(w)
        } else {
            capitalize(w)
        }
    }
}

/// `code-auditor` becomes `Code Auditor`.
pub open spec fn title_case_spec(id: Seq<char>) -> Seq<char> {
    title_words(words_from(id, 0, 0))
}

/// The id an agent file declares (its frontmatter `name`), if it has one.
pub open spec fn declared_id(md: Seq<char>) -> Option<Seq<char>> {
    match split_frontmatter_spec(md) {
        None => None,
        Some(parts) => frontmatter_value_spec(parts.0, "name"@),
    }
}

/// A frontmatter's `description`, empty when absent.
pub open spec fn description_of(fm: Seq<char>) -> Seq<char> {
    match frontmatter_value_spec(fm, "description"@) {
        Some(d) => d,
        None => Seq::empty(),
    }
}

/// The display name: the first bold token of the identity section, else the
/// title-cased id.
pub open spec fn display_name_spec(identity: Option<Seq<char>>, id: Seq<char>) -> Seq<char> {
    match identity {
        Some(s) => match first_bold_spec(s) {
            Some(b) => b,
            None => title_case_spec(id),
        },
        None => title_case_spec(id),
    }
}

/// The mandate: the mandate paragraph, else the first paragraph of the identity
/// section, else the role.
pub open spec fn mandate_spec(identity: Option<Seq<char>>, role: Seq<char>) -> Seq<char> {
    match identity {
        Some(s) => match first_mandate(split_seq(s, "\n\n"@)) {
            Some(m) => m,
            None => match first_nonblank(split_seq(s, "\n\n"@)) {
                Some(p) => p,
                None => role,
            },
        },
        None => role,
    }
}

// ---- parsing helpers ---------------------------------------------------------

fn split_frontmatter(md: &[char]) -> (r: Option<(Vec<char>, Vec<char>)>)
    ensures
        match r {
            None => split_frontmatter_spec(md@) is None,
            Some(p) => split_frontmatter_spec(md@) == Some((p.0@, p.1@)),
        },
{
    let fence = chars_of("---");
    proof {
        reveal_strlit("---");
        reveal_strlit("\n---");
    }
    if !starts_with(md, &fence) {
        return None;
    }
    let tail = slice(md, 3, md.len());
    assert(tail@ == md@.skip(3));
    let rest = trim_start_crlf_exec(&tail);
    let close = chars_of("\n---");
    match find(&rest, &close) {
        None => None,
        Some(end) => {
            proof {
                assert(occurs_at(rest@, "\n---"@, end as int)) by {
                    lemma_find_occurs(rest@, "\n---"@, 0, end as int);
                }
            }
            let fm = slice(&rest, 0, end);
            let n = rest.len();
            let after = slice(&rest, end + 4, n);
            let body = trim_start_crlf_exec(&after);
            assert(fm@ == rest@.take(end as int));
            assert(after@ == rest@.skip(end + 4));
            Some((fm, body))
        },
    }
}

/// A found index is an occurrence.
proof fn lemma_find_occurs(hay: Seq<char>, needle: Seq<char>, from: int, i: int)
    requires
        find_seq_from(hay, needle, from) == Some(i),
    ensures
        occurs_at(hay, needle, i),
        from <= i,
    decreases hay.len() + 1 - from,
{
    if from < 0 || from > hay.len() {
    } else if occurs_at(hay, needle, from) {
    } else {
        lemma_find_occurs(hay, needle, from + 1, i);
    }
}

fn clean_value_exec(v: &[char]) -> (r: Vec<char>)
    ensures
        r@ == clean_value(v@),
{
    let a = trim(v);
    let b = trim_char(&a, '"');
    let c = trim_char(&b, '\'');
    trim(&c)
}

fn line_value_exec(line: &[char], key: &[char]) -> (r: Option<Vec<char>>)
    ensures
        match r {
            None => line_value(line@, key@) is None,
            Some(v) => line_value(line@, key@) == Some(v@),
        },
{
    let l = trim(line);
    if !starts_with(&l, key) {
        return None;
    }
    let after_key = slice(&l, key.len(), l.len());
    assert(after_key@ == l@.skip(key@.len() as int));
    let rest0 = trim_start_only(&after_key);
    if rest0.len() > 0 && rest0[0] == ':' {
        let val = slice(&rest0, 1, rest0.len());
        assert(val@ == rest0@.skip(1));
        Some(clean_value_exec(&val))
    } else {
        None
    }
}

/// `v` without its leading whitespace.
fn trim_start_only(v: &[char]) -> (r: Vec<char>)
    ensures
        r@ == trim_start_seq(v@),
{
    let mut i: usize = 0;
    assert(v@.subrange(0, v.len() as int) =~= v@);
    while i < v.len() && is_whitespace(v[i])
        invariant
            i <= v.len(),
            trim_start_seq(v@) == trim_start_seq(v@.subrange(i as int, v.len() as int)),
        decreases v.len() - i,
    {
        assert(v@.subrange(i as int, v.len() as int).drop_first() =~= v@.subrange(i + 1, v.len() as int));
        i = i + 1;
    }
    slice(v, i, v.len())
}

fn frontmatter_value(fm: &[char], key: &str) -> (r: Option<Vec<char>>)
    ensures
        match r {
            None => frontmatter_value_spec(fm@, key@) is None,
            Some(v) => frontmatter_value_spec(fm@, key@) == Some(v@),
        },
{
    let nl = chars_of("\n");
    proof {
        reveal_strlit("\n");
    }
    let lines = split(fm, &nl);
    let k = chars_of(key);
    let ghost ls = lines@.map_values(|p: Vec<char>| p@);
    let mut i: usize = 0;
    assert(ls.skip(0) == ls);
    while i < lines.len()
        invariant
            0 <= i <= lines@.len(),
            ls == lines@.map_values(|p: Vec<char>| p@),
            ls == split_seq(fm@, "\n"@),
            k@ == key@,
            frontmatter_value_spec(fm@, key@) == first_line_value(ls.skip(i as int), key@),
        decreases lines.len() - i,
    {
        let v = line_value_exec(&lines[i], &k);
        proof {
            assert(ls.skip(i as int)[0] == lines@[i as int]@);
            assert(ls.skip(i as int).drop_first() == ls.skip(i + 1));
        }
        if v.is_some() {
            return v;
        }
        i = i + 1;
    }
    None
}

fn section(body: &[char], heading: &str) -> (r: Option<Vec<char>>)
    ensures
        match r {
            None => section_spec(body@, heading@) is None,
            Some(v) => section_spec(body@, heading@) == Some(v@),
        },
{
    let h = chars_of(heading);
    proof {
        reveal_strlit("\n## ");
    }
    match find(body, &h) {
        None => None,
        Some(start) => {
            proof {
                lemma_find_occurs(body@, heading@, 0, start as int);
            }
            let n = body.len();
            let after0 = slice(body, start + h.len(), n);
            assert(after0@ == body@.skip(start + heading@.len()));
            let after = if after0.len() > 0 && after0[0] == '\n' {
                let a = slice(&after0, 1, after0.len());
                assert(a@ == after0@.skip(1));
                a
            } else {
                after0
            };
            let marker = chars_of("\n## ");
            let end = match find(&after, &marker) {
                Some(e) => {
                    proof {
                        lemma_find_occurs(after@, "\n## "@, 0, e as int);
                    }
                    e
                },
                None => after.len(),
            };
            let piece = slice(&after, 0, end);
            assert(piece@ == after@.take(end as int));
            Some(trim(&piece))
        },
    }
}

fn first_bold(s: &[char]) -> (r: Option<Vec<char>>)
    ensures
        match r {
            None => first_bold_spec(s@) is None,
            Some(v) => first_bold_spec(s@) == Some(v@),
        },
{
    let stars = chars_of("**");
    proof {
        reveal_strlit("**");
    }
    match find(s, &stars) {
        None => None,
        Some(open) => {
            proof {
                lemma_find_occurs(s@, "**"@, 0, open as int);
            }
            let n = s.len();
            let after = slice(s, open + 2, n);
            assert(after@ == s@.skip(open + 2));
            match find(&after, &stars) {
                None => None,
                Some(close) => {
                    proof {
                        lemma_find_occurs(after@, "**"@, 0, close as int);
                    }
                    let inner = slice(&after, 0, close);
                    assert(inner@ == after@.take(close as int));
                    let t = trim(&inner);
                    if t.len() == 0 {
                        None
                    } else {
                        Some(t)
                    }
                },
            }
        },
    }
}

fn paragraphs(s: &[char]) -> (r: Vec<Vec<char>>)
    ensures
        r@.map_values(|p: Vec<char>| p@) == split_seq(s@, "\n\n"@),
{
    let sep = chars_of("\n\n");
    proof {
        reveal_strlit("\n\n");
    }
    split(s, &sep)
}

fn mandate_paragraph(s: &[char]) -> (r: Option<Vec<char>>)
    ensures
        match r {
            None => first_mandate(split_seq(s@, "\n\n"@)) is None,
            Some(v) => first_mandate(split_seq(s@, "\n\n"@)) == Some(v@),
        },
{
    let paras = paragraphs(s);
    let label = chars_of("**Mandate:**");
    let ghost ps = paras@.map_values(|p: Vec<char>| p@);
    let mut i: usize = 0;
    assert(ps.skip(0) == ps);
    while i < paras.len()
        invariant
            0 <= i <= paras@.len(),
            ps == paras@.map_values(|p: Vec<char>| p@),
            label@ == mandate_label(),
            first_mandate(split_seq(s@, "\n\n"@)) == first_mandate(ps.skip(i as int)),
        decreases paras.len() - i,
    {
        let p = trim(&paras[i]);
        proof {
            assert(ps.skip(i as int)[0] == paras@[i as int]@);
            assert(ps.skip(i as int).drop_first() == ps.skip(i + 1));
        }
        if starts_with(&p, &label) {
            let rest = slice(&p, label.len(), p.len());
            assert(rest@ == p@.skip(mandate_label().len() as int));
            return Some(trim(&rest));
        }
        i = i + 1;
    }
    None
}

fn first_paragraph(s: &[char]) -> (r: Option<Vec<char>>)
    ensures
        match r {
            None => first_nonblank(split_seq(s@, "\n\n"@)) is None,
            Some(v) => first_nonblank(split_seq(s@, "\n\n"@)) == Some(v@),
        },
{
    let paras = paragraphs(s);
    let ghost ps = paras@.map_values(|p: Vec<char>| p@);
    let mut i: usize = 0;
    assert(ps.skip(0) == ps);
    while i < paras.len()
        invariant
            0 <= i <= paras@.len(),
            ps == paras@.map_values(|p: Vec<char>| p@),
            first_nonblank(split_seq(s@, "\n\n"@)) == first_nonblank(ps.skip(i as int)),
        decreases paras.len() - i,
    {
        let p = trim(&paras[i]);
        proof {
            assert(ps.skip(i as int)[0] == paras@[i as int]@);
            assert(ps.skip(i as int).drop_first() == ps.skip(i + 1));
        }
        if p.len() > 0 {
            return Some(p);
        }
        i = i + 1;
    }
    None
}

/// The words of `s` split at `-` and `_`.
fn words(s: &[char]) -> (r: Vec<Vec<char>>)
    ensures
        r@.map_values(|p: Vec<char>| p@) == words_from(s@, 0, 0),
{
    let mut out: Vec<Vec<char>> = Vec::new();
    let mut start: usize = 0;
    let mut i: usize = 0;
    while i < s.len()
        invariant
            0 <= start <= i <= s.len(),
            out@.map_values(|p: Vec<char>| p@) + words_from(s@, start as int, i as int)
                == words_from(s@, 0, 0),
        decreases s.len() - i,
    {
        if s[i] == '-' || s[i] == '_' {
            let piece = slice(s, start, i);
            let ghost before = out@.map_values(|p: Vec<char>| p@);
            out.push(piece);
            proof {
                assert(out@.map_values(|p: Vec<char>| p@) == before.push(piece@));
                assert(before.push(piece@) + words_from(s@, i + 1, i + 1) == before + (seq![
                    piece@,
                ] + words_from(s@, i + 1, i + 1)));
            }
            i = i + 1;
            start = i;
        } else {
            i = i + 1;
        }
    }
    let last = slice(s, start, s.len());
    let ghost before = out@.map_values(|p: Vec<char>| p@);
    out.push(last);
    proof {
        assert(out@.map_values(|p: Vec<char>| p@) == before.push(last@));
        assert(before.push(last@) == before + seq![last@]);
    }
    out
}

/// Title-cases an id: its `-`/`_`-separated non-empty words, each with the
/// first character uppercased, joined by spaces.
pub fn title_case(id: &str) -> (r: String)
    ensures
        r@ == title_case_spec(id@),
{
    let s = chars_of(id);
    let ws = words(&s);
    let ghost wv = ws@.map_values(|p: Vec<char>| p@);
    let mut out: Vec<char> = Vec::new();
    let mut any = false;
    let mut i: usize = 0;
    assert(wv.take(0) == Seq::<Seq<char>>::empty());
    while i < ws.len()
        invariant
            0 <= i <= ws@.len(),
            wv == ws@.map_values(|p: Vec<char>| p@),
            wv == words_from(id@, 0, 0),
            out@ == title_words(wv.take(i as int)),
            any == has_word(wv.take(i as int)),
        decreases ws.len() - i,
    {
        let w = &ws[i];
        proof {
            let t = wv.take(i + 1);
            assert(t.drop_last() == wv.take(i as int));
            assert(t.last() == w@);
        }
        if w.len() > 0 {
            let ghost out0 = out@;
            if any {
                out.push(' ');
            }
            let ghost out1 = out@;
            let up = char_uppercase(w[0]);
            append_str(&mut out, up.as_str());
            let rest = slice(w, 1, w.len());
            append(&mut out, &rest);
            proof {
                reveal_strlit(" ");
                assert(rest@ == w@.drop_first());
                let t = wv.take(i + 1);
                assert(out@ == out1 + capitalize(w@));
                if any {
                    assert(out1 == out0 + " "@);
                } else {
                    assert(out1 == out0);
                    assert(out0 == title_words(wv.take(i as int)));
                    assert(out0.len() == 0) by {
                        lemma_title_words_empty(wv.take(i as int));
                    }
                }
                assert(has_word(t)) by {
                    assert(t[i as int] == w@);
                }
            }
            any = true;
        } else {
            proof {
                let t = wv.take(i + 1);
                assert(has_word(t) == has_word(wv.take(i as int))) by {
                    if has_word(t) {
                        let j = choose|j: int| 0 <= j < t.len() && (#[trigger] t[j]).len() > 0;
                        assert(j < i);
                        assert(wv.take(i as int)[j] == t[j]);
                    }
                    if has_word(wv.take(i as int)) {
                        let j = choose|j: int| 0 <= j < i && (#[trigger] wv.take(i as int)[j]).len() > 0;
                        assert(t[j] == wv.take(i as int)[j]);
                    }
                }
            }
        }
        i = i + 1;
    }
    assert(wv.take(ws.len() as int) == wv);
    string_of(&out)
}

/// Without a non-empty word, the title is empty.
proof fn lemma_title_words_empty(ws: Seq<Seq<char>>)
    requires
        !has_word(ws),
    ensures
        title_words(ws).len() == 0,
    decreases ws.len(),
{
    if ws.len() > 0 {
        assert(!has_word(ws.drop_last())) by {
            if has_word(ws.drop_last()) {
                let j = choose|j: int| 0 <= j < ws.drop_last().len() && (#[trigger] ws.drop_last()[j]).len() > 0;
                assert(ws[j] == ws.drop_last()[j]);
            }
        }
        assert(ws.last().len() == 0) by {
            assert(ws[ws.len() - 1] == ws.last());
        }
        lemma_title_words_empty(ws.drop_last());
    }
}

// ---- identities ----------------------------------------------------------------

/// Parses one agent markdown file into an identity; `None` when the file has no
/// frontmatter or no non-empty `name` in it.
pub fn parse_identity(markdown: &str, source: &str) -> (r: Option<AgentIdentity>)
    ensures
        r is Some <==> (declared_id(markdown@) matches Some(id) && id.len() > 0),
        r matches Some(a) ==> {
            let (fm, body) = split_frontmatter_spec(markdown@)->0;
            let role = description_of(fm);
            let identity = section_spec(body, "## Identity"@);
            &&& a.id@ == declared_id(markdown@)->0
            &&& a.role@ == role
            &&& a.name@ == display_name_spec(identity, a.id@)
            &&& a.mandate@ == mandate_spec(identity, role)
            &&& a.source@ == source@
        },
{
    let md = chars_of(markdown);
    let (fm, body) = match split_frontmatter(&md) {
        Some(p) => p,
        None => return None,
    };
    let id = match frontmatter_value(&fm, "name") {
        Some(v) => v,
        None => return None,
    };
    if id.len() == 0 {
        return None;
    }
    let role = match frontmatter_value(&fm, "description") {
        Some(d) => d,
        None => Vec::new(),
    };
    let identity = section(&body, "## Identity");
    let id_str = string_of(&id);
    let name = match &identity {
        Some(s) => match first_bold(s) {
            Some(b) => string_of(&b),
            None => title_case(id_str.as_str()),
        },
        None => title_case(id_str.as_str()),
    };
    let mandate = match &identity {
        Some(s) => match mandate_paragraph(s) {
            Some(m) => string_of(&m),
            None => match first_paragraph(s) {
                Some(p) => string_of(&p),
                None => string_of(&role),
            },
        },
        None => string_of(&role),
    };
    Some(
        AgentIdentity {
            id: id_str,
            name,
            role: string_of(&role),
            mandate,
            source: source.to_owned(),
        },
    )
}

/// The built-in fallback catalog: the default architect and forger.
pub open spec fn is_default_catalog(r: Seq<AgentIdentity>) -> bool {
    &&& r.len() == 2
    &&& r[0].id@ == "cipher"@
    &&& r[0].name@ == "Cipher"@
    &&& r[0].role@ == "Architect \u{2014} planning, tests, judgement"@
    &&& r[0].mandate@ == "Decompose the goal, design the tests, and judge whether the goal is met."@
    &&& r[0].source@ == "built-in"@
    &&& r[1].id@ == "vex"@
    &&& r[1].name@ == "Vex"@
    &&& r[1].role@ == "Forger \u{2014} scoped implementation"@
    &&& r[1].mandate@ == "Implement the scoped subtask you are assigned and nothing beyond it."@
    &&& r[1].source@ == "built-in"@
}

/// The built-in fallback catalog: the default architect and forger.
pub fn default_catalog() -> (r: Vec<AgentIdentity>)
    ensures
        is_default_catalog(r@),
{
    let mut r: Vec<AgentIdentity> = Vec::new();
    r.push(
        AgentIdentity {
            id: "cipher".to_owned(),
            name: "Cipher".to_owned(),
            role: "Architect \u{2014} planning, tests, judgement".to_owned(),
            mandate: "Decompose the goal, design the tests, and judge whether the goal is met.".to_owned(),
            source: "built-in".to_owned(),
        },
    );
    r.push(
        AgentIdentity {
            id: "vex".to_owned(),
            name: "Vex".to_owned(),
            role: "Forger \u{2014} scoped implementation".to_owned(),
            mandate: "Implement the scoped subtask you are assigned and nothing beyond it.".to_owned(),
            source: "built-in".to_owned(),
        },
    );
    r
}

// ---- merging what a scan finds --------------------------------------------------

/// Repository meta documents that are never agent identities: the architect
/// CLI's own instructions file (`architect_doc`), `AGENTS.md`, `identity.md`
/// and `README.md`.
pub open spec fn is_meta_file_spec(fname: Seq<char>, architect_doc: Seq<char>) -> bool {
    fname == architect_doc || fname == "AGENTS.md"@ || fname == "identity.md"@ || fname
        == "README.md"@
}

/// Whether a file name is a repository meta document rather than an agent.
pub fn is_meta_file(fname: &str, architect_doc: &str) -> (r: bool)
    ensures
        r == is_meta_file_spec(fname@, architect_doc@),
{
    str_eq(fname, architect_doc) || str_eq(fname, "AGENTS.md") || str_eq(fname, "identity.md")
        || str_eq(fname, "README.md")
}

/// The provenance prefix of an agent directory: the relative directory itself
/// for the repository, else `<origin>:<dir>`.
pub fn source_prefix(origin_hint: &str, rel: &str) -> (r: String)
    ensures
        r@ == (if origin_hint@ == "repo"@ {
            rel@
        } else {
            origin_hint@ + ":"@ + rel@
        }),
{
    if str_eq(origin_hint, "repo") {
        rel.to_owned()
    } else {
        let mut v: Vec<char> = Vec::new();
        append_str(&mut v, origin_hint);
        append_str(&mut v, ":");
        append_str(&mut v, rel);
        string_of(&v)
    }
}

/// The source recorded for an agent file: `<prefix>/<file name>`.
pub fn agent_source(prefix: &str, fname: &str) -> (r: String)
    ensures
        r@ == prefix@ + "/"@ + fname@,
{
    let mut v: Vec<char> = Vec::new();
    append_str(&mut v, prefix);
    append_str(&mut v, "/");
    append_str(&mut v, fname);
    string_of(&v)
}

/// Whether some identity in `out` has id `id`.
pub open spec fn has_identity(out: Seq<AgentIdentity>, id: Seq<char>) -> bool {
    exists|k: int| 0 <= k < out.len() && (#[trigger] out[k]).id@ == id
}

/// Adds an identity unless one with the same id is already present: the
/// first occurrence of an id wins.
pub fn add_identity(out: &mut Vec<AgentIdentity>, identity: AgentIdentity)
    ensures
        has_identity(old(out)@, identity.id@) ==> final(out)@ == old(out)@,
        !has_identity(old(out)@, identity.id@) ==> final(out)@ == old(out)@.push(identity),
{
    let mut k: usize = 0;
    while k < out.len()
        invariant
            0 <= k <= out@.len(),
            out@ == old(out)@,
            forall|m: int| 0 <= m < k ==> (#[trigger] out@[m]).id@ != identity.id@,
        decreases out.len() - k,
    {
        if out[k].id == identity.id {
            return;
        }
        k = k + 1;
    }
    out.push(identity);
}

/// The scanned catalog, or the built-in one when the scan found nothing.
pub fn catalog_or_default(found: Vec<AgentIdentity>) -> (r: Vec<AgentIdentity>)
    ensures
        found@.len() > 0 ==> r@ == found@,
        found@.len() == 0 ==> is_default_catalog(r@),
{
    if found.len() == 0 {
        default_catalog()
    } else {
        found
    }
}

/// Parses a `SKILL.md` into a skill reference; `None` without frontmatter or a
/// non-empty `name`. The display name is the title-cased id and the command is
/// `/` followed by the id.
pub fn parse_skill(text: &str, source: &str, origin: &str) -> (r: Option<SkillRef>)
    ensures
        r is Some <==> (declared_id(text@) matches Some(id) && id.len() > 0),
        r matches Some(sk) ==> {
            let parts = split_frontmatter_spec(text@)->0;
            let fm = parts.0;
            &&& sk.id@ == declared_id(text@)->0
            &&& sk.name@ == title_case_spec(sk.id@)
            &&& sk.description@ == description_of(fm)
            &&& sk.command@ == "/"@ + sk.id@
            &&& sk.source@ == source@
            &&& sk.origin@ == origin@
        },
{
    let md = chars_of(text);
    let (fm, _body) = match split_frontmatter(&md) {
        Some(p) => p,
        None => return None,
    };
    let id = match frontmatter_value(&fm, "name") {
        Some(v) => v,
        None => return None,
    };
    if id.len() == 0 {
        return None;
    }
    let description = match frontmatter_value(&fm, "description") {
        Some(d) => d,
        None => Vec::new(),
    };
    let id_str = string_of(&id);
    let name = title_case(id_str.as_str());
    let mut cmd: Vec<char> = Vec::new();
    append_str(&mut cmd, "/");
    append(&mut cmd, &id);
    Some(
        SkillRef {
            id: id_str,
            name,
            description: string_of(&description),
            command: string_of(&cmd),
            source: source.to_owned(),
            origin: origin.to_owned(),
        },
    )
}

/// Whether some skill in `out` has id `id`.
pub open spec fn has_skill(out: Seq<SkillRef>, id: Seq<char>) -> bool {
    exists|k: int| 0 <= k < out.len() && (#[trigger] out[k]).id@ == id
}

/// Adds a skill unless one with the same id is already present: the first
/// root that has an id wins.
pub fn add_skill(out: &mut Vec<SkillRef>, skill: SkillRef)
    ensures
        has_skill(old(out)@, skill.id@) ==> final(out)@ == old(out)@,
        !has_skill(old(out)@, skill.id@) ==> final(out)@ == old(out)@.push(skill),
{
    let mut k: usize = 0;
    while k < out.len()
        invariant
            0 <= k <= out@.len(),
            out@ == old(out)@,
            forall|m: int| 0 <= m < k ==> (#[trigger] out@[m]).id@ != skill.id@,
        decreases out.len() - k,
    {
        if out[k].id == skill.id {
            return;
        }
        k = k + 1;
    }
    out.push(skill);
}

/// Merging keeps ids distinct: adding to a list of distinct ids yields distinct ids.
pub proof fn lemma_add_identity_keeps_ids_distinct(
    before: Seq<AgentIdentity>,
    after: Seq<AgentIdentity>,
    identity: AgentIdentity,
)
    requires
        forall|i: int, j: int|
            0 <= i < j < before.len() ==> (#[trigger] before[i]).id@ != (#[trigger] before[j]).id@,
        has_identity(before, identity.id@) ==> after == before,
        !has_identity(before, identity.id@) ==> after == before.push(identity),
    ensures
        forall|i: int, j: int|
            0 <= i < j < after.len() ==> (#[trigger] after[i]).id@ != (#[trigger] after[j]).id@,
{
    if !has_identity(before, identity.id@) {
        assert forall|i: int, j: int| 0 <= i < j < after.len() implies (#[trigger] after[i]).id@
            != (#[trigger] after[j]).id@ by {
            if j == before.len() {
                assert(after[i] == before[i]);
            } else {
                assert(after[i] == before[i] && after[j] == before[j]);
            }
        }
    }
}

} // verus!
