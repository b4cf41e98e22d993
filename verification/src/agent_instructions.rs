//! `AGENTS.md`: the text a new project starts with, and the replacement of the
//! sections that the workspace manages in an existing file.

use vstd::prelude::*;
use crate::text::{
    chars_of, eq_ignore_ascii_case, eq_ignore_case, is_ws, join, join_chars, lines, lines_of, lit,
    push_all, push_str, rtrim, split_on, starts_with, string_of, trim, trim_chars, trim_end, views,
};
use crate::markdown::{h2, normalize_newlines, normalize_newlines_exec};

verus! {

/// The managed section that tells agents how to record project state.
pub const PROJECTOR_SECTION: &'static str = "## Projector

Projector is authoritative for structured TODO and working-history mutations. Do not directly edit `TODO.md` or `WORK_HISTORY.md`.

Use Projector's local API at `http://127.0.0.1:48721/v1`. Projector must be running; resolve the registered project ID with `GET /projects`.

- `POST /projects/{projectId}/todos`: `title`, `priority` (`critical|high|medium|low`), `category` (`feature|bugfix|refactor|test|documentation|research|others`), `area`, `dependencies` (TODO ID array), `rationale`, and `acceptanceCriteria`.
- `POST /projects/{projectId}/todos/{todoId}/complete`: `summary` and `limitations`; returns a pending proposal with `id`, `projectId`, `requestedAt`, `kind: \"todoCompletion\"`, the `todo` snapshot, and `proposedEntry`.
- `POST /projects/{projectId}/work-history`: `title`, `category`, `area`, `summary`, and `limitations`; returns a pending proposal with `id`, `projectId`, `requestedAt`, `kind: \"workHistory\"`, `todo: null`, and `proposedEntry`.

Use `POST /projects/{projectId}/todos` to record unfinished actionable work. Use `POST /projects/{projectId}/todos/{todoId}/complete` when that TODO is finished. Use `POST /projects/{projectId}/work-history` only for notable completed work that was not represented by an open TODO.

Send JSON with camel-case field names. Use an empty array when a TODO has no dependencies and use `none` when there are no known limitations.
";

pub open spec fn agents_preamble() -> Seq<char> {
    "Project files are the source of truth. Keep changes scoped to this project and preserve unrelated work."@
}

/// The `AGENTS.md` of a new project.
pub open spec fn agents_text(name: Seq<char>, custom: Seq<char>, subagents: Seq<char>, projector: Seq<char>) -> Seq<char> {
    "# AGENTS.md instructions for "@ + name + "\n\n"@ + agents_preamble() + "\n\n"@ + trim(custom) + "\n\n"@
        + trim(subagents) + "\n\n"@ + trim(projector) + "\n"@
}

/// `new_project_agents`.
pub fn new_project_agents(
    project_name: &str,
    custom_section: &str,
    subagents_section: &str,
    projector_section: &str,
) -> (r: String)
    ensures
        r@ == agents_text(project_name@, custom_section@, subagents_section@, projector_section@),
{
    let mut out = lit("# AGENTS.md instructions for ");
    push_str(&mut out, project_name);
    push_str(&mut out, "\n\n");
    push_str(&mut out, "Project files are the source of truth. Keep changes scoped to this project and preserve unrelated work.");
    push_str(&mut out, "\n\n");
    push_all(&mut out, &trim_chars(&chars_of(custom_section)));
    push_str(&mut out, "\n\n");
    push_all(&mut out, &trim_chars(&chars_of(subagents_section)));
    push_str(&mut out, "\n\n");
    push_all(&mut out, &trim_chars(&chars_of(projector_section)));
    push_str(&mut out, "\n");
    string_of(&out)
}

/// The state of the line scan that replaces one section.
pub struct SectionScan {
    pub output: Seq<Seq<char>>,
    pub replaced: bool,
    pub skipping: bool,
}

/// One line of the scan: lines of a replaced section are skipped up to the
/// next `## ` line; a line whose trimmed text is the heading (ASCII case
/// ignored) is replaced by the new section, after a blank line where the
/// output does not already end with one.
pub open spec fn section_step(st: SectionScan, line: Seq<char>, heading: Seq<char>, section: Seq<char>) -> SectionScan {
    if st.skipping && !starts_with(line, h2()) {
        st
    } else if eq_ignore_case(trim(line), heading) {
        let spaced = if st.output.len() > 0 && st.output.last().len() > 0 {
            st.output.push(Seq::empty())
        } else {
            st.output
        };
        SectionScan { output: spaced + lines(trim(section)), replaced: true, skipping: true }
    } else {
        SectionScan { output: st.output.push(line), replaced: st.replaced, skipping: false }
    }
}

pub open spec fn section_scan(ls: Seq<Seq<char>>, heading: Seq<char>, section: Seq<char>) -> SectionScan
    decreases ls.len(),
{
    if ls.len() == 0 {
        SectionScan { output: Seq::empty(), replaced: false, skipping: false }
    } else {
        section_step(section_scan(ls.drop_last(), heading, section), ls.last(), heading, section)
    }
}

/// The text with the section titled `title` replaced by `section`, or with
/// `section` appended where no such heading exists.
pub open spec fn replaced_section(content: Seq<char>, title: Seq<char>, section: Seq<char>) -> Seq<char> {
    let st = section_scan(lines(normalize_newlines(content)), h2() + title, section);
    let body = rtrim(join(st.output, "\n"@));
    let full = if st.replaced {
        body
    } else if body.len() > 0 {
        body + "\n\n"@ + trim(section)
    } else {
        body + trim(section)
    };
    full + "\n"@
}

/// `replace_section`.
pub fn replace_section(content: &str, title: &str, section: &str) -> (r: String)
    ensures
        r@ == replaced_section(content@, title@, section@),
{
    let mut heading = lit("## ");
    push_str(&mut heading, title);
    proof {
        reveal_strlit("## ");
    }
    assert(heading@ == h2() + title@);
    let heading_text = string_of(&heading);
    let normalized = normalize_newlines_exec(&chars_of(content));
    let ls = lines_of(&normalized);
    let ghost lv = views(ls@);
    let section_lines = lines_of(&trim_chars(&chars_of(section)));
    let mut output: Vec<Vec<char>> = Vec::new();
    let mut replaced = false;
    let mut skipping = false;
    let mut i: usize = 0;
    assert(views(output@) =~= Seq::<Seq<char>>::empty());
    while i < ls.len()
        invariant
            i <= ls@.len(),
            lv == views(ls@),
            lv == lines(normalize_newlines(content@)),
            heading_text@ == h2() + title@,
            views(section_lines@) == lines(trim(section@)),
            ({
                let st = section_scan(lv.subrange(0, i as int), h2() + title@, section@);
                &&& views(output@) == st.output
                &&& replaced == st.replaced
                &&& skipping == st.skipping
            }),
        decreases ls@.len() - i,
    {
        assert(lv.subrange(0, i + 1).drop_last() == lv.subrange(0, i as int));
        assert(lv.subrange(0, i + 1).last() == ls@[i as int]@);
        let line = &ls[i];
        let ghost ov = views(output@);
        assert("## "@ == h2()) by {
            reveal_strlit("## ");
        }
        if output.len() > 0 {
            assert(ov.last() == output@[output@.len() - 1]@);
        }
        if skipping && !crate::text::has_prefix(line, "## ") {
        } else if eq_ignore_ascii_case(&trim_chars(line), heading_text.as_str()) {
            if output.len() > 0 && output[output.len() - 1].len() > 0 {
                output.push(Vec::new());
                assert(views(output@) =~= ov.push(Seq::empty()));
            }
            let ghost spaced = views(output@);
            let mut k: usize = 0;
            while k < section_lines.len()
                invariant
                    k <= section_lines@.len(),
                    views(output@) =~= spaced + views(section_lines@).subrange(0, k as int),
                decreases section_lines@.len() - k,
            {
                let ghost before = views(output@);
                output.push(section_lines[k].clone());
                assert(views(output@) =~= before.push(section_lines@[k as int]@));
                k += 1;
            }
            assert(views(section_lines@).subrange(0, section_lines@.len() as int) == views(section_lines@));
            replaced = true;
            skipping = true;
        } else {
            output.push(line.clone());
            assert(views(output@) =~= ov.push(line@));
            skipping = false;
        }
        i += 1;
    }
    assert(lv.subrange(0, lv.len() as int) == lv);
    let mut result = trim_end(&join_chars(&output, "\n"));
    if !replaced {
        if result.len() > 0 {
            push_str(&mut result, "\n\n");
        }
        push_all(&mut result, &trim_chars(&chars_of(section)));
    }
    push_str(&mut result, "\n");
    string_of(&result)
}

/// The `AGENTS.md` after refreshing the managed sections: a new file where
/// none exists, else the custom, subagent and Projector sections replaced in turn.
pub open spec fn migrated_agents(
    existing: Option<Seq<char>>,
    name: Seq<char>,
    custom: Seq<char>,
    subagents: Seq<char>,
    projector: Seq<char>,
) -> Seq<char> {
    match existing {
        None => agents_text(name, custom, subagents, projector),
        Some(e) => replaced_section(
            replaced_section(replaced_section(e, "Custom instructions"@, custom), "Subagents"@, subagents),
            "Projector"@,
            projector,
        ),
    }
}

/// `migrate_agents`.
pub fn migrate_agents(
    existing: Option<&str>,
    project_name: &str,
    custom_section: &str,
    subagents_section: &str,
    projector_section: &str,
) -> (r: String)
    ensures
        r@ == migrated_agents(
            match existing {
                Some(e) => Some(e@),
                None => None,
            },
            project_name@,
            custom_section@,
            subagents_section@,
            projector_section@,
        ),
{
    match existing {
        None => new_project_agents(project_name, custom_section, subagents_section, projector_section),
        Some(e) => {
            let updated = replace_section(e, "Custom instructions", custom_section);
            let updated = replace_section(updated.as_str(), "Subagents", subagents_section);
            replace_section(updated.as_str(), "Projector", projector_section)
        },
    }
}


// ---------------------------------------------------------------------------
// Replacing a managed section a second time

/// `c` does not occur in `s`.
pub open spec fn free_of(s: Seq<char>, c: char) -> bool {
    forall|i: int| 0 <= i < s.len() ==> s[i] != c
}

/// No line holds `c`.
pub open spec fn lines_free_of(ls: Seq<Seq<char>>, c: char) -> bool {
    forall|i: int| 0 <= i < ls.len() ==> free_of(#[trigger] ls[i], c)
}

proof fn lemma_normalize_free_of_cr(x: Seq<char>)
    ensures
        free_of(normalize_newlines(x), '\r'),
    decreases x.len(),
{
    if x.len() > 0 {
        if x[0] == '\r' {
            if x.len() > 1 && x[1] == '\n' {
                lemma_normalize_free_of_cr(x.subrange(2, x.len() as int));
            } else {
                lemma_normalize_free_of_cr(x.drop_first());
            }
        } else {
            lemma_normalize_free_of_cr(x.drop_first());
        }
        let n = normalize_newlines(x);
        assert forall|i: int| 0 <= i < n.len() implies n[i] != '\r' by {
            if i > 0 {
            }
        }
    }
}

proof fn lemma_normalize_identity(x: Seq<char>)
    requires
        free_of(x, '\r'),
    ensures
        normalize_newlines(x) == x,
    decreases x.len(),
{
    if x.len() > 0 {
        assert(x[0] != '\r');
        assert(free_of(x.drop_first(), '\r')) by {
            assert forall|i: int| 0 <= i < x.drop_first().len() implies x.drop_first()[i] != '\r' by {
                assert(x.drop_first()[i] == x[i + 1]);
            }
        }
        lemma_normalize_identity(x.drop_first());
        assert(seq![x[0]] + x.drop_first() =~= x);
    }
}

/// Every piece of a split is free of the separator and of whatever the
/// text is free of.
proof fn lemma_split_pieces_free(x: Seq<char>, c: char)
    ensures
        lines_free_of(split_on(x, '\n'), '\n'),
        free_of(x, c) ==> lines_free_of(split_on(x, '\n'), c),
    decreases x.len(),
{
    if x.len() > 0 {
        lemma_split_pieces_free(x.drop_last(), c);
        crate::text::lemma_split_on_nonempty(x.drop_last(), '\n');
        let p = split_on(x.drop_last(), '\n');
        if free_of(x, c) {
            assert(free_of(x.drop_last(), c)) by {
                assert forall|i: int| 0 <= i < x.drop_last().len() implies x.drop_last()[i] != c by {
                    assert(x.drop_last()[i] == x[i]);
                }
            }
        }
        if x.last() != '\n' {
            let q = split_on(x, '\n');
            assert forall|i: int| 0 <= i < q.len() implies free_of(#[trigger] q[i], '\n') by {
                if i == q.len() - 1 {
                    assert(q[i] == p.last().push(x.last()));
                    assert(free_of(p[p.len() - 1], '\n'));
                    assert forall|j: int| 0 <= j < q[i].len() implies q[i][j] != '\n' by {
                        if j < p.last().len() {
                            assert(q[i][j] == p[p.len() - 1][j]);
                        }
                    }
                } else {
                    assert(q[i] == p[i]);
                }
            }
            if free_of(x, c) {
                assert forall|i: int| 0 <= i < q.len() implies free_of(#[trigger] q[i], c) by {
                    if i == q.len() - 1 {
                        assert(q[i] == p.last().push(x.last()));
                        assert(free_of(p[p.len() - 1], c));
                        assert(x.last() == x[x.len() - 1]);
                        assert forall|j: int| 0 <= j < q[i].len() implies q[i][j] != c by {
                            if j < p.last().len() {
                                assert(q[i][j] == p[p.len() - 1][j]);
                            }
                        }
                    } else {
                        assert(q[i] == p[i]);
                    }
                }
            }
        } else {
            let q = split_on(x, '\n');
            assert(q == p.push(Seq::<char>::empty()));
            assert forall|i: int| 0 <= i < q.len() implies free_of(#[trigger] q[i], '\n') by {
                if i < p.len() {
                    assert(q[i] == p[i]);
                }
            }
            if free_of(x, c) {
                assert forall|i: int| 0 <= i < q.len() implies free_of(#[trigger] q[i], c) by {
                    if i < p.len() {
                        assert(q[i] == p[i]);
                    }
                }
            }
        }
    }
}

proof fn lemma_strip_cr_identity(ls: Seq<Seq<char>>)
    requires
        lines_free_of(ls, '\r'),
    ensures
        ls.map_values(|p: Seq<char>| crate::text::strip_cr(p)) == ls,
{
    assert forall|i: int| 0 <= i < ls.len() implies #[trigger] crate::text::strip_cr(ls[i]) == ls[i] by {
        assert(free_of(ls[i], '\r'));
        if ls[i].len() > 0 {
            assert(ls[i].last() == ls[i][ls[i].len() - 1]);
        }
    }
    assert(ls.map_values(|p: Seq<char>| crate::text::strip_cr(p)) =~= ls);
}

/// The lines of a text free of carriage returns are free of line breaks and
/// carriage returns.
proof fn lemma_lines_free(x: Seq<char>)
    requires
        free_of(x, '\r'),
    ensures
        lines_free_of(lines(x), '\n'),
        lines_free_of(lines(x), '\r'),
{
    lemma_split_pieces_free(x, '\r');
    let p = split_on(x, '\n');
    crate::text::lemma_split_on_nonempty(x, '\n');
    if x.len() > 0 {
        let d = p.drop_last();
        assert(lines_free_of(d, '\r')) by {
            assert forall|i: int| 0 <= i < d.len() implies free_of(#[trigger] d[i], '\r') by {
                assert(d[i] == p[i]);
            }
        }
        lemma_strip_cr_identity(d);
        let l = lines(x);
        assert forall|i: int| 0 <= i < l.len() implies free_of(#[trigger] l[i], '\n') && free_of(l[i], '\r') by {
            assert(l[i] == p[i]);
        }
    }
}

/// Splitting a text whose last character is visible: the last line ends with it.
proof fn lemma_split_last(x: Seq<char>)
    requires
        x.len() > 0,
        x.last() != '\n',
    ensures
        split_on(x, '\n').len() >= 1,
        split_on(x, '\n').last().len() > 0,
        split_on(x, '\n').last().last() == x.last(),
{
    crate::text::lemma_split_on_nonempty(x.drop_last(), '\n');
}

proof fn lemma_split_no_break(b: Seq<char>)
    requires
        free_of(b, '\n'),
    ensures
        split_on(b, '\n') == seq![b],
    decreases b.len(),
{
    if b.len() > 0 {
        assert(free_of(b.drop_last(), '\n')) by {
            assert forall|i: int| 0 <= i < b.drop_last().len() implies b.drop_last()[i] != '\n' by {
                assert(b.drop_last()[i] == b[i]);
            }
        }
        lemma_split_no_break(b.drop_last());
        assert(b.last() == b[b.len() - 1]);
        assert(b.drop_last().push(b.last()) =~= b);
        assert(split_on(b, '\n') =~= seq![b]);
    } else {
        assert(b =~= Seq::<char>::empty());
    }
}

proof fn lemma_split_after_break(a: Seq<char>, b: Seq<char>)
    requires
        free_of(b, '\n'),
    ensures
        split_on(a + seq!['\n'] + b, '\n') == split_on(a, '\n').push(b),
    decreases b.len(),
{
    if b.len() == 0 {
        let x = a + seq!['\n'] + b;
        assert(x =~= a.push('\n'));
        assert(x.drop_last() =~= a);
        assert(x.last() == '\n');
        assert(b =~= Seq::<char>::empty());
    } else {
        let b0 = b.drop_last();
        assert(free_of(b0, '\n')) by {
            assert forall|i: int| 0 <= i < b0.len() implies b0[i] != '\n' by {
                assert(b0[i] == b[i]);
            }
        }
        lemma_split_after_break(a, b0);
        let x = a + seq!['\n'] + b;
        assert(x.drop_last() =~= a + seq!['\n'] + b0);
        assert(x.last() == b[b.len() - 1]);
        assert(b0.push(b.last()) =~= b);
        assert(split_on(x, '\n') =~= split_on(a, '\n').push(b));
    }
}

/// Splitting lines joined with line breaks gives them back.
pub(crate) proof fn lemma_split_join(q: Seq<Seq<char>>)
    requires
        q.len() > 0,
        lines_free_of(q, '\n'),
    ensures
        split_on(join(q, "\n"@), '\n') == q,
    decreases q.len(),
{
    reveal_strlit("\n");
    if q.len() == 1 {
        assert(free_of(q[0], '\n'));
        lemma_split_no_break(q[0]);
        assert(q =~= seq![q[0]]);
    } else {
        let d = q.drop_last();
        assert(lines_free_of(d, '\n')) by {
            assert forall|i: int| 0 <= i < d.len() implies free_of(#[trigger] d[i], '\n') by {
                assert(d[i] == q[i]);
            }
        }
        lemma_split_join(d);
        assert(free_of(q[q.len() - 1], '\n'));
        lemma_split_after_break(join(d, "\n"@), q.last());
        assert(join(q, "\n"@) == join(d, "\n"@) + seq!['\n'] + q.last());
        assert(d.push(q.last()) =~= q);
    }
}

/// The lines of joined lines followed by a line break are those lines.
proof fn lemma_lines_of_joined(q: Seq<Seq<char>>)
    requires
        q.len() > 0,
        lines_free_of(q, '\n'),
        lines_free_of(q, '\r'),
    ensures
        lines(join(q, "\n"@) + seq!['\n']) == q,
{
    let j = join(q, "\n"@);
    lemma_split_join(q);
    assert((j + seq!['\n']).drop_last() =~= j);
    assert(split_on(j + seq!['\n'], '\n') == q.push(Seq::<char>::empty()));
    assert(q.push(Seq::<char>::empty()).drop_last() =~= q);
    lemma_strip_cr_identity(q);
}

/// Joining the pieces of a split gives the text back.
proof fn lemma_join_split(x: Seq<char>)
    ensures
        join(split_on(x, '\n'), "\n"@) == x,
    decreases x.len(),
{
    reveal_strlit("\n");
    if x.len() == 0 {
        assert(join(seq![Seq::<char>::empty()], "\n"@) == Seq::<char>::empty());
    } else {
        let y = x.drop_last();
        lemma_join_split(y);
        crate::text::lemma_split_on_nonempty(y, '\n');
        let p = split_on(y, '\n');
        if x.last() == '\n' {
            assert(split_on(x, '\n') == p.push(Seq::<char>::empty()));
            assert(p.push(Seq::<char>::empty()).drop_last() =~= p);
            assert(y + "\n"@ + Seq::<char>::empty() =~= x);
        } else {
            let q = split_on(x, '\n');
            assert(q == p.update(p.len() - 1, p.last().push(x.last())));
            if p.len() == 1 {
                assert(q[0] == p[0].push(x.last()));
                assert(join(p, "\n"@) == p[0]);
                assert(y.push(x.last()) =~= x);
            } else {
                assert(q.drop_last() =~= p.drop_last());
                assert(join(p, "\n"@) == join(p.drop_last(), "\n"@) + "\n"@ + p.last());
                assert(join(q, "\n"@) == join(q.drop_last(), "\n"@) + "\n"@ + q.last());
                assert(join(q, "\n"@) =~= join(p, "\n"@).push(x.last()));
                assert(y.push(x.last()) =~= x);
            }
        }
    }
}

proof fn lemma_join_append(a: Seq<Seq<char>>, b: Seq<Seq<char>>)
    requires
        a.len() > 0,
        b.len() > 0,
    ensures
        join(a + b, "\n"@) == join(a, "\n"@) + "\n"@ + join(b, "\n"@),
    decreases b.len(),
{
    if b.len() == 1 {
        assert((a + b).drop_last() =~= a);
        assert((a + b).last() == b[0]);
    } else {
        lemma_join_append(a, b.drop_last());
        assert((a + b).drop_last() =~= a + b.drop_last());
        assert((a + b).last() == b.last());
        assert(join(a + b, "\n"@) =~= join(a, "\n"@) + "\n"@ + join(b, "\n"@));
    }
}

proof fn lemma_join_last(q: Seq<Seq<char>>)
    requires
        q.len() > 0,
        q.last().len() > 0,
    ensures
        join(q, "\n"@).len() > 0,
        join(q, "\n"@).last() == q.last().last(),
{
}

proof fn lemma_join_free(q: Seq<Seq<char>>, c: char)
    requires
        lines_free_of(q, c),
        c != '\n',
    ensures
        free_of(join(q, "\n"@), c),
    decreases q.len(),
{
    reveal_strlit("\n");
    if q.len() == 1 {
        assert(free_of(q[0], c));
    } else if q.len() > 1 {
        let d = q.drop_last();
        assert(lines_free_of(d, c)) by {
            assert forall|i: int| 0 <= i < d.len() implies free_of(#[trigger] d[i], c) by {
                assert(d[i] == q[i]);
            }
        }
        lemma_join_free(d, c);
        assert(free_of(q[q.len() - 1], c));
        let j = join(q, "\n"@);
        let jd = join(d, "\n"@);
        assert(j == jd + "\n"@ + q.last());
        assert forall|i: int| 0 <= i < j.len() implies j[i] != c by {
            if i < jd.len() {
                assert(j[i] == jd[i]);
            } else if i == jd.len() {
                assert(j[i] == '\n');
            } else {
                assert(j[i] == q.last()[i - jd.len() - 1]);
            }
        }
    }
}

proof fn lemma_rtrim_free(x: Seq<char>, c: char)
    requires
        free_of(x, c),
    ensures
        free_of(rtrim(x), c),
        rtrim(x).len() <= x.len(),
        forall|i: int| 0 <= i < rtrim(x).len() ==> rtrim(x)[i] == x[i],
    decreases x.len(),
{
    if x.len() > 0 && is_ws(x.last()) {
        assert(free_of(x.drop_last(), c)) by {
            assert forall|i: int| 0 <= i < x.drop_last().len() implies x.drop_last()[i] != c by {
                assert(x.drop_last()[i] == x[i]);
            }
        }
        lemma_rtrim_free(x.drop_last(), c);
        assert forall|i: int| 0 <= i < rtrim(x).len() implies rtrim(x)[i] == x[i] by {
            assert(x.drop_last()[i] == x[i]);
        }
    }
}

proof fn lemma_ltrim_free(x: Seq<char>, c: char)
    requires
        free_of(x, c),
    ensures
        free_of(crate::text::ltrim(x), c),
    decreases x.len(),
{
    if x.len() > 0 && is_ws(x[0]) {
        assert(free_of(x.drop_first(), c)) by {
            assert forall|i: int| 0 <= i < x.drop_first().len() implies x.drop_first()[i] != c by {
                assert(x.drop_first()[i] == x[i + 1]);
            }
        }
        lemma_ltrim_free(x.drop_first(), c);
    }
}

proof fn lemma_rtrim_last(x: Seq<char>)
    ensures
        rtrim(x).len() == 0 || !is_ws(rtrim(x).last()),
    decreases x.len(),
{
    if x.len() > 0 && is_ws(x.last()) {
        lemma_rtrim_last(x.drop_last());
    }
}


/// A managed section that stays what it is when its file is rewritten: its
/// trimmed text begins with the line of its heading (ASCII case aside), no
/// later line of it begins a level-two heading, and it holds no carriage
/// return.
pub open spec fn self_contained_section(heading: Seq<char>, section: Seq<char>) -> bool {
    let sec = lines(trim(section));
    &&& free_of(section, '\r')
    &&& sec.len() > 0
    &&& starts_with(sec[0], h2())
    &&& eq_ignore_case(trim(sec[0]), heading)
    &&& forall|j: int| 1 <= j < sec.len() ==> !starts_with(#[trigger] sec[j], h2())
}

/// The text, with its line breaks normalised, is empty or ends with a visible
/// character, optionally followed by one line break.
pub open spec fn ends_cleanly(text: Seq<char>) -> bool {
    let n = normalize_newlines(text);
    ||| n.len() == 0
    ||| !is_ws(n.last())
    ||| (n.len() >= 2 && n.last() == '\n' && !is_ws(n[n.len() - 2]))
}

proof fn lemma_blank_line(heading: Seq<char>)
    requires
        heading.len() > 0,
    ensures
        !starts_with(Seq::<char>::empty(), h2()),
        !eq_ignore_case(trim(Seq::<char>::empty()), heading),
{
    assert(crate::text::ltrim(Seq::<char>::empty()) == Seq::<char>::empty());
    assert(rtrim(Seq::<char>::empty()) == Seq::<char>::empty());
    assert(crate::text::ascii_lower(heading).len() == heading.len());
    assert(crate::text::ascii_lower(Seq::<char>::empty()).len() == 0);
}

proof fn lemma_scan_skips(x: Seq<Seq<char>>, t: Seq<Seq<char>>, heading: Seq<char>, section: Seq<char>)
    requires
        section_scan(x, heading, section).skipping,
        forall|j: int| 0 <= j < t.len() ==> !starts_with(#[trigger] t[j], h2()),
    ensures
        section_scan(x + t, heading, section) == section_scan(x, heading, section),
    decreases t.len(),
{
    if t.len() == 0 {
        assert(x + t =~= x);
    } else {
        let d = t.drop_last();
        assert forall|j: int| 0 <= j < d.len() implies !starts_with(#[trigger] d[j], h2()) by {
            assert(d[j] == t[j]);
        }
        lemma_scan_skips(x, d, heading, section);
        assert((x + t).drop_last() =~= x + d);
        assert((x + t).last() == t[t.len() - 1]);
    }
}

/// What every state of the scan satisfies.
proof fn lemma_scan_facts(ls: Seq<Seq<char>>, heading: Seq<char>, section: Seq<char>, c: char)
    requires
        self_contained_section(heading, section),
    ensures
        ({
            let st = section_scan(ls, heading, section);
            let sec = lines(trim(section));
            &&& st.skipping ==> st.replaced && st.output.len() > 0 && st.output.last() == sec.last()
            &&& !st.replaced ==> st.output == ls
            &&& ls.len() > 0 ==> st.output.len() > 0 && (st.output.last() == ls.last() || st.output.last() == sec.last())
            &&& (lines_free_of(ls, c) && lines_free_of(sec, c)) ==> lines_free_of(st.output, c)
        }),
    decreases ls.len(),
{
    if ls.len() > 0 {
        let d = ls.drop_last();
        lemma_scan_facts(d, heading, section, c);
        let prev = section_scan(d, heading, section);
        let sec = lines(trim(section));
        let x = ls.last();
        let o = prev.output;
        if lines_free_of(ls, c) {
            assert(lines_free_of(d, c)) by {
                assert forall|i: int| 0 <= i < d.len() implies free_of(#[trigger] d[i], c) by {
                    assert(d[i] == ls[i]);
                }
            }
            assert(free_of(ls[ls.len() - 1], c));
        }
        if prev.skipping && !starts_with(x, h2()) {
        } else if eq_ignore_case(trim(x), heading) {
            let spaced = if o.len() > 0 && o.last().len() > 0 {
                o.push(Seq::empty())
            } else {
                o
            };
            let out = spaced + sec;
            assert(out.last() == sec.last());
            if lines_free_of(ls, c) && lines_free_of(sec, c) {
                assert forall|i: int| 0 <= i < out.len() implies free_of(#[trigger] out[i], c) by {
                    if i < spaced.len() {
                        if i < o.len() {
                            assert(out[i] == o[i]);
                        } else {
                            assert(out[i] == Seq::<char>::empty());
                        }
                    } else {
                        assert(out[i] == sec[i - spaced.len()]);
                    }
                }
            }
        } else {
            let out = o.push(x);
            if !prev.replaced {
                assert(out =~= ls);
            }
            if lines_free_of(ls, c) && lines_free_of(sec, c) {
                assert forall|i: int| 0 <= i < out.len() implies free_of(#[trigger] out[i], c) by {
                    if i < o.len() {
                        assert(out[i] == o[i]);
                    }
                }
            }
        }
    } else {
        assert(lines_free_of(Seq::<Seq<char>>::empty(), c));
    }
}

/// Scanning the output of a scan reproduces that scan.
proof fn lemma_scan_idempotent(ls: Seq<Seq<char>>, heading: Seq<char>, section: Seq<char>)
    requires
        self_contained_section(heading, section),
        heading.len() > 0,
    ensures
        section_scan(section_scan(ls, heading, section).output, heading, section) == section_scan(ls, heading, section),
    decreases ls.len(),
{
    if ls.len() > 0 {
        let d = ls.drop_last();
        lemma_scan_idempotent(d, heading, section);
        let prev = section_scan(d, heading, section);
        let sec = lines(trim(section));
        let x = ls.last();
        let o = prev.output;
        lemma_blank_line(heading);
        if prev.skipping && !starts_with(x, h2()) {
        } else if eq_ignore_case(trim(x), heading) {
            let spaced = if o.len() > 0 && o.last().len() > 0 {
                o.push(Seq::empty())
            } else {
                o
            };
            let a = spaced.push(sec[0]);
            let rest = sec.subrange(1, sec.len() as int);
            assert(spaced + sec =~= a + rest);
            let mid = section_scan(spaced, heading, section);
            if o.len() > 0 && o.last().len() > 0 {
                assert(spaced.drop_last() =~= o);
                assert(spaced.last() == Seq::<char>::empty());
                if prev.skipping {
                    assert(mid == prev);
                } else {
                    assert(mid.output == o.push(Seq::<char>::empty()));
                    assert(mid.output.last().len() == 0);
                }
            } else {
                assert(mid == prev);
            }
            assert(a.drop_last() =~= spaced);
            assert(a.last() == sec[0]);
            let sa = section_scan(a, heading, section);
            assert(sa.output =~= spaced + sec);
            assert(sa.skipping && sa.replaced);
            assert forall|j: int| 0 <= j < rest.len() implies !starts_with(#[trigger] rest[j], h2()) by {
                assert(rest[j] == sec[j + 1]);
            }
            lemma_scan_skips(a, rest, heading, section);
        } else {
            assert(o.push(x).drop_last() =~= o);
            assert(o.push(x).last() == x);
        }
    }
}

proof fn lemma_clean_last_line(n: Seq<char>)
    requires
        free_of(n, '\r'),
        n.len() > 0,
        !is_ws(n.last()) || (n.len() >= 2 && n.last() == '\n' && !is_ws(n[n.len() - 2])),
    ensures
        lines(n).len() > 0,
        lines(n).last().len() > 0,
        !is_ws(lines(n).last().last()),
{
    if !is_ws(n.last()) {
        assert(n.last() != '\n');
        lemma_split_last(n);
    } else {
        let m = n.drop_last();
        assert(m.last() == n[n.len() - 2]);
        assert(m.last() != '\n');
        lemma_split_last(m);
        assert(free_of(m, '\r')) by {
            assert forall|i: int| 0 <= i < m.len() implies m[i] != '\r' by {
                assert(m[i] == n[i]);
            }
        }
        lemma_split_pieces_free(m, '\r');
        let p = split_on(m, '\n');
        assert(split_on(n, '\n') == p.push(Seq::<char>::empty()));
        assert(p.push(Seq::<char>::empty()).drop_last() =~= p);
        lemma_strip_cr_identity(p);
    }
}

/// Facts about the trimmed section text and its lines.
proof fn lemma_section_text(heading: Seq<char>, section: Seq<char>)
    requires
        self_contained_section(heading, section),
    ensures
        ({
            let ts = trim(section);
            let sec = lines(ts);
            &&& free_of(ts, '\r')
            &&& ts.len() > 0
            &&& !is_ws(ts.last())
            &&& join(sec, "\n"@) == ts
            &&& sec.last().len() > 0
            &&& sec.last().last() == ts.last()
            &&& lines_free_of(sec, '\n')
            &&& lines_free_of(sec, '\r')
        }),
{
    let l = crate::text::ltrim(section);
    let ts = rtrim(l);
    lemma_ltrim_free(section, '\r');
    lemma_rtrim_free(l, '\r');
    lemma_rtrim_last(l);
    lemma_lines_free(ts);
    let sec = lines(ts);
    assert(ts.len() > 0);
    assert(ts.last() != '\n');
    lemma_split_pieces_free(ts, '\r');
    let p = split_on(ts, '\n');
    crate::text::lemma_split_on_nonempty(ts, '\n');
    let d = p.drop_last();
    assert(lines_free_of(d, '\r')) by {
        assert forall|i: int| 0 <= i < d.len() implies free_of(#[trigger] d[i], '\r') by {
            assert(d[i] == p[i]);
        }
    }
    lemma_strip_cr_identity(d);
    assert(sec =~= p);
    lemma_join_split(ts);
    lemma_split_last(ts);
}

/// Replacing a managed section a second time changes nothing, where the
/// section is self-contained and the file ends cleanly.
pub proof fn replacing_a_section_twice_changes_nothing(content: Seq<char>, title: Seq<char>, section: Seq<char>)
    requires
        self_contained_section(h2() + title, section),
        ends_cleanly(content),
    ensures
        replaced_section(replaced_section(content, title, section), title, section)
            == replaced_section(content, title, section),
{
    reveal_strlit("\n");
    reveal_strlit("\n\n");
    let heading = h2() + title;
    let n = normalize_newlines(content);
    lemma_normalize_free_of_cr(content);
    lemma_lines_free(n);
    let l = lines(n);
    let ts = trim(section);
    let sec = lines(ts);
    lemma_section_text(heading, section);
    let st = section_scan(l, heading, section);
    lemma_scan_facts(l, heading, section, '\n');
    lemma_scan_facts(l, heading, section, '\r');
    lemma_scan_idempotent(l, heading, section);
    lemma_blank_line(heading);
    if n.len() > 0 {
        lemma_clean_last_line(n);
    } else {
        assert(split_on(n, '\n').len() >= 0);
        assert(l.len() == 0);
    }
    let first = replaced_section(content, title, section);
    if st.replaced {
        let o = st.output;
        let j = join(o, "\n"@);
        lemma_join_last(o);
        assert(rtrim(j) == j);
        assert(first == j + seq!['\n']);
        lemma_join_free(o, '\r');
        assert(free_of(first, '\r')) by {
            assert forall|i: int| 0 <= i < first.len() implies first[i] != '\r' by {
                if i < j.len() {
                    assert(first[i] == j[i]);
                }
            }
        }
        lemma_normalize_identity(first);
        lemma_lines_of_joined(o);
    } else {
        let q = if l.len() == 0 {
            sec
        } else {
            l.push(Seq::<char>::empty()) + sec
        };
        assert(st.output == l);
        if l.len() == 0 {
            assert(join(l, "\n"@) == Seq::<char>::empty());
            assert(first =~= ts + seq!['\n']);
        } else {
            let jl = join(l, "\n"@);
            lemma_join_last(l);
            assert(rtrim(jl) == jl);
            assert(join(l.push(Seq::<char>::empty()), "\n"@) == jl + "\n"@ + Seq::<char>::empty()) by {
                assert(l.push(Seq::<char>::empty()).drop_last() =~= l);
            }
            lemma_join_append(l.push(Seq::<char>::empty()), sec);
            assert(first =~= join(q, "\n"@) + seq!['\n']);
        }
        assert(first == join(q, "\n"@) + seq!['\n']);
        assert(lines_free_of(q, '\n') && lines_free_of(q, '\r')) by {
            assert forall|i: int| 0 <= i < q.len() implies free_of(#[trigger] q[i], '\n') && free_of(q[i], '\r') by {
                if l.len() > 0 {
                    if i < l.len() {
                        assert(q[i] == l[i]);
                    } else if i == l.len() {
                        assert(q[i] == Seq::<char>::empty());
                    } else {
                        assert(q[i] == sec[i - l.len() - 1]);
                    }
                }
            }
        }
        let jq = join(q, "\n"@);
        lemma_join_free(q, '\r');
        assert(free_of(first, '\r')) by {
            assert forall|i: int| 0 <= i < first.len() implies first[i] != '\r' by {
                if i < jq.len() {
                    assert(first[i] == jq[i]);
                }
            }
        }
        lemma_normalize_identity(first);
        lemma_lines_of_joined(q);
        // the second scan over q
        let rest = sec.subrange(1, sec.len() as int);
        assert forall|k: int| 0 <= k < rest.len() implies !starts_with(#[trigger] rest[k], h2()) by {
            assert(rest[k] == sec[k + 1]);
        }
        let pre = if l.len() == 0 {
            Seq::<Seq<char>>::empty()
        } else {
            l.push(Seq::<char>::empty())
        };
        let a = pre.push(sec[0]);
        assert(q =~= a + rest);
        assert(a.drop_last() =~= pre);
        assert(a.last() == sec[0]);
        if l.len() > 0 {
            assert(pre.drop_last() =~= l);
            assert(pre.last() == Seq::<char>::empty());
            assert(section_scan(l, heading, section) == st);
            assert(section_scan(pre, heading, section).output == pre);
            assert(!section_scan(pre, heading, section).skipping);
        } else {
            assert(section_scan(pre, heading, section).output.len() == 0);
        }
        let sa = section_scan(a, heading, section);
        assert(sa.output =~= q);
        assert(sa.skipping && sa.replaced);
        lemma_scan_skips(a, rest, heading, section);
        lemma_join_last(q);
        assert(q.last() == sec.last());
        assert(rtrim(jq) == jq);
    }
}

} // verus!
