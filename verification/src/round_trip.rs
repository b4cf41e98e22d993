//! What reading gives back of a written `TODO.md` or `WORK_HISTORY.md`: a
//! canonical document rendered and parsed again yields the same items or
//! entries, with no warnings.

use vstd::prelude::*;
use crate::text::{
    all_ascii, ascii_lower, ascii_upper, decimal, digit_char, ends_with, eq_ignore_case, find_char,
    is_ws, join, lemma_find_char_from, lemma_split_on_nonempty, lines, lower_text, ltrim, occurs_at,
    rtrim, split_on, starts_with, strip_cr, strip_prefix_or_same, trim, upper_text, utf8_len, zero_pad,
};
use crate::markdown::{
    block_model, block_starts, dedup, field_line, h2, heading_at, heading_blocks, heading_starts_from,
    keep_nonblank, lemma_heading_starts, nonempty_join, normalize_newlines, stars, strip_all_lead,
    strip_all_trail, strip_lead_pairs, strip_trail_pairs, BlockModel,
};
use crate::models::{Minute, TodoItemModel, TodoPriority, WarningModel, WorkCategory, WorkHistoryEntryModel};
use crate::todos::{
    category_field, category_name, dependencies_field, dependencies_text, id_list, id_list_fold,
    insert_pos_from, is_digit, is_todo_id, leading_digits, lookup_field, parse_todo, priority_field,
    priority_name, render_todo, render_todo_item, required_field, scan_lines, scan_step, sort_by_id,
    text_lt, todo_block, todo_blocks, todo_heading, todo_prefix, todo_warnings, BlockOutcome, DocAcc,
    ScanState, TodoDocModel,
};
use crate::migration::{
    history_migration, legacy_blocks, legacy_entries, legacy_items, migrated_entry, migrated_item, normalized,
    todo_migration,
};
use crate::history::{
    areas_of, byte_prefix, categories_of, chrono_minute, heading_rest, hist_scan, hist_step,
    history_block, history_blocks, history_heading, minute_text, parse_history, render_history,
    render_history_entry, two_digits, year_text, HistAcc, HistOutcome, HistScan, HistoryDocModel,
};

verus! {

/// No line break of either kind.
pub open spec fn single_line(s: Seq<char>) -> bool {
    forall|i: int| 0 <= i < s.len() ==> s[i] != '\n' && s[i] != '\r'
}

pub open spec fn no_cr(s: Seq<char>) -> bool {
    forall|i: int| 0 <= i < s.len() ==> s[i] != '\r'
}

#[verifier::spinoff_prover]
proof fn lemma_split_concat(a: Seq<char>, b: Seq<char>, c: char)
    ensures
        split_on(a + seq![c] + b, c) == split_on(a, c) + split_on(b, c),
    decreases b.len(),
{
    let s = a + seq![c] + b;
    if b.len() == 0 {
        assert(s.drop_last() =~= a);
        assert(split_on(b, c) =~= seq![Seq::<char>::empty()]);
        assert(split_on(a, c).push(Seq::<char>::empty()) =~= split_on(a, c) + split_on(b, c));
    } else {
        lemma_split_concat(a, b.drop_last(), c);
        lemma_split_on_nonempty(b.drop_last(), c);
        assert(s.drop_last() =~= a + seq![c] + b.drop_last());
        assert(s.last() == b.last());
        let x = split_on(a, c);
        let y = split_on(b.drop_last(), c);
        if b.last() == c {
            assert((x + y).push(Seq::<char>::empty()) =~= x + y.push(Seq::<char>::empty()));
        } else {
            assert((x + y).last() == y.last());
            assert((x + y).update((x + y).len() - 1, y.last().push(b.last()))
                =~= x + y.update(y.len() - 1, y.last().push(b.last())));
        }
    }
}

#[verifier::spinoff_prover]
proof fn lemma_split_plain(a: Seq<char>, c: char)
    requires
        forall|i: int| 0 <= i < a.len() ==> a[i] != c,
    ensures
        split_on(a, c) == seq![a],
    decreases a.len(),
{
    if a.len() > 0 {
        lemma_split_plain(a.drop_last(), c);
        assert(a.drop_last().push(a.last()) =~= a);
        assert(seq![a.drop_last()].update(0, a.drop_last().push(a.last())) =~= seq![a]);
    } else {
        assert(a =~= Seq::<char>::empty());
    }
}

#[verifier::spinoff_prover]
proof fn lemma_join_push(v: Seq<Seq<char>>, x: Seq<char>, sep: Seq<char>)
    requires
        v.len() > 0,
    ensures
        join(v.push(x), sep) == join(v, sep) + sep + x,
{
    assert(v.push(x).drop_last() =~= v);
}

#[verifier::spinoff_prover]
proof fn lemma_join_split(s: Seq<char>, c: char)
    ensures
        join(split_on(s, c), seq![c]) == s,
    decreases s.len(),
{
    lemma_split_on_nonempty(s, c);
    if s.len() > 0 {
        let p = split_on(s.drop_last(), c);
        lemma_join_split(s.drop_last(), c);
        lemma_split_on_nonempty(s.drop_last(), c);
        if s.last() == c {
            lemma_join_push(p, Seq::empty(), seq![c]);
            assert(s.drop_last() + seq![c] + Seq::<char>::empty() =~= s);
        } else {
            let q = p.update(p.len() - 1, p.last().push(s.last()));
            if p.len() == 1 {
                assert(q =~= seq![p[0].push(s.last())]);
                assert(join(p, seq![c]) == p[0]);
                assert(s.drop_last().push(s.last()) =~= s);
            } else {
                assert(q.drop_last() =~= p.drop_last());
                assert(join(q, seq![c]) == join(p.drop_last(), seq![c]) + seq![c] + p.last().push(s.last()));
                assert(join(p, seq![c]) == join(p.drop_last(), seq![c]) + seq![c] + p.last());
                assert(join(q, seq![c]) =~= join(p, seq![c]).push(s.last()));
                assert(s.drop_last().push(s.last()) =~= s);
            }
        }
    } else {
        assert(split_on(s, c) == seq![Seq::<char>::empty()]);
    }
}

#[verifier::spinoff_prover]
proof fn lemma_ltrim_len(s: Seq<char>)
    ensures
        ltrim(s).len() <= s.len(),
        s.len() > 0 && is_ws(s[0]) ==> ltrim(s).len() < s.len(),
        s.len() > 0 && !is_ws(s[0]) ==> ltrim(s) == s,
    decreases s.len(),
{
    if s.len() > 0 && is_ws(s[0]) {
        lemma_ltrim_len(s.drop_first());
    }
}

#[verifier::spinoff_prover]
proof fn lemma_rtrim_len(s: Seq<char>)
    ensures
        rtrim(s).len() <= s.len(),
        s.len() > 0 && is_ws(s.last()) ==> rtrim(s).len() < s.len(),
        s.len() > 0 && !is_ws(s.last()) ==> rtrim(s) == s,
    decreases s.len(),
{
    if s.len() > 0 && is_ws(s.last()) {
        lemma_rtrim_len(s.drop_last());
    }
}

#[verifier::spinoff_prover]
proof fn lemma_trim_keeps(s: Seq<char>)
    requires
        s.len() > 0,
        !is_ws(s[0]),
        !is_ws(s.last()),
    ensures
        trim(s) == s,
        ltrim(s) == s,
        rtrim(s) == s,
{
    lemma_ltrim_len(s);
    lemma_rtrim_len(s);
}

/// Leading whitespace before a trimmed text is dropped by `trim`.
#[verifier::spinoff_prover]
proof fn lemma_trim_lead_ws(w: Seq<char>, s: Seq<char>)
    requires
        forall|i: int| 0 <= i < w.len() ==> is_ws(#[trigger] w[i]),
        s.len() > 0,
        !is_ws(s[0]),
        !is_ws(s.last()),
    ensures
        trim(w + s) == s,
        ltrim(w + s) == s,
    decreases w.len(),
{
    if w.len() == 0 {
        assert(w + s =~= s);
        lemma_trim_keeps(s);
    } else {
        assert((w + s).drop_first() =~= w.drop_first() + s);
        lemma_trim_lead_ws(w.drop_first(), s);
    }
}

/// Trailing whitespace after a text whose first character is not whitespace
/// is dropped by `trim`.
#[verifier::spinoff_prover]
proof fn lemma_trim_trail_ws(s: Seq<char>, w: Seq<char>)
    requires
        forall|i: int| 0 <= i < w.len() ==> is_ws(#[trigger] w[i]),
        s.len() > 0,
        !is_ws(s[0]),
        !is_ws(s.last()),
    ensures
        trim(s + w) == s,
    decreases w.len(),
{
    lemma_ltrim_len(s + w);
    if w.len() == 0 {
        assert(s + w =~= s);
        lemma_trim_keeps(s);
    } else {
        assert((s + w).drop_last() =~= s + w.drop_last());
        lemma_trim_trail_ws(s, w.drop_last());
        lemma_ltrim_len(s + w.drop_last());
    }
}

#[verifier::spinoff_prover]
proof fn lemma_normalize_plain(s: Seq<char>)
    requires
        no_cr(s),
    ensures
        normalize_newlines(s) == s,
    decreases s.len(),
{
    if s.len() > 0 {
        lemma_normalize_plain(s.drop_first());
        assert(seq![s[0]] + s.drop_first() =~= s);
    }
}

pub open spec fn shifted(s: Seq<int>, d: int) -> Seq<int> {
    s.map_values(|p: int| p + d)
}

#[verifier::spinoff_prover]
proof fn lemma_starts_none(c: Seq<char>, i: int)
    requires
        0 <= i,
        forall|p: int| i <= p < c.len() ==> !heading_at(c, p),
    ensures
        heading_starts_from(c, i) == Seq::<int>::empty(),
    decreases c.len() - i,
{
    if i < c.len() {
        lemma_starts_none(c, i + 1);
    }
}

#[verifier::spinoff_prover]
proof fn lemma_starts_tail(a: Seq<char>, b: Seq<char>, j: int)
    requires
        a.len() > 0,
        a.last() == '\n',
        0 <= j <= b.len(),
    ensures
        heading_starts_from(a + b, a.len() + j) == shifted(heading_starts_from(b, j), a.len() as int),
    decreases b.len() - j,
{
    let c = a + b;
    let n = a.len() as int;
    if j < b.len() {
        lemma_starts_tail(a, b, j + 1);
        assert(c[n + j - 1] == if j == 0 { a.last() } else { b[j - 1] });
        if j + 3 <= b.len() {
            assert(c.subrange(n + j, n + j + 3) =~= b.subrange(j, j + 3));
        }
        assert(heading_at(c, n + j) == heading_at(b, j));
        let rest = heading_starts_from(b, j + 1);
        if heading_at(b, j) {
            assert(shifted(seq![j] + rest, n) =~= seq![n + j] + shifted(rest, n));
        }
    } else {
        assert(shifted(Seq::<int>::empty(), n) =~= Seq::<int>::empty());
    }
}

#[verifier::spinoff_prover]
proof fn lemma_starts_concat_from(a: Seq<char>, b: Seq<char>, i: int)
    requires
        a.len() > 0,
        a.last() == '\n',
        0 <= i <= a.len(),
    ensures
        heading_starts_from(a + b, i) == heading_starts_from(a, i) + shifted(heading_starts_from(b, 0), a.len() as int),
    decreases a.len() - i,
{
    let c = a + b;
    let n = a.len() as int;
    if i == n {
        lemma_starts_tail(a, b, 0);
        assert(heading_starts_from(a, i) =~= Seq::<int>::empty());
        assert(Seq::<int>::empty() + shifted(heading_starts_from(b, 0), n) =~= shifted(heading_starts_from(b, 0), n));
    } else {
        lemma_starts_concat_from(a, b, i + 1);
        if i > 0 {
            assert(c[i - 1] == a[i - 1]);
        }
        if i + 3 <= n {
            assert(c.subrange(i, i + 3) =~= a.subrange(i, i + 3));
        } else if i + 3 <= c.len() {
            assert(c.subrange(i, i + 3)[n - 1 - i] == '\n');
            assert(h2()[n - 1 - i] != '\n');
        }
        assert(heading_at(c, i) == heading_at(a, i));
        let ra = heading_starts_from(a, i + 1);
        let sb = shifted(heading_starts_from(b, 0), n);
        if heading_at(a, i) {
            assert(seq![i] + (ra + sb) =~= (seq![i] + ra) + sb);
        }
    }
}

/// Heading lines of a text after a complete last line, then of what follows.
#[verifier::spinoff_prover]
proof fn lemma_starts_concat(a: Seq<char>, b: Seq<char>)
    requires
        a.len() > 0,
        a.last() == '\n',
    ensures
        heading_starts_from(a + b, 0) == heading_starts_from(a, 0) + shifted(heading_starts_from(b, 0), a.len() as int),
{
    lemma_starts_concat_from(a, b, 0);
}

/// The raw text of block `k` when rendered pieces are joined by blank lines.
pub open spec fn unit(r: Seq<Seq<char>>, k: int) -> Seq<char> {
    if k + 1 < r.len() {
        r[k] + seq!['\n']
    } else {
        r[k]
    }
}

/// Each piece is one complete heading block.
pub open spec fn one_block(x: Seq<char>) -> bool {
    &&& x.len() > 0
    &&& x.last() == '\n'
    &&& heading_starts_from(x, 0) == seq![0int]
}

#[verifier::spinoff_prover]
proof fn lemma_joined_starts(r: Seq<Seq<char>>)
    requires
        r.len() > 0,
        forall|k: int| 0 <= k < r.len() ==> one_block(#[trigger] r[k]),
    ensures
        ({
            let c = join(r, seq!['\n']);
            let hs = heading_starts_from(c, 0);
            &&& c.len() > 0
            &&& c.last() == '\n'
            &&& hs.len() == r.len()
            &&& hs[0] == 0
            &&& forall|k: int| 0 <= k < r.len() ==> c.subrange(hs[k], if k + 1 < r.len() { hs[k + 1] } else { c.len() as int }) == #[trigger] unit(r, k)
        }),
    decreases r.len(),
{
    let c = join(r, seq!['\n']);
    if r.len() == 1 {
        assert(one_block(r[0]));
        assert(c.subrange(0, c.len() as int) =~= c);
    } else {
        let p = r.drop_last();
        let x = r.last();
        assert forall|k: int| 0 <= k < p.len() implies one_block(#[trigger] p[k]) by {
            assert(p[k] == r[k]);
        }
        lemma_joined_starts(p);
        assert(one_block(r[r.len() - 1]));
        let c0 = join(p, seq!['\n']);
        let hs0 = heading_starts_from(c0, 0);
        let a = c0 + seq!['\n'];
        assert(c == a + x);
        lemma_starts_none(seq!['\n'], 0);
        lemma_starts_concat(c0, seq!['\n']);
        assert(shifted(Seq::<int>::empty(), c0.len() as int) =~= Seq::<int>::empty());
        assert(heading_starts_from(a, 0) =~= hs0);
        lemma_starts_concat(a, x);
        assert(shifted(seq![0int], a.len() as int) =~= seq![a.len() as int]);
        let hs = heading_starts_from(c, 0);
        assert(hs =~= hs0 + seq![a.len() as int]);
        lemma_heading_starts(c0, 0);
        assert forall|k: int| 0 <= k < r.len() implies c.subrange(hs[k], if k + 1 < r.len() { hs[k + 1] } else { c.len() as int }) == #[trigger] unit(r, k) by {
            if k + 1 < p.len() {
                assert(hs[k] == hs0[k] && hs[k + 1] == hs0[k + 1]);
                assert(c0.subrange(hs0[k], hs0[k + 1]) == unit(p, k));
                assert(c.subrange(hs[k], hs[k + 1]) =~= c0.subrange(hs0[k], hs0[k + 1]));
                assert(unit(p, k) == unit(r, k));
            } else if k + 1 == p.len() {
                assert(hs[k] == hs0[k]);
                assert(c0.subrange(hs0[k], c0.len() as int) == unit(p, k));
                assert(c.subrange(hs[k], hs[k + 1]) =~= c0.subrange(hs0[k], c0.len() as int) + seq!['\n']);
            } else {
                assert(c.subrange(hs[k], c.len() as int) =~= x);
            }
        }
    }
}

/// The heading blocks of rendered pieces joined by blank lines.
#[verifier::spinoff_prover]
proof fn lemma_joined_blocks(r: Seq<Seq<char>>)
    requires
        r.len() > 0,
        forall|k: int| 0 <= k < r.len() ==> one_block(#[trigger] r[k]),
    ensures
        heading_blocks(join(r, seq!['\n'])) == Seq::new(r.len(), |k: int| block_model(unit(r, k))),
{
    let c = join(r, seq!['\n']);
    lemma_joined_starts(r);
    let hs = heading_starts_from(c, 0);
    assert(block_starts(c) == hs);
    assert(heading_blocks(c) =~= Seq::new(r.len(), |k: int| block_model(unit(r, k))));
}


/// A field value that a `- Key: value` line carries unchanged: one line, not
/// blank at either end and not wrapped in `**` emphasis.
pub open spec fn plain_value(v: Seq<char>) -> bool {
    &&& v.len() > 0
    &&& !is_ws(v[0])
    &&& !is_ws(v.last())
    &&& !starts_with(v, stars())
    &&& !ends_with(v, stars())
    &&& single_line(v)
}

/// No line of the text begins with `## `.
pub open spec fn heading_free(s: Seq<char>) -> bool {
    forall|i: int| 0 <= i < s.len() && (i == 0 || s[i - 1] == '\n') ==> !occurs_at(s, h2(), i)
}

/// A TODO whose rendered text reads back as the same TODO: its fields are
/// already in the form that rendering writes, its acceptance criteria hold no
/// heading line and no line that would start a new acceptance field.
pub open spec fn canonical_item(it: TodoItemModel) -> bool {
    &&& is_todo_id(it.id)
    &&& it.title.len() > 0
    &&& !is_ws(it.title[0])
    &&& !is_ws(it.title.last())
    &&& single_line(it.title)
    &&& plain_value(it.area)
    &&& plain_value(it.rationale)
    &&& forall|k: int| 0 <= k < it.dependencies.len() ==> is_todo_id(#[trigger] it.dependencies[k])
    &&& it.dependencies.no_duplicates()
    &&& it.acceptance_criteria.len() > 0
    &&& !is_ws(it.acceptance_criteria[0])
    &&& !is_ws(it.acceptance_criteria.last())
    &&& no_cr(it.acceptance_criteria)
    &&& heading_free(it.acceptance_criteria)
    &&& forall|k: int| 0 <= k < split_on(it.acceptance_criteria, '\n').len()
        ==> acceptance_line(#[trigger] split_on(it.acceptance_criteria, '\n')[k])
}

/// A line inside the acceptance criteria that does not read as a new
/// `Acceptance Criteria` field.
pub open spec fn acceptance_line(l: Seq<char>) -> bool {
    match crate::markdown::field_line(l) {
        Some((key, _)) => key != "acceptance criteria"@,
        None => true,
    }
}

/// Lines, each followed by a line break.
pub open spec fn lines_text(ls: Seq<Seq<char>>) -> Seq<char>
    decreases ls.len(),
{
    if ls.len() == 0 {
        Seq::empty()
    } else {
        ls[0] + seq!['\n'] + lines_text(ls.drop_first())
    }
}

pub open spec fn item_heading(it: TodoItemModel) -> Seq<char> {
    "## "@ + it.id + ": "@ + it.title
}

pub open spec fn item_field_lines(it: TodoItemModel) -> Seq<Seq<char>> {
    seq![
        Seq::<char>::empty(),
        "- Priority: "@ + priority_name(it.priority),
        "- Category: "@ + category_name(it.category),
        "- Area: "@ + it.area,
        "- Dependencies: "@ + dependencies_text(it.dependencies),
        "- Rationale: "@ + it.rationale,
        Seq::<char>::empty(),
        "-Acceptance Criteria:"@
    ]
}

#[verifier::spinoff_prover]
proof fn lemma_lines_text_split(ls: Seq<Seq<char>>, t: Seq<char>)
    requires
        forall|k: int| 0 <= k < ls.len() ==> single_line(#[trigger] ls[k]),
    ensures
        split_on(lines_text(ls) + t, '\n') == ls + split_on(t, '\n'),
    decreases ls.len(),
{
    if ls.len() == 0 {
        assert(lines_text(ls) + t =~= t);
        assert(ls + split_on(t, '\n') =~= split_on(t, '\n'));
    } else {
        let rest = ls.drop_first();
        assert forall|k: int| 0 <= k < rest.len() implies single_line(#[trigger] rest[k]) by {
            assert(rest[k] == ls[k + 1]);
        }
        lemma_lines_text_split(rest, t);
        assert(single_line(ls[0]));
        lemma_split_plain(ls[0], '\n');
        assert(lines_text(ls) + t =~= ls[0] + seq!['\n'] + (lines_text(rest) + t));
        lemma_split_concat(ls[0], lines_text(rest) + t, '\n');
        assert(seq![ls[0]] + (rest + split_on(t, '\n')) =~= ls + split_on(t, '\n'));
    }
}

#[verifier::spinoff_prover]
proof fn lemma_line_starts(l: Seq<char>)
    requires
        single_line(l),
        !starts_with(l, h2()),
    ensures
        heading_starts_from(l + seq!['\n'], 0) == Seq::<int>::empty(),
{
    let a = l + seq!['\n'];
    assert forall|p: int| 0 <= p < a.len() implies !heading_at(a, p) by {
        if p > 0 && p - 1 < l.len() {
            assert(a[p - 1] == l[p - 1]);
        }
        if occurs_at(a, h2(), p) && p == 0 {
            if l.len() >= 3 {
                assert(l.subrange(0, 3) =~= a.subrange(0, 3));
            } else {
                assert(a.subrange(0, 3)[l.len() as int] == '\n');
                assert(h2()[l.len() as int] != '\n');
            }
        }
    }
    lemma_starts_none(a, 0);
}

#[verifier::spinoff_prover]
proof fn lemma_lines_text_starts(ls: Seq<Seq<char>>, t: Seq<char>)
    requires
        forall|k: int| 0 <= k < ls.len() ==> single_line(#[trigger] ls[k]),
        forall|k: int| 0 <= k < ls.len() ==> !starts_with(#[trigger] ls[k], h2()),
    ensures
        heading_starts_from(lines_text(ls) + t, 0) == shifted(heading_starts_from(t, 0), lines_text(ls).len() as int),
    decreases ls.len(),
{
    if ls.len() == 0 {
        assert(lines_text(ls) + t =~= t);
        assert(shifted(heading_starts_from(t, 0), 0) =~= heading_starts_from(t, 0));
    } else {
        let rest = ls.drop_first();
        assert forall|k: int| 0 <= k < rest.len() implies single_line(#[trigger] rest[k]) by {
            assert(rest[k] == ls[k + 1]);
        }
        assert forall|k: int| 0 <= k < rest.len() implies !starts_with(#[trigger] rest[k], h2()) by {
            assert(rest[k] == ls[k + 1]);
        }
        lemma_lines_text_starts(rest, t);
        assert(single_line(ls[0]));
        assert(!starts_with(ls[0], h2()));
        lemma_line_starts(ls[0]);
        let a = ls[0] + seq!['\n'];
        assert(lines_text(ls) + t =~= a + (lines_text(rest) + t));
        lemma_starts_concat(a, lines_text(rest) + t);
        let h = heading_starts_from(t, 0);
        assert(Seq::<int>::empty() + shifted(shifted(h, lines_text(rest).len() as int), a.len() as int)
            =~= shifted(h, lines_text(ls).len() as int));
    }
}

#[verifier::spinoff_prover]
proof fn lemma_acceptance_starts(ac: Seq<char>)
    requires
        heading_free(ac),
    ensures
        heading_starts_from(ac + seq!['\n'], 0) == Seq::<int>::empty(),
{
    let a = ac + seq!['\n'];
    assert forall|p: int| 0 <= p < a.len() implies !heading_at(a, p) by {
        if p > 0 && p - 1 < ac.len() {
            assert(a[p - 1] == ac[p - 1]);
        }
        if occurs_at(a, h2(), p) {
            if p + 3 <= ac.len() {
                assert(a.subrange(p, p + 3) =~= ac.subrange(p, p + 3));
                assert(occurs_at(ac, h2(), p));
            } else {
                assert(a.subrange(p, p + 3)[ac.len() - p] == '\n');
                assert(h2()[ac.len() - p] != '\n');
            }
        }
    }
    lemma_starts_none(a, 0);
}

#[verifier::spinoff_prover]
proof fn lemma_lines_text_unfold(ls: Seq<Seq<char>>, k: int)
    requires
        0 <= k < ls.len(),
    ensures
        lines_text(ls.subrange(k, ls.len() as int)) == ls[k] + seq!['\n'] + lines_text(ls.subrange(k + 1, ls.len() as int)),
{
    let g = ls.subrange(k, ls.len() as int);
    assert(g.drop_first() =~= ls.subrange(k + 1, ls.len() as int));
}

/// The field lines of a rendered TODO, written out.
#[verifier::spinoff_prover]
proof fn lemma_field_lines_text(it: TodoItemModel)
    ensures
        ({
            let f = item_field_lines(it);
            let nl = seq!['\n'];
            lines_text(f) == nl + (f[1] + nl) + (f[2] + nl) + (f[3] + nl) + (f[4] + nl) + (f[5] + nl) + nl + (f[7] + nl)
        }),
{
    let f = item_field_lines(it);
    let nl = seq!['\n'];
    assert(f.subrange(0, 8) =~= f);
    lemma_lines_text_unfold(f, 0);
    lemma_lines_text_unfold(f, 1);
    lemma_lines_text_unfold(f, 2);
    lemma_lines_text_unfold(f, 3);
    lemma_lines_text_unfold(f, 4);
    lemma_lines_text_unfold(f, 5);
    lemma_lines_text_unfold(f, 6);
    lemma_lines_text_unfold(f, 7);
    assert(lines_text(f.subrange(8, 8)) == Seq::<char>::empty()) by {
        assert(f.subrange(8, 8) =~= Seq::<Seq<char>>::empty());
    }
    let t7 = f[7] + nl;
    assert(lines_text(f.subrange(7, 8)) =~= t7);
    let t6 = nl + t7;
    assert(lines_text(f.subrange(6, 8)) =~= t6);
    let t5 = f[5] + nl + t6;
    let t4 = f[4] + nl + t5;
    let t3 = f[3] + nl + t4;
    let t2 = f[2] + nl + t3;
    let t1 = f[1] + nl + t2;
    assert(lines_text(f) =~= nl + t1);
    assert(nl + t1 =~= nl + (f[1] + nl) + (f[2] + nl) + (f[3] + nl) + (f[4] + nl) + (f[5] + nl) + nl + (f[7] + nl));
}

/// The text between a TODO's heading and its acceptance criteria.
#[verifier::spinoff_prover]
proof fn lemma_item_tail(it: TodoItemModel)
    ensures
        "\n\n- Priority: "@ + priority_name(it.priority) + "\n- Category: "@ + category_name(it.category)
            + "\n- Area: "@ + it.area + "\n- Dependencies: "@ + dependencies_text(it.dependencies)
            + "\n- Rationale: "@ + it.rationale + "\n\n-Acceptance Criteria:\n"@
            == seq!['\n'] + lines_text(item_field_lines(it)),
{
    lemma_field_lines_text(it);
    let f = item_field_lines(it);
    let nl = seq!['\n'];
    reveal_strlit("\n\n- Priority: ");
    reveal_strlit("\n- Category: ");
    reveal_strlit("\n- Area: ");
    reveal_strlit("\n- Dependencies: ");
    reveal_strlit("\n- Rationale: ");
    reveal_strlit("\n\n-Acceptance Criteria:\n");
    reveal_strlit("- Priority: ");
    reveal_strlit("- Category: ");
    reveal_strlit("- Area: ");
    reveal_strlit("- Dependencies: ");
    reveal_strlit("- Rationale: ");
    reveal_strlit("-Acceptance Criteria:");
    assert("\n\n- Priority: "@ =~= nl + nl + "- Priority: "@);
    assert("\n- Category: "@ =~= nl + "- Category: "@);
    assert("\n- Area: "@ =~= nl + "- Area: "@);
    assert("\n- Dependencies: "@ =~= nl + "- Dependencies: "@);
    assert("\n- Rationale: "@ =~= nl + "- Rationale: "@);
    assert("\n\n-Acceptance Criteria:\n"@ =~= nl + nl + "-Acceptance Criteria:"@ + nl);
    assert("\n\n- Priority: "@ + priority_name(it.priority) + "\n- Category: "@ + category_name(it.category)
        + "\n- Area: "@ + it.area + "\n- Dependencies: "@ + dependencies_text(it.dependencies)
        + "\n- Rationale: "@ + it.rationale + "\n\n-Acceptance Criteria:\n"@ =~= nl + lines_text(f));
}

#[verifier::spinoff_prover]
#[verifier::rlimit(100)]
proof fn lemma_item_text(it: TodoItemModel)
    requires
        canonical_item(it),
    ensures
        render_todo_item(it) == item_heading(it) + seq!['\n'] + lines_text(item_field_lines(it))
            + it.acceptance_criteria + seq!['\n'],
{
    lemma_trim_keeps(it.title);
    lemma_trim_keeps(it.area);
    lemma_trim_keeps(it.rationale);
    lemma_trim_keeps(it.acceptance_criteria);
    lemma_item_tail(it);
    let tail = "\n\n- Priority: "@ + priority_name(it.priority) + "\n- Category: "@ + category_name(it.category)
        + "\n- Area: "@ + it.area + "\n- Dependencies: "@ + dependencies_text(it.dependencies)
        + "\n- Rationale: "@ + it.rationale + "\n\n-Acceptance Criteria:\n"@;
    let nl = seq!['\n'];
    assert(render_todo_item(it) =~= item_heading(it) + tail + it.acceptance_criteria + "\n"@);
    reveal_strlit("\n");
    assert("\n"@ =~= nl);
    assert(item_heading(it) + tail + it.acceptance_criteria + nl
        =~= item_heading(it) + nl + lines_text(item_field_lines(it)) + it.acceptance_criteria + nl);
}

#[verifier::spinoff_prover]
proof fn lemma_id_chars(id: Seq<char>)
    requires
        is_todo_id(id),
    ensures
        single_line(id),
        id[0] == 'T',
        is_digit(id.last()),
        forall|i: int| 0 <= i < id.len() ==> !is_ws(#[trigger] id[i]) && id[i] != ',' && id[i] != ':' && id[i] != '*',
        forall|i: int| 0 <= i < id.len() ==> (#[trigger] id[i] as u32) < 128 && !('a' <= id[i] && id[i] <= 'z'),
{
    assert(id.subrange(0, 5) == todo_prefix());
    assert forall|i: int| 0 <= i < id.len() implies !is_ws(#[trigger] id[i]) && id[i] != ',' && id[i] != ':' && id[i] != '*'
        && (id[i] as u32) < 128 && !('a' <= id[i] && id[i] <= 'z') by {
        if i < 5 {
            assert(id[i] == id.subrange(0, 5)[i]);
        } else {
            assert(is_digit(id[i]));
        }
    }
    assert(is_digit(id[id.len() - 1]));
    assert(id[0] == id.subrange(0, 5)[0]);
}

#[verifier::spinoff_prover]
proof fn lemma_single_line_concat(a: Seq<char>, b: Seq<char>)
    requires
        single_line(a),
        single_line(b),
    ensures
        single_line(a + b),
{
    assert forall|i: int| 0 <= i < (a + b).len() implies (a + b)[i] != '\n' && (a + b)[i] != '\r' by {
        if i < a.len() {
            assert((a + b)[i] == a[i]);
        } else {
            assert((a + b)[i] == b[i - a.len()]);
        }
    }
}

#[verifier::spinoff_prover]
proof fn lemma_leading_digits_of(d: Seq<char>, x: Seq<char>)
    requires
        forall|i: int| 0 <= i < d.len() ==> is_digit(#[trigger] d[i]),
        x.len() > 0,
        !is_digit(x[0]),
    ensures
        leading_digits(d + x) == d.len(),
    decreases d.len(),
{
    if d.len() == 0 {
        assert(d + x =~= x);
    } else {
        assert((d + x).drop_first() =~= d.drop_first() + x);
        assert forall|i: int| 0 <= i < d.drop_first().len() implies is_digit(#[trigger] d.drop_first()[i]) by {
            assert(d.drop_first()[i] == d[i + 1]);
        }
        lemma_leading_digits_of(d.drop_first(), x);
        assert((d + x)[0] == d[0]);
    }
}

/// The heading line of a rendered TODO reads back as the TODO's ID and title.
#[verifier::spinoff_prover]
proof fn lemma_heading_line(it: TodoItemModel)
    requires
        canonical_item(it),
    ensures
        single_line(item_heading(it)),
        occurs_at(item_heading(it) + seq!['\n'], h2(), 0),
        todo_heading(item_heading(it)) == Some((it.id, it.title, true)),
{
    reveal_strlit("## ");
    reveal_strlit(": ");
    let h = item_heading(it);
    let id = it.id;
    let title = it.title;
    lemma_id_chars(id);
    assert(single_line("## "@));
    assert(single_line(": "@));
    lemma_single_line_concat("## "@, id);
    lemma_single_line_concat("## "@ + id, ": "@);
    lemma_single_line_concat("## "@ + id + ": "@, title);
    assert((h + seq!['\n']).subrange(0, 3) =~= h2());
    lemma_trim_keeps(h);
    assert(trim(h) == h);
    assert(starts_with(h, h2())) by {
        assert(h.subrange(0, 3) =~= h2());
    }
    let h1 = h.subrange(3, h.len() as int);
    assert(h1 =~= id + ": "@ + title);
    assert(starts_with(h1, todo_prefix())) by {
        assert(h1.subrange(0, 5) =~= id.subrange(0, 5));
    }
    let rest = h1.subrange(5, h1.len() as int);
    let digits = id.subrange(5, id.len() as int);
    assert(rest =~= digits + (": "@ + title));
    assert forall|i: int| 0 <= i < digits.len() implies is_digit(#[trigger] digits[i]) by {
        assert(digits[i] == id[i + 5]);
    }
    lemma_leading_digits_of(digits, ": "@ + title);
    let d = leading_digits(rest);
    assert(d == digits.len());
    assert(todo_prefix() + rest.subrange(0, d as int) =~= id) by {
        assert(rest.subrange(0, d as int) =~= digits);
        assert(id.subrange(0, 5) == todo_prefix());
    }
    let tail = rest.subrange(d as int, rest.len() as int);
    assert(tail =~= ": "@ + title);
    lemma_ltrim_len(tail);
    assert(ltrim(tail) == tail);
    assert(starts_with(tail, seq![':'])) by {
        assert(tail.subrange(0, 1) =~= seq![':']);
    }
    assert(tail.drop_first() =~= seq![' '] + title);
    assert forall|i: int| 0 <= i < seq![' '].len() implies is_ws(#[trigger] seq![' '][i]) by {}
    lemma_trim_lead_ws(seq![' '], title);
}

/// A rendered TODO is one heading block.
#[verifier::spinoff_prover]
proof fn lemma_item_block(it: TodoItemModel)
    requires
        canonical_item(it),
    ensures
        one_block(render_todo_item(it)),
{
    lemma_item_text(it);
    lemma_heading_line(it);
    let h = item_heading(it);
    let nl = seq!['\n'];
    let f = item_field_lines(it);
    let ac = it.acceptance_criteria;
    let a = h + nl;
    assert forall|p: int| 1 <= p < a.len() implies !heading_at(a, p) by {
        assert(a[p - 1] == h[p - 1]);
    }
    lemma_starts_none(a, 1);
    assert(heading_at(a, 0));
    assert(heading_starts_from(a, 0) =~= seq![0int]);
    lemma_field_lines_ok(it);
    lemma_acceptance_starts(ac);
    lemma_lines_text_starts(f, ac + nl);
    assert(shifted(Seq::<int>::empty(), lines_text(f).len() as int) =~= Seq::<int>::empty());
    let x = render_todo_item(it);
    assert(x =~= a + (lines_text(f) + (ac + nl)));
    lemma_starts_concat(a, lines_text(f) + (ac + nl));
    assert(seq![0int] + shifted(Seq::<int>::empty(), a.len() as int) =~= seq![0int]);
}

#[verifier::spinoff_prover]
proof fn lemma_join_ends(v: Seq<Seq<char>>, sep: Seq<char>)
    requires
        v.len() > 0,
        forall|k: int| 0 <= k < v.len() ==> (#[trigger] v[k]).len() > 0,
    ensures
        join(v, sep).len() > 0,
        join(v, sep).len() >= v[0].len(),
        join(v, sep)[0] == v[0][0],
        join(v, sep).last() == v.last().last(),
    decreases v.len(),
{
    if v.len() > 1 {
        let p = v.drop_last();
        assert forall|k: int| 0 <= k < p.len() implies (#[trigger] p[k]).len() > 0 by {
            assert(p[k] == v[k]);
        }
        lemma_join_ends(p, sep);
        assert(v[v.len() - 1].len() > 0);
    } else {
        assert(v[0].len() > 0);
    }
}

#[verifier::spinoff_prover]
proof fn lemma_join_single_line(v: Seq<Seq<char>>, sep: Seq<char>)
    requires
        single_line(sep),
        forall|k: int| 0 <= k < v.len() ==> single_line(#[trigger] v[k]),
    ensures
        single_line(join(v, sep)),
    decreases v.len(),
{
    if v.len() > 1 {
        let p = v.drop_last();
        assert forall|k: int| 0 <= k < p.len() implies single_line(#[trigger] p[k]) by {
            assert(p[k] == v[k]);
        }
        lemma_join_single_line(p, sep);
        assert(single_line(v[v.len() - 1]));
        lemma_single_line_concat(join(p, sep), sep);
        lemma_single_line_concat(join(p, sep) + sep, v.last());
    } else if v.len() == 1 {
        assert(single_line(v[0]));
    }
}

/// The dependencies line carries its value unchanged.
#[verifier::spinoff_prover]
proof fn lemma_dependencies_text(deps: Seq<Seq<char>>)
    requires
        forall|k: int| 0 <= k < deps.len() ==> is_todo_id(#[trigger] deps[k]),
    ensures
        plain_value(dependencies_text(deps)),
{
    reveal_strlit("none");
    reveal_strlit(", ");
    let t = dependencies_text(deps);
    if deps.len() == 0 {
        assert(!starts_with(t, stars())) by {
            assert(t.subrange(0, 2)[0] == 'n');
        }
        assert(!ends_with(t, stars())) by {
            assert(t.subrange(2, 4)[1] == 'e');
        }
    } else {
        assert forall|k: int| 0 <= k < deps.len() implies (#[trigger] deps[k]).len() > 0 && single_line(deps[k]) by {
            assert(is_todo_id(deps[k]));
            lemma_id_chars(deps[k]);
        }
        lemma_join_ends(deps, ", "@);
        lemma_join_single_line(deps, ", "@);
        assert(is_todo_id(deps[0]));
        lemma_id_chars(deps[0]);
        assert(is_todo_id(deps[deps.len() - 1]));
        lemma_id_chars(deps[deps.len() - 1]);
        assert(!starts_with(t, stars())) by {
            if starts_with(t, stars()) {
                assert(t.subrange(0, 2)[0] == t[0]);
            }
        }
        assert(!ends_with(t, stars())) by {
            if ends_with(t, stars()) {
                assert(t.subrange(t.len() - 2, t.len() as int)[1] == t.last());
            }
        }
    }
}

#[verifier::spinoff_prover]
proof fn lemma_name_plain(n: Seq<char>)
    requires
        n.len() > 0,
        forall|i: int| 0 <= i < n.len() ==> 'a' <= #[trigger] n[i] && n[i] <= 'z',
    ensures
        plain_value(n),
        trim(n) == n,
        crate::text::lower_text(n) == n,
{
    assert(!starts_with(n, stars())) by {
        if starts_with(n, stars()) {
            assert(n.subrange(0, 2)[0] == n[0]);
        }
    }
    assert(!ends_with(n, stars())) by {
        if ends_with(n, stars()) {
            assert(n.subrange(n.len() - 2, n.len() as int)[1] == n.last());
        }
    }
    assert(n[0] == n[0] && n.last() == n[n.len() - 1]);
    lemma_trim_keeps(n);
    assert(crate::text::all_ascii(n));
    assert(crate::text::ascii_lower(n) =~= n);
}

#[verifier::spinoff_prover]
proof fn lemma_priority_name(p: TodoPriority)
    ensures
        plain_value(priority_name(p)),
        trim(priority_name(p)) == priority_name(p),
        crate::text::lower_text(priority_name(p)) == priority_name(p),
        crate::todos::priority_named(priority_name(p)) == Some(p),
{
    reveal_strlit("critical");
    reveal_strlit("high");
    reveal_strlit("medium");
    reveal_strlit("low");
    lemma_name_plain(priority_name(p));
}

#[verifier::spinoff_prover]
proof fn lemma_category_name(c: WorkCategory)
    ensures
        plain_value(category_name(c)),
        trim(category_name(c)) == category_name(c),
        crate::text::lower_text(category_name(c)) == category_name(c),
        crate::todos::category_named(category_name(c)) == Some(c),
{
    reveal_strlit("feature");
    reveal_strlit("bugfix");
    reveal_strlit("refactor");
    reveal_strlit("test");
    reveal_strlit("documentation");
    reveal_strlit("research");
    reveal_strlit("others");
    lemma_name_plain(category_name(c));
}

/// Each field line is one line that does not start a heading.
#[verifier::spinoff_prover]
proof fn lemma_field_lines_ok(it: TodoItemModel)
    requires
        canonical_item(it),
    ensures
        forall|k: int| 0 <= k < item_field_lines(it).len() ==> single_line(#[trigger] item_field_lines(it)[k]),
        forall|k: int| 0 <= k < item_field_lines(it).len() ==> !starts_with(#[trigger] item_field_lines(it)[k], h2()),
{
    let f = item_field_lines(it);
    reveal_strlit("- Priority: ");
    reveal_strlit("- Category: ");
    reveal_strlit("- Area: ");
    reveal_strlit("- Dependencies: ");
    reveal_strlit("- Rationale: ");
    reveal_strlit("-Acceptance Criteria:");
    lemma_priority_name(it.priority);
    lemma_category_name(it.category);
    lemma_dependencies_text(it.dependencies);
    lemma_single_line_concat("- Priority: "@, priority_name(it.priority));
    lemma_single_line_concat("- Category: "@, category_name(it.category));
    lemma_single_line_concat("- Area: "@, it.area);
    lemma_single_line_concat("- Dependencies: "@, dependencies_text(it.dependencies));
    lemma_single_line_concat("- Rationale: "@, it.rationale);
    assert(single_line("-Acceptance Criteria:"@));
    assert forall|k: int| 0 <= k < f.len() implies !starts_with(#[trigger] f[k], h2()) by {
        if starts_with(f[k], h2()) {
            assert(f[k].subrange(0, 3)[0] == f[k][0]);
            if 1 <= k <= 5 || k == 7 {
                assert(f[k][0] == '-');
            }
        }
    }
}

#[verifier::spinoff_prover]
proof fn lemma_first_char(s: Seq<char>, c: char, k: int)
    requires
        0 <= k < s.len(),
        s[k] == c,
        forall|j: int| 0 <= j < k ==> s[j] != c,
    ensures
        find_char(s, c) == k,
{
    lemma_find_char_from(s, c, 0);
}

/// `- Label: value` reads as the lower-cased label and the value.
#[verifier::spinoff_prover]
proof fn lemma_field_line(label: Seq<char>, value: Seq<char>)
    requires
        label.len() > 0,
        !is_ws(label[0]),
        !is_ws(label.last()),
        label[0] != '*',
        label.last() != '*',
        all_ascii(label),
        forall|i: int| 0 <= i < label.len() ==> #[trigger] label[i] != ':',
        plain_value(value),
    ensures
        field_line("- "@ + label + ": "@ + value) == Some((ascii_lower(label), value)),
{
    reveal_strlit("- ");
    reveal_strlit(": ");
    let line = "- "@ + label + ": "@ + value;
    let sp = seq![' '];
    assert forall|i: int| 0 <= i < sp.len() implies is_ws(#[trigger] sp[i]) by {}
    lemma_trim_keeps(line);
    let v0 = trim(line);
    assert(starts_with(v0, seq!['-'])) by {
        assert(v0.subrange(0, 1) =~= seq!['-']);
    }
    let body = label + ": "@ + value;
    assert(v0.subrange(1, v0.len() as int) =~= sp + body);
    lemma_trim_lead_ws(sp, body);
    let v1 = ltrim(strip_prefix_or_same(v0, seq!['-']));
    assert(v1 == body);
    assert(!starts_with(v1, stars())) by {
        if starts_with(v1, stars()) {
            assert(v1.subrange(0, 2)[0] == v1[0]);
        }
    }
    let v2 = strip_prefix_or_same(v1, stars());
    assert(v2 == body);
    lemma_first_char(v2, ':', label.len() as int);
    let k = label.len() as int;
    assert(v2.subrange(0, k) =~= label);
    lemma_trim_keeps(label);
    assert(strip_all_lead(label, '*') == label);
    assert(strip_all_trail(label, '*') == label);
    assert(v2.subrange(k + 1, v2.len() as int) =~= sp + value);
    lemma_trim_lead_ws(sp, value);
    assert(strip_lead_pairs(value) == value);
    assert(strip_trail_pairs(value) == value);
    lemma_trim_keeps(value);
}

/// `-Acceptance Criteria:` opens the acceptance criteria with no value.
#[verifier::spinoff_prover]
proof fn lemma_acceptance_heading_line()
    ensures
        field_line("-Acceptance Criteria:"@) == Some(("acceptance criteria"@, Seq::<char>::empty())),
{
    reveal_strlit("-Acceptance Criteria:");
    reveal_strlit("acceptance criteria");
    let line = "-Acceptance Criteria:"@;
    lemma_trim_keeps(line);
    let v1 = line.subrange(1, line.len() as int);
    assert(starts_with(line, seq!['-'])) by {
        assert(line.subrange(0, 1) =~= seq!['-']);
    }
    lemma_ltrim_len(v1);
    assert(strip_prefix_or_same(v1, stars()) == v1) by {
        if starts_with(v1, stars()) {
            assert(v1.subrange(0, 2)[0] == v1[0]);
        }
    }
    lemma_first_char(v1, ':', 19);
    let label = v1.subrange(0, 19);
    lemma_trim_keeps(label);
    assert(strip_all_lead(label, '*') == label);
    assert(strip_all_trail(label, '*') == label);
    assert(all_ascii(label));
    assert(ascii_lower(label) =~= "acceptance criteria"@);
    assert(v1.subrange(20, v1.len() as int) =~= Seq::<char>::empty());
    assert(trim(Seq::<char>::empty()) =~= Seq::<char>::empty());
    assert(strip_lead_pairs(Seq::<char>::empty()) =~= Seq::<char>::empty());
    assert(strip_trail_pairs(Seq::<char>::empty()) =~= Seq::<char>::empty());
}

#[verifier::spinoff_prover]
proof fn lemma_empty_line()
    ensures
        field_line(Seq::<char>::empty()) is None,
        crate::text::is_blank(Seq::<char>::empty()),
        acceptance_line(Seq::<char>::empty()),
{
    let e = Seq::<char>::empty();
    assert(trim(e) =~= e);
    assert(ltrim(strip_prefix_or_same(e, seq!['-'])) =~= e);
    assert(strip_prefix_or_same(e, stars()) =~= e);
    lemma_find_char_from(e, ':', 0);
}

/// Scanning more lines from a given state.
pub open spec fn scan_more(st: ScanState, ls: Seq<Seq<char>>, id: Seq<char>) -> ScanState
    decreases ls.len(),
{
    if ls.len() == 0 {
        st
    } else {
        scan_step(scan_more(st, ls.drop_last(), id), ls.last(), id)
    }
}

pub open spec fn scan_start() -> ScanState {
    ScanState { fields: Seq::empty(), acceptance: Seq::empty(), in_acceptance: false, warnings: Seq::empty() }
}

#[verifier::spinoff_prover]
proof fn lemma_scan_lines_more(ls: Seq<Seq<char>>, id: Seq<char>)
    ensures
        scan_lines(ls, id) == scan_more(scan_start(), ls, id),
    decreases ls.len(),
{
    if ls.len() > 0 {
        lemma_scan_lines_more(ls.drop_last(), id);
    }
}

#[verifier::spinoff_prover]
proof fn lemma_scan_more_concat(st: ScanState, a: Seq<Seq<char>>, b: Seq<Seq<char>>, id: Seq<char>)
    ensures
        scan_more(st, a + b, id) == scan_more(scan_more(st, a, id), b, id),
    decreases b.len(),
{
    if b.len() == 0 {
        assert(a + b =~= a);
    } else {
        lemma_scan_more_concat(st, a, b.drop_last(), id);
        assert((a + b).drop_last() =~= a + b.drop_last());
        assert((a + b).last() == b.last());
    }
}

/// Inside the acceptance criteria every line is kept as it is.
#[verifier::spinoff_prover]
proof fn lemma_scan_acceptance(st: ScanState, ls: Seq<Seq<char>>, id: Seq<char>)
    requires
        st.in_acceptance,
        forall|k: int| 0 <= k < ls.len() ==> acceptance_line(#[trigger] ls[k]),
    ensures
        scan_more(st, ls, id) == (ScanState { acceptance: st.acceptance + ls, ..st }),
    decreases ls.len(),
{
    if ls.len() == 0 {
        assert(st.acceptance + ls =~= st.acceptance);
    } else {
        let p = ls.drop_last();
        assert forall|k: int| 0 <= k < p.len() implies acceptance_line(#[trigger] p[k]) by {
            assert(p[k] == ls[k]);
        }
        lemma_scan_acceptance(st, p, id);
        assert(acceptance_line(ls[ls.len() - 1]));
        assert((st.acceptance + p).push(ls.last()) =~= st.acceptance + ls);
    }
}

pub open spec fn item_fields(it: TodoItemModel) -> Seq<(Seq<char>, Seq<char>)> {
    seq![
        ("priority"@, priority_name(it.priority)),
        ("category"@, category_name(it.category)),
        ("area"@, it.area),
        ("dependencies"@, dependencies_text(it.dependencies)),
        ("rationale"@, it.rationale)
    ]
}

#[verifier::spinoff_prover]
proof fn lemma_scan_prefix(st: ScanState, ls: Seq<Seq<char>>, k: int, id: Seq<char>)
    requires
        0 <= k < ls.len(),
    ensures
        scan_more(st, ls.subrange(0, k + 1), id) == scan_step(scan_more(st, ls.subrange(0, k), id), ls[k], id),
{
    assert(ls.subrange(0, k + 1).drop_last() =~= ls.subrange(0, k));
}

#[verifier::spinoff_prover]
proof fn lemma_label(label: Seq<char>)
    requires
        label.len() > 0,
        'A' <= label[0] && label[0] <= 'Z',
        forall|i: int| 1 <= i < label.len() ==> 'a' <= #[trigger] label[i] && label[i] <= 'z',
    ensures
        !is_ws(label[0]),
        !is_ws(label.last()),
        label[0] != '*',
        label.last() != '*',
        all_ascii(label),
        forall|i: int| 0 <= i < label.len() ==> #[trigger] label[i] != ':',
{
    assert(label.last() == label[label.len() - 1]);
}

/// Scanning the field lines of a rendered TODO.
#[verifier::spinoff_prover]
#[verifier::rlimit(80)]
proof fn lemma_scan_fields(it: TodoItemModel)
    requires
        canonical_item(it),
    ensures
        scan_more(scan_start(), item_field_lines(it), it.id) == (ScanState {
            fields: item_fields(it),
            acceptance: Seq::empty(),
            in_acceptance: true,
            warnings: Seq::empty(),
        }),
{
    let f = item_field_lines(it);
    let id = it.id;
    let st0 = scan_start();
    reveal_strlit("- ");
    reveal_strlit(": ");
    reveal_strlit("- Priority: ");
    reveal_strlit("- Category: ");
    reveal_strlit("- Area: ");
    reveal_strlit("- Dependencies: ");
    reveal_strlit("- Rationale: ");
    reveal_strlit("Priority");
    reveal_strlit("Category");
    reveal_strlit("Area");
    reveal_strlit("Dependencies");
    reveal_strlit("Rationale");
    reveal_strlit("priority");
    reveal_strlit("category");
    reveal_strlit("area");
    reveal_strlit("dependencies");
    reveal_strlit("rationale");
    reveal_strlit("acceptance criteria");
    lemma_priority_name(it.priority);
    lemma_category_name(it.category);
    lemma_dependencies_text(it.dependencies);
    lemma_empty_line();
    lemma_acceptance_heading_line();

    lemma_label("Priority"@);
    lemma_label("Category"@);
    lemma_label("Area"@);
    lemma_label("Dependencies"@);
    lemma_label("Rationale"@);
    assert("- Priority: "@ =~= "- "@ + "Priority"@ + ": "@);
    assert("- Category: "@ =~= "- "@ + "Category"@ + ": "@);
    assert("- Area: "@ =~= "- "@ + "Area"@ + ": "@);
    assert("- Dependencies: "@ =~= "- "@ + "Dependencies"@ + ": "@);
    assert("- Rationale: "@ =~= "- "@ + "Rationale"@ + ": "@);
    lemma_field_line("Priority"@, priority_name(it.priority));
    lemma_field_line("Category"@, category_name(it.category));
    lemma_field_line("Area"@, it.area);
    lemma_field_line("Dependencies"@, dependencies_text(it.dependencies));
    lemma_field_line("Rationale"@, it.rationale);
    assert(ascii_lower("Priority"@) =~= "priority"@);
    assert(ascii_lower("Category"@) =~= "category"@);
    assert(ascii_lower("Area"@) =~= "area"@);
    assert(ascii_lower("Dependencies"@) =~= "dependencies"@);
    assert(ascii_lower("Rationale"@) =~= "rationale"@);
    assert(f[1] =~= "- "@ + "Priority"@ + ": "@ + priority_name(it.priority));
    assert(f[2] =~= "- "@ + "Category"@ + ": "@ + category_name(it.category));
    assert(f[3] =~= "- "@ + "Area"@ + ": "@ + it.area);
    assert(f[4] =~= "- "@ + "Dependencies"@ + ": "@ + dependencies_text(it.dependencies));
    assert(f[5] =~= "- "@ + "Rationale"@ + ": "@ + it.rationale);

    assert(f.subrange(0, 0) =~= Seq::<Seq<char>>::empty());
    lemma_scan_prefix(st0, f, 0, id);
    let st1 = scan_more(st0, f.subrange(0, 1), id);
    assert(st1 == st0);
    lemma_scan_prefix(st0, f, 1, id);
    let st2 = scan_more(st0, f.subrange(0, 2), id);
    assert(st2.fields =~= seq![("priority"@, priority_name(it.priority))]);
    lemma_scan_prefix(st0, f, 2, id);
    let st3 = scan_more(st0, f.subrange(0, 3), id);
    lemma_scan_prefix(st0, f, 3, id);
    let st4 = scan_more(st0, f.subrange(0, 4), id);
    lemma_scan_prefix(st0, f, 4, id);
    let st5 = scan_more(st0, f.subrange(0, 5), id);
    lemma_scan_prefix(st0, f, 5, id);
    let st6 = scan_more(st0, f.subrange(0, 6), id);
    assert(st6.fields =~= item_fields(it));
    assert(!st6.in_acceptance && st6.acceptance.len() == 0 && st6.warnings.len() == 0);
    lemma_scan_prefix(st0, f, 6, id);
    let st7 = scan_more(st0, f.subrange(0, 7), id);
    assert(st7 == st6);
    lemma_scan_prefix(st0, f, 7, id);
    assert(f.subrange(0, 8) =~= f);
    let st8 = scan_more(st0, f, id);
    assert(st8.fields =~= item_fields(it));
    assert(st8.acceptance =~= Seq::<Seq<char>>::empty());
    assert(st8.warnings =~= Seq::<WarningModel>::empty());
}

#[verifier::spinoff_prover]
proof fn lemma_item_lookups(it: TodoItemModel)
    ensures
        lookup_field(item_fields(it), "priority"@) == Some(priority_name(it.priority)),
        lookup_field(item_fields(it), "category"@) == Some(category_name(it.category)),
        lookup_field(item_fields(it), "area"@) == Some(it.area),
        lookup_field(item_fields(it), "dependencies"@) == Some(dependencies_text(it.dependencies)),
        lookup_field(item_fields(it), "rationale"@) == Some(it.rationale),
{
    reveal_strlit("priority");
    reveal_strlit("category");
    reveal_strlit("area");
    reveal_strlit("dependencies");
    reveal_strlit("rationale");
    let fs = item_fields(it);
    reveal_with_fuel(lookup_field, 6);
    assert(fs.drop_last() =~= seq![fs[0], fs[1], fs[2], fs[3]]);
    assert(fs.drop_last().drop_last() =~= seq![fs[0], fs[1], fs[2]]);
    assert(fs.drop_last().drop_last().drop_last() =~= seq![fs[0], fs[1]]);
    assert(fs.drop_last().drop_last().drop_last().drop_last() =~= seq![fs[0]]);
    assert("category"@[0] != "priority"@[0]);
    assert("dependencies"@.len() == 12 && "priority"@.len() == 8 && "category"@.len() == 8 && "area"@.len() == 4);
    assert("rationale"@.len() == 9);
    assert("category"@ != "priority"@);
    assert("area"@ != "priority"@ && "area"@ != "category"@);
    assert("dependencies"@ != "priority"@ && "dependencies"@ != "category"@ && "dependencies"@ != "area"@);
    assert("rationale"@ != "priority"@ && "rationale"@ != "category"@ && "rationale"@ != "area"@
        && "rationale"@ != "dependencies"@);
    let l3 = fs.drop_last().drop_last().drop_last();
    assert(lookup_field(l3, "priority"@) == Some(priority_name(it.priority)));
    assert(lookup_field(l3, "category"@) == Some(category_name(it.category)));
}

#[verifier::spinoff_prover]
proof fn lemma_split_no_cr(s: Seq<char>, c: char)
    requires
        no_cr(s),
    ensures
        forall|k: int| 0 <= k < split_on(s, c).len() ==> no_cr(#[trigger] split_on(s, c)[k]),
    decreases s.len(),
{
    if s.len() > 0 {
        let d = s.drop_last();
        assert(no_cr(d)) by {
            assert forall|i: int| 0 <= i < d.len() implies d[i] != '\r' by {
                assert(d[i] == s[i]);
            }
        }
        lemma_split_no_cr(d, c);
        lemma_split_on_nonempty(d, c);
        let p = split_on(d, c);
        assert(s[s.len() - 1] != '\r');
        if s.last() != c {
            let q = p.update(p.len() - 1, p.last().push(s.last()));
            assert forall|k: int| 0 <= k < q.len() implies no_cr(#[trigger] q[k]) by {
                if k == p.len() - 1 {
                    assert(no_cr(p[k]));
                    assert forall|i: int| 0 <= i < q[k].len() implies q[k][i] != '\r' by {
                        if i < p[k].len() {
                            assert(q[k][i] == p[k][i]);
                        }
                    }
                } else {
                    assert(q[k] == p[k]);
                }
            }
        } else {
            let q = p.push(Seq::<char>::empty());
            assert forall|k: int| 0 <= k < q.len() implies no_cr(#[trigger] q[k]) by {
                if k < p.len() {
                    assert(q[k] == p[k]);
                }
            }
        }
    } else {
        assert(split_on(s, c) == seq![Seq::<char>::empty()]);
    }
}

/// The line after the acceptance criteria that a following block adds.
pub open spec fn trailing_lines(s: Seq<char>) -> Seq<Seq<char>> {
    if s.len() > 0 {
        seq![Seq::<char>::empty()]
    } else {
        Seq::empty()
    }
}

/// The lines of a rendered TODO's body.
#[verifier::spinoff_prover]
proof fn lemma_body_lines(it: TodoItemModel, s: Seq<char>)
    requires
        canonical_item(it),
        s == Seq::<char>::empty() || s == seq!['\n'],
    ensures
        lines(lines_text(item_field_lines(it)) + it.acceptance_criteria + seq!['\n'] + s)
            == item_field_lines(it) + split_on(it.acceptance_criteria, '\n') + trailing_lines(s),
{
    let f = item_field_lines(it);
    let ac = it.acceptance_criteria;
    let nl = seq!['\n'];
    let body = lines_text(f) + ac + nl + s;
    lemma_field_lines_ok(it);
    assert(body =~= lines_text(f) + (ac + nl + s));
    lemma_lines_text_split(f, ac + nl + s);
    lemma_split_concat(ac, s, '\n');
    let e = Seq::<char>::empty();
    assert(split_on(e, '\n') == seq![e]);
    if s.len() > 0 {
        assert(s.drop_last() =~= e);
        assert(split_on(s, '\n') =~= seq![e, e]);
    } else {
        assert(s =~= e);
    }
    let pieces = split_on(body, '\n');
    assert(pieces == f + split_on(ac, '\n') + split_on(s, '\n'));
    assert(body.len() > 0 && body.last() == '\n');
    let kept = pieces.drop_last();
    assert(kept =~= f + split_on(ac, '\n') + trailing_lines(s));
    lemma_split_no_cr(ac, '\n');
    assert forall|k: int| 0 <= k < kept.len() implies strip_cr(#[trigger] kept[k]) == kept[k] by {
        if k < f.len() {
            assert(kept[k] == f[k]);
            assert(single_line(f[k]));
        } else if k < f.len() + split_on(ac, '\n').len() {
            assert(kept[k] == split_on(ac, '\n')[k - f.len()]);
            assert(no_cr(split_on(ac, '\n')[k - f.len()]));
        } else {
            assert(kept[k] == e);
        }
        if kept[k].len() > 0 {
            assert(kept[k][kept[k].len() - 1] != '\r');
        }
    }
    assert(kept.map_values(|p: Seq<char>| strip_cr(p)) =~= kept);
}

pub open spec fn dep_pieces(deps: Seq<Seq<char>>) -> Seq<Seq<char>> {
    Seq::new(deps.len(), |k: int| if k == 0 { deps[0] } else { seq![' '] + deps[k] })
}

#[verifier::spinoff_prover]
proof fn lemma_split_deps(deps: Seq<Seq<char>>)
    requires
        deps.len() > 0,
        forall|k: int| 0 <= k < deps.len() ==> is_todo_id(#[trigger] deps[k]),
    ensures
        split_on(join(deps, ", "@), ',') == dep_pieces(deps),
    decreases deps.len(),
{
    reveal_strlit(", ");
    let x = deps.last();
    assert(is_todo_id(deps[deps.len() - 1]));
    lemma_id_chars(x);
    if deps.len() == 1 {
        lemma_split_plain(deps[0], ',');
        assert(dep_pieces(deps) =~= seq![deps[0]]);
    } else {
        let dl = deps.drop_last();
        assert forall|k: int| 0 <= k < dl.len() implies is_todo_id(#[trigger] dl[k]) by {
            assert(dl[k] == deps[k]);
        }
        lemma_split_deps(dl);
        let sx = seq![' '] + x;
        assert(join(deps, ", "@) =~= join(dl, ", "@) + seq![','] + sx);
        lemma_split_concat(join(dl, ", "@), sx, ',');
        assert forall|i: int| 0 <= i < sx.len() implies sx[i] != ',' by {
            if i > 0 {
                assert(sx[i] == x[i - 1]);
            }
        }
        lemma_split_plain(sx, ',');
        assert(dep_pieces(dl) + seq![sx] =~= dep_pieces(deps));
    }
}

#[verifier::spinoff_prover]
proof fn lemma_id_reads(d: Seq<char>, w: Seq<char>)
    requires
        is_todo_id(d),
        w == Seq::<char>::empty() || w == seq![' '],
    ensures
        trim(w + d) == d,
        upper_text(d) == d,
{
    lemma_id_chars(d);
    assert forall|i: int| 0 <= i < w.len() implies is_ws(#[trigger] w[i]) by {}
    assert(d.last() == d[d.len() - 1]);
    lemma_trim_lead_ws(w, d);
    assert(all_ascii(d));
    assert(ascii_upper(d) =~= d);
}

#[verifier::spinoff_prover]
proof fn lemma_fold_deps(deps: Seq<Seq<char>>, item_id: Seq<char>, field_name: Seq<char>)
    requires
        forall|k: int| 0 <= k < deps.len() ==> is_todo_id(#[trigger] deps[k]),
    ensures
        id_list_fold(dep_pieces(deps), item_id, field_name) == (deps, Seq::<WarningModel>::empty()),
    decreases deps.len(),
{
    if deps.len() == 0 {
        assert(dep_pieces(deps) =~= Seq::<Seq<char>>::empty());
        assert(deps =~= Seq::<Seq<char>>::empty());
    } else {
        let dl = deps.drop_last();
        assert forall|k: int| 0 <= k < dl.len() implies is_todo_id(#[trigger] dl[k]) by {
            assert(dl[k] == deps[k]);
        }
        lemma_fold_deps(dl, item_id, field_name);
        assert(dep_pieces(deps).drop_last() =~= dep_pieces(dl));
        let x = deps.last();
        assert(is_todo_id(deps[deps.len() - 1]));
        if deps.len() == 1 {
            assert(dep_pieces(deps).last() =~= Seq::<char>::empty() + x);
            lemma_id_reads(x, Seq::<char>::empty());
        } else {
            assert(dep_pieces(deps).last() == seq![' '] + x);
            lemma_id_reads(x, seq![' ']);
        }
        assert(dl.push(x) =~= deps);
    }
}

#[verifier::spinoff_prover]
proof fn lemma_dedup_plain<T>(s: Seq<T>)
    requires
        s.no_duplicates(),
    ensures
        dedup(s) == s,
    decreases s.len(),
{
    if s.len() > 0 {
        let d = s.drop_last();
        assert(d.no_duplicates()) by {
            assert forall|i: int, j: int| 0 <= i < d.len() && 0 <= j < d.len() && i != j implies d[i] != d[j] by {
                assert(d[i] == s[i] && d[j] == s[j]);
            }
        }
        lemma_dedup_plain(d);
        assert(!d.contains(s.last())) by {
            if d.contains(s.last()) {
                let k = choose|k: int| 0 <= k < d.len() && d[k] == s.last();
                assert(s[k] == s[s.len() - 1]);
            }
        }
        assert(d.push(s.last()) =~= s);
    }
}

/// The dependencies line reads back as the dependencies.
#[verifier::spinoff_prover]
proof fn lemma_dependencies_read(deps: Seq<Seq<char>>, item_id: Seq<char>)
    requires
        forall|k: int| 0 <= k < deps.len() ==> is_todo_id(#[trigger] deps[k]),
        deps.no_duplicates(),
    ensures
        id_list(dependencies_text(deps), item_id, "dependencies"@) == (deps, Seq::<WarningModel>::empty()),
{
    reveal_strlit("none");
    lemma_dependencies_text(deps);
    let t = dependencies_text(deps);
    lemma_trim_keeps(t);
    if deps.len() == 0 {
        assert(deps =~= Seq::<Seq<char>>::empty());
    } else {
        assert(is_todo_id(deps[0]));
        lemma_id_chars(deps[0]);
        assert forall|k: int| 0 <= k < deps.len() implies (#[trigger] deps[k]).len() > 0 by {
            assert(is_todo_id(deps[k]));
        }
        lemma_join_ends(deps, ", "@);
        assert(t.len() >= deps[0].len());
        assert(!eq_ignore_case(t, "none"@)) by {
            assert(ascii_lower(t).len() == t.len());
            assert(ascii_lower("none"@).len() == 4);
        }
        lemma_split_deps(deps);
        lemma_fold_deps(deps, item_id, "dependencies"@);
        lemma_dedup_plain(deps);
    }
}

/// The acceptance criteria read back from their lines.
#[verifier::spinoff_prover]
proof fn lemma_acceptance_text(ac: Seq<char>, s: Seq<char>)
    requires
        ac.len() > 0,
        !is_ws(ac[0]),
        !is_ws(ac.last()),
        s == Seq::<char>::empty() || s == seq!['\n'],
    ensures
        trim(join(split_on(ac, '\n') + trailing_lines(s), "\n"@)) == ac,
{
    reveal_strlit("\n");
    assert("\n"@ =~= seq!['\n']);
    lemma_join_split(ac, '\n');
    lemma_split_on_nonempty(ac, '\n');
    let p = split_on(ac, '\n');
    if s.len() > 0 {
        assert(p + trailing_lines(s) =~= p.push(Seq::<char>::empty()));
        lemma_join_push(p, Seq::<char>::empty(), seq!['\n']);
        assert(ac + seq!['\n'] + Seq::<char>::empty() =~= ac + seq!['\n']);
        assert forall|i: int| 0 <= i < seq!['\n'].len() implies is_ws(#[trigger] seq!['\n'][i]) by {}
        lemma_trim_trail_ws(ac, seq!['\n']);
    } else {
        assert(p + trailing_lines(s) =~= p);
        lemma_trim_keeps(ac);
    }
}

pub open spec fn read_back(it: TodoItemModel) -> BlockOutcome {
    BlockOutcome { item: Some(it), warnings: Seq::empty(), preserved: Seq::empty() }
}

/// A rendered TODO, alone or followed by the blank line that separates it
/// from the next one, reads back as the same TODO without warnings.
#[verifier::spinoff_prover]
#[verifier::rlimit(100)]
proof fn lemma_block_reads(it: TodoItemModel, s: Seq<char>)
    requires
        canonical_item(it),
        s == Seq::<char>::empty() || s == seq!['\n'],
    ensures
        todo_block(block_model(render_todo_item(it) + s)) == read_back(it),
{
    let h = item_heading(it);
    let nl = seq!['\n'];
    let f = item_field_lines(it);
    let ac = it.acceptance_criteria;
    let id = it.id;
    lemma_item_text(it);
    lemma_heading_line(it);
    let x = render_todo_item(it) + s;
    let body = lines_text(f) + ac + nl + s;
    assert(x =~= h + nl + body);
    assert forall|j: int| 0 <= j < h.len() implies x[j] != '\n' by {
        assert(x[j] == h[j]);
    }
    lemma_first_char(x, '\n', h.len() as int);
    let b = block_model(x);
    assert(b.heading =~= h);
    assert(b.body =~= body);
    lemma_body_lines(it, s);
    let ls = f + split_on(ac, '\n') + trailing_lines(s);
    assert(lines(b.body) == ls);
    lemma_scan_lines_more(ls, id);
    assert(ls =~= f + (split_on(ac, '\n') + trailing_lines(s)));
    lemma_scan_more_concat(scan_start(), f, split_on(ac, '\n') + trailing_lines(s), id);
    lemma_scan_fields(it);
    let st8 = scan_more(scan_start(), f, id);
    lemma_empty_line();
    let rest = split_on(ac, '\n') + trailing_lines(s);
    assert forall|k: int| 0 <= k < rest.len() implies acceptance_line(#[trigger] rest[k]) by {
        if k < split_on(ac, '\n').len() {
            assert(rest[k] == split_on(ac, '\n')[k]);
        } else {
            assert(rest[k] == Seq::<char>::empty());
        }
    }
    lemma_scan_acceptance(st8, rest, id);
    let st = scan_lines(lines(b.body), id);
    assert(st.fields == item_fields(it));
    assert(st.acceptance =~= rest);
    assert(st.warnings =~= Seq::<WarningModel>::empty());
    lemma_item_lookups(it);
    lemma_priority_name(it.priority);
    lemma_category_name(it.category);
    lemma_trim_keeps(it.area);
    lemma_trim_keeps(it.rationale);
    lemma_trim_keeps(it.title);
    lemma_dependencies_read(it.dependencies, id);
    lemma_acceptance_text(ac, s);
    let p = priority_field(lookup_field(st.fields, "priority"@), id);
    assert(p == (Some(it.priority), Seq::<WarningModel>::empty()));
    let c = category_field(lookup_field(st.fields, "category"@), id);
    assert(c == (Some(it.category), Seq::<WarningModel>::empty()));
    let a = required_field(lookup_field(st.fields, "area"@), "missing_area"@, "Missing Area field."@, id);
    assert(a == (Some(it.area), Seq::<WarningModel>::empty()));
    let r = required_field(lookup_field(st.fields, "rationale"@), "missing_rationale"@, "Missing Rationale field."@, id);
    assert(r == (Some(it.rationale), Seq::<WarningModel>::empty()));
    let d = dependencies_field(lookup_field(st.fields, "dependencies"@), id);
    assert(d == (it.dependencies, Seq::<WarningModel>::empty()));
    let o = todo_block(b);
    assert(o.warnings =~= Seq::<WarningModel>::empty());
    assert(o.item == Some(it));
    assert(o.preserved =~= Seq::<Seq<char>>::empty());
}

#[verifier::spinoff_prover]
#[verifier::rlimit(40)]
proof fn lemma_blocks_fold(bs: Seq<BlockModel>, items: Seq<TodoItemModel>)
    requires
        bs.len() == items.len(),
        forall|k: int| 0 <= k < bs.len() ==> todo_block(#[trigger] bs[k]) == read_back(items[k]),
    ensures
        todo_blocks(bs) == (DocAcc { items, warnings: Seq::empty(), preserved: Seq::empty() }),
    decreases bs.len(),
{
    if bs.len() == 0 {
        assert(items =~= Seq::<TodoItemModel>::empty());
    } else {
        let bl = bs.drop_last();
        let il = items.drop_last();
        assert forall|k: int| 0 <= k < bl.len() implies todo_block(#[trigger] bl[k]) == read_back(il[k]) by {
            assert(bl[k] == bs[k]);
            assert(todo_block(bs[k]) == read_back(items[k]));
        }
        lemma_blocks_fold(bl, il);
        assert(todo_block(bs[bs.len() - 1]) == read_back(items[items.len() - 1]));
        assert(il.push(items.last()) =~= items);
        assert(Seq::<WarningModel>::empty() + Seq::<WarningModel>::empty() =~= Seq::<WarningModel>::empty());
        assert(Seq::<Seq<char>>::empty() + Seq::<Seq<char>>::empty() =~= Seq::<Seq<char>>::empty());
    }
}

#[verifier::spinoff_prover]
proof fn lemma_text_lt_asym(a: Seq<char>, b: Seq<char>)
    requires
        text_lt(a, b),
    ensures
        !text_lt(b, a),
    decreases a.len(),
{
    if a.len() > 0 && b.len() > 0 && a[0] == b[0] {
        lemma_text_lt_asym(a.drop_first(), b.drop_first());
    }
}

#[verifier::spinoff_prover]
proof fn lemma_insert_at_end(sorted: Seq<TodoItemModel>, x: TodoItemModel, i: int)
    requires
        0 <= i <= sorted.len(),
        forall|j: int| i <= j < sorted.len() ==> !text_lt(x.id, #[trigger] sorted[j].id),
    ensures
        insert_pos_from(sorted, x, i) == sorted.len(),
    decreases sorted.len() - i,
{
    if i < sorted.len() {
        lemma_insert_at_end(sorted, x, i + 1);
    }
}

#[verifier::spinoff_prover]
proof fn lemma_sort_sorted(items: Seq<TodoItemModel>)
    requires
        forall|i: int, j: int| 0 <= i < j < items.len() ==> text_lt(items[i].id, items[j].id),
    ensures
        sort_by_id(items) == items,
    decreases items.len(),
{
    if items.len() > 0 {
        let dl = items.drop_last();
        assert forall|i: int, j: int| 0 <= i < j < dl.len() implies text_lt(dl[i].id, dl[j].id) by {
            assert(dl[i] == items[i] && dl[j] == items[j]);
        }
        lemma_sort_sorted(dl);
        let x = items.last();
        assert forall|j: int| 0 <= j < dl.len() implies !text_lt(x.id, #[trigger] dl[j].id) by {
            assert(dl[j] == items[j]);
            assert(text_lt(items[j].id, items[items.len() - 1].id));
            lemma_text_lt_asym(items[j].id, x.id);
        }
        lemma_insert_at_end(dl, x, 0);
        assert(dl.insert(dl.len() as int, x) =~= items);
    }
}

#[verifier::spinoff_prover]
proof fn lemma_no_cr_concat(a: Seq<char>, b: Seq<char>)
    requires
        no_cr(a),
        no_cr(b),
    ensures
        no_cr(a + b),
{
    assert forall|i: int| 0 <= i < (a + b).len() implies (a + b)[i] != '\r' by {
        if i < a.len() {
            assert((a + b)[i] == a[i]);
        } else {
            assert((a + b)[i] == b[i - a.len()]);
        }
    }
}

#[verifier::spinoff_prover]
proof fn lemma_lines_text_no_cr(ls: Seq<Seq<char>>)
    requires
        forall|k: int| 0 <= k < ls.len() ==> single_line(#[trigger] ls[k]),
    ensures
        no_cr(lines_text(ls)),
    decreases ls.len(),
{
    if ls.len() > 0 {
        let rest = ls.drop_first();
        assert forall|k: int| 0 <= k < rest.len() implies single_line(#[trigger] rest[k]) by {
            assert(rest[k] == ls[k + 1]);
        }
        lemma_lines_text_no_cr(rest);
        assert(single_line(ls[0]));
        lemma_no_cr_concat(ls[0], seq!['\n']);
        lemma_no_cr_concat(ls[0] + seq!['\n'], lines_text(rest));
    } else {
        assert(lines_text(ls) =~= Seq::<char>::empty());
    }
}

#[verifier::spinoff_prover]
proof fn lemma_item_no_cr(it: TodoItemModel)
    requires
        canonical_item(it),
    ensures
        no_cr(render_todo_item(it)),
{
    lemma_item_text(it);
    lemma_heading_line(it);
    lemma_field_lines_ok(it);
    lemma_lines_text_no_cr(item_field_lines(it));
    let h = item_heading(it);
    let nl = seq!['\n'];
    lemma_no_cr_concat(h, nl);
    lemma_no_cr_concat(h + nl, lines_text(item_field_lines(it)));
    lemma_no_cr_concat(h + nl + lines_text(item_field_lines(it)), it.acceptance_criteria);
    lemma_no_cr_concat(h + nl + lines_text(item_field_lines(it)) + it.acceptance_criteria, nl);
}

#[verifier::spinoff_prover]
proof fn lemma_join_no_cr(v: Seq<Seq<char>>, sep: Seq<char>)
    requires
        no_cr(sep),
        forall|k: int| 0 <= k < v.len() ==> no_cr(#[trigger] v[k]),
    ensures
        no_cr(join(v, sep)),
    decreases v.len(),
{
    if v.len() > 1 {
        let p = v.drop_last();
        assert forall|k: int| 0 <= k < p.len() implies no_cr(#[trigger] p[k]) by {
            assert(p[k] == v[k]);
        }
        lemma_join_no_cr(p, sep);
        assert(no_cr(v[v.len() - 1]));
        lemma_no_cr_concat(join(p, sep), sep);
        lemma_no_cr_concat(join(p, sep) + sep, v.last());
    } else if v.len() == 1 {
        assert(no_cr(v[0]));
    }
}

/// Writing TODOs and reading the text back gives the same TODOs, with no
/// warnings and nothing preserved, for TODOs that are canonical (in the form
/// rendering writes), sorted by ID and free of validation warnings.
#[verifier::spinoff_prover]
#[verifier::rlimit(80)]
#[verifier::spinoff_prover]
proof fn lemma_written_todos_parse(items: Seq<TodoItemModel>)
    requires
        forall|k: int| 0 <= k < items.len() ==> canonical_item(#[trigger] items[k]),
        forall|i: int, j: int| 0 <= i < j < items.len() ==> text_lt(items[i].id, items[j].id),
    ensures
        parse_todo(render_todo(items, None)) == (TodoDocModel {
            items,
            warnings: dedup(todo_warnings(items)),
            preserved_content: None,
        }),
{
    reveal_strlit("\n");
    reveal_strlit("\n\n");
    assert("\n"@ =~= seq!['\n']);
    lemma_sort_sorted(items);
    let r = items.map_values(|it: TodoItemModel| render_todo_item(it));
    let c = join(r, seq!['\n']);
    assert(render_todo(items, None) == c);
    assert forall|k: int| 0 <= k < r.len() implies no_cr(#[trigger] r[k]) by {
        lemma_item_no_cr(items[k]);
    }
    assert(no_cr(seq!['\n']));
    lemma_join_no_cr(r, seq!['\n']);
    lemma_normalize_plain(c);
    let acc = todo_blocks(heading_blocks(c));
    if items.len() == 0 {
        assert(c =~= Seq::<char>::empty());
        assert(heading_starts_from(c, 0) =~= Seq::<int>::empty());
        assert(heading_blocks(c) =~= Seq::<BlockModel>::empty());
        assert(acc.items =~= items);
    } else {
        assert forall|k: int| 0 <= k < r.len() implies one_block(#[trigger] r[k]) by {
            lemma_item_block(items[k]);
        }
        lemma_joined_blocks(r);
        let bs = heading_blocks(c);
        assert forall|k: int| 0 <= k < bs.len() implies todo_block(#[trigger] bs[k]) == read_back(items[k]) by {
            assert(bs[k] == block_model(unit(r, k)));
            if k + 1 < r.len() {
                lemma_block_reads(items[k], seq!['\n']);
            } else {
                lemma_block_reads(items[k], Seq::<char>::empty());
                assert(r[k] + Seq::<char>::empty() =~= r[k]);
            }
        }
        lemma_blocks_fold(bs, items);
    }
    assert(acc.warnings =~= Seq::<WarningModel>::empty());
    assert(acc.preserved =~= Seq::<Seq<char>>::empty());
    let ws = acc.warnings + todo_warnings(acc.items) + Seq::<WarningModel>::empty();
    assert(ws =~= todo_warnings(items));
    assert(keep_nonblank(acc.preserved) =~= Seq::<Seq<char>>::empty());
    assert(join(Seq::<Seq<char>>::empty(), "\n\n"@) =~= Seq::<char>::empty());
    lemma_empty_line();
    assert(nonempty_join(acc.preserved) is None);
    let d = parse_todo(render_todo(items, None));
    assert(d.items == items);
    assert(d.warnings == dedup(todo_warnings(items)));
}

pub proof fn written_todos_read_back(items: Seq<TodoItemModel>)
    requires
        forall|k: int| 0 <= k < items.len() ==> canonical_item(#[trigger] items[k]),
        forall|i: int, j: int| 0 <= i < j < items.len() ==> text_lt(items[i].id, items[j].id),
        todo_warnings(items) == Seq::<WarningModel>::empty(),
    ensures
        parse_todo(render_todo(items, None)) == (TodoDocModel {
            items,
            warnings: Seq::empty(),
            preserved_content: None,
        }),
{
    lemma_written_todos_parse(items);
    assert(dedup(Seq::<WarningModel>::empty()) =~= Seq::<WarningModel>::empty());
}

// ---------------------------------------------------------------------------
// Working history

/// One ASCII character per position.
pub open spec fn ascii_text(s: Seq<char>) -> bool {
    forall|i: int| 0 <= i < s.len() ==> (#[trigger] s[i] as u32) < 0x80
}

/// The date and time fields fit the fixed-width `YYYY-MM-DD HH:MM` text.
pub open spec fn clock_fields(t: Minute) -> bool {
    &&& 0 <= t.year <= 9999
    &&& t.month < 100
    &&& t.day < 100
    &&& t.hour < 100
    &&& t.minute < 100
}

#[verifier::spinoff_prover]
proof fn lemma_decimal_len(n: nat, bound: nat, width: nat)
    requires
        n < bound,
        (width == 2 && bound == 100) || (width == 4 && bound == 10000),
    ensures
        decimal(n).len() <= width,
        decimal(n).len() > 0,
        forall|i: int| 0 <= i < decimal(n).len() ==> is_digit(#[trigger] decimal(n)[i]),
    decreases n,
{
    if n >= 10 {
        if width == 2 {
            lemma_decimal_len(n / 10, 100, 2);
        } else {
            lemma_decimal_len(n / 10, 10000, 4);
        }
        let s = decimal(n / 10);
        if width == 2 {
            assert(n / 10 < 10);
        } else {
            assert(n / 10 < 1000);
            if n / 10 >= 10 {
                if n / 100 >= 10 {
                    assert(n / 1000 < 10);
                }
            }
        }
        assert(decimal(n) == s.push(digit_char(n % 10)));
        assert forall|i: int| 0 <= i < decimal(n).len() implies is_digit(#[trigger] decimal(n)[i]) by {
            if i < s.len() {
                assert(decimal(n)[i] == s[i]);
            }
        }
        if width == 2 {
            assert(decimal(n / 10).len() == 1);
        } else {
            assert(decimal(n / 10).len() <= 3) by {
                if n / 10 >= 10 {
                    lemma_decimal_short(n / 10);
                }
            }
        }
    }
}

#[verifier::spinoff_prover]
proof fn lemma_decimal_short(n: nat)
    requires
        10 <= n < 1000,
    ensures
        decimal(n).len() <= 3,
    decreases n,
{
    if n / 10 >= 10 {
        assert(n / 10 < 100);
        assert(decimal(n / 10 / 10).len() == 1);
        assert(decimal(n / 10).len() == 2);
    } else {
        assert(decimal(n / 10).len() == 1);
    }
}

#[verifier::spinoff_prover]
proof fn lemma_padded(n: nat, bound: nat, width: nat)
    requires
        n < bound,
        (width == 2 && bound == 100) || (width == 4 && bound == 10000),
    ensures
        zero_pad(decimal(n), width).len() == width,
        forall|i: int| 0 <= i < width ==> is_digit(#[trigger] zero_pad(decimal(n), width)[i]),
{
    lemma_decimal_len(n, bound, width);
    let d = decimal(n);
    let z = zero_pad(d, width);
    assert forall|i: int| 0 <= i < width implies is_digit(#[trigger] z[i]) by {
        if d.len() < width {
            let zeros = Seq::new((width - d.len()) as nat, |j: int| '0');
            if i >= zeros.len() {
                assert(z[i] == d[i - zeros.len()]);
            }
        }
    }
}

/// The clock text is sixteen ASCII characters that start with a digit.
#[verifier::spinoff_prover]
proof fn lemma_minute_text(t: Minute)
    requires
        clock_fields(t),
    ensures
        minute_text(t).len() == 16,
        ascii_text(minute_text(t)),
        single_line(minute_text(t)),
        is_digit(minute_text(t)[0]),
{
    lemma_padded(t.year as nat, 10000, 4);
    lemma_padded(t.month as nat, 100, 2);
    lemma_padded(t.day as nat, 100, 2);
    lemma_padded(t.hour as nat, 100, 2);
    lemma_padded(t.minute as nat, 100, 2);
    let y = year_text(t.year);
    assert(y == zero_pad(decimal(t.year as nat), 4));
    let m = minute_text(t);
    assert(m[0] == y[0]);
    assert forall|i: int| 0 <= i < m.len() implies (#[trigger] m[i] as u32) < 0x80 && m[i] != '\n' && m[i] != '\r' by {
        if i < 4 {
            assert(m[i] == y[i]);
            assert(is_digit(y[i]));
        } else if 5 <= i < 7 {
            assert(m[i] == two_digits(t.month)[i - 5]);
            assert(is_digit(two_digits(t.month)[i - 5]));
        } else if 8 <= i < 10 {
            assert(m[i] == two_digits(t.day)[i - 8]);
            assert(is_digit(two_digits(t.day)[i - 8]));
        } else if 11 <= i < 13 {
            assert(m[i] == two_digits(t.hour)[i - 11]);
            assert(is_digit(two_digits(t.hour)[i - 11]));
        } else if 14 <= i < 16 {
            assert(m[i] == two_digits(t.minute)[i - 14]);
            assert(is_digit(two_digits(t.minute)[i - 14]));
        }
    }
}

#[verifier::spinoff_prover]
proof fn lemma_utf8_ascii(a: Seq<char>)
    requires
        ascii_text(a),
    ensures
        utf8_len(a) == a.len(),
    decreases a.len(),
{
    if a.len() > 0 {
        assert(ascii_text(a.drop_last())) by {
            assert forall|i: int| 0 <= i < a.drop_last().len() implies (#[trigger] a.drop_last()[i] as u32) < 0x80 by {
                assert(a.drop_last()[i] == a[i]);
            }
        }
        lemma_utf8_ascii(a.drop_last());
        assert((a[a.len() - 1] as u32) < 0x80);
    }
}

#[verifier::spinoff_prover]
proof fn lemma_utf8_concat(a: Seq<char>, b: Seq<char>)
    ensures
        utf8_len(a + b) == utf8_len(a) + utf8_len(b),
    decreases b.len(),
{
    if b.len() == 0 {
        assert(a + b =~= a);
    } else {
        lemma_utf8_concat(a, b.drop_last());
        assert((a + b).drop_last() =~= a + b.drop_last());
    }
}

#[verifier::spinoff_prover]
proof fn lemma_byte_prefix_ascii(a: Seq<char>, b: Seq<char>)
    requires
        ascii_text(a),
    ensures
        byte_prefix(a + b, a.len() as int) == Some(a),
    decreases a.len(),
{
    if a.len() == 0 {
        assert(a =~= Seq::<char>::empty());
    } else {
        let rest = a.drop_first();
        assert(ascii_text(rest)) by {
            assert forall|i: int| 0 <= i < rest.len() implies (#[trigger] rest[i] as u32) < 0x80 by {
                assert(rest[i] == a[i + 1]);
            }
        }
        lemma_byte_prefix_ascii(rest, b);
        assert((a + b).drop_first() =~= rest + b);
        assert((a[0] as u32) < 0x80);
        assert(seq![a[0]] + rest =~= a);
    }
}

pub open spec fn entry_heading(e: WorkHistoryEntryModel) -> Seq<char> {
    "## "@ + minute_text(e.occurred_at) + " \u{2014} "@ + e.title
}

/// The heading of a written entry reads back as its minute and title, where
/// chrono reads the clock text back as the same minute.
#[verifier::spinoff_prover]
proof fn lemma_entry_heading(e: WorkHistoryEntryModel)
    requires
        clock_fields(e.occurred_at),
        chrono_minute(minute_text(e.occurred_at)) == Some(e.occurred_at),
        e.title.len() > 0,
        !is_ws(e.title[0]),
        !is_ws(e.title.last()),
        single_line(e.title),
    ensures
        single_line(entry_heading(e)),
        occurs_at(entry_heading(e) + seq!['\n'], h2(), 0),
        history_heading(entry_heading(e)) == Some((e.occurred_at, e.title, true)),
{
    reveal_strlit("## ");
    reveal_strlit(" \u{2014} ");
    let t = e.occurred_at;
    let mt = minute_text(t);
    lemma_minute_text(t);
    let h = entry_heading(e);
    let dash = " \u{2014} "@;
    assert(single_line(dash));
    assert(single_line("## "@));
    lemma_single_line_concat("## "@, mt);
    lemma_single_line_concat("## "@ + mt, dash);
    lemma_single_line_concat("## "@ + mt + dash, e.title);
    assert((h + seq!['\n']).subrange(0, 3) =~= h2());
    lemma_trim_keeps(h);
    assert(starts_with(h, h2())) by {
        assert(h.subrange(0, 3) =~= h2());
    }
    let x = h.subrange(3, h.len() as int);
    assert(heading_rest(h) == Some(x));
    let tail = dash + e.title;
    assert(x =~= mt + tail);
    lemma_utf8_concat(mt, tail);
    lemma_utf8_ascii(mt);
    lemma_byte_prefix_ascii(mt, tail);
    lemma_utf8_concat(mt.subrange(0, 10), mt.subrange(10, 16) + tail);
    let ten = mt.subrange(0, 10);
    assert(ascii_text(ten)) by {
        assert forall|i: int| 0 <= i < ten.len() implies (#[trigger] ten[i] as u32) < 0x80 by {
            assert(ten[i] == mt[i]);
        }
    }
    assert(x =~= ten + (mt.subrange(10, 16) + tail));
    lemma_byte_prefix_ascii(ten, mt.subrange(10, 16) + tail);
    assert(x.subrange(16, x.len() as int) =~= tail);
    let sp = seq![' '];
    assert forall|i: int| 0 <= i < sp.len() implies is_ws(#[trigger] sp[i]) by {}
    let after = seq!['\u{2014}'] + (sp + e.title);
    assert(tail =~= sp + after);
    assert(!is_ws(after[0]));
    assert(after.last() == e.title.last());
    lemma_ltrim_len(after);
    lemma_trim_lead_ws(sp, after);
    assert(ltrim(tail) == after);
    assert(starts_with(after, seq!['\u{2014}'])) by {
        assert(after.subrange(0, 1) =~= seq!['\u{2014}']);
    }
    assert(after.drop_first() =~= sp + e.title);
    lemma_trim_lead_ws(sp, e.title);
}

pub open spec fn entry_field_lines(e: WorkHistoryEntryModel) -> Seq<Seq<char>> {
    seq![
        Seq::<char>::empty(),
        "- Category: "@ + category_name(e.category),
        "- Area: "@ + e.area,
        Seq::<char>::empty(),
        "### Summary"@,
        Seq::<char>::empty()
    ]
}

pub open spec fn limitation_head_lines() -> Seq<Seq<char>> {
    seq![Seq::<char>::empty(), "### Limitations"@, Seq::<char>::empty()]
}

/// Lines of a history section that neither open a section nor start a heading.
pub open spec fn section_text(s: Seq<char>) -> bool {
    &&& s.len() > 0
    &&& !is_ws(s[0])
    &&& !is_ws(s.last())
    &&& no_cr(s)
    &&& heading_free(s)
    &&& forall|k: int| 0 <= k < split_on(s, '\n').len() ==> section_line(#[trigger] split_on(s, '\n')[k])
}

pub open spec fn section_line(l: Seq<char>) -> bool {
    !eq_ignore_case(trim(l), "### Summary"@) && !eq_ignore_case(trim(l), "### Limitations"@)
}

/// A working-history entry whose written text reads back as the same entry.
pub open spec fn canonical_entry(e: WorkHistoryEntryModel) -> bool {
    &&& clock_fields(e.occurred_at)
    &&& e.title.len() > 0
    &&& !is_ws(e.title[0])
    &&& !is_ws(e.title.last())
    &&& single_line(e.title)
    &&& plain_value(e.area)
    &&& section_text(e.summary)
    &&& section_text(e.limitations)
}

#[verifier::spinoff_prover]
proof fn lemma_four_lines_text(f: Seq<Seq<char>>, k: int)
    requires
        0 <= k <= f.len(),
    ensures
        k == f.len() ==> lines_text(f.subrange(k, f.len() as int)) == Seq::<char>::empty(),
{
    if k == f.len() {
        assert(f.subrange(k, f.len() as int) =~= Seq::<Seq<char>>::empty());
    }
}

/// The text between an entry's heading and its summary, and between its
/// summary and its limitations.
#[verifier::spinoff_prover]
proof fn lemma_entry_tails(e: WorkHistoryEntryModel)
    ensures
        "\n\n- Category: "@ + category_name(e.category) + "\n- Area: "@ + e.area + "\n\n### Summary\n\n"@
            == seq!['\n'] + lines_text(entry_field_lines(e)),
        "\n\n### Limitations\n\n"@ == seq!['\n'] + lines_text(limitation_head_lines()),
{
    let f = entry_field_lines(e);
    let g = limitation_head_lines();
    let nl = seq!['\n'];
    assert(f.subrange(0, 6) =~= f);
    assert(g.subrange(0, 3) =~= g);
    lemma_lines_text_unfold(f, 0);
    lemma_lines_text_unfold(f, 1);
    lemma_lines_text_unfold(f, 2);
    lemma_lines_text_unfold(f, 3);
    lemma_lines_text_unfold(f, 4);
    lemma_lines_text_unfold(f, 5);
    lemma_four_lines_text(f, 6);
    lemma_lines_text_unfold(g, 0);
    lemma_lines_text_unfold(g, 1);
    lemma_lines_text_unfold(g, 2);
    lemma_four_lines_text(g, 3);
    assert(lines_text(f) =~= nl + (f[1] + nl) + (f[2] + nl) + nl + (f[4] + nl) + nl);
    assert(lines_text(g) =~= nl + (g[1] + nl) + nl);
    reveal_strlit("\n\n- Category: ");
    reveal_strlit("\n- Area: ");
    reveal_strlit("\n\n### Summary\n\n");
    reveal_strlit("\n\n### Limitations\n\n");
    reveal_strlit("- Category: ");
    reveal_strlit("- Area: ");
    reveal_strlit("### Summary");
    reveal_strlit("### Limitations");
    assert("\n\n- Category: "@ =~= nl + nl + "- Category: "@);
    assert("\n- Area: "@ =~= nl + "- Area: "@);
    assert("\n\n### Summary\n\n"@ =~= nl + nl + "### Summary"@ + nl + nl);
    assert("\n\n### Limitations\n\n"@ =~= nl + nl + "### Limitations"@ + nl + nl);
    assert("\n\n- Category: "@ + category_name(e.category) + "\n- Area: "@ + e.area + "\n\n### Summary\n\n"@
        =~= nl + lines_text(f));
}

#[verifier::spinoff_prover]
#[verifier::rlimit(100)]
proof fn lemma_entry_text(e: WorkHistoryEntryModel)
    requires
        canonical_entry(e),
    ensures
        render_history_entry(e) == entry_heading(e) + seq!['\n'] + lines_text(entry_field_lines(e))
            + e.summary + seq!['\n'] + lines_text(limitation_head_lines()) + e.limitations + seq!['\n'],
{
    lemma_trim_keeps(e.title);
    lemma_trim_keeps(e.area);
    lemma_trim_keeps(e.summary);
    lemma_trim_keeps(e.limitations);
    lemma_entry_tails(e);
    let nl = seq!['\n'];
    let t1 = "\n\n- Category: "@ + category_name(e.category) + "\n- Area: "@ + e.area + "\n\n### Summary\n\n"@;
    let t2 = "\n\n### Limitations\n\n"@;
    assert(render_history_entry(e) =~= entry_heading(e) + t1 + e.summary + t2 + e.limitations + "\n"@);
    reveal_strlit("\n");
    assert("\n"@ =~= nl);
    assert(entry_heading(e) + t1 + e.summary + t2 + e.limitations + nl
        =~= entry_heading(e) + nl + lines_text(entry_field_lines(e)) + e.summary + nl
            + lines_text(limitation_head_lines()) + e.limitations + nl);
}

#[verifier::spinoff_prover]
proof fn lemma_entry_lines_ok(e: WorkHistoryEntryModel)
    requires
        canonical_entry(e),
    ensures
        forall|k: int| 0 <= k < entry_field_lines(e).len() ==> single_line(#[trigger] entry_field_lines(e)[k]),
        forall|k: int| 0 <= k < entry_field_lines(e).len() ==> !starts_with(#[trigger] entry_field_lines(e)[k], h2()),
        forall|k: int| 0 <= k < limitation_head_lines().len() ==> single_line(#[trigger] limitation_head_lines()[k]),
        forall|k: int| 0 <= k < limitation_head_lines().len() ==> !starts_with(#[trigger] limitation_head_lines()[k], h2()),
{
    let f = entry_field_lines(e);
    let g = limitation_head_lines();
    reveal_strlit("- Category: ");
    reveal_strlit("- Area: ");
    reveal_strlit("### Summary");
    reveal_strlit("### Limitations");
    lemma_category_name(e.category);
    lemma_single_line_concat("- Category: "@, category_name(e.category));
    lemma_single_line_concat("- Area: "@, e.area);
    assert(single_line("### Summary"@));
    assert(single_line("### Limitations"@));
    assert forall|k: int| 0 <= k < f.len() implies !starts_with(#[trigger] f[k], h2()) by {
        if starts_with(f[k], h2()) {
            assert(f[k].subrange(0, 3)[0] == f[k][0]);
            assert(f[k].subrange(0, 3)[2] == f[k][2]);
            if k == 1 || k == 2 {
                assert(f[k][0] == '-');
            }
        }
    }
    assert forall|k: int| 0 <= k < g.len() implies !starts_with(#[trigger] g[k], h2()) by {
        if starts_with(g[k], h2()) {
            assert(g[k].subrange(0, 3)[2] == g[k][2]);
        }
    }
}

/// A written entry is one heading block.
#[verifier::spinoff_prover]
proof fn lemma_entry_block(e: WorkHistoryEntryModel)
    requires
        canonical_entry(e),
        chrono_minute(minute_text(e.occurred_at)) == Some(e.occurred_at),
    ensures
        one_block(render_history_entry(e)),
{
    lemma_entry_text(e);
    lemma_entry_heading(e);
    lemma_entry_lines_ok(e);
    let h = entry_heading(e);
    let nl = seq!['\n'];
    let f = entry_field_lines(e);
    let g = limitation_head_lines();
    let a = h + nl;
    assert forall|p: int| 1 <= p < a.len() implies !heading_at(a, p) by {
        assert(a[p - 1] == h[p - 1]);
    }
    lemma_starts_none(a, 1);
    assert(heading_at(a, 0));
    assert(heading_starts_from(a, 0) =~= seq![0int]);
    let su = e.summary + nl;
    let li = e.limitations + nl;
    lemma_acceptance_starts(e.summary);
    lemma_acceptance_starts(e.limitations);
    lemma_lines_text_starts(g, li);
    let rest = lines_text(g) + li;
    assert(shifted(Seq::<int>::empty(), lines_text(g).len() as int) =~= Seq::<int>::empty());
    lemma_starts_concat(su, rest);
    assert(Seq::<int>::empty() + shifted(Seq::<int>::empty(), su.len() as int) =~= Seq::<int>::empty());
    lemma_lines_text_starts(f, su + rest);
    assert(shifted(Seq::<int>::empty(), lines_text(f).len() as int) =~= Seq::<int>::empty());
    let x = render_history_entry(e);
    assert(x =~= a + (lines_text(f) + (su + rest)));
    lemma_starts_concat(a, lines_text(f) + (su + rest));
    assert(seq![0int] + shifted(Seq::<int>::empty(), a.len() as int) =~= seq![0int]);
}

/// The lines of a written entry's body.
#[verifier::spinoff_prover]
proof fn lemma_entry_body_lines(e: WorkHistoryEntryModel, s: Seq<char>)
    requires
        canonical_entry(e),
        s == Seq::<char>::empty() || s == seq!['\n'],
    ensures
        lines(lines_text(entry_field_lines(e)) + e.summary + seq!['\n'] + lines_text(limitation_head_lines())
            + e.limitations + seq!['\n'] + s)
            == entry_field_lines(e) + split_on(e.summary, '\n') + limitation_head_lines()
                + split_on(e.limitations, '\n') + trailing_lines(s),
{
    let f = entry_field_lines(e);
    let g = limitation_head_lines();
    let nl = seq!['\n'];
    let su = e.summary;
    let li = e.limitations;
    lemma_entry_lines_ok(e);
    let body = lines_text(f) + su + nl + lines_text(g) + li + nl + s;
    let x = lines_text(g) + (li + nl + s);
    assert(body =~= lines_text(f) + (su + nl + x));
    lemma_lines_text_split(f, su + nl + x);
    lemma_split_concat(su, x, '\n');
    lemma_lines_text_split(g, li + nl + s);
    lemma_split_concat(li, s, '\n');
    let em = Seq::<char>::empty();
    assert(split_on(em, '\n') == seq![em]);
    if s.len() > 0 {
        assert(s.drop_last() =~= em);
        assert(split_on(s, '\n') =~= seq![em, em]);
    } else {
        assert(s =~= em);
    }
    let pieces = split_on(body, '\n');
    assert(pieces =~= f + split_on(su, '\n') + g + split_on(li, '\n') + split_on(s, '\n'));
    assert(body.len() > 0 && body.last() == '\n');
    let kept = pieces.drop_last();
    let want = f + split_on(su, '\n') + g + split_on(li, '\n') + trailing_lines(s);
    assert(kept =~= want);
    lemma_split_no_cr(su, '\n');
    lemma_split_no_cr(li, '\n');
    let n1 = f.len();
    let n2 = n1 + split_on(su, '\n').len();
    let n3 = n2 + g.len();
    let n4 = n3 + split_on(li, '\n').len();
    assert forall|k: int| 0 <= k < kept.len() implies strip_cr(#[trigger] kept[k]) == kept[k] by {
        if k < n1 {
            assert(kept[k] == f[k]);
            assert(single_line(f[k]));
        } else if k < n2 {
            assert(kept[k] == split_on(su, '\n')[k - n1]);
            assert(no_cr(split_on(su, '\n')[k - n1]));
        } else if k < n3 {
            assert(kept[k] == g[k - n2]);
            assert(single_line(g[k - n2]));
        } else if k < n4 {
            assert(kept[k] == split_on(li, '\n')[k - n3]);
            assert(no_cr(split_on(li, '\n')[k - n3]));
        } else {
            assert(kept[k] == em);
        }
        if kept[k].len() > 0 {
            assert(kept[k][kept[k].len() - 1] != '\r');
        }
    }
    assert(kept.map_values(|p: Seq<char>| strip_cr(p)) =~= kept);
}

/// Scanning more body lines of an entry from a given state.
pub open spec fn hist_more(st: HistScan, ls: Seq<Seq<char>>) -> HistScan
    decreases ls.len(),
{
    if ls.len() == 0 {
        st
    } else {
        hist_step(hist_more(st, ls.drop_last()), ls.last())
    }
}

pub open spec fn hist_start() -> HistScan {
    HistScan {
        fields: Seq::empty(),
        section: 0,
        summary: Seq::empty(),
        limitations: Seq::empty(),
        preserved: Seq::empty(),
    }
}

#[verifier::spinoff_prover]
proof fn lemma_hist_scan_more(ls: Seq<Seq<char>>)
    ensures
        hist_scan(ls) == hist_more(hist_start(), ls),
    decreases ls.len(),
{
    if ls.len() > 0 {
        lemma_hist_scan_more(ls.drop_last());
    }
}

#[verifier::spinoff_prover]
proof fn lemma_hist_more_concat(st: HistScan, a: Seq<Seq<char>>, b: Seq<Seq<char>>)
    ensures
        hist_more(st, a + b) == hist_more(hist_more(st, a), b),
    decreases b.len(),
{
    if b.len() == 0 {
        assert(a + b =~= a);
    } else {
        lemma_hist_more_concat(st, a, b.drop_last());
        assert((a + b).drop_last() =~= a + b.drop_last());
        assert((a + b).last() == b.last());
    }
}

#[verifier::spinoff_prover]
proof fn lemma_hist_prefix(st: HistScan, ls: Seq<Seq<char>>, k: int)
    requires
        0 <= k < ls.len(),
    ensures
        hist_more(st, ls.subrange(0, k + 1)) == hist_step(hist_more(st, ls.subrange(0, k)), ls[k]),
{
    assert(ls.subrange(0, k + 1).drop_last() =~= ls.subrange(0, k));
}

/// Inside a section every line is kept as it is.
#[verifier::spinoff_prover]
proof fn lemma_hist_section(st: HistScan, ls: Seq<Seq<char>>)
    requires
        st.section == 1 || st.section == 2,
        forall|k: int| 0 <= k < ls.len() ==> section_line(#[trigger] ls[k]),
    ensures
        hist_more(st, ls) == (if st.section == 1 {
            HistScan { summary: st.summary + ls, ..st }
        } else {
            HistScan { limitations: st.limitations + ls, ..st }
        }),
    decreases ls.len(),
{
    if ls.len() == 0 {
        assert(st.summary + ls =~= st.summary);
        assert(st.limitations + ls =~= st.limitations);
    } else {
        let p = ls.drop_last();
        assert forall|k: int| 0 <= k < p.len() implies section_line(#[trigger] p[k]) by {
            assert(p[k] == ls[k]);
        }
        lemma_hist_section(st, p);
        assert(section_line(ls[ls.len() - 1]));
        assert((st.summary + p).push(ls.last()) =~= st.summary + ls);
        assert((st.limitations + p).push(ls.last()) =~= st.limitations + ls);
    }
}

#[verifier::spinoff_prover]
proof fn lemma_blank_section_line()
    ensures
        section_line(Seq::<char>::empty()),
{
    reveal_strlit("### Summary");
    reveal_strlit("### Limitations");
    assert(trim(Seq::<char>::empty()) =~= Seq::<char>::empty());
    assert(ascii_lower("### Summary"@).len() == 11);
    assert(ascii_lower("### Limitations"@).len() == 15);
    assert(ascii_lower(Seq::<char>::empty()).len() == 0);
}

/// Scanning the lines before the summary text.
#[verifier::spinoff_prover]
#[verifier::rlimit(100)]
proof fn lemma_hist_fields(e: WorkHistoryEntryModel)
    requires
        canonical_entry(e),
    ensures
        hist_more(hist_start(), entry_field_lines(e)) == (HistScan {
            fields: seq![("category"@, category_name(e.category)), ("area"@, e.area)],
            section: 1,
            summary: seq![Seq::<char>::empty()],
            limitations: Seq::empty(),
            preserved: Seq::empty(),
        }),
{
    let f = entry_field_lines(e);
    let st0 = hist_start();
    let em = Seq::<char>::empty();
    reveal_strlit("- ");
    reveal_strlit(": ");
    reveal_strlit("- Category: ");
    reveal_strlit("- Area: ");
    reveal_strlit("Category");
    reveal_strlit("Area");
    reveal_strlit("category");
    reveal_strlit("area");
    reveal_strlit("### Summary");
    reveal_strlit("### Limitations");
    lemma_category_name(e.category);
    lemma_empty_line();
    lemma_blank_section_line();
    lemma_label("Category"@);
    lemma_label("Area"@);
    assert("- Category: "@ =~= "- "@ + "Category"@ + ": "@);
    assert("- Area: "@ =~= "- "@ + "Area"@ + ": "@);
    lemma_field_line("Category"@, category_name(e.category));
    lemma_field_line("Area"@, e.area);
    assert(ascii_lower("Category"@) =~= "category"@);
    assert(ascii_lower("Area"@) =~= "area"@);
    assert(f[1] =~= "- "@ + "Category"@ + ": "@ + category_name(e.category));
    assert(f[2] =~= "- "@ + "Area"@ + ": "@ + e.area);
    lemma_trim_keeps(f[1]);
    lemma_trim_keeps(f[2]);
    assert(!eq_ignore_case(f[1], "### Summary"@) && !eq_ignore_case(f[1], "### Limitations"@)) by {
        assert(ascii_lower(f[1])[0] == '-');
        assert(ascii_lower("### Summary"@)[0] == '#');
        assert(ascii_lower("### Limitations"@)[0] == '#');
    }
    assert(!eq_ignore_case(f[2], "### Summary"@) && !eq_ignore_case(f[2], "### Limitations"@)) by {
        assert(ascii_lower(f[2])[0] == '-');
        assert(ascii_lower("### Summary"@)[0] == '#');
        assert(ascii_lower("### Limitations"@)[0] == '#');
    }
    let su = "### Summary"@;
    lemma_trim_keeps(su);
    assert(eq_ignore_case(trim(f[4]), su));
    assert(f.subrange(0, 0) =~= Seq::<Seq<char>>::empty());
    lemma_hist_prefix(st0, f, 0);
    let st1 = hist_more(st0, f.subrange(0, 1));
    assert(st1 == st0);
    lemma_hist_prefix(st0, f, 1);
    let st2 = hist_more(st0, f.subrange(0, 2));
    assert(st2.fields =~= seq![("category"@, category_name(e.category))]);
    lemma_hist_prefix(st0, f, 2);
    let st3 = hist_more(st0, f.subrange(0, 3));
    assert(st3.fields =~= seq![("category"@, category_name(e.category)), ("area"@, e.area)]);
    lemma_hist_prefix(st0, f, 3);
    let st4 = hist_more(st0, f.subrange(0, 4));
    assert(st4 == st3);
    lemma_hist_prefix(st0, f, 4);
    let st5 = hist_more(st0, f.subrange(0, 5));
    assert(st5.section == 1);
    lemma_hist_prefix(st0, f, 5);
    assert(f.subrange(0, 6) =~= f);
    let st6 = hist_more(st0, f);
    assert(st6.summary =~= seq![em]);
    assert(st6.limitations =~= Seq::<Seq<char>>::empty());
    assert(st6.preserved =~= Seq::<Seq<char>>::empty());
}

/// Scanning the lines between the summary and the limitations text.
#[verifier::spinoff_prover]
proof fn lemma_hist_limitation_head(st: HistScan)
    requires
        st.section == 1,
    ensures
        hist_more(st, limitation_head_lines()) == (HistScan {
            section: 2,
            summary: st.summary.push(Seq::<char>::empty()),
            limitations: st.limitations.push(Seq::<char>::empty()),
            ..st
        }),
{
    let g = limitation_head_lines();
    reveal_strlit("### Summary");
    reveal_strlit("### Limitations");
    lemma_empty_line();
    lemma_blank_section_line();
    let li = "### Limitations"@;
    lemma_trim_keeps(li);
    assert(!eq_ignore_case(li, "### Summary"@)) by {
        assert(ascii_lower(li).len() == 15);
        assert(ascii_lower("### Summary"@).len() == 11);
    }
    assert(eq_ignore_case(trim(g[1]), li));
    assert(g.subrange(0, 0) =~= Seq::<Seq<char>>::empty());
    lemma_hist_prefix(st, g, 0);
    lemma_hist_prefix(st, g, 1);
    lemma_hist_prefix(st, g, 2);
    assert(g.subrange(0, 3) =~= g);
}

#[verifier::spinoff_prover]
proof fn lemma_join_front(x: Seq<char>, v: Seq<Seq<char>>, sep: Seq<char>)
    requires
        v.len() > 0,
    ensures
        join(seq![x] + v, sep) == x + sep + join(v, sep),
    decreases v.len(),
{
    let w = seq![x] + v;
    if v.len() == 1 {
        assert(w.drop_last() =~= seq![x]);
        assert(w.last() == v[0]);
        assert(join(w.drop_last(), sep) == x);
        assert(join(v, sep) == v[0]);
    } else {
        lemma_join_front(x, v.drop_last(), sep);
        assert(w.drop_last() =~= seq![x] + v.drop_last());
        assert(w.last() == v.last());
        assert(join(w, sep) == join(seq![x] + v.drop_last(), sep) + sep + v.last());
        assert(join(v, sep) == join(v.drop_last(), sep) + sep + v.last());
        assert(join(w, sep) =~= x + sep + join(v, sep));
    }
}

#[verifier::spinoff_prover]
proof fn lemma_ltrim_ws(w: Seq<char>, t: Seq<char>)
    requires
        forall|i: int| 0 <= i < w.len() ==> is_ws(#[trigger] w[i]),
    ensures
        ltrim(w + t) == ltrim(t),
    decreases w.len(),
{
    if w.len() == 0 {
        assert(w + t =~= t);
    } else {
        assert((w + t).drop_first() =~= w.drop_first() + t);
        lemma_ltrim_ws(w.drop_first(), t);
    }
}

/// A section's text read back from its lines with blank lines around them.
#[verifier::spinoff_prover]
proof fn lemma_section_text(s: Seq<char>, trailing: Seq<Seq<char>>)
    requires
        s.len() > 0,
        !is_ws(s[0]),
        !is_ws(s.last()),
        trailing == Seq::<Seq<char>>::empty() || trailing == seq![Seq::<char>::empty()],
    ensures
        trim(join(seq![Seq::<char>::empty()] + split_on(s, '\n') + trailing, "\n"@)) == s,
{
    reveal_strlit("\n");
    let nl = seq!['\n'];
    assert("\n"@ =~= nl);
    let em = Seq::<char>::empty();
    let p = split_on(s, '\n');
    lemma_split_on_nonempty(s, '\n');
    lemma_join_split(s, '\n');
    assert forall|i: int| 0 <= i < nl.len() implies is_ws(#[trigger] nl[i]) by {}
    assert(seq![em] + p + trailing =~= seq![em] + (p + trailing));
    lemma_join_front(em, p + trailing, nl);
    let inner = join(p + trailing, nl);
    if trailing.len() > 0 {
        assert(p + trailing =~= p.push(em));
        lemma_join_push(p, em, nl);
        assert(inner =~= s + nl);
    } else {
        assert(p + trailing =~= p);
    }
    let whole = em + nl + inner;
    assert(whole =~= nl + inner);
    lemma_ltrim_ws(nl, inner);
    lemma_ltrim_len(inner);
    if trailing.len() > 0 {
        lemma_trim_trail_ws(s, nl);
        lemma_ltrim_len(s + nl);
    } else {
        lemma_trim_keeps(s);
    }
}

pub open spec fn entry_read_back(e: WorkHistoryEntryModel) -> HistOutcome {
    HistOutcome { entry: Some(e), warnings: Seq::empty(), preserved: Seq::empty() }
}

/// A written entry, alone or followed by the blank line before the next one,
/// reads back as the same entry without warnings.
#[verifier::spinoff_prover]
#[verifier::rlimit(100)]
proof fn lemma_entry_reads(e: WorkHistoryEntryModel, s: Seq<char>)
    requires
        canonical_entry(e),
        chrono_minute(minute_text(e.occurred_at)) == Some(e.occurred_at),
        s == Seq::<char>::empty() || s == seq!['\n'],
    ensures
        history_block(block_model(render_history_entry(e) + s)) == entry_read_back(e),
{
    let h = entry_heading(e);
    let nl = seq!['\n'];
    let f = entry_field_lines(e);
    let g = limitation_head_lines();
    let em = Seq::<char>::empty();
    lemma_entry_text(e);
    lemma_entry_heading(e);
    let x = render_history_entry(e) + s;
    let body = lines_text(f) + e.summary + nl + lines_text(g) + e.limitations + nl + s;
    assert(x =~= h + nl + body);
    assert forall|j: int| 0 <= j < h.len() implies x[j] != '\n' by {
        assert(x[j] == h[j]);
    }
    lemma_first_char(x, '\n', h.len() as int);
    let b = block_model(x);
    assert(b.heading =~= h);
    assert(b.body =~= body);
    lemma_entry_body_lines(e, s);
    let ss = split_on(e.summary, '\n');
    let ls = split_on(e.limitations, '\n');
    let all = f + ss + g + ls + trailing_lines(s);
    assert(lines(b.body) == all);
    lemma_hist_scan_more(all);
    assert(all =~= f + (ss + (g + (ls + trailing_lines(s)))));
    lemma_hist_more_concat(hist_start(), f, ss + (g + (ls + trailing_lines(s))));
    lemma_hist_fields(e);
    let st6 = hist_more(hist_start(), f);
    lemma_hist_more_concat(st6, ss, g + (ls + trailing_lines(s)));
    lemma_hist_section(st6, ss);
    let st7 = hist_more(st6, ss);
    lemma_hist_more_concat(st7, g, ls + trailing_lines(s));
    lemma_hist_limitation_head(st7);
    let st8 = hist_more(st7, g);
    lemma_blank_section_line();
    let tail = ls + trailing_lines(s);
    assert forall|k: int| 0 <= k < tail.len() implies section_line(#[trigger] tail[k]) by {
        if k < ls.len() {
            assert(tail[k] == ls[k]);
        } else {
            assert(tail[k] == em);
        }
    }
    lemma_hist_section(st8, tail);
    let st = hist_scan(lines(b.body));
    assert(st.fields == seq![("category"@, category_name(e.category)), ("area"@, e.area)]);
    assert(st.summary =~= seq![em] + ss + seq![em]);
    assert(st.limitations =~= seq![em] + ls + trailing_lines(s));
    assert(st.preserved =~= Seq::<Seq<char>>::empty());
    lemma_section_text(e.summary, seq![em]);
    lemma_section_text(e.limitations, trailing_lines(s));
    reveal_strlit("category");
    reveal_strlit("area");
    assert("area"@ != "category"@) by {
        assert("area"@.len() == 4 && "category"@.len() == 8);
    }
    reveal_with_fuel(lookup_field, 3);
    assert(lookup_field(st.fields, "category"@) == Some(category_name(e.category))) by {
        assert(st.fields.drop_last() =~= seq![("category"@, category_name(e.category))]);
    }
    assert(lookup_field(st.fields, "area"@) == Some(e.area));
    lemma_category_name(e.category);
    lemma_trim_keeps(e.area);
    lemma_trim_keeps(e.title);
    let o = history_block(b);
    assert(o.warnings =~= Seq::<WarningModel>::empty());
    assert(o.entry == Some(e));
    assert(o.preserved =~= Seq::<Seq<char>>::empty());
}

#[verifier::spinoff_prover]
#[verifier::rlimit(40)]
proof fn lemma_entries_fold(bs: Seq<BlockModel>, entries: Seq<WorkHistoryEntryModel>)
    requires
        bs.len() == entries.len(),
        forall|k: int| 0 <= k < bs.len() ==> history_block(#[trigger] bs[k]) == entry_read_back(entries[k]),
    ensures
        history_blocks(bs) == (HistAcc { entries, warnings: Seq::empty(), preserved: Seq::empty() }),
    decreases bs.len(),
{
    if bs.len() == 0 {
        assert(entries =~= Seq::<WorkHistoryEntryModel>::empty());
    } else {
        let bl = bs.drop_last();
        let el = entries.drop_last();
        assert forall|k: int| 0 <= k < bl.len() implies history_block(#[trigger] bl[k]) == entry_read_back(el[k]) by {
            assert(bl[k] == bs[k]);
            assert(history_block(bs[k]) == entry_read_back(entries[k]));
        }
        lemma_entries_fold(bl, el);
        assert(history_block(bs[bs.len() - 1]) == entry_read_back(entries[entries.len() - 1]));
        assert(el.push(entries.last()) =~= entries);
        assert(Seq::<WarningModel>::empty() + Seq::<WarningModel>::empty() =~= Seq::<WarningModel>::empty());
        assert(Seq::<Seq<char>>::empty() + Seq::<Seq<char>>::empty() =~= Seq::<Seq<char>>::empty());
    }
}

#[verifier::spinoff_prover]
proof fn lemma_entry_no_cr(e: WorkHistoryEntryModel)
    requires
        canonical_entry(e),
        chrono_minute(minute_text(e.occurred_at)) == Some(e.occurred_at),
    ensures
        no_cr(render_history_entry(e)),
{
    lemma_entry_text(e);
    lemma_entry_heading(e);
    lemma_entry_lines_ok(e);
    lemma_lines_text_no_cr(entry_field_lines(e));
    lemma_lines_text_no_cr(limitation_head_lines());
    let h = entry_heading(e);
    let nl = seq!['\n'];
    let a = h + nl;
    lemma_no_cr_concat(h, nl);
    lemma_no_cr_concat(a, lines_text(entry_field_lines(e)));
    let b = a + lines_text(entry_field_lines(e));
    lemma_no_cr_concat(b, e.summary);
    lemma_no_cr_concat(b + e.summary, nl);
    lemma_no_cr_concat(b + e.summary + nl, lines_text(limitation_head_lines()));
    let c = b + e.summary + nl + lines_text(limitation_head_lines());
    lemma_no_cr_concat(c, e.limitations);
    lemma_no_cr_concat(c + e.limitations, nl);
}

/// Writing working-history entries and reading the text back gives the same
/// entries, in order, with their categories and areas, no warnings and
/// nothing preserved, for entries that are canonical (in the form writing
/// produces) and whose written clock text chrono reads back as the same minute.
#[verifier::spinoff_prover]
#[verifier::rlimit(80)]
pub proof fn written_history_reads_back(entries: Seq<WorkHistoryEntryModel>)
    requires
        forall|k: int| 0 <= k < entries.len() ==> canonical_entry(#[trigger] entries[k]),
        forall|k: int| 0 <= k < entries.len()
            ==> chrono_minute(minute_text(#[trigger] entries[k].occurred_at)) == Some(entries[k].occurred_at),
    ensures
        parse_history(render_history(entries, None)) == (HistoryDocModel {
            entries,
            categories: categories_of(entries),
            areas: areas_of(entries),
            warnings: Seq::empty(),
            preserved_content: None,
        }),
{
    reveal_strlit("\n");
    reveal_strlit("\n\n");
    assert("\n"@ =~= seq!['\n']);
    let r = entries.map_values(|e: WorkHistoryEntryModel| render_history_entry(e));
    let c = join(r, seq!['\n']);
    assert(render_history(entries, None) == c);
    assert forall|k: int| 0 <= k < r.len() implies no_cr(#[trigger] r[k]) by {
        lemma_entry_no_cr(entries[k]);
    }
    assert(no_cr(seq!['\n']));
    lemma_join_no_cr(r, seq!['\n']);
    lemma_normalize_plain(c);
    let acc = history_blocks(heading_blocks(c));
    if entries.len() == 0 {
        assert(c =~= Seq::<char>::empty());
        assert(heading_starts_from(c, 0) =~= Seq::<int>::empty());
        assert(heading_blocks(c) =~= Seq::<BlockModel>::empty());
        assert(acc.entries =~= entries);
    } else {
        assert forall|k: int| 0 <= k < r.len() implies one_block(#[trigger] r[k]) by {
            lemma_entry_block(entries[k]);
        }
        lemma_joined_blocks(r);
        let bs = heading_blocks(c);
        assert forall|k: int| 0 <= k < bs.len() implies history_block(#[trigger] bs[k]) == entry_read_back(entries[k]) by {
            assert(bs[k] == block_model(unit(r, k)));
            if k + 1 < r.len() {
                lemma_entry_reads(entries[k], seq!['\n']);
            } else {
                lemma_entry_reads(entries[k], Seq::<char>::empty());
                assert(r[k] + Seq::<char>::empty() =~= r[k]);
            }
        }
        lemma_entries_fold(bs, entries);
    }
    assert(acc.warnings =~= Seq::<WarningModel>::empty());
    assert(acc.preserved =~= Seq::<Seq<char>>::empty());
    assert(keep_nonblank(acc.preserved) =~= Seq::<Seq<char>>::empty());
    assert(join(Seq::<Seq<char>>::empty(), "\n\n"@) =~= Seq::<char>::empty());
    lemma_empty_line();
    assert(nonempty_join(acc.preserved) is None);
    let ws = acc.warnings + Seq::<WarningModel>::empty();
    assert(ws =~= Seq::<WarningModel>::empty());
    let d = parse_history(render_history(entries, None));
    assert(d.entries == entries);
    assert(d.warnings =~= Seq::<WarningModel>::empty());
}


/// Another migration run leaves a `TODO.md` that rendering wrote unchanged,
/// where its TODOs are canonical, sorted by ID, free of validation warnings,
/// and already in the form that migration gives them.
#[verifier::spinoff_prover]
#[verifier::rlimit(40)]
pub proof fn migrating_written_todos_changes_nothing(items: Seq<TodoItemModel>)
    requires
        forall|k: int| 0 <= k < items.len() ==> canonical_item(#[trigger] items[k]),
        forall|i: int, j: int| 0 <= i < j < items.len() ==> text_lt(items[i].id, items[j].id),
        todo_warnings(items) == Seq::<WarningModel>::empty(),
        forall|k: int| 0 <= k < items.len() ==> migrated_item(#[trigger] items[k]) == items[k],
    ensures
        todo_migration(render_todo(items, None)).0 == items,
        normalized(render_todo(items, None)) == render_todo(todo_migration(render_todo(items, None)).0, None),
{
    written_todos_read_back(items);
    reveal_strlit("\n");
    assert("\n"@ =~= seq!['\n']);
    lemma_sort_sorted(items);
    let r = items.map_values(|it: TodoItemModel| render_todo_item(it));
    let c = join(r, seq!['\n']);
    assert(render_todo(items, None) == c);
    assert forall|k: int| 0 <= k < r.len() implies no_cr(#[trigger] r[k]) by {
        lemma_item_no_cr(items[k]);
    }
    assert(no_cr(seq!['\n']));
    lemma_join_no_cr(r, seq!['\n']);
    lemma_normalize_plain(c);
    if items.len() == 0 {
        assert(c =~= Seq::<char>::empty());
        assert(lines(normalized(c)) =~= Seq::<Seq<char>>::empty());
        assert(legacy_items(c) =~= Seq::<TodoItemModel>::empty());
        assert(items =~= Seq::<TodoItemModel>::empty());
        assert(todo_migration(c).0 =~= Seq::<TodoItemModel>::empty());
    } else {
        assert(items.map_values(|it: TodoItemModel| migrated_item(it)) =~= items);
        assert forall|k: int| 0 <= k < r.len() implies (#[trigger] r[k]).len() > 0 && r[k].last() == '\n' by {
            lemma_item_text(items[k]);
        }
        lemma_join_ends(r, seq!['\n']);
        assert(c.last() == '\n');
    }
}


/// Another migration run leaves a `WORK_HISTORY.md` that rendering wrote
/// unchanged, where its entries are canonical, already in the form that
/// migration gives them, and their clock text reads back as their minutes.
#[verifier::spinoff_prover]
#[verifier::rlimit(40)]
pub proof fn migrating_written_history_changes_nothing(entries: Seq<WorkHistoryEntryModel>)
    requires
        forall|k: int| 0 <= k < entries.len() ==> canonical_entry(#[trigger] entries[k]),
        forall|k: int| 0 <= k < entries.len()
            ==> chrono_minute(minute_text(#[trigger] entries[k].occurred_at)) == Some(entries[k].occurred_at),
        forall|k: int| 0 <= k < entries.len() ==> migrated_entry(#[trigger] entries[k]) == entries[k],
    ensures
        history_migration(render_history(entries, None)).0 == entries,
        normalized(render_history(entries, None)) == render_history(history_migration(render_history(entries, None)).0, None),
{
    written_history_reads_back(entries);
    reveal_strlit("\n");
    assert("\n"@ =~= seq!['\n']);
    let r = entries.map_values(|e: WorkHistoryEntryModel| render_history_entry(e));
    let c = join(r, seq!['\n']);
    assert(render_history(entries, None) == c);
    assert forall|k: int| 0 <= k < r.len() implies no_cr(#[trigger] r[k]) by {
        lemma_entry_no_cr(entries[k]);
    }
    assert(no_cr(seq!['\n']));
    lemma_join_no_cr(r, seq!['\n']);
    lemma_normalize_plain(c);
    if entries.len() == 0 {
        assert(c =~= Seq::<char>::empty());
        assert(lines(normalized(c)) =~= Seq::<Seq<char>>::empty());
        assert(legacy_blocks(normalized(c)) =~= Seq::<(Seq<char>, Seq<char>)>::empty());
        assert(legacy_entries(legacy_blocks(normalized(c))).0 =~= Seq::<WorkHistoryEntryModel>::empty());
        assert(entries =~= Seq::<WorkHistoryEntryModel>::empty());
    } else {
        assert(entries.map_values(|e: WorkHistoryEntryModel| migrated_entry(e)) =~= entries);
        assert forall|k: int| 0 <= k < r.len() implies (#[trigger] r[k]).len() > 0 && r[k].last() == '\n' by {
            lemma_entry_text(entries[k]);
        }
        lemma_join_ends(r, seq!['\n']);
        assert(c.last() == '\n');
    }
}


// ---------------------------------------------------------------------------
// The order of TODO items does not matter to what is written

/// No two items share an ID.
pub open spec fn ids_distinct(items: Seq<TodoItemModel>) -> bool {
    forall|i: int, j: int| 0 <= i < j < items.len() ==> items[i].id != items[j].id
}

/// The items are in strictly increasing ID order.
pub open spec fn strictly_by_id(items: Seq<TodoItemModel>) -> bool {
    forall|i: int, j: int| 0 <= i < j < items.len() ==> text_lt(items[i].id, items[j].id)
}

#[verifier::spinoff_prover]
proof fn lemma_text_lt_irreflexive(a: Seq<char>)
    ensures
        !text_lt(a, a),
    decreases a.len(),
{
    if a.len() > 0 {
        lemma_text_lt_irreflexive(a.drop_first());
    }
}

#[verifier::spinoff_prover]
proof fn lemma_text_lt_total(a: Seq<char>, b: Seq<char>)
    requires
        a != b,
    ensures
        text_lt(a, b) || text_lt(b, a),
    decreases a.len(),
{
    if a.len() > 0 && b.len() > 0 && a[0] == b[0] {
        assert(a =~= seq![a[0]] + a.drop_first());
        assert(b =~= seq![b[0]] + b.drop_first());
        lemma_text_lt_total(a.drop_first(), b.drop_first());
    } else if a.len() == 0 {
        assert(b.len() > 0) by {
            if b.len() == 0 {
                assert(a =~= b);
            }
        }
    }
}

#[verifier::spinoff_prover]
proof fn lemma_text_lt_trans(a: Seq<char>, b: Seq<char>, c: Seq<char>)
    requires
        text_lt(a, b),
        text_lt(b, c),
    ensures
        text_lt(a, c),
    decreases a.len(),
{
    if a.len() > 0 && b.len() > 0 && c.len() > 0 && a[0] == b[0] && b[0] == c[0] {
        lemma_text_lt_trans(a.drop_first(), b.drop_first(), c.drop_first());
    }
}

#[verifier::spinoff_prover]
proof fn lemma_insert_pos_bounds(sorted: Seq<TodoItemModel>, x: TodoItemModel, i: int)
    requires
        0 <= i <= sorted.len(),
    ensures
        i <= insert_pos_from(sorted, x, i) <= sorted.len(),
        forall|j: int| i <= j < insert_pos_from(sorted, x, i) ==> !text_lt(x.id, #[trigger] sorted[j].id),
        insert_pos_from(sorted, x, i) < sorted.len() ==> text_lt(x.id, sorted[insert_pos_from(sorted, x, i)].id),
    decreases sorted.len() - i,
{
    if i < sorted.len() && !text_lt(x.id, sorted[i].id) {
        lemma_insert_pos_bounds(sorted, x, i + 1);
    }
}

/// Sorting distinct IDs gives them in strictly increasing order, with the
/// same items.
#[verifier::spinoff_prover]
#[verifier::rlimit(40)]
proof fn lemma_sort_by_id_strict(s: Seq<TodoItemModel>)
    requires
        ids_distinct(s),
    ensures
        strictly_by_id(sort_by_id(s)),
        sort_by_id(s).to_multiset() == s.to_multiset(),
    decreases s.len(),
{
    broadcast use vstd::seq_lib::to_multiset_contains, vstd::seq_lib::to_multiset_insert, vstd::seq_lib::to_multiset_build;
    if s.len() > 0 {
        let d = s.drop_last();
        let x = s.last();
        assert(ids_distinct(d)) by {
            assert forall|i: int, j: int| 0 <= i < j < d.len() implies d[i].id != d[j].id by {
                assert(d[i] == s[i] && d[j] == s[j]);
            }
        }
        lemma_sort_by_id_strict(d);
        crate::todos::lemma_sort_len(d);
        let sorted = sort_by_id(d);
        lemma_insert_pos_bounds(sorted, x, 0);
        let p = insert_pos_from(sorted, x, 0);
        let r = sorted.insert(p, x);
        assert(r == sort_by_id(s));
        assert(d.push(x) =~= s);
        assert(r.to_multiset() == s.to_multiset());
        // every element of `sorted` has an ID other than `x`'s
        assert forall|j: int| 0 <= j < sorted.len() implies #[trigger] sorted[j].id != x.id by {
            assert(sorted.to_multiset().count(sorted[j]) > 0) by {
                assert(sorted.contains(sorted[j]));
            }
            assert(d.contains(sorted[j]));
            let k = choose|k: int| 0 <= k < d.len() && d[k] == sorted[j];
            assert(s[k] == d[k]);
            assert(s[s.len() - 1] == x);
        }
        assert forall|i: int, j: int| 0 <= i < j < r.len() implies text_lt(r[i].id, r[j].id) by {
            if j < p {
                assert(r[i] == sorted[i] && r[j] == sorted[j]);
            } else if j == p {
                assert(r[j] == x && r[i] == sorted[i]);
                assert(!text_lt(x.id, sorted[i].id));
                lemma_text_lt_total(sorted[i].id, x.id);
            } else if i < p {
                assert(r[i] == sorted[i] && r[j] == sorted[j - 1]);
                assert(!text_lt(x.id, sorted[i].id));
                lemma_text_lt_total(sorted[i].id, x.id);
                assert(text_lt(x.id, sorted[p].id));
                if p < j - 1 {
                    lemma_text_lt_trans(x.id, sorted[p].id, sorted[j - 1].id);
                }
                lemma_text_lt_trans(sorted[i].id, x.id, sorted[j - 1].id);
            } else if i == p {
                assert(r[i] == x && r[j] == sorted[j - 1]);
                assert(text_lt(x.id, sorted[p].id));
                if p < j - 1 {
                    lemma_text_lt_trans(x.id, sorted[p].id, sorted[j - 1].id);
                }
            } else {
                assert(r[i] == sorted[i - 1] && r[j] == sorted[j - 1]);
            }
        }
    }
}

/// Two sequences in strictly increasing ID order that hold the same items
/// are the same sequence.
#[verifier::spinoff_prover]
#[verifier::rlimit(40)]
proof fn lemma_strict_unique(a: Seq<TodoItemModel>, b: Seq<TodoItemModel>)
    requires
        strictly_by_id(a),
        strictly_by_id(b),
        a.to_multiset() == b.to_multiset(),
    ensures
        a == b,
    decreases a.len(),
{
    broadcast use vstd::seq_lib::to_multiset_contains, vstd::seq_lib::to_multiset_len, vstd::seq_lib::to_multiset_remove;
    assert(a.len() == b.len()) by {
        vstd::seq_lib::to_multiset_len(a);
        vstd::seq_lib::to_multiset_len(b);
    }
    if a.len() == 0 {
        assert(a =~= b);
    } else {
        assert(a.to_multiset().count(a[0]) > 0) by {
            assert(a.contains(a[0]));
        }
        assert(b.contains(a[0]));
        let k = choose|k: int| 0 <= k < b.len() && b[k] == a[0];
        assert(b.to_multiset().count(b[0]) > 0) by {
            assert(b.contains(b[0]));
        }
        assert(a.contains(b[0]));
        let m = choose|m: int| 0 <= m < a.len() && a[m] == b[0];
        if k > 0 {
            assert(text_lt(b[0].id, b[k].id));
            if m > 0 {
                assert(text_lt(a[0].id, a[m].id));
                lemma_text_lt_asym(a[0].id, a[m].id);
            } else {
                lemma_text_lt_irreflexive(a[0].id);
            }
        }
        assert(a[0] == b[0]);
        let ad = a.drop_first();
        let bd = b.drop_first();
        assert(a.remove(0) =~= ad);
        assert(b.remove(0) =~= bd);
        assert(ad.to_multiset() == bd.to_multiset());
        assert forall|i: int, j: int| 0 <= i < j < ad.len() implies text_lt(ad[i].id, ad[j].id) by {
            assert(ad[i] == a[i + 1] && ad[j] == a[j + 1]);
        }
        assert forall|i: int, j: int| 0 <= i < j < bd.len() implies text_lt(bd[i].id, bd[j].id) by {
            assert(bd[i] == b[i + 1] && bd[j] == b[j + 1]);
        }
        lemma_strict_unique(ad, bd);
        assert(a =~= seq![a[0]] + ad);
        assert(b =~= seq![b[0]] + bd);
    }
}

/// `TODO.md` is written the same whatever the order of the items: two item
/// lists with distinct IDs that hold the same items render identically.
pub proof fn todo_order_does_not_change_the_file(
    items: Seq<TodoItemModel>,
    other: Seq<TodoItemModel>,
    preserved: Option<Seq<char>>,
)
    requires
        ids_distinct(items),
        ids_distinct(other),
        other.to_multiset() == items.to_multiset(),
    ensures
        sort_by_id(other) == sort_by_id(items),
        render_todo(other, preserved) == render_todo(items, preserved),
{
    lemma_sort_by_id_strict(items);
    lemma_sort_by_id_strict(other);
    lemma_strict_unique(sort_by_id(other), sort_by_id(items));
}

/// Written canonical TODOs with distinct IDs read back in ID order, whatever
/// order they were given in; the warnings are exactly the validation
/// warnings of the sorted items (a missing dependency, a cycle), once each.
pub proof fn written_todos_read_back_in_id_order(items: Seq<TodoItemModel>)
    requires
        forall|k: int| 0 <= k < items.len() ==> canonical_item(#[trigger] items[k]),
        ids_distinct(items),
    ensures
        parse_todo(render_todo(items, None)).items == sort_by_id(items),
        parse_todo(render_todo(items, None)).preserved_content is None,
        parse_todo(render_todo(items, None)).warnings == dedup(todo_warnings(sort_by_id(items))),
{
    broadcast use vstd::seq_lib::to_multiset_contains;
    lemma_sort_by_id_strict(items);
    let sorted = sort_by_id(items);
    assert forall|k: int| 0 <= k < sorted.len() implies canonical_item(#[trigger] sorted[k]) by {
        assert(sorted.contains(sorted[k]));
        assert(sorted.to_multiset().count(sorted[k]) > 0);
        assert(items.contains(sorted[k]));
        let m = choose|m: int| 0 <= m < items.len() && items[m] == sorted[k];
        assert(canonical_item(items[m]));
    }
    assert(ids_distinct(sorted)) by {
        assert forall|i: int, j: int| 0 <= i < j < sorted.len() implies sorted[i].id != sorted[j].id by {
            lemma_text_lt_irreflexive(sorted[i].id);
        }
    }
    lemma_sort_by_id_strict(sorted);
    todo_order_does_not_change_the_file(items, sorted, None);
    lemma_written_todos_parse(sorted);
}

} // verus!
