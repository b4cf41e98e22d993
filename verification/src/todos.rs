//! The structured `TODO.md` format: parsing, validation and deterministic rendering.

use vstd::prelude::*;
use crate::text::{
    copy_range, find_char, is_blank, is_blank_exec, join, join_chars, lines, lines_of, lit, ltrim,
    push_all, push_str, split_char, split_on, starts_with, str_eq, string_of, to_lowercase,
    to_uppercase, trim, trim_chars, trim_start, upper_text, views, lower_text, chars_of,
    eq_ignore_case, eq_ignore_ascii_case, chars_eq,
};
use crate::models::{
    item_views, strs, warning_views, TodoDocument, TodoItem, TodoItemModel, TodoPriority,
    ValidationWarning, WarningModel, WorkCategory, opt_str,
};
use crate::markdown::{
    dedup, deduplicate_warnings, field_line, h2, heading_blocks, make_warning, nonempty_join,
    nonempty_join_exec, normalize_newlines, normalize_newlines_exec, parse_field_line,
    preserved_block, preserved_block_exec, split_heading_blocks, warning_model, block_views,
    BlockModel, HeadingBlock,
};

verus! {

pub open spec fn todo_prefix() -> Seq<char> {
    seq!['T', 'O', 'D', 'O', '-']
}

pub open spec fn is_digit(c: char) -> bool {
    '0' <= c && c <= '9'
}

/// `TODO-` followed by at least three ASCII digits and nothing else.
pub open spec fn is_todo_id(v: Seq<char>) -> bool {
    &&& starts_with(v, todo_prefix())
    &&& v.len() >= 8
    &&& forall|i: int| 5 <= i < v.len() ==> is_digit(v[i])
}

pub fn is_todo_id_exec(v: &[char]) -> (r: bool)
    ensures
        r == is_todo_id(v@),
{
    if v.len() < 8 {
        return false;
    }
    if !(v[0] == 'T' && v[1] == 'O' && v[2] == 'D' && v[3] == 'O' && v[4] == '-') {
        proof {
            if starts_with(v@, todo_prefix()) {
                assert(v@.subrange(0, 5)[0] == v@[0]);
                assert(v@.subrange(0, 5)[1] == v@[1]);
                assert(v@.subrange(0, 5)[2] == v@[2]);
                assert(v@.subrange(0, 5)[3] == v@[3]);
                assert(v@.subrange(0, 5)[4] == v@[4]);
            }
        }
        return false;
    }
    assert(v@.subrange(0, 5) =~= todo_prefix());
    let mut i: usize = 5;
    while i < v.len()
        invariant
            5 <= i <= v@.len(),
            forall|j: int| 5 <= j < i ==> is_digit(v@[j]),
        decreases v@.len() - i,
    {
        if !('0' <= v[i] && v[i] <= '9') {
            return false;
        }
        i += 1;
    }
    true
}

pub fn is_todo_id_str(v: &String) -> (r: bool)
    ensures
        r == is_todo_id(v@),
{
    let c = chars_of(v.as_str());
    is_todo_id_exec(&c)
}

/// Number of leading ASCII digits.
pub open spec fn leading_digits(s: Seq<char>) -> nat
    decreases s.len(),
{
    if s.len() > 0 && is_digit(s[0]) {
        1 + leading_digits(s.drop_first())
    } else {
        0
    }
}

proof fn lemma_leading_digits(s: Seq<char>)
    ensures
        leading_digits(s) <= s.len(),
        forall|j: int| 0 <= j < leading_digits(s) ==> is_digit(s[j]),
        leading_digits(s) < s.len() ==> !is_digit(s[leading_digits(s) as int]),
    decreases s.len(),
{
    if s.len() > 0 && is_digit(s[0]) {
        lemma_leading_digits(s.drop_first());
        assert forall|j: int| 0 <= j < leading_digits(s) implies is_digit(s[j]) by {
            if j > 0 {
                assert(s[j] == s.drop_first()[j - 1]);
            }
        }
    }
}

/// `## TODO-NNN: Title` (standard) or `## TODO-NNN - Title` (legacy): the ID,
/// the trimmed title, and whether the heading is in the standard form.
pub open spec fn todo_heading(h: Seq<char>) -> Option<(Seq<char>, Seq<char>, bool)> {
    let t = trim(h);
    if !starts_with(t, h2()) {
        None
    } else {
        let h1 = t.subrange(3, t.len() as int);
        if !starts_with(h1, todo_prefix()) {
            None
        } else {
            let rest = h1.subrange(5, h1.len() as int);
            let d = leading_digits(rest);
            if d < 3 {
                None
            } else {
                let id = todo_prefix() + rest.subrange(0, d as int);
                let suffix = ltrim(rest.subrange(d as int, rest.len() as int));
                if starts_with(suffix, seq![':']) {
                    Some((id, trim(suffix.drop_first()), true))
                } else if starts_with(suffix, seq!['-']) {
                    Some((id, trim(suffix.drop_first()), false))
                } else {
                    None
                }
            }
        }
    }
}

pub fn parse_todo_heading(h: &[char]) -> (r: Option<(Vec<char>, Vec<char>, bool)>)
    ensures
        match r {
            Some((id, title, std)) => todo_heading(h@) == Some((id@, title@, std)),
            None => todo_heading(h@) is None,
        },
{
    let t = trim_chars(h);
    let hh = lit("## ");
    proof {
        reveal_strlit("## ");
    }
    assert(hh@ == h2());
    if !crate::text::matches_at(&t, 0, &hh) {
        assert(!starts_with(t@, h2()));
        return None;
    }
    assert(starts_with(t@, h2()));
    let h1 = copy_range(&t, 3, t.len());
    if !(h1.len() >= 5 && h1[0] == 'T' && h1[1] == 'O' && h1[2] == 'D' && h1[3] == 'O' && h1[4] == '-') {
        proof {
            if starts_with(h1@, todo_prefix()) {
                assert(h1@.subrange(0, 5)[0] == h1@[0]);
                assert(h1@.subrange(0, 5)[1] == h1@[1]);
                assert(h1@.subrange(0, 5)[2] == h1@[2]);
                assert(h1@.subrange(0, 5)[3] == h1@[3]);
                assert(h1@.subrange(0, 5)[4] == h1@[4]);
            }
        }
        return None;
    }
    assert(h1@.subrange(0, 5) =~= todo_prefix());
    let rest = copy_range(&h1, 5, h1.len());
    let mut d: usize = 0;
    proof {
        lemma_leading_digits(rest@);
    }
    while d < rest.len() && '0' <= rest[d] && rest[d] <= '9'
        invariant
            d <= rest@.len(),
            leading_digits(rest@) <= rest@.len(),
            forall|j: int| 0 <= j < leading_digits(rest@) ==> is_digit(rest@[j]),
            leading_digits(rest@) < rest@.len() ==> !is_digit(rest@[leading_digits(rest@) as int]),
            d <= leading_digits(rest@),
        decreases rest@.len() - d,
    {
        d += 1;
    }
    assert(d == leading_digits(rest@));
    if d < 3 {
        return None;
    }
    let mut id = lit("TODO-");
    proof {
        reveal_strlit("TODO-");
    }
    assert(id@ == todo_prefix());
    push_all(&mut id, &copy_range(&rest, 0, d));
    assert(id@ == todo_prefix() + rest@.subrange(0, d as int));
    let suffix = trim_start(&copy_range(&rest, d, rest.len()));
    assert(suffix@ == ltrim(rest@.subrange(d as int, rest@.len() as int)));
    assert(todo_heading(h@) == (if starts_with(suffix@, seq![':']) {
        Some((id@, trim(suffix@.drop_first()), true))
    } else if starts_with(suffix@, seq!['-']) {
        Some((id@, trim(suffix@.drop_first()), false))
    } else {
        None
    }));
    if suffix.len() > 0 && suffix[0] == ':' {
        assert(suffix@.subrange(0, 1) =~= seq![':']);
        let title = trim_chars(&copy_range(&suffix, 1, suffix.len()));
        assert(suffix@.subrange(1, suffix@.len() as int) == suffix@.drop_first());
        Some((id, title, true))
    } else if suffix.len() > 0 && suffix[0] == '-' {
        assert(suffix@.subrange(0, 1) =~= seq!['-']);
        proof {
            if starts_with(suffix@, seq![':']) {
                assert(suffix@.subrange(0, 1)[0] == suffix@[0]);
            }
        }
        let title = trim_chars(&copy_range(&suffix, 1, suffix.len()));
        assert(suffix@.subrange(1, suffix@.len() as int) == suffix@.drop_first());
        Some((id, title, false))
    } else {
        proof {
            if starts_with(suffix@, seq![':']) || starts_with(suffix@, seq!['-']) {
                assert(suffix@.subrange(0, 1)[0] == suffix@[0]);
            }
        }
        None
    }
}

pub open spec fn opt_id(item_id: Seq<char>) -> Option<Seq<char>> {
    if item_id.len() > 0 {
        Some(item_id)
    } else {
        None
    }
}

/// One step of `parse_id_list` over a comma-separated piece.
pub open spec fn id_list_step(
    acc: (Seq<Seq<char>>, Seq<WarningModel>),
    part: Seq<char>,
    item_id: Seq<char>,
    field_name: Seq<char>,
) -> (Seq<Seq<char>>, Seq<WarningModel>) {
    let id = upper_text(trim(part));
    if is_todo_id(id) {
        (acc.0.push(id), acc.1)
    } else {
        (acc.0, acc.1.push(warning_model(
            "invalid_todo_reference"@,
            "Invalid TODO ID `"@ + trim(part) + "` in "@ + field_name + "."@,
            opt_id(item_id),
        )))
    }
}

pub open spec fn id_list_fold(
    parts: Seq<Seq<char>>,
    item_id: Seq<char>,
    field_name: Seq<char>,
) -> (Seq<Seq<char>>, Seq<WarningModel>)
    decreases parts.len(),
{
    if parts.len() == 0 {
        (Seq::empty(), Seq::empty())
    } else {
        id_list_step(id_list_fold(parts.drop_last(), item_id, field_name), parts.last(), item_id, field_name)
    }
}

/// The TODO IDs listed in `value` (`none` for an empty list), upper-cased and
/// without repeats, with a warning for each piece that is not a TODO ID.
pub open spec fn id_list(value: Seq<char>, item_id: Seq<char>, field_name: Seq<char>) -> (Seq<Seq<char>>, Seq<WarningModel>) {
    if eq_ignore_case(trim(value), "none"@) {
        (Seq::empty(), Seq::empty())
    } else {
        let r = id_list_fold(split_on(value, ','), item_id, field_name);
        (dedup(r.0), r.1)
    }
}

/// Keeps the first of equal texts.
pub fn dedup_texts(v: Vec<Vec<char>>) -> (r: Vec<Vec<char>>)
    ensures
        views(r@) == dedup(views(v@)),
{
    let mut out: Vec<Vec<char>> = Vec::new();
    let mut i: usize = 0;
    while i < v.len()
        invariant
            i <= v@.len(),
            views(out@) == dedup(views(v@.subrange(0, i as int))),
        decreases v@.len() - i,
    {
        let ghost pre = views(v@.subrange(0, i as int));
        let ghost cur = views(v@.subrange(0, i + 1));
        assert(cur.drop_last() =~= pre);
        assert(cur.last() == v@[i as int]@);
        proof {
            crate::markdown::lemma_dedup_contains(pre, v@[i as int]@);
        }
        let mut found = false;
        let mut k: usize = 0;
        while k < out.len()
            invariant
                i < v@.len(),
                k <= out@.len(),
                found == exists|m: int| 0 <= m < k && out@[m]@ == v@[i as int]@,
            decreases out@.len() - k,
        {
            if chars_eq(&out[k], &v[i]) {
                found = true;
            }
            k += 1;
        }
        proof {
            let ov = views(out@);
            if found {
                let m = choose|m: int| 0 <= m < out@.len() && out@[m]@ == v@[i as int]@;
                assert(ov[m] == v@[i as int]@);
            } else {
                assert forall|m: int| 0 <= m < ov.len() implies ov[m] != v@[i as int]@ by {
                    assert(ov[m] == out@[m]@);
                }
            }
        }
        if !found {
            let ghost old_out = views(out@);
            out.push(copy_range(&v[i], 0, v[i].len()));
            assert(v@[i as int]@.subrange(0, v@[i as int]@.len() as int) == v@[i as int]@);
            assert(views(out@) =~= old_out.push(v@[i as int]@));
        }
        i += 1;
    }
    assert(v@.subrange(0, v@.len() as int) == v@);
    out
}

/// `parse_id_list`.
pub fn parse_id_list(value: &[char], item_id: &[char], field_name: &str) -> (r: (Vec<Vec<char>>, Vec<ValidationWarning>))
    ensures
        views(r.0@) == id_list(value@, item_id@, field_name@).0,
        warning_views(r.1@) == id_list(value@, item_id@, field_name@).1,
{
    let mut warnings: Vec<ValidationWarning> = Vec::new();
    if eq_ignore_ascii_case(&trim_chars(value), "none") {
        let none: Vec<Vec<char>> = Vec::new();
        assert(views(none@) =~= Seq::<Seq<char>>::empty());
        assert(warning_views(warnings@) =~= Seq::<WarningModel>::empty());
        return (none, warnings);
    }
    let parts = split_char(value, ',');
    let mut ids: Vec<Vec<char>> = Vec::new();
    let mut i: usize = 0;
    assert(views(parts@).subrange(0, 0) =~= Seq::<Seq<char>>::empty());
    assert(views(ids@) =~= Seq::<Seq<char>>::empty());
    assert(warning_views(warnings@) =~= Seq::<WarningModel>::empty());
    while i < parts.len()
        invariant
            i <= parts@.len(),
            (views(ids@), warning_views(warnings@)) == id_list_fold(views(parts@).subrange(0, i as int), item_id@, field_name@),
        decreases parts@.len() - i,
    {
        let ghost pre = views(parts@).subrange(0, i as int);
        assert(views(parts@).subrange(0, i + 1).drop_last() =~= pre);
        assert(views(parts@).subrange(0, i + 1).last() == parts@[i as int]@);
        let part = trim_chars(&parts[i]);
        let id = to_uppercase(&part);
        if is_todo_id_exec(&id) {
            let ghost old_ids = views(ids@);
            ids.push(id);
            assert(views(ids@) =~= old_ids.push(id@));
        } else {
            let mut msg = lit("Invalid TODO ID `");
            push_all(&mut msg, &part);
            push_str(&mut msg, "` in ");
            push_str(&mut msg, field_name);
            push_str(&mut msg, ".");
            let w = if item_id.len() > 0 {
                make_warning("invalid_todo_reference", &msg, Some(item_id))
            } else {
                make_warning("invalid_todo_reference", &msg, None)
            };
            let ghost old_w = warning_views(warnings@);
            warnings.push(w);
            assert(warning_views(warnings@) =~= old_w.push(w@));
        }
        i += 1;
    }
    assert(views(parts@).subrange(0, parts@.len() as int) == views(parts@));
    (dedup_texts(ids), warnings)
}

/// The value of the last field line with this key.
pub open spec fn lookup_field(fields: Seq<(Seq<char>, Seq<char>)>, key: Seq<char>) -> Option<Seq<char>>
    decreases fields.len(),
{
    if fields.len() == 0 {
        None
    } else if fields.last().0 == key {
        Some(fields.last().1)
    } else {
        lookup_field(fields.drop_last(), key)
    }
}

pub open spec fn field_views(v: Seq<(Vec<char>, Vec<char>)>) -> Seq<(Seq<char>, Seq<char>)> {
    v.map_values(|p: (Vec<char>, Vec<char>)| (p.0@, p.1@))
}

pub fn lookup_field_exec(fields: &Vec<(Vec<char>, Vec<char>)>, key: &str) -> (r: Option<Vec<char>>)
    ensures
        match r {
            Some(v) => lookup_field(field_views(fields@), key@) == Some(v@),
            None => lookup_field(field_views(fields@), key@) is None,
        },
{
    let kv = lit(key);
    let mut i: usize = fields.len();
    assert(field_views(fields@).subrange(0, i as int) == field_views(fields@));
    while i > 0
        invariant
            i <= fields@.len(),
            kv@ == key@,
            lookup_field(field_views(fields@).subrange(0, i as int), key@) == lookup_field(field_views(fields@), key@),
        decreases i,
    {
        let ghost pre = field_views(fields@).subrange(0, i as int);
        assert(pre.last() == (fields@[i - 1].0@, fields@[i - 1].1@));
        assert(pre.drop_last() == field_views(fields@).subrange(0, i - 1));
        if chars_eq(&fields[i - 1].0, &kv) {
            return Some(copy_range(&fields[i - 1].1, 0, fields[i - 1].1.len()));
        }
        i -= 1;
    }
    None
}

pub struct ScanState {
    pub fields: Seq<(Seq<char>, Seq<char>)>,
    pub acceptance: Seq<Seq<char>>,
    pub in_acceptance: bool,
    pub warnings: Seq<WarningModel>,
}

pub open spec fn unrecognized_warning(id: Seq<char>) -> WarningModel {
    warning_model(
        "unrecognized_todo_content"@,
        "Unrecognized content was preserved with this TODO."@,
        Some(id),
    )
}

/// The effect of one body line of a TODO block.
pub open spec fn scan_step(st: ScanState, line: Seq<char>, id: Seq<char>) -> ScanState {
    match field_line(line) {
        Some((key, value)) => {
            if key == "acceptance criteria"@ {
                ScanState {
                    fields: st.fields,
                    acceptance: if value.len() > 0 { st.acceptance.push(value) } else { st.acceptance },
                    in_acceptance: true,
                    warnings: st.warnings,
                }
            } else if !st.in_acceptance {
                ScanState {
                    fields: st.fields.push((key, value)),
                    acceptance: st.acceptance,
                    in_acceptance: st.in_acceptance,
                    warnings: st.warnings,
                }
            } else {
                ScanState {
                    fields: st.fields,
                    acceptance: st.acceptance.push(line),
                    in_acceptance: st.in_acceptance,
                    warnings: st.warnings,
                }
            }
        },
        None => {
            if st.in_acceptance {
                ScanState {
                    fields: st.fields,
                    acceptance: st.acceptance.push(line),
                    in_acceptance: st.in_acceptance,
                    warnings: st.warnings,
                }
            } else if !is_blank(line) {
                ScanState {
                    fields: st.fields,
                    acceptance: st.acceptance.push("<!-- Projector preserved: "@ + line + " -->"@),
                    in_acceptance: st.in_acceptance,
                    warnings: st.warnings.push(unrecognized_warning(id)),
                }
            } else {
                st
            }
        },
    }
}

pub open spec fn scan_lines(ls: Seq<Seq<char>>, id: Seq<char>) -> ScanState
    decreases ls.len(),
{
    if ls.len() == 0 {
        ScanState { fields: Seq::empty(), acceptance: Seq::empty(), in_acceptance: false, warnings: Seq::empty() }
    } else {
        scan_step(scan_lines(ls.drop_last(), id), ls.last(), id)
    }
}

pub open spec fn priority_name(p: TodoPriority) -> Seq<char> {
    match p {
        TodoPriority::Critical => "critical"@,
        TodoPriority::High => "high"@,
        TodoPriority::Medium => "medium"@,
        TodoPriority::Low => "low"@,
    }
}

pub open spec fn category_name(c: WorkCategory) -> Seq<char> {
    match c {
        WorkCategory::Feature => "feature"@,
        WorkCategory::Bugfix => "bugfix"@,
        WorkCategory::Refactor => "refactor"@,
        WorkCategory::Test => "test"@,
        WorkCategory::Documentation => "documentation"@,
        WorkCategory::Research => "research"@,
        WorkCategory::Others => "others"@,
    }
}

/// The category a lower-cased name denotes.
pub open spec fn category_named(l: Seq<char>) -> Option<WorkCategory> {
    if l == "feature"@ {
        Some(WorkCategory::Feature)
    } else if l == "bugfix"@ {
        Some(WorkCategory::Bugfix)
    } else if l == "refactor"@ {
        Some(WorkCategory::Refactor)
    } else if l == "test"@ {
        Some(WorkCategory::Test)
    } else if l == "documentation"@ {
        Some(WorkCategory::Documentation)
    } else if l == "research"@ {
        Some(WorkCategory::Research)
    } else if l == "others"@ {
        Some(WorkCategory::Others)
    } else {
        None
    }
}

pub open spec fn priority_named(l: Seq<char>) -> Option<TodoPriority> {
    if l == "critical"@ {
        Some(TodoPriority::Critical)
    } else if l == "high"@ {
        Some(TodoPriority::High)
    } else if l == "medium"@ {
        Some(TodoPriority::Medium)
    } else if l == "low"@ {
        Some(TodoPriority::Low)
    } else {
        None
    }
}

pub fn priority_named_exec(l: &[char]) -> (r: Option<TodoPriority>)
    ensures
        r == priority_named(l@),
{
    if str_eq(l, "critical") {
        Some(TodoPriority::Critical)
    } else if str_eq(l, "high") {
        Some(TodoPriority::High)
    } else if str_eq(l, "medium") {
        Some(TodoPriority::Medium)
    } else if str_eq(l, "low") {
        Some(TodoPriority::Low)
    } else {
        None
    }
}

pub fn category_named_exec(l: &[char]) -> (r: Option<WorkCategory>)
    ensures
        r == category_named(l@),
{
    if str_eq(l, "feature") {
        Some(WorkCategory::Feature)
    } else if str_eq(l, "bugfix") {
        Some(WorkCategory::Bugfix)
    } else if str_eq(l, "refactor") {
        Some(WorkCategory::Refactor)
    } else if str_eq(l, "test") {
        Some(WorkCategory::Test)
    } else if str_eq(l, "documentation") {
        Some(WorkCategory::Documentation)
    } else if str_eq(l, "research") {
        Some(WorkCategory::Research)
    } else if str_eq(l, "others") {
        Some(WorkCategory::Others)
    } else {
        None
    }
}

pub fn priority_name_exec(p: TodoPriority) -> (r: &'static str)
    ensures
        r@ == priority_name(p),
{
    match p {
        TodoPriority::Critical => "critical",
        TodoPriority::High => "high",
        TodoPriority::Medium => "medium",
        TodoPriority::Low => "low",
    }
}

pub fn category_name_exec(c: WorkCategory) -> (r: &'static str)
    ensures
        r@ == category_name(c),
{
    match c {
        WorkCategory::Feature => "feature",
        WorkCategory::Bugfix => "bugfix",
        WorkCategory::Refactor => "refactor",
        WorkCategory::Test => "test",
        WorkCategory::Documentation => "documentation",
        WorkCategory::Research => "research",
        WorkCategory::Others => "others",
    }
}

pub open spec fn priority_field(v: Option<Seq<char>>, id: Seq<char>) -> (Option<TodoPriority>, Seq<WarningModel>) {
    match v {
        None => (None, seq![warning_model("missing_priority"@, "Missing Priority field."@, Some(id))]),
        Some(x) => {
            let l = lower_text(trim(x));
            match priority_named(l) {
                Some(p) => (Some(p), Seq::empty()),
                None => (None, seq![warning_model(
                    "invalid_priority"@,
                    "Unsupported priority `"@ + l + "`; expected critical, high, medium, or low."@,
                    Some(id),
                )]),
            }
        },
    }
}

/// A missing category reads as `others`; an unknown one is reported.
pub open spec fn category_field(v: Option<Seq<char>>, id: Seq<char>) -> (Option<WorkCategory>, Seq<WarningModel>) {
    match v {
        None => (Some(WorkCategory::Others), Seq::empty()),
        Some(x) => {
            let l = lower_text(trim(x));
            match category_named(l) {
                Some(c) => (Some(c), Seq::empty()),
                None => (None, seq![warning_model(
                    "invalid_category"@,
                    "Unsupported category `"@ + l
                        + "`; expected feature, bugfix, refactor, test, documentation, research, or others."@,
                    Some(id),
                )]),
            }
        },
    }
}

/// A field that must be present and non-blank.
pub open spec fn required_field(v: Option<Seq<char>>, code: Seq<char>, message: Seq<char>, id: Seq<char>) -> (Option<Seq<char>>, Seq<WarningModel>) {
    match v {
        Some(x) if trim(x).len() > 0 => (Some(trim(x)), Seq::empty()),
        _ => (None, seq![warning_model(code, message, Some(id))]),
    }
}

pub open spec fn dependencies_field(v: Option<Seq<char>>, id: Seq<char>) -> (Seq<Seq<char>>, Seq<WarningModel>) {
    match v {
        Some(x) => id_list(x, id, "dependencies"@),
        None => (Seq::empty(), seq![warning_model("missing_dependencies"@, "Missing Dependencies field."@, Some(id))]),
    }
}

/// What one heading block contributes to a parsed document.
pub struct BlockOutcome {
    pub item: Option<TodoItemModel>,
    pub warnings: Seq<WarningModel>,
    pub preserved: Seq<Seq<char>>,
}

pub open spec fn opt_seq(o: Option<Seq<char>>) -> Seq<Seq<char>> {
    match o {
        Some(c) => seq![c],
        None => Seq::empty(),
    }
}

pub open spec fn todo_block(b: BlockModel) -> BlockOutcome {
    match todo_heading(b.heading) {
        None => BlockOutcome { item: None, warnings: Seq::empty(), preserved: opt_seq(preserved_block(b)) },
        Some((id, title, standard)) => {
            let w0 = if standard {
                Seq::<WarningModel>::empty()
            } else {
                seq![warning_model(
                    "nonstandard_todo_heading"@,
                    "TODO heading should use `## TODO-NNN: Title`."@,
                    Some(id),
                )]
            };
            let st = scan_lines(lines(b.body), id);
            let p = priority_field(lookup_field(st.fields, "priority"@), id);
            let c = category_field(lookup_field(st.fields, "category"@), id);
            let a = required_field(lookup_field(st.fields, "area"@), "missing_area"@, "Missing Area field."@, id);
            let r = required_field(lookup_field(st.fields, "rationale"@), "missing_rationale"@, "Missing Rationale field."@, id);
            let d = dependencies_field(lookup_field(st.fields, "dependencies"@), id);
            let ac = trim(join(st.acceptance, "\n"@));
            let wac = if ac.len() == 0 {
                seq![warning_model(
                    "missing_acceptance_criteria"@,
                    "Missing Acceptance Criteria field or body."@,
                    Some(id),
                )]
            } else {
                Seq::<WarningModel>::empty()
            };
            let warnings = w0 + st.warnings + p.1 + c.1 + a.1 + r.1 + d.1 + wac;
            if p.0 is Some && c.0 is Some && a.0 is Some && r.0 is Some && !is_blank(title) && ac.len() > 0 {
                BlockOutcome {
                    item: Some(TodoItemModel {
                        id,
                        title: trim(title),
                        priority: p.0.unwrap(),
                        category: c.0.unwrap(),
                        area: a.0.unwrap(),
                        dependencies: d.0,
                        rationale: r.0.unwrap(),
                        acceptance_criteria: ac,
                    }),
                    warnings,
                    preserved: Seq::empty(),
                }
            } else {
                BlockOutcome { item: None, warnings, preserved: seq![trim(b.raw)] }
            }
        },
    }
}

pub struct DocAcc {
    pub items: Seq<TodoItemModel>,
    pub warnings: Seq<WarningModel>,
    pub preserved: Seq<Seq<char>>,
}

pub open spec fn todo_blocks(bs: Seq<BlockModel>) -> DocAcc
    decreases bs.len(),
{
    if bs.len() == 0 {
        DocAcc { items: Seq::empty(), warnings: Seq::empty(), preserved: Seq::empty() }
    } else {
        let acc = todo_blocks(bs.drop_last());
        let o = todo_block(bs.last());
        DocAcc {
            items: match o.item {
                Some(it) => acc.items.push(it),
                None => acc.items,
            },
            warnings: acc.warnings + o.warnings,
            preserved: acc.preserved + o.preserved,
        }
    }
}

pub struct TodoDocModel {
    pub items: Seq<TodoItemModel>,
    pub warnings: Seq<WarningModel>,
    pub preserved_content: Option<Seq<char>>,
}

pub open spec fn preserved_warning() -> WarningModel {
    warning_model(
        "preserved_unrecognized_content"@,
        "Unrecognized source content is preserved for review."@,
        None,
    )
}

/// The document that `content` denotes.
pub open spec fn parse_todo(content: Seq<char>) -> TodoDocModel {
    let acc = todo_blocks(heading_blocks(normalize_newlines(content)));
    let ws = acc.warnings + todo_warnings(acc.items)
        + (if acc.preserved.len() > 0 { seq![preserved_warning()] } else { Seq::<WarningModel>::empty() });
    TodoDocModel { items: acc.items, warnings: dedup(ws), preserved_content: nonempty_join(acc.preserved) }
}

// ---------------------------------------------------------------------------
// Validation

pub open spec fn item_ids(items: Seq<TodoItemModel>) -> Seq<Seq<char>> {
    items.map_values(|it: TodoItemModel| it.id)
}

/// ID checks: malformed and repeated IDs.
pub open spec fn id_warnings(items: Seq<TodoItemModel>) -> Seq<WarningModel>
    decreases items.len(),
{
    if items.len() == 0 {
        Seq::empty()
    } else {
        let it = items.last();
        id_warnings(items.drop_last())
            + (if !is_todo_id(it.id) {
                seq![warning_model("invalid_todo_id"@, "TODO ID must use the form TODO-NNN."@, Some(it.id))]
            } else {
                Seq::<WarningModel>::empty()
            })
            + (if item_ids(items.drop_last()).contains(it.id) {
                seq![warning_model("duplicate_todo_id"@, "TODO ID is duplicated."@, Some(it.id))]
            } else {
                Seq::<WarningModel>::empty()
            })
    }
}

pub open spec fn dep_warnings_of(ids: Seq<Seq<char>>, id: Seq<char>, deps: Seq<Seq<char>>) -> Seq<WarningModel>
    decreases deps.len(),
{
    if deps.len() == 0 {
        Seq::empty()
    } else {
        let d = deps.last();
        dep_warnings_of(ids, id, deps.drop_last())
            + (if !ids.contains(d) {
                seq![warning_model(
                    "missing_dependency"@,
                    "Dependency "@ + d + " does not exist in this project."@,
                    Some(id),
                )]
            } else {
                Seq::<WarningModel>::empty()
            })
            + (if d == id {
                seq![warning_model("circular_dependency"@, "TODO depends on itself."@, Some(id))]
            } else {
                Seq::<WarningModel>::empty()
            })
    }
}

/// Dependency checks: dependencies on unknown IDs and on the item itself.
pub open spec fn dep_warnings(ids: Seq<Seq<char>>, items: Seq<TodoItemModel>) -> Seq<WarningModel>
    decreases items.len(),
{
    if items.len() == 0 {
        Seq::empty()
    } else {
        dep_warnings(ids, items.drop_last()) + dep_warnings_of(ids, items.last().id, items.last().dependencies)
    }
}

/// The dependencies recorded for `key` (the last item with that ID wins).
pub open spec fn graph_get(items: Seq<TodoItemModel>, key: Seq<char>) -> Option<Seq<Seq<char>>>
    decreases items.len(),
{
    if items.len() == 0 {
        None
    } else if items.last().id == key {
        Some(items.last().dependencies)
    } else {
        graph_get(items.drop_last(), key)
    }
}

/// Depth-first search from `cur` back to `origin` through known TODOs,
/// never entering an ID twice on the current path `path`.
pub open spec fn returns_to(items: Seq<TodoItemModel>, origin: Seq<char>, cur: Seq<char>, path: Seq<Seq<char>>) -> bool
    decreases items.len() + 1 - path.len(), 0int,
{
    if path.contains(cur) {
        cur == origin
    } else if path.len() > items.len() {
        false
    } else {
        match graph_get(items, cur) {
            None => false,
            Some(deps) => any_dependency_returns(items, origin, deps, 0, path.push(cur)),
        }
    }
}

pub open spec fn any_dependency_returns(
    items: Seq<TodoItemModel>,
    origin: Seq<char>,
    deps: Seq<Seq<char>>,
    k: int,
    path: Seq<Seq<char>>,
) -> bool
    decreases items.len() + 1 - path.len(), deps.len() + 1 - k,
{
    if k < 0 || k >= deps.len() || path.len() > items.len() + 1 {
        false
    } else {
        ||| deps[k] == origin
        ||| (graph_get(items, deps[k]) is Some && returns_to(items, origin, deps[k], path))
        ||| any_dependency_returns(items, origin, deps, k + 1, path)
    }
}

/// Cycle checks: each TODO that can reach itself through its dependencies.
pub open spec fn cycle_warnings(all: Seq<TodoItemModel>, items: Seq<TodoItemModel>) -> Seq<WarningModel>
    decreases items.len(),
{
    if items.len() == 0 {
        Seq::empty()
    } else {
        let id = items.last().id;
        cycle_warnings(all, items.drop_last())
            + (if returns_to(all, id, id, Seq::empty()) {
                seq![warning_model(
                    "circular_dependency"@,
                    "TODO participates in a circular dependency."@,
                    Some(id),
                )]
            } else {
                Seq::<WarningModel>::empty()
            })
    }
}

/// All validation warnings for a list of TODOs, without repeats.
pub open spec fn todo_warnings(items: Seq<TodoItemModel>) -> Seq<WarningModel> {
    dedup(id_warnings(items) + dep_warnings(item_ids(items), items) + cycle_warnings(items, items))
}


pub proof fn lemma_path_bound(p: Seq<Seq<char>>, ids: Seq<Seq<char>>)
    requires
        p.no_duplicates(),
        forall|i: int| 0 <= i < p.len() ==> ids.contains(#[trigger] p[i]),
    ensures
        p.len() <= ids.len(),
{
    p.unique_seq_to_set();
    ids.lemma_cardinality_of_set();
    assert(p.to_set().subset_of(ids.to_set())) by {
        assert forall|x: Seq<char>| p.to_set().contains(x) implies ids.to_set().contains(x) by {
            let i = choose|i: int| 0 <= i < p.len() && p[i] == x;
            assert(ids.contains(p[i]));
        }
    }
    vstd::set_lib::lemma_len_subset(p.to_set(), ids.to_set());
}

pub proof fn lemma_graph_get_key(items: Seq<TodoItemModel>, key: Seq<char>)
    requires
        graph_get(items, key) is Some,
    ensures
        item_ids(items).contains(key),
    decreases items.len(),
{
    if items.last().id == key {
        assert(item_ids(items)[items.len() - 1] == key);
    } else {
        lemma_graph_get_key(items.drop_last(), key);
        let i = choose|i: int| 0 <= i < item_ids(items.drop_last()).len() && item_ids(items.drop_last())[i] == key;
        assert(item_ids(items)[i] == key);
    }
}

/// Index of the last item with this ID.
fn graph_index(items: &[TodoItem], key: &String) -> (r: Option<usize>)
    ensures
        match r {
            Some(j) => j < items@.len() && graph_get(item_views(items@), key@) == Some(item_views(items@)[j as int].dependencies),
            None => graph_get(item_views(items@), key@) is None,
        },
{
    let mut j: usize = items.len();
    assert(item_views(items@).subrange(0, j as int) == item_views(items@));
    while j > 0
        invariant
            j <= items@.len(),
            graph_get(item_views(items@).subrange(0, j as int), key@) == graph_get(item_views(items@), key@),
        decreases j,
    {
        let ghost pre = item_views(items@).subrange(0, j as int);
        assert(pre.drop_last() == item_views(items@).subrange(0, j - 1));
        assert(pre.last() == items@[j - 1]@);
        if items[j - 1].id == *key {
            return Some(j - 1);
        }
        j -= 1;
    }
    None
}

/// `has_cycle`: whether a walk from `cur` through known TODOs gets back to
/// `origin` without entering an ID already on `path`.
fn returns_to_exec(items: &[TodoItem], origin: &String, cur: &String, path: &Vec<String>) -> (r: bool)
    requires
        strs(path@).no_duplicates(),
        forall|i: int| 0 <= i < path@.len() ==> item_ids(item_views(items@)).contains(#[trigger] strs(path@)[i]),
        item_ids(item_views(items@)).contains(cur@),
    ensures
        r == returns_to(item_views(items@), origin@, cur@, strs(path@)),
    decreases items@.len() + 1 - path@.len(),
{
    let ghost its = item_views(items@);
    let ghost ids = item_ids(its);
    assert(its.len() == items@.len());
    let mut k: usize = 0;
    while k < path.len()
        invariant
            k <= path@.len(),
            forall|m: int| 0 <= m < k ==> path@[m]@ != cur@,
        decreases path@.len() - k,
    {
        if path[k] == *cur {
            assert(strs(path@)[k as int] == cur@);
            assert(strs(path@).contains(cur@));
            return *cur == *origin;
        }
        k += 1;
    }
    assert(!strs(path@).contains(cur@)) by {
        if strs(path@).contains(cur@) {
            let m = choose|m: int| 0 <= m < strs(path@).len() && strs(path@)[m] == cur@;
            assert(path@[m]@ == cur@);
        }
    }
    let mut next: Vec<String> = crate::models::clone_strings(path);
    let ghost old_next = strs(next@);
    next.push(cur.clone());
    assert(strs(next@) =~= strs(path@).push(cur@));
    proof {
        assert(strs(next@).no_duplicates()) by {
            assert forall|a: int, b: int| 0 <= a < strs(next@).len() && 0 <= b < strs(next@).len() && a != b
                implies strs(next@)[a] != strs(next@)[b] by {
                if a < path@.len() && b < path@.len() {
                    assert(strs(next@)[a] == strs(path@)[a]);
                    assert(strs(next@)[b] == strs(path@)[b]);
                } else if a < path@.len() {
                    assert(strs(next@)[a] == strs(path@)[a]);
                } else if b < path@.len() {
                    assert(strs(next@)[b] == strs(path@)[b]);
                }
            }
        }
        assert forall|i: int| 0 <= i < strs(next@).len() implies ids.contains(#[trigger] strs(next@)[i]) by {
            if i < path@.len() {
                assert(strs(next@)[i] == strs(path@)[i]);
            }
        }
        lemma_path_bound(strs(next@), ids);
        assert(ids.len() == items@.len());
    }
    match graph_index(items, cur) {
        None => false,
        Some(j) => {
            let deps = &items[j].dependencies;
            let ghost dv = strs(deps@);
            assert(dv == its[j as int].dependencies);
            assert(returns_to(its, origin@, cur@, strs(path@)) == any_dependency_returns(its, origin@, dv, 0, strs(next@)));
            let mut m: usize = 0;
            while m < deps.len()
                invariant
                    its == item_views(items@),
                    ids == item_ids(its),
                    m <= deps@.len(),
                    dv == strs(deps@),
                    strs(next@) == strs(path@).push(cur@),
                    strs(next@).no_duplicates(),
                    forall|i: int| 0 <= i < next@.len() ==> ids.contains(#[trigger] strs(next@)[i]),
                    next@.len() <= items@.len(),
                    next@.len() == path@.len() + 1,
                    !strs(path@).contains(cur@),
                    graph_get(its, cur@) == Some(dv),
                    its.len() == items@.len(),
                    returns_to(its, origin@, cur@, strs(path@)) == any_dependency_returns(its, origin@, dv, 0, strs(next@)),
                    any_dependency_returns(its, origin@, dv, 0, strs(next@))
                        == any_dependency_returns(its, origin@, dv, m as int, strs(next@)),
                decreases deps@.len() - m,
            {
                let d = &deps[m];
                assert(dv[m as int] == d@);
                if *d == *origin {
                    return true;
                }
                match graph_index(items, d) {
                    Some(_) => {
                        proof {
                            lemma_graph_get_key(its, d@);
                        }
                        if returns_to_exec(items, origin, d, &next) {
                            return true;
                        }
                    },
                    None => {},
                }
                m += 1;
            }
            false
        },
    }
}

fn id_seen_before(items: &[TodoItem], i: usize) -> (r: bool)
    requires
        i < items@.len(),
    ensures
        r == item_ids(item_views(items@).subrange(0, i as int)).contains(items@[i as int].id@),
{
    let ghost pre = item_ids(item_views(items@).subrange(0, i as int));
    let mut j: usize = 0;
    while j < i
        invariant
            i < items@.len(),
            j <= i,
            pre == item_ids(item_views(items@).subrange(0, i as int)),
            forall|m: int| 0 <= m < j ==> pre[m] != items@[i as int].id@,
        decreases i - j,
    {
        assert(pre[j as int] == items@[j as int].id@);
        if items[j].id == items[i].id {
            return true;
        }
        j += 1;
    }
    false
}

fn id_known(items: &[TodoItem], d: &String) -> (r: bool)
    ensures
        r == item_ids(item_views(items@)).contains(d@),
{
    let ghost ids = item_ids(item_views(items@));
    let mut j: usize = 0;
    while j < items.len()
        invariant
            j <= items@.len(),
            ids == item_ids(item_views(items@)),
            forall|m: int| 0 <= m < j ==> ids[m] != d@,
        decreases items@.len() - j,
    {
        assert(ids[j as int] == items@[j as int].id@);
        if items[j].id == *d {
            return true;
        }
        j += 1;
    }
    false
}

/// `validate_todos`: malformed or repeated IDs, unknown or self dependencies,
/// and membership in dependency cycles.
pub fn validate_todos(items: &[TodoItem]) -> (r: Vec<ValidationWarning>)
    ensures
        warning_views(r@) == todo_warnings(item_views(items@)),
{
    let ghost its = item_views(items@);
    let ghost ids = item_ids(its);
    let mut ws: Vec<ValidationWarning> = Vec::new();
    let mut i: usize = 0;
    assert(warning_views(ws@) =~= id_warnings(its.subrange(0, 0)));
    while i < items.len()
        invariant
            i <= items@.len(),
            its == item_views(items@),
            warning_views(ws@) == id_warnings(its.subrange(0, i as int)),
        decreases items@.len() - i,
    {
        let ghost pre = its.subrange(0, i as int);
        assert(its.subrange(0, i + 1).drop_last() == pre);
        assert(its.subrange(0, i + 1).last() == items@[i as int]@);
        let id_chars = chars_of(items[i].id.as_str());
        let ghost w_before = warning_views(ws@);
        if !is_todo_id_exec(&id_chars) {
            let w = make_warning("invalid_todo_id", &lit("TODO ID must use the form TODO-NNN."), Some(&id_chars));
            ws.push(w);
        }
        let ghost w_mid = warning_views(ws@);
        assert(w_mid =~= w_before + (if !is_todo_id(items@[i as int].id@) {
            seq![warning_model("invalid_todo_id"@, "TODO ID must use the form TODO-NNN."@, Some(items@[i as int].id@))]
        } else {
            Seq::<WarningModel>::empty()
        }));
        if id_seen_before(items, i) {
            let w = make_warning("duplicate_todo_id", &lit("TODO ID is duplicated."), Some(&id_chars));
            ws.push(w);
        }
        assert(warning_views(ws@) =~= w_mid + (if item_ids(pre).contains(items@[i as int].id@) {
            seq![warning_model("duplicate_todo_id"@, "TODO ID is duplicated."@, Some(items@[i as int].id@))]
        } else {
            Seq::<WarningModel>::empty()
        }));
        i += 1;
    }
    assert(its.subrange(0, its.len() as int) == its);
    let ghost w1 = warning_views(ws@);
    let mut i: usize = 0;
    assert(dep_warnings(ids, its.subrange(0, 0)) =~= Seq::<WarningModel>::empty());
    assert(warning_views(ws@) =~= w1 + dep_warnings(ids, its.subrange(0, 0)));
    while i < items.len()
        invariant
            i <= items@.len(),
            its == item_views(items@),
            ids == item_ids(its),
            warning_views(ws@) == w1 + dep_warnings(ids, its.subrange(0, i as int)),
        decreases items@.len() - i,
    {
        let ghost pre = its.subrange(0, i as int);
        assert(its.subrange(0, i + 1).drop_last() == pre);
        assert(its.subrange(0, i + 1).last() == items@[i as int]@);
        let id_chars = chars_of(items[i].id.as_str());
        let deps = &items[i].dependencies;
        let ghost dv = strs(deps@);
        let ghost base = warning_views(ws@);
        let mut k: usize = 0;
        assert(dep_warnings_of(ids, items@[i as int].id@, dv.subrange(0, 0)) =~= Seq::<WarningModel>::empty());
        assert(warning_views(ws@) =~= base + dep_warnings_of(ids, items@[i as int].id@, dv.subrange(0, 0)));
        while k < deps.len()
            invariant
                i < items@.len(),
                k <= deps@.len(),
                dv == strs(deps@),
                id_chars@ == items@[i as int].id@,
                ids == item_ids(item_views(items@)),
                warning_views(ws@) == base + dep_warnings_of(ids, items@[i as int].id@, dv.subrange(0, k as int)),
            decreases deps@.len() - k,
        {
            assert(dv.subrange(0, k + 1).drop_last() == dv.subrange(0, k as int));
            assert(dv.subrange(0, k + 1).last() == deps@[k as int]@);
            let d = &deps[k];
            let ghost wb = warning_views(ws@);
            if !id_known(items, d) {
                let mut msg = lit("Dependency ");
                push_str(&mut msg, d.as_str());
                push_str(&mut msg, " does not exist in this project.");
                let w = make_warning("missing_dependency", &msg, Some(&id_chars));
                ws.push(w);
            }
            let ghost wm = warning_views(ws@);
            assert(wm =~= wb + (if !ids.contains(d@) {
                seq![warning_model(
                    "missing_dependency"@,
                    "Dependency "@ + d@ + " does not exist in this project."@,
                    Some(items@[i as int].id@),
                )]
            } else {
                Seq::<WarningModel>::empty()
            }));
            if *d == items[i].id {
                let w = make_warning("circular_dependency", &lit("TODO depends on itself."), Some(&id_chars));
                ws.push(w);
            }
            assert(warning_views(ws@) =~= wm + (if d@ == items@[i as int].id@ {
                seq![warning_model("circular_dependency"@, "TODO depends on itself."@, Some(items@[i as int].id@))]
            } else {
                Seq::<WarningModel>::empty()
            }));
            k += 1;
        }
        assert(dv.subrange(0, dv.len() as int) == dv);
        assert(dv == items@[i as int]@.dependencies);
        i += 1;
    }
    assert(its.subrange(0, its.len() as int) == its);
    let ghost w2 = warning_views(ws@);
    let mut i: usize = 0;
    assert(warning_views(ws@) =~= w2 + cycle_warnings(its, its.subrange(0, 0)));
    while i < items.len()
        invariant
            i <= items@.len(),
            its == item_views(items@),
            ids == item_ids(its),
            warning_views(ws@) == w2 + cycle_warnings(its, its.subrange(0, i as int)),
        decreases items@.len() - i,
    {
        let ghost pre = its.subrange(0, i as int);
        assert(its.subrange(0, i + 1).drop_last() == pre);
        assert(its.subrange(0, i + 1).last() == items@[i as int]@);
        let empty: Vec<String> = Vec::new();
        assert(strs(empty@) =~= Seq::<Seq<char>>::empty());
        assert(ids[i as int] == items@[i as int].id@);
        let ghost wb = warning_views(ws@);
        if returns_to_exec(items, &items[i].id, &items[i].id, &empty) {
            let id_chars = chars_of(items[i].id.as_str());
            let w = make_warning(
                "circular_dependency",
                &lit("TODO participates in a circular dependency."),
                Some(&id_chars),
            );
            ws.push(w);
        }
        assert(warning_views(ws@) =~= wb + (if returns_to(its, items@[i as int].id@, items@[i as int].id@, Seq::empty()) {
            seq![warning_model(
                "circular_dependency"@,
                "TODO participates in a circular dependency."@,
                Some(items@[i as int].id@),
            )]
        } else {
            Seq::<WarningModel>::empty()
        }));
        i += 1;
    }
    assert(its.subrange(0, its.len() as int) == its);
    deduplicate_warnings(ws)
}


pub fn append_warnings(dst: &mut Vec<ValidationWarning>, src: Vec<ValidationWarning>)
    ensures
        warning_views(final(dst)@) == warning_views(old(dst)@) + warning_views(src@),
{
    let mut i: usize = 0;
    while i < src.len()
        invariant
            i <= src@.len(),
            warning_views(dst@) == warning_views(old(dst)@) + warning_views(src@).subrange(0, i as int),
        decreases src@.len() - i,
    {
        let ghost before = warning_views(dst@);
        dst.push(src[i].duplicate());
        assert(warning_views(dst@) =~= before.push(src@[i as int]@));
        assert(warning_views(src@).subrange(0, i + 1) =~= warning_views(src@).subrange(0, i as int).push(src@[i as int]@));
        i += 1;
    }
    assert(warning_views(src@).subrange(0, src@.len() as int) == warning_views(src@));
}

fn one_warning(code: &str, message: &str, id: &[char]) -> (r: Vec<ValidationWarning>)
    ensures
        warning_views(r@) == seq![warning_model(code@, message@, Some(id@))],
{
    let mut r: Vec<ValidationWarning> = Vec::new();
    r.push(make_warning(code, &lit(message), Some(id)));
    assert(warning_views(r@) =~= seq![warning_model(code@, message@, Some(id@))]);
    r
}

fn no_warnings() -> (r: Vec<ValidationWarning>)
    ensures
        warning_views(r@) == Seq::<WarningModel>::empty(),
{
    let r: Vec<ValidationWarning> = Vec::new();
    assert(warning_views(r@) =~= Seq::<WarningModel>::empty());
    r
}

fn priority_field_exec(v: Option<Vec<char>>, id: &[char]) -> (r: (Option<TodoPriority>, Vec<ValidationWarning>))
    ensures
        r.0 == priority_field(match v { Some(x) => Some(x@), None => None }, id@).0,
        warning_views(r.1@) == priority_field(match v { Some(x) => Some(x@), None => None }, id@).1,
{
    match v {
        None => (None, one_warning("missing_priority", "Missing Priority field.", id)),
        Some(x) => {
            let l = to_lowercase(&trim_chars(&x));
            match priority_named_exec(&l) {
                Some(p) => (Some(p), no_warnings()),
                None => {
                    let mut msg = lit("Unsupported priority `");
                    push_all(&mut msg, &l);
                    push_str(&mut msg, "`; expected critical, high, medium, or low.");
                    let mut r: Vec<ValidationWarning> = Vec::new();
                    r.push(make_warning("invalid_priority", &msg, Some(id)));
                    assert(warning_views(r@) =~= priority_field(Some(x@), id@).1);
                    (None, r)
                },
            }
        },
    }
}

fn category_field_exec(v: Option<Vec<char>>, id: &[char]) -> (r: (Option<WorkCategory>, Vec<ValidationWarning>))
    ensures
        r.0 == category_field(match v { Some(x) => Some(x@), None => None }, id@).0,
        warning_views(r.1@) == category_field(match v { Some(x) => Some(x@), None => None }, id@).1,
{
    match v {
        None => (Some(WorkCategory::Others), no_warnings()),
        Some(x) => {
            let l = to_lowercase(&trim_chars(&x));
            match category_named_exec(&l) {
                Some(c) => (Some(c), no_warnings()),
                None => {
                    let mut msg = lit("Unsupported category `");
                    push_all(&mut msg, &l);
                    push_str(&mut msg, "`; expected feature, bugfix, refactor, test, documentation, research, or others.");
                    let mut r: Vec<ValidationWarning> = Vec::new();
                    r.push(make_warning("invalid_category", &msg, Some(id)));
                    assert(warning_views(r@) =~= category_field(Some(x@), id@).1);
                    (None, r)
                },
            }
        },
    }
}

fn required_field_exec(v: Option<Vec<char>>, code: &str, message: &str, id: &[char]) -> (r: (Option<Vec<char>>, Vec<ValidationWarning>))
    ensures
        match r.0 {
            Some(x) => required_field(match v { Some(x) => Some(x@), None => None }, code@, message@, id@).0 == Some(x@),
            None => required_field(match v { Some(x) => Some(x@), None => None }, code@, message@, id@).0 is None,
        },
        warning_views(r.1@) == required_field(match v { Some(x) => Some(x@), None => None }, code@, message@, id@).1,
{
    match v {
        Some(x) => {
            let t = trim_chars(&x);
            if t.len() > 0 {
                (Some(t), no_warnings())
            } else {
                (None, one_warning(code, message, id))
            }
        },
        None => (None, one_warning(code, message, id)),
    }
}

fn dependencies_field_exec(v: Option<Vec<char>>, id: &[char]) -> (r: (Vec<Vec<char>>, Vec<ValidationWarning>))
    ensures
        views(r.0@) == dependencies_field(match v { Some(x) => Some(x@), None => None }, id@).0,
        warning_views(r.1@) == dependencies_field(match v { Some(x) => Some(x@), None => None }, id@).1,
{
    match v {
        Some(x) => parse_id_list(&x, id, "dependencies"),
        None => {
            let none: Vec<Vec<char>> = Vec::new();
            assert(views(none@) =~= Seq::<Seq<char>>::empty());
            (none, one_warning("missing_dependencies", "Missing Dependencies field.", id))
        },
    }
}

pub fn to_strings(v: &Vec<Vec<char>>) -> (r: Vec<String>)
    ensures
        strs(r@) == views(v@),
{
    let mut r: Vec<String> = Vec::new();
    let mut i: usize = 0;
    while i < v.len()
        invariant
            i <= v@.len(),
            strs(r@) =~= views(v@).subrange(0, i as int),
        decreases v@.len() - i,
    {
        let ghost before = strs(r@);
        r.push(string_of(&v[i]));
        assert(strs(r@) =~= before.push(v@[i as int]@));
        i += 1;
    }
    assert(views(v@).subrange(0, v@.len() as int) == views(v@));
    r
}

/// The body-line scan of a TODO block.
fn scan_body(body: &[char], id: &[char]) -> (r: (Vec<(Vec<char>, Vec<char>)>, Vec<Vec<char>>, Vec<ValidationWarning>))
    ensures
        field_views(r.0@) == scan_lines(lines(body@), id@).fields,
        views(r.1@) == scan_lines(lines(body@), id@).acceptance,
        warning_views(r.2@) == scan_lines(lines(body@), id@).warnings,
{
    let ls = lines_of(body);
    let ghost lv = views(ls@);
    let mut fields: Vec<(Vec<char>, Vec<char>)> = Vec::new();
    let mut acceptance: Vec<Vec<char>> = Vec::new();
    let mut in_acc = false;
    let mut warnings: Vec<ValidationWarning> = Vec::new();
    let mut i: usize = 0;
    assert(field_views(fields@) =~= Seq::<(Seq<char>, Seq<char>)>::empty());
    assert(views(acceptance@) =~= Seq::<Seq<char>>::empty());
    assert(warning_views(warnings@) =~= Seq::<WarningModel>::empty());
    while i < ls.len()
        invariant
            i <= ls@.len(),
            lv == views(ls@),
            ({
                let st = scan_lines(lv.subrange(0, i as int), id@);
                &&& field_views(fields@) == st.fields
                &&& views(acceptance@) == st.acceptance
                &&& in_acc == st.in_acceptance
                &&& warning_views(warnings@) == st.warnings
            }),
        decreases ls@.len() - i,
    {
        let ghost pre = lv.subrange(0, i as int);
        assert(lv.subrange(0, i + 1).drop_last() == pre);
        assert(lv.subrange(0, i + 1).last() == ls@[i as int]@);
        let line = &ls[i];
        let ghost fv = field_views(fields@);
        let ghost av = views(acceptance@);
        let ghost wv = warning_views(warnings@);
        match parse_field_line(line) {
            Some((key, value)) => {
                if str_eq(&key, "acceptance criteria") {
                    in_acc = true;
                    if value.len() > 0 {
                        acceptance.push(value);
                        assert(views(acceptance@) =~= av.push(value@));
                    }
                } else if !in_acc {
                    fields.push((key, value));
                    assert(field_views(fields@) =~= fv.push((key@, value@)));
                } else {
                    acceptance.push(copy_range(line, 0, line.len()));
                    assert(line@.subrange(0, line@.len() as int) == line@);
                    assert(views(acceptance@) =~= av.push(line@));
                }
            },
            None => {
                if in_acc {
                    acceptance.push(copy_range(line, 0, line.len()));
                    assert(line@.subrange(0, line@.len() as int) == line@);
                    assert(views(acceptance@) =~= av.push(line@));
                } else if !is_blank_exec(line) {
                    warnings.push(make_warning(
                        "unrecognized_todo_content",
                        &lit("Unrecognized content was preserved with this TODO."),
                        Some(id),
                    ));
                    assert(warning_views(warnings@) =~= wv.push(unrecognized_warning(id@)));
                    let mut kept = lit("<!-- Projector preserved: ");
                    push_all(&mut kept, line);
                    push_str(&mut kept, " -->");
                    acceptance.push(kept);
                    assert(views(acceptance@) =~= av.push("<!-- Projector preserved: "@ + line@ + " -->"@));
                }
            },
        }
        i += 1;
    }
    assert(lv.subrange(0, lv.len() as int) == lv);
    (fields, acceptance, warnings)
}

/// What one heading block contributes: the parsed item, its warnings, and
/// any text kept verbatim.
pub fn todo_block_exec(b: &HeadingBlock) -> (r: (Option<TodoItem>, Vec<ValidationWarning>, Vec<Vec<char>>))
    ensures
        match r.0 {
            Some(it) => todo_block(b@).item == Some(it@),
            None => todo_block(b@).item is None,
        },
        warning_views(r.1@) == todo_block(b@).warnings,
        views(r.2@) == todo_block(b@).preserved,
{
    match parse_todo_heading(&b.heading) {
        None => {
            let mut kept: Vec<Vec<char>> = Vec::new();
            match preserved_block_exec(b) {
                Some(c) => {
                    kept.push(c);
                },
                None => {},
            }
            assert(views(kept@) =~= todo_block(b@).preserved);
            (None, no_warnings(), kept)
        },
        Some((id, title, standard)) => {
            let ghost st = scan_lines(lines(b.body@), id@);
            let ghost expected = todo_block(b@);
            let mut warnings: Vec<ValidationWarning> = Vec::new();
            if !standard {
                warnings.push(make_warning(
                    "nonstandard_todo_heading",
                    &lit("TODO heading should use `## TODO-NNN: Title`."),
                    Some(&id),
                ));
            }
            let ghost w0 = warning_views(warnings@);
            assert(w0 =~= (if standard {
                Seq::<WarningModel>::empty()
            } else {
                seq![warning_model(
                    "nonstandard_todo_heading"@,
                    "TODO heading should use `## TODO-NNN: Title`."@,
                    Some(id@),
                )]
            }));
            let (fields, acceptance, scan_warnings) = scan_body(&b.body, &id);
            append_warnings(&mut warnings, scan_warnings);
            let ghost w1 = warning_views(warnings@);
            assert(w1 == w0 + st.warnings);
            let lp = lookup_field_exec(&fields, "priority");
            let ghost gp = priority_field(lookup_field(st.fields, "priority"@), id@);
            let (priority, wp) = priority_field_exec(lp, &id);
            assert(warning_views(wp@) == gp.1);
            append_warnings(&mut warnings, wp);
            let ghost w2 = warning_views(warnings@);
            assert(w2 == w1 + gp.1);
            let lc = lookup_field_exec(&fields, "category");
            let ghost gc = category_field(lookup_field(st.fields, "category"@), id@);
            let (category, wc) = category_field_exec(lc, &id);
            append_warnings(&mut warnings, wc);
            let ghost w3 = warning_views(warnings@);
            assert(w3 == w2 + gc.1);
            let la = lookup_field_exec(&fields, "area");
            let ghost ga = required_field(lookup_field(st.fields, "area"@), "missing_area"@, "Missing Area field."@, id@);
            let (area, wa) = required_field_exec(la, "missing_area", "Missing Area field.", &id);
            append_warnings(&mut warnings, wa);
            let ghost w4 = warning_views(warnings@);
            assert(w4 == w3 + ga.1);
            let lr = lookup_field_exec(&fields, "rationale");
            let ghost gr = required_field(lookup_field(st.fields, "rationale"@), "missing_rationale"@, "Missing Rationale field."@, id@);
            let (rationale, wr) = required_field_exec(lr, "missing_rationale", "Missing Rationale field.", &id);
            append_warnings(&mut warnings, wr);
            let ghost w5 = warning_views(warnings@);
            assert(w5 == w4 + gr.1);
            let ld = lookup_field_exec(&fields, "dependencies");
            let ghost gd = dependencies_field(lookup_field(st.fields, "dependencies"@), id@);
            let (deps, wd) = dependencies_field_exec(ld, &id);
            append_warnings(&mut warnings, wd);
            let ghost w6 = warning_views(warnings@);
            assert(w6 == w5 + gd.1);
            let ac = trim_chars(&join_chars(&acceptance, "\n"));
            if ac.len() == 0 {
                warnings.push(make_warning(
                    "missing_acceptance_criteria",
                    &lit("Missing Acceptance Criteria field or body."),
                    Some(&id),
                ));
            }
            let ghost wac = if ac@.len() == 0 {
                seq![warning_model(
                    "missing_acceptance_criteria"@,
                    "Missing Acceptance Criteria field or body."@,
                    Some(id@),
                )]
            } else {
                Seq::<WarningModel>::empty()
            };
            assert(warning_views(warnings@) =~= w6 + wac);
            assert(warning_views(warnings@) =~= expected.warnings);
            let title_blank = is_blank_exec(&title);
            match (priority, category, area, rationale) {
                (Some(p), Some(c), Some(a), Some(r)) => {
                    if !title_blank && ac.len() > 0 {
                        let item = TodoItem {
                            id: string_of(&id),
                            title: string_of(&trim_chars(&title)),
                            priority: p,
                            category: c,
                            area: string_of(&a),
                            dependencies: to_strings(&deps),
                            rationale: string_of(&r),
                            acceptance_criteria: string_of(&ac),
                        };
                        let kept: Vec<Vec<char>> = Vec::new();
                        assert(views(kept@) =~= expected.preserved);
                        assert(expected.item == Some(item@));
                        return (Some(item), warnings, kept);
                    }
                },
                _ => {},
            }
            let mut kept: Vec<Vec<char>> = Vec::new();
            kept.push(trim_chars(&b.raw));
            assert(views(kept@) =~= expected.preserved);
            (None, warnings, kept)
        },
    }
}

pub open spec fn todo_doc_model(d: TodoDocument) -> TodoDocModel {
    TodoDocModel {
        items: item_views(d.items@),
        warnings: warning_views(d.warnings@),
        preserved_content: opt_str(d.preserved_content),
    }
}

/// `parse_todo_document`: reads `TODO.md` text into structured items. Entries
/// that cannot be read completely are kept verbatim and reported, never dropped.
pub fn parse_todo_document(content: &str) -> (d: TodoDocument)
    ensures
        todo_doc_model(d) == parse_todo(content@),
        d.relative_path is None,
{
    let raw = chars_of(content);
    let normalized = normalize_newlines_exec(&raw);
    let blocks = split_heading_blocks(&normalized);
    let ghost bv = block_views(blocks@);
    let mut items: Vec<TodoItem> = Vec::new();
    let mut warnings: Vec<ValidationWarning> = Vec::new();
    let mut preserved: Vec<Vec<char>> = Vec::new();
    let mut i: usize = 0;
    assert(item_views(items@) =~= Seq::<TodoItemModel>::empty());
    assert(warning_views(warnings@) =~= Seq::<WarningModel>::empty());
    assert(views(preserved@) =~= Seq::<Seq<char>>::empty());
    while i < blocks.len()
        invariant
            i <= blocks@.len(),
            bv == block_views(blocks@),
            ({
                let acc = todo_blocks(bv.subrange(0, i as int));
                &&& item_views(items@) == acc.items
                &&& warning_views(warnings@) == acc.warnings
                &&& views(preserved@) == acc.preserved
            }),
        decreases blocks@.len() - i,
    {
        assert(bv.subrange(0, i + 1).drop_last() == bv.subrange(0, i as int));
        assert(bv.subrange(0, i + 1).last() == blocks@[i as int]@);
        let (item, ws, kept) = todo_block_exec(&blocks[i]);
        let ghost iv = item_views(items@);
        let ghost pv = views(preserved@);
        match item {
            Some(it) => {
                items.push(it);
                assert(item_views(items@) =~= iv.push(it@));
            },
            None => {},
        }
        append_warnings(&mut warnings, ws);
        let mut k: usize = 0;
        while k < kept.len()
            invariant
                k <= kept@.len(),
                views(preserved@) == pv + views(kept@).subrange(0, k as int),
            decreases kept@.len() - k,
        {
            let ghost before = views(preserved@);
            preserved.push(copy_range(&kept[k], 0, kept[k].len()));
            assert(kept@[k as int]@.subrange(0, kept@[k as int]@.len() as int) == kept@[k as int]@);
            assert(views(preserved@) =~= before.push(kept@[k as int]@));
            assert(views(kept@).subrange(0, k + 1) =~= views(kept@).subrange(0, k as int).push(kept@[k as int]@));
            k += 1;
        }
        assert(views(kept@).subrange(0, kept@.len() as int) == views(kept@));
        i += 1;
    }
    assert(bv.subrange(0, bv.len() as int) == bv);
    let vw = validate_todos(&items);
    append_warnings(&mut warnings, vw);
    if preserved.len() > 0 {
        let ghost before = warning_views(warnings@);
        warnings.push(make_warning(
            "preserved_unrecognized_content",
            &lit("Unrecognized source content is preserved for review."),
            None,
        ));
        assert(warning_views(warnings@) =~= before.push(preserved_warning()));
    }
    let ghost acc = todo_blocks(bv);
    assert(warning_views(warnings@) =~= acc.warnings + todo_warnings(acc.items)
        + (if acc.preserved.len() > 0 { seq![preserved_warning()] } else { Seq::<WarningModel>::empty() }));
    TodoDocument {
        relative_path: None,
        items,
        warnings: deduplicate_warnings(warnings),
        preserved_content: nonempty_join_exec(&preserved),
    }
}


// ---------------------------------------------------------------------------
// Rendering

/// Lexicographic order on texts by character code (the order of `str::cmp`).
pub open spec fn text_lt(a: Seq<char>, b: Seq<char>) -> bool
    decreases a.len(),
{
    if b.len() == 0 {
        false
    } else if a.len() == 0 {
        true
    } else if a[0] != b[0] {
        a[0] < b[0]
    } else {
        text_lt(a.drop_first(), b.drop_first())
    }
}

pub fn text_lt_exec(a: &[char], b: &[char]) -> (r: bool)
    ensures
        r == text_lt(a@, b@),
{
    let mut i: usize = 0;
    assert(a@.subrange(0, a@.len() as int) == a@);
    assert(b@.subrange(0, b@.len() as int) == b@);
    while i < a.len() && i < b.len() && a[i] == b[i]
        invariant
            i <= a@.len(),
            i <= b@.len(),
            text_lt(a@.subrange(i as int, a@.len() as int), b@.subrange(i as int, b@.len() as int)) == text_lt(a@, b@),
        decreases a@.len() - i,
    {
        let ghost sa = a@.subrange(i as int, a@.len() as int);
        let ghost sb = b@.subrange(i as int, b@.len() as int);
        assert(sa.drop_first() == a@.subrange(i + 1, a@.len() as int));
        assert(sb.drop_first() == b@.subrange(i + 1, b@.len() as int));
        i += 1;
    }
    let ghost sa = a@.subrange(i as int, a@.len() as int);
    let ghost sb = b@.subrange(i as int, b@.len() as int);
    if i == b.len() {
        false
    } else if i == a.len() {
        true
    } else {
        assert(sa[0] == a@[i as int] && sb[0] == b@[i as int]);
        a[i] < b[i]
    }
}

/// Position before the first element whose ID sorts after `x`'s.
pub open spec fn insert_pos_from(sorted: Seq<TodoItemModel>, x: TodoItemModel, i: int) -> int
    decreases sorted.len() - i,
{
    if i < 0 || i >= sorted.len() {
        sorted.len() as int
    } else if text_lt(x.id, sorted[i].id) {
        i
    } else {
        insert_pos_from(sorted, x, i + 1)
    }
}

pub proof fn lemma_insert_pos(sorted: Seq<TodoItemModel>, x: TodoItemModel, i: int)
    requires
        0 <= i <= sorted.len(),
    ensures
        i <= insert_pos_from(sorted, x, i) <= sorted.len(),
    decreases sorted.len() - i,
{
    if i < sorted.len() && !text_lt(x.id, sorted[i].id) {
        lemma_insert_pos(sorted, x, i + 1);
    }
}

/// Items ordered by ID; items with equal IDs keep their order.
pub open spec fn sort_by_id(s: Seq<TodoItemModel>) -> Seq<TodoItemModel>
    decreases s.len(),
{
    if s.len() == 0 {
        s
    } else {
        let sorted = sort_by_id(s.drop_last());
        sorted.insert(insert_pos_from(sorted, s.last(), 0), s.last())
    }
}

pub proof fn lemma_sort_len(s: Seq<TodoItemModel>)
    ensures
        sort_by_id(s).len() == s.len(),
    decreases s.len(),
{
    if s.len() > 0 {
        lemma_sort_len(s.drop_last());
        lemma_insert_pos(sort_by_id(s.drop_last()), s.last(), 0);
    }
}

fn id_lt_at(x: &[char], sorted: &Vec<TodoItem>, p: usize) -> (r: bool)
    requires
        p < sorted@.len(),
    ensures
        r == text_lt(x@, sorted@[p as int].id@),
{
    let pid = chars_of(sorted[p].id.as_str());
    text_lt_exec(x, &pid)
}

pub fn sort_items_by_id(items: &Vec<TodoItem>) -> (r: Vec<TodoItem>)
    ensures
        item_views(r@) == sort_by_id(item_views(items@)),
{
    let mut sorted: Vec<TodoItem> = Vec::new();
    let mut i: usize = 0;
    assert(item_views(items@).subrange(0, 0) =~= Seq::<TodoItemModel>::empty());
    assert(item_views(sorted@) =~= Seq::<TodoItemModel>::empty());
    while i < items.len()
        invariant
            i <= items@.len(),
            item_views(sorted@) == sort_by_id(item_views(items@).subrange(0, i as int)),
        decreases items@.len() - i,
    {
        let ghost pre = item_views(items@).subrange(0, i as int);
        assert(item_views(items@).subrange(0, i + 1).drop_last() == pre);
        assert(item_views(items@).subrange(0, i + 1).last() == items@[i as int]@);
        let ghost sv = item_views(sorted@);
        let x = items[i].duplicate();
        let xid = chars_of(x.id.as_str());
        let mut p: usize = 0;
        proof {
            lemma_insert_pos(sv, x@, 0);
        }
        while p < sorted.len() && !id_lt_at(&xid, &sorted, p)
            invariant
                p <= sorted@.len(),
                sv == item_views(sorted@),
                xid@ == x@.id,
                insert_pos_from(sv, x@, p as int) == insert_pos_from(sv, x@, 0),
            decreases sorted@.len() - p,
        {
            p += 1;
        }
        assert(insert_pos_from(sv, x@, p as int) == p as int);
        sorted.insert(p, x);
        assert(item_views(sorted@) =~= sv.insert(p as int, x@));
        i += 1;
    }
    assert(item_views(items@).subrange(0, items@.len() as int) == item_views(items@));
    sorted
}

pub open spec fn dependencies_text(deps: Seq<Seq<char>>) -> Seq<char> {
    if deps.len() == 0 {
        "none"@
    } else {
        join(deps, ", "@)
    }
}

/// The Markdown of one TODO.
pub open spec fn render_todo_item(it: TodoItemModel) -> Seq<char> {
    "## "@ + it.id + ": "@ + trim(it.title) + "\n\n- Priority: "@ + priority_name(it.priority)
        + "\n- Category: "@ + category_name(it.category) + "\n- Area: "@ + trim(it.area)
        + "\n- Dependencies: "@ + dependencies_text(it.dependencies) + "\n- Rationale: "@
        + trim(it.rationale) + "\n\n-Acceptance Criteria:\n"@ + trim(it.acceptance_criteria) + "\n"@
}

/// The trailing section that keeps unrecognized source text.
pub open spec fn preserved_section(out: Seq<char>, preserved: Option<Seq<char>>, intro: Seq<char>) -> Seq<char> {
    match preserved {
        Some(c) if !is_blank(c) => {
            (if out.len() > 0 { out + "\n"@ } else { out }) + "## Preserved Unrecognized Content\n\n"@ + intro
                + "\n\n"@ + trim(c) + "\n"@
        },
        _ => out,
    }
}

/// The `TODO.md` text for a document: items sorted by ID, then any preserved text.
pub open spec fn render_todo(items: Seq<TodoItemModel>, preserved: Option<Seq<char>>) -> Seq<char> {
    preserved_section(
        join(sort_by_id(items).map_values(|it: TodoItemModel| render_todo_item(it)), "\n"@),
        preserved,
        crate::markdown::todo_intro(),
    )
}

fn join_deps(deps: &Vec<String>) -> (r: Vec<char>)
    ensures
        r@ == dependencies_text(strs(deps@)),
{
    if deps.len() == 0 {
        return lit("none");
    }
    let mut parts: Vec<Vec<char>> = Vec::new();
    let mut i: usize = 0;
    while i < deps.len()
        invariant
            i <= deps@.len(),
            views(parts@) =~= strs(deps@).subrange(0, i as int),
        decreases deps@.len() - i,
    {
        let ghost before = views(parts@);
        parts.push(chars_of(deps[i].as_str()));
        assert(views(parts@) =~= before.push(deps@[i as int]@));
        i += 1;
    }
    assert(strs(deps@).subrange(0, deps@.len() as int) == strs(deps@));
    join_chars(&parts, ", ")
}

pub fn render_todo_item_exec(it: &TodoItem) -> (r: Vec<char>)
    ensures
        r@ == render_todo_item(it@),
{
    let mut out = lit("## ");
    push_str(&mut out, it.id.as_str());
    push_str(&mut out, ": ");
    push_all(&mut out, &trim_chars(&chars_of(it.title.as_str())));
    push_str(&mut out, "\n\n- Priority: ");
    push_str(&mut out, priority_name_exec(it.priority));
    push_str(&mut out, "\n- Category: ");
    push_str(&mut out, category_name_exec(it.category));
    push_str(&mut out, "\n- Area: ");
    push_all(&mut out, &trim_chars(&chars_of(it.area.as_str())));
    push_str(&mut out, "\n- Dependencies: ");
    push_all(&mut out, &join_deps(&it.dependencies));
    push_str(&mut out, "\n- Rationale: ");
    push_all(&mut out, &trim_chars(&chars_of(it.rationale.as_str())));
    push_str(&mut out, "\n\n-Acceptance Criteria:\n");
    push_all(&mut out, &trim_chars(&chars_of(it.acceptance_criteria.as_str())));
    push_str(&mut out, "\n");
    out
}

pub fn preserved_section_exec(out: Vec<char>, preserved: &Option<String>, intro: &str) -> (r: Vec<char>)
    ensures
        r@ == preserved_section(out@, opt_str(*preserved), intro@),
{
    match preserved {
        Some(c) => {
            let cv = chars_of(c.as_str());
            if is_blank_exec(&cv) {
                return out;
            }
            let mut out = out;
            let ghost o0 = out@;
            if out.len() > 0 {
                out.push('\n');
                assert(out@ =~= o0 + "\n"@) by {
                    reveal_strlit("\n");
                }
            }
            push_str(&mut out, "## Preserved Unrecognized Content\n\n");
            push_str(&mut out, intro);
            push_str(&mut out, "\n\n");
            push_all(&mut out, &trim_chars(&cv));
            push_str(&mut out, "\n");
            out
        },
        None => out,
    }
}

/// `render_todo_document`: the deterministic `TODO.md` text of a document.
pub fn render_todo_document(document: &TodoDocument) -> (r: String)
    ensures
        r@ == render_todo(item_views(document.items@), opt_str(document.preserved_content)),
{
    let sorted = sort_items_by_id(&document.items);
    let ghost sv = item_views(sorted@);
    let mut texts: Vec<Vec<char>> = Vec::new();
    let mut i: usize = 0;
    while i < sorted.len()
        invariant
            i <= sorted@.len(),
            sv == item_views(sorted@),
            views(texts@) =~= sv.subrange(0, i as int).map_values(|it: TodoItemModel| render_todo_item(it)),
        decreases sorted@.len() - i,
    {
        let ghost before = views(texts@);
        texts.push(render_todo_item_exec(&sorted[i]));
        assert(views(texts@) =~= before.push(render_todo_item(sorted@[i as int]@)));
        i += 1;
    }
    assert(sv.subrange(0, sv.len() as int) == sv);
    let out = join_chars(&texts, "\n");
    let out = preserved_section_exec(
        out,
        &document.preserved_content,
        "The following source content was not recognized as structured project state and is preserved verbatim.",
    );
    string_of(&out)
}


// ---------------------------------------------------------------------------
// Laws

pub open spec fn cycle_warning(id: Seq<char>) -> WarningModel {
    warning_model("circular_dependency"@, "TODO participates in a circular dependency."@, Some(id))
}

proof fn lemma_cycle_warnings_contain(all: Seq<TodoItemModel>, items: Seq<TodoItemModel>, k: int)
    requires
        0 <= k < items.len(),
        returns_to(all, items[k].id, items[k].id, Seq::empty()),
    ensures
        cycle_warnings(all, items).contains(cycle_warning(items[k].id)),
    decreases items.len(),
{
    let prev = cycle_warnings(all, items.drop_last());
    let id = items.last().id;
    let extra = if returns_to(all, id, id, Seq::empty()) {
        seq![cycle_warning(id)]
    } else {
        Seq::<WarningModel>::empty()
    };
    assert(cycle_warnings(all, items) == prev + extra);
    if k == items.len() - 1 {
        assert((prev + extra)[prev.len() as int] == cycle_warning(items[k].id));
    } else {
        assert(items.drop_last()[k] == items[k]);
        lemma_cycle_warnings_contain(all, items.drop_last(), k);
        let j = choose|j: int| 0 <= j < prev.len() && prev[j] == cycle_warning(items[k].id);
        assert((prev + extra)[j] == cycle_warning(items[k].id));
    }
}

/// Every TODO whose dependencies lead back to it is reported as part of a
/// circular dependency.
pub proof fn cycles_are_reported_for_every_participant(items: Seq<TodoItemModel>, k: int)
    requires
        0 <= k < items.len(),
        returns_to(items, items[k].id, items[k].id, Seq::empty()),
    ensures
        todo_warnings(items).contains(cycle_warning(items[k].id)),
{
    let a = id_warnings(items) + dep_warnings(item_ids(items), items);
    let c = cycle_warnings(items, items);
    lemma_cycle_warnings_contain(items, items, k);
    let j = choose|j: int| 0 <= j < c.len() && c[j] == cycle_warning(items[k].id);
    assert((a + c)[a.len() + j] == cycle_warning(items[k].id));
    crate::markdown::lemma_dedup_contains(a + c, cycle_warning(items[k].id));
}

} // verus!
