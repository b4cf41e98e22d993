//! Migration of older `TODO.md`, `WORK_HISTORY.md` and `AGENTS.md` files to
//! the structured format, and the Markdown report of a migration run.

use vstd::prelude::*;
use crate::text::{
    chars_of, contains_str, contains_text, copy_range, decimal, decimal_exec, find_chars,
    find_text, is_blank, join, join_chars, lines, lines_of, lit, lower_text, ltrim, push_all,
    push_str, starts_with, strip_prefix_or_same, string_of, to_lowercase, trim, trim_chars,
    trim_start, views, zero_pad, zero_pad_exec,
};
use crate::models::{
    item_views, strs, Minute, WorkHistoryEntryModel, TodoDocument, TodoItem, TodoItemModel, TodoPriority, WorkCategory,
};
use crate::markdown::{normalize_newlines, normalize_newlines_exec, strip_all_lead, strip_all_trail};

verus! {

/// `normalize`: newlines as `\n`, and a final newline on non-empty text.
pub open spec fn normalized(c: Seq<char>) -> Seq<char> {
    let v = normalize_newlines(c);
    if v.len() > 0 && v.last() != '\n' {
        v.push('\n')
    } else {
        v
    }
}

/// `normalize`.
pub fn normalize(content: &str) -> (r: String)
    ensures
        r@ == normalized(content@),
{
    let mut v = normalize_newlines_exec(&chars_of(content));
    if v.len() > 0 && v[v.len() - 1] != '\n' {
        v.push('\n');
    }
    string_of(&v)
}

// ---------------------------------------------------------------------------
// Areas and categories

pub open spec fn is_ascii_alnum(c: char) -> bool {
    ('a' <= c && c <= 'z') || ('A' <= c && c <= 'Z') || ('0' <= c && c <= '9')
}

/// The slug being built and whether it ends with a hyphen that joins words.
pub open spec fn slug_scan(s: Seq<char>) -> (Seq<char>, bool)
    decreases s.len(),
{
    if s.len() == 0 {
        (Seq::empty(), false)
    } else {
        let (slug, hyphen) = slug_scan(s.drop_last());
        let c = s.last();
        if is_ascii_alnum(c) {
            (slug.push(c), false)
        } else if !hyphen && slug.len() > 0 {
            (slug.push('-'), true)
        } else {
            (slug, hyphen)
        }
    }
}

/// An area as a lower-case slug: ASCII letters and digits, runs of anything
/// else as one hyphen, no hyphen at either end.
pub open spec fn slug(area: Seq<char>) -> Seq<char> {
    strip_all_trail(strip_all_lead(slug_scan(lower_text(trim(area))).0, '-'), '-')
}

/// `slug_area`.
pub fn slug_area(area: &str) -> (r: String)
    ensures
        r@ == slug(area@),
{
    let lower = to_lowercase(&trim_chars(&chars_of(area)));
    let mut slug_chars: Vec<char> = Vec::new();
    let mut hyphen = false;
    let mut i: usize = 0;
    while i < lower.len()
        invariant
            i <= lower@.len(),
            (slug_chars@, hyphen) == slug_scan(lower@.subrange(0, i as int)),
        decreases lower@.len() - i,
    {
        assert(lower@.subrange(0, i + 1).drop_last() == lower@.subrange(0, i as int));
        let c = lower[i];
        if ('a' <= c && c <= 'z') || ('A' <= c && c <= 'Z') || ('0' <= c && c <= '9') {
            slug_chars.push(c);
            hyphen = false;
        } else if !hyphen && slug_chars.len() > 0 {
            slug_chars.push('-');
            hyphen = true;
        }
        i += 1;
    }
    assert(lower@.subrange(0, lower@.len() as int) == lower@);
    let t = crate::markdown::strip_all_trail_exec(&crate::markdown::strip_all_lead_exec(&slug_chars, '-'), '-');
    string_of(&t)
}

pub open spec fn contains_any(s: Seq<char>, words: Seq<Seq<char>>) -> bool {
    exists|i: int| 0 <= i < words.len() && contains_text(s, #[trigger] words[i])
}

/// The category a legacy title suggests, by the first group of words it
/// mentions (case ignored): tests, documentation, research, decisions,
/// fixes, refactoring; otherwise a feature.
pub open spec fn inferred_category(title: Seq<char>) -> WorkCategory {
    let t = lower_text(title);
    if contains_any(t, seq!["test"@, "verification"@]) {
        WorkCategory::Test
    } else if contains_any(t, seq!["documentation"@, "docs"@, "guide"@]) {
        WorkCategory::Documentation
    } else if contains_any(t, seq!["audit"@, "research"@, "investigation"@]) {
        WorkCategory::Research
    } else if contains_any(t, seq!["decision"@, "policy"@]) {
        WorkCategory::Others
    } else if contains_any(t, seq!["fix"@, "failure"@, "error"@, "recovery"@, "reliability"@, "hardening"@]) {
        WorkCategory::Bugfix
    } else if contains_any(t, seq!["refactor"@, "decomposition"@, "cleanup"@, "rename"@, "remove"@]) {
        WorkCategory::Refactor
    } else {
        WorkCategory::Feature
    }
}

fn contains_any_exec(t: &[char], words: &Vec<&str>) -> (r: bool)
    ensures
        r == contains_any(t@, words@.map_values(|w: &str| w@)),
{
    let ghost ws = words@.map_values(|w: &str| w@);
    let mut i: usize = 0;
    while i < words.len()
        invariant
            i <= words@.len(),
            ws == words@.map_values(|w: &str| w@),
            forall|j: int| 0 <= j < i ==> !contains_text(t@, #[trigger] ws[j]),
        decreases words@.len() - i,
    {
        if contains_str(t, words[i]) {
            assert(contains_text(t@, ws[i as int]));
            return true;
        }
        i += 1;
    }
    false
}

/// `infer_category`.
pub fn infer_category(title: &str) -> (r: WorkCategory)
    ensures
        r == inferred_category(title@),
{
    let t = to_lowercase(&chars_of(title));
    let tests = vec!["test", "verification"];
    assert(tests@.map_values(|w: &str| w@) =~= seq!["test"@, "verification"@]);
    if contains_any_exec(&t, &tests) {
        return WorkCategory::Test;
    }
    let docs = vec!["documentation", "docs", "guide"];
    assert(docs@.map_values(|w: &str| w@) =~= seq!["documentation"@, "docs"@, "guide"@]);
    if contains_any_exec(&t, &docs) {
        return WorkCategory::Documentation;
    }
    let research = vec!["audit", "research", "investigation"];
    assert(research@.map_values(|w: &str| w@) =~= seq!["audit"@, "research"@, "investigation"@]);
    if contains_any_exec(&t, &research) {
        return WorkCategory::Research;
    }
    let others = vec!["decision", "policy"];
    assert(others@.map_values(|w: &str| w@) =~= seq!["decision"@, "policy"@]);
    if contains_any_exec(&t, &others) {
        return WorkCategory::Others;
    }
    let fixes = vec!["fix", "failure", "error", "recovery", "reliability", "hardening"];
    assert(fixes@.map_values(|w: &str| w@) =~= seq!["fix"@, "failure"@, "error"@, "recovery"@, "reliability"@, "hardening"@]);
    if contains_any_exec(&t, &fixes) {
        return WorkCategory::Bugfix;
    }
    let refactors = vec!["refactor", "decomposition", "cleanup", "rename", "remove"];
    assert(refactors@.map_values(|w: &str| w@) =~= seq!["refactor"@, "decomposition"@, "cleanup"@, "rename"@, "remove"@]);
    if contains_any_exec(&t, &refactors) {
        return WorkCategory::Refactor;
    }
    WorkCategory::Feature
}

// ---------------------------------------------------------------------------
// Legacy text

/// The value of a `- Name: value` line (the dash optional).
pub open spec fn field_value(line: Seq<char>, name: Seq<char>) -> Option<Seq<char>> {
    let l = trim(strip_prefix_or_same(line, seq!['-']));
    let prefix = name + seq![':'];
    if starts_with(l, prefix) {
        Some(trim(l.subrange(prefix.len() as int, l.len() as int)))
    } else {
        None
    }
}

/// `field_value`.
pub fn field_value_exec(line: &[char], name: &str) -> (r: Option<Vec<char>>)
    ensures
        match r {
            Some(v) => field_value(line@, name@) == Some(v@),
            None => field_value(line@, name@) is None,
        },
{
    let stripped = if line.len() > 0 && line[0] == '-' {
        assert(line@.subrange(0, 1) =~= seq!['-']);
        copy_range(line, 1, line.len())
    } else {
        proof {
            if starts_with(line@, seq!['-']) {
                assert(line@.subrange(0, 1)[0] == line@[0]);
            }
        }
        copy_range(line, 0, line.len())
    };
    assert(line@.subrange(0, line@.len() as int) == line@);
    assert(stripped@ == strip_prefix_or_same(line@, seq!['-']));
    let l = trim_chars(&stripped);
    let mut prefix = lit(name);
    prefix.push(':');
    assert(prefix@ =~= name@ + seq![':']);
    if prefix.len() <= l.len() && crate::text::matches_at(&l, 0, &prefix) {
        assert(starts_with(l@, prefix@));
        Some(trim_chars(&copy_range(&l, prefix.len(), l.len())))
    } else {
        None
    }
}

pub struct BodyScan {
    pub summary: Seq<Seq<char>>,
    pub limitations: Option<Seq<char>>,
}

pub open spec fn body_step(st: BodyScan, line: Seq<char>) -> BodyScan {
    let t = trim(line);
    match field_value(t, "Summary"@) {
        Some(v) => BodyScan { summary: st.summary.push(v), ..st },
        None => match field_value(t, "Limitations/Future implementations"@) {
            Some(v) => BodyScan { limitations: Some(v), ..st },
            None => if t.len() > 0 { BodyScan { summary: st.summary.push(line), ..st } } else { st },
        },
    }
}

pub open spec fn body_scan(ls: Seq<Seq<char>>) -> BodyScan
    decreases ls.len(),
{
    if ls.len() == 0 {
        BodyScan { summary: Seq::empty(), limitations: None }
    } else {
        body_step(body_scan(ls.drop_last()), ls.last())
    }
}

/// A legacy entry body: its summary (or `unknown`), its limitations (or
/// `none`), and whether the limitations were missing.
pub open spec fn legacy_body(body: Seq<char>) -> (Seq<char>, Seq<char>, bool) {
    let st = body_scan(lines(body));
    (
        if st.summary.len() == 0 { "unknown"@ } else { trim(join(st.summary, "\n"@)) },
        match st.limitations { Some(l) => l, None => "none"@ },
        st.limitations is None,
    )
}

/// `legacy_history_body`.
pub fn legacy_history_body(body: &str) -> (r: (String, String, bool))
    ensures
        (r.0@, r.1@, r.2) == legacy_body(body@),
{
    let ls = lines_of(&chars_of(body));
    let ghost lv = views(ls@);
    let mut summary: Vec<Vec<char>> = Vec::new();
    let mut limitations: Option<Vec<char>> = None;
    let mut i: usize = 0;
    assert(views(summary@) =~= Seq::<Seq<char>>::empty());
    while i < ls.len()
        invariant
            i <= ls@.len(),
            lv == views(ls@),
            ({
                let st = body_scan(lv.subrange(0, i as int));
                &&& views(summary@) == st.summary
                &&& match limitations {
                    Some(l) => st.limitations == Some(l@),
                    None => st.limitations is None,
                }
            }),
        decreases ls@.len() - i,
    {
        assert(lv.subrange(0, i + 1).drop_last() == lv.subrange(0, i as int));
        assert(lv.subrange(0, i + 1).last() == ls@[i as int]@);
        let t = trim_chars(&ls[i]);
        let ghost before = views(summary@);
        match field_value_exec(&t, "Summary") {
            Some(v) => {
                summary.push(v);
                assert(views(summary@) =~= before.push(field_value(t@, "Summary"@).unwrap()));
            },
            None => match field_value_exec(&t, "Limitations/Future implementations") {
                Some(v) => {
                    limitations = Some(v);
                },
                None => {
                    if t.len() > 0 {
                        summary.push(ls[i].clone());
                        assert(views(summary@) =~= before.push(ls@[i as int]@));
                    }
                },
            },
        }
        i += 1;
    }
    assert(lv.subrange(0, lv.len() as int) == lv);
    let summary_text = if summary.len() == 0 {
        String::from_str("unknown")
    } else {
        string_of(&trim_chars(&join_chars(&summary, "\n")))
    };
    let missing = limitations.is_none();
    let limitations_text = match limitations {
        Some(l) => string_of(&l),
        None => String::from_str("none"),
    };
    (summary_text, limitations_text, missing)
}

pub struct LegacyBlocks {
    pub blocks: Seq<(Seq<char>, Seq<char>)>,
    pub heading: Option<Seq<char>>,
    pub body: Seq<Seq<char>>,
}

pub open spec fn legacy_step(st: LegacyBlocks, line: Seq<char>) -> LegacyBlocks {
    if starts_with(line, "## "@) {
        LegacyBlocks {
            blocks: match st.heading {
                Some(h) => st.blocks.push((h, join(st.body, "\n"@))),
                None => st.blocks,
            },
            heading: Some(line),
            body: Seq::empty(),
        }
    } else if st.heading is Some {
        LegacyBlocks { body: st.body.push(line), ..st }
    } else {
        st
    }
}

pub open spec fn legacy_scan(ls: Seq<Seq<char>>) -> LegacyBlocks
    decreases ls.len(),
{
    if ls.len() == 0 {
        LegacyBlocks { blocks: Seq::empty(), heading: None, body: Seq::empty() }
    } else {
        legacy_step(legacy_scan(ls.drop_last()), ls.last())
    }
}

/// The `## ` sections of legacy text as (heading line, body) pairs; text
/// before the first heading is dropped.
pub open spec fn legacy_blocks(content: Seq<char>) -> Seq<(Seq<char>, Seq<char>)> {
    let st = legacy_scan(lines(content));
    match st.heading {
        Some(h) => st.blocks.push((h, join(st.body, "\n"@))),
        None => st.blocks,
    }
}

pub open spec fn pair_views(v: Seq<(String, String)>) -> Seq<(Seq<char>, Seq<char>)> {
    v.map_values(|p: (String, String)| (p.0@, p.1@))
}

/// `legacy_heading_blocks`.
pub fn legacy_heading_blocks(content: &str) -> (r: Vec<(String, String)>)
    ensures
        pair_views(r@) == legacy_blocks(content@),
{
    let ls = lines_of(&chars_of(content));
    let ghost lv = views(ls@);
    let mut blocks: Vec<(String, String)> = Vec::new();
    let mut heading: Option<Vec<char>> = None;
    let mut body: Vec<Vec<char>> = Vec::new();
    let mut i: usize = 0;
    assert(pair_views(blocks@) =~= Seq::<(Seq<char>, Seq<char>)>::empty());
    assert(views(body@) =~= Seq::<Seq<char>>::empty());
    while i < ls.len()
        invariant
            i <= ls@.len(),
            lv == views(ls@),
            ({
                let st = legacy_scan(lv.subrange(0, i as int));
                &&& pair_views(blocks@) == st.blocks
                &&& views(body@) == st.body
                &&& match heading {
                    Some(h) => st.heading == Some(h@),
                    None => st.heading is None,
                }
            }),
        decreases ls@.len() - i,
    {
        assert(lv.subrange(0, i + 1).drop_last() == lv.subrange(0, i as int));
        assert(lv.subrange(0, i + 1).last() == ls@[i as int]@);
        proof {
            reveal_strlit("## ");
        }
        if crate::text::has_prefix(&ls[i], "## ") {
            match heading {
                Some(h) => {
                    let ghost before = pair_views(blocks@);
                    let joined = join_chars(&body, "\n");
                    blocks.push((string_of(&h), string_of(&joined)));
                    assert(pair_views(blocks@) =~= before.push((h@, joined@)));
                },
                None => {},
            }
            heading = Some(ls[i].clone());
            body = Vec::new();
            assert(views(body@) =~= Seq::<Seq<char>>::empty());
        } else if heading.is_some() {
            let ghost before = views(body@);
            body.push(ls[i].clone());
            assert(views(body@) =~= before.push(ls@[i as int]@));
        }
        i += 1;
    }
    assert(lv.subrange(0, lv.len() as int) == lv);
    match heading {
        Some(h) => {
            let ghost before = pair_views(blocks@);
            let joined = join_chars(&body, "\n");
            blocks.push((string_of(&h), string_of(&joined)));
            assert(pair_views(blocks@) =~= before.push((h@, joined@)));
        },
        None => {},
    }
    blocks
}

/// The title of a legacy TODO line: `- [ ] title` or `## N. title`.
pub open spec fn legacy_title(line: Seq<char>) -> Option<Seq<char>> {
    let t = trim(line);
    let raw: Option<Seq<char>> = if starts_with(t, "- [ ]"@) {
        Some(t.subrange(5, t.len() as int))
    } else if starts_with(t, "## "@) {
        let rest = t.subrange(3, t.len() as int);
        let k = find_text(rest, ". "@);
        if k >= 0 {
            Some(rest.subrange(k + 2, rest.len() as int))
        } else {
            None
        }
    } else {
        None
    };
    match raw {
        Some(x) if trim(x).len() > 0 => Some(trim(x)),
        _ => None,
    }
}

pub open spec fn legacy_titles(ls: Seq<Seq<char>>) -> Seq<Seq<char>>
    decreases ls.len(),
{
    if ls.len() == 0 {
        Seq::empty()
    } else {
        match legacy_title(ls.last()) {
            Some(t) => legacy_titles(ls.drop_last()).push(t),
            None => legacy_titles(ls.drop_last()),
        }
    }
}

/// The legacy TODO at position `index` (from 0) with this title.
pub open spec fn legacy_item(index: nat, title: Seq<char>) -> TodoItemModel {
    TodoItemModel {
        id: "TODO-"@ + zero_pad(decimal(index + 1), 3),
        title,
        priority: TodoPriority::Low,
        category: inferred_category(title),
        area: "unknown"@,
        dependencies: Seq::empty(),
        rationale: "unknown"@,
        acceptance_criteria: "unknown"@,
    }
}

/// The TODOs of a legacy checklist, numbered from one.
pub open spec fn legacy_items(content: Seq<char>) -> Seq<TodoItemModel> {
    let titles = legacy_titles(lines(normalized(content)));
    Seq::new(titles.len(), |i: int| legacy_item(i as nat, titles[i]))
}

fn legacy_title_exec(line: &[char]) -> (r: Option<Vec<char>>)
    ensures
        match r {
            Some(t) => legacy_title(line@) == Some(t@),
            None => legacy_title(line@) is None,
        },
{
    let t = trim_chars(line);
    proof {
        reveal_strlit("- [ ]");
        reveal_strlit("## ");
        reveal_strlit(". ");
    }
    let raw: Option<Vec<char>> = if crate::text::has_prefix(&t, "- [ ]") {
        Some(copy_range(&t, 5, t.len()))
    } else if crate::text::has_prefix(&t, "## ") {
        let rest = copy_range(&t, 3, t.len());
        proof {
            crate::text::lemma_find_text_from(rest@, ". "@, 0);
        }
        match find_chars(&rest, &lit(". ")) {
            Some(k) => Some(copy_range(&rest, k + 2, rest.len())),
            None => None,
        }
    } else {
        None
    };
    match raw {
        Some(x) => {
            let tx = trim_chars(&x);
            if tx.len() > 0 {
                Some(tx)
            } else {
                None
            }
        },
        None => None,
    }
}

/// `legacy_todo_items`.
pub fn legacy_todo_items(content: &str) -> (r: Vec<TodoItem>)
    ensures
        item_views(r@) == legacy_items(content@),
{
    let norm = normalize(content);
    let ls = lines_of(&chars_of(norm.as_str()));
    let ghost lv = views(ls@);
    let mut titles: Vec<Vec<char>> = Vec::new();
    let mut i: usize = 0;
    assert(views(titles@) =~= Seq::<Seq<char>>::empty());
    while i < ls.len()
        invariant
            i <= ls@.len(),
            lv == views(ls@),
            views(titles@) == legacy_titles(lv.subrange(0, i as int)),
            titles@.len() <= i,
        decreases ls@.len() - i,
    {
        assert(lv.subrange(0, i + 1).drop_last() == lv.subrange(0, i as int));
        assert(lv.subrange(0, i + 1).last() == ls@[i as int]@);
        match legacy_title_exec(&ls[i]) {
            Some(t) => {
                let ghost before = views(titles@);
                titles.push(t);
                assert(views(titles@) =~= before.push(legacy_title(ls@[i as int]@).unwrap()));
            },
            None => {},
        }
        i += 1;
    }
    assert(lv.subrange(0, lv.len() as int) == lv);
    let ghost tv = views(titles@);
    let mut items: Vec<TodoItem> = Vec::new();
    let mut k: usize = 0;
    while k < titles.len()
        invariant
            k <= titles@.len(),
            titles@.len() <= ls@.len(),
            tv == views(titles@),
            item_views(items@) =~= Seq::new(k as nat, |j: int| legacy_item(j as nat, tv[j])),
        decreases titles@.len() - k,
    {
        let mut id = lit("TODO-");
        push_all(&mut id, &zero_pad_exec(decimal_exec((k + 1) as u64), 3));
        let title = string_of(&titles[k]);
        let item = TodoItem {
            id: string_of(&id),
            title: string_of(&titles[k]),
            priority: TodoPriority::Low,
            category: infer_category(title.as_str()),
            area: String::from_str("unknown"),
            dependencies: Vec::new(),
            rationale: String::from_str("unknown"),
            acceptance_criteria: String::from_str("unknown"),
        };
        proof {
            reveal_strlit("TODO-");
        }
        assert(item@.dependencies =~= Seq::<Seq<char>>::empty());
        assert(item@ == legacy_item(k as nat, tv[k as int]));
        let ghost before = item_views(items@);
        items.push(item);
        assert(item_views(items@) =~= before.push(legacy_item(k as nat, tv[k as int])));
        k += 1;
    }
    items
}


// ---------------------------------------------------------------------------
// Legacy history headings

pub open spec fn is_title_lead(c: char) -> bool {
    c == ' ' || c == '-' || c == '\u{2014}'
}

/// `trim_start_matches([' ', '-', '\u{2014}'])`.
pub open spec fn strip_title_lead(s: Seq<char>) -> Seq<char>
    decreases s.len(),
{
    if s.len() > 0 && is_title_lead(s[0]) {
        strip_title_lead(s.drop_first())
    } else {
        s
    }
}

fn strip_title_lead_exec(s: &[char]) -> (r: Vec<char>)
    ensures
        r@ == strip_title_lead(s@),
{
    let mut i: usize = 0;
    assert(s@.subrange(0, s@.len() as int) == s@);
    while i < s.len() && (s[i] == ' ' || s[i] == '-' || s[i] == '\u{2014}')
        invariant
            i <= s@.len(),
            strip_title_lead(s@.subrange(i as int, s@.len() as int)) == strip_title_lead(s@),
        decreases s@.len() - i,
    {
        assert(s@.subrange(i as int, s@.len() as int).drop_first() =~= s@.subrange(i + 1, s@.len() as int));
        i += 1;
    }
    assert(s@.subrange(0, s@.len() as int) == s@);
    copy_range(s, i, s.len())
}

/// The text of a legacy heading after `## `, trimmed.
pub open spec fn legacy_heading_text(h: Seq<char>) -> Option<Seq<char>> {
    if starts_with(h, "## "@) {
        Some(trim(h.subrange(3, h.len() as int)))
    } else {
        None
    }
}

/// The heading text can be cut at bytes 10 and 16 (where it is that long)
/// without splitting a character; elsewhere the legacy heading reader panics.
pub open spec fn legacy_cuts_ok(h: Seq<char>) -> bool {
    match legacy_heading_text(h) {
        Some(v) => {
            &&& (crate::text::utf8_len(v) >= 16 ==> crate::history::byte_prefix(v, 16) is Some)
            &&& (crate::text::utf8_len(v) >= 10 ==> crate::history::byte_prefix(v, 10) is Some)
        },
        None => true,
    }
}

/// A legacy dated heading: `## YYYY-MM-DD HH:MM title` or `## YYYY-MM-DD
/// title`, with separators before the title ignored; the time, the title,
/// and whether the time was missing (midnight is used).
pub open spec fn legacy_heading(h: Seq<char>) -> Option<(Minute, Seq<char>, bool)> {
    match legacy_heading_text(h) {
        None => None,
        Some(v) => {
            if crate::text::utf8_len(v) < 10 {
                None
            } else {
                let p16 = crate::history::byte_prefix(v, 16).unwrap();
                let p10 = crate::history::byte_prefix(v, 10).unwrap();
                if crate::text::utf8_len(v) >= 16 && crate::history::chrono_minute(p16) is Some {
                    let title = trim(strip_title_lead(v.subrange(p16.len() as int, v.len() as int)));
                    if title.len() > 0 {
                        Some((crate::history::chrono_minute(p16).unwrap(), title, false))
                    } else {
                        None
                    }
                } else {
                    match crate::history::chrono_date(p10) {
                        None => None,
                        Some((y, m, d)) => {
                            let title = trim(strip_title_lead(v.subrange(p10.len() as int, v.len() as int)));
                            if title.len() > 0 {
                                Some((Minute { year: y, month: m, day: d, hour: 0, minute: 0 }, title, true))
                            } else {
                                None
                            }
                        },
                    }
                }
            }
        },
    }
}

/// `legacy_history_heading`.
pub fn legacy_history_heading(heading: &[char]) -> (r: Option<(Minute, Vec<char>, bool)>)
    requires
        legacy_cuts_ok(heading@),
    ensures
        match r {
            Some((m, t, missing)) => legacy_heading(heading@) == Some((m, t@, missing)),
            None => legacy_heading(heading@) is None,
        },
{
    proof {
        reveal_strlit("## ");
    }
    if !crate::text::has_prefix(heading, "## ") {
        return None;
    }
    let v = trim_chars(&copy_range(heading, 3, heading.len()));
    assert(legacy_heading_text(heading@) == Some(v@));
    let blen = crate::history::utf8_len_capped(&v, 16);
    if blen < 10 {
        return None;
    }
    if blen >= 16 {
        match crate::history::byte_prefix_exec(&v, 16) {
            Some(k16) => {
                match crate::history::parse_minute_text(&copy_range(&v, 0, k16)) {
                    Some(m) => {
                        let title = trim_chars(&strip_title_lead_exec(&copy_range(&v, k16, v.len())));
                        if title.len() > 0 {
                            return Some((m, title, false));
                        } else {
                            return None;
                        }
                    },
                    None => {},
                }
            },
            None => {},
        }
    }
    match crate::history::byte_prefix_exec(&v, 10) {
        Some(k10) => {
            match crate::history::parse_date_text(&copy_range(&v, 0, k10)) {
                Some((y, mo, d)) => {
                    let title = trim_chars(&strip_title_lead_exec(&copy_range(&v, k10, v.len())));
                    if title.len() > 0 {
                        Some((Minute { year: y, month: mo, day: d, hour: 0, minute: 0 }, title, true))
                    } else {
                        None
                    }
                },
                None => None,
            }
        },
        None => None,
    }
}


// ---------------------------------------------------------------------------
// Migrated documents

pub open spec fn migration_note(s: Seq<char>) -> bool {
    starts_with(lower_text(s), "migration note:"@)
}

/// A TODO in the structured format: migration notes become `unknown`, the
/// area a slug.
pub open spec fn migrated_item(it: TodoItemModel) -> TodoItemModel {
    TodoItemModel {
        rationale: if migration_note(it.rationale) { "unknown"@ } else { it.rationale },
        acceptance_criteria: if migration_note(it.acceptance_criteria) { "unknown"@ } else { it.acceptance_criteria },
        area: slug(it.area),
        ..it
    }
}

/// One warning per item whose area changed.
pub open spec fn area_warnings(items: Seq<TodoItemModel>) -> Seq<Seq<char>>
    decreases items.len(),
{
    if items.len() == 0 {
        Seq::empty()
    } else {
        let it = items.last();
        let prev = area_warnings(items.drop_last());
        if slug(it.area) != it.area {
            prev.push(it.id + " area `"@ + it.area + "` normalized to `"@ + slug(it.area) + "`"@)
        } else {
            prev
        }
    }
}

pub open spec fn legacy_todo_message() -> Seq<char> {
    "Legacy TODO sections were converted with low priority and unknown values where fields were absent."@
}

pub open spec fn normalized_todo_message() -> Seq<char> {
    "Existing structured TODO fields were normalized to the Projector syntax."@
}

/// The TODOs a `TODO.md` migrates to and the warnings for the report: its
/// structured items, or else the items of a legacy checklist.
pub open spec fn todo_migration(content: Seq<char>) -> (Seq<TodoItemModel>, Seq<Seq<char>>) {
    let parsed = crate::todos::parse_todo(content).items;
    let legacy = legacy_items(content);
    let (items, w0) = if parsed.len() == 0 {
        if legacy.len() > 0 {
            (legacy, seq![legacy_todo_message()])
        } else {
            (parsed, Seq::<Seq<char>>::empty())
        }
    } else {
        (parsed, seq![normalized_todo_message()])
    };
    (items.map_values(|it: TodoItemModel| migrated_item(it)), w0 + area_warnings(items))
}

fn strings_of(v: &Vec<Vec<char>>) -> (r: Vec<String>)
    ensures
        strs(r@) == views(v@),
{
    let mut out: Vec<String> = Vec::new();
    let mut k: usize = 0;
    while k < v.len()
        invariant
            k <= v@.len(),
            strs(out@) =~= views(v@).subrange(0, k as int),
        decreases v@.len() - k,
    {
        let ghost before = strs(out@);
        out.push(string_of(&v[k]));
        assert(strs(out@) =~= before.push(v@[k as int]@));
        k += 1;
    }
    assert(views(v@).subrange(0, v@.len() as int) == views(v@));
    out
}

/// `migrate_todo_content`.
pub fn migrate_todo_content(content: &str) -> (r: (TodoDocument, Vec<String>))
    ensures
        item_views(r.0.items@) == todo_migration(content@).0,
        strs(r.1@) == todo_migration(content@).1,
        r.0.relative_path is None,
        r.0.warnings@.len() == 0,
        r.0.preserved_content is None,
{
    let parsed = crate::todos::parse_todo_document(content);
    let mut warnings: Vec<Vec<char>> = Vec::new();
    let mut items = parsed.items;
    if items.len() == 0 {
        let legacy = legacy_todo_items(content);
        if legacy.len() > 0 {
            items = legacy;
            warnings.push(lit("Legacy TODO sections were converted with low priority and unknown values where fields were absent."));
        }
    } else {
        warnings.push(lit("Existing structured TODO fields were normalized to the Projector syntax."));
    }
    let ghost iv = item_views(items@);
    let ghost w0 = views(warnings@);
    assert(w0 + area_warnings(iv.subrange(0, 0)) =~= w0);
    let mut out: Vec<TodoItem> = Vec::new();
    let mut i: usize = 0;
    proof {
        reveal_strlit("migration note:");
        reveal_strlit("unknown");
    }
    while i < items.len()
        invariant
            i <= items@.len(),
            iv == item_views(items@),
            item_views(out@) =~= iv.subrange(0, i as int).map_values(|it: TodoItemModel| migrated_item(it)),
            views(warnings@) == w0 + area_warnings(iv.subrange(0, i as int)),
        decreases items@.len() - i,
    {
        assert(iv.subrange(0, i + 1).drop_last() == iv.subrange(0, i as int));
        assert(iv.subrange(0, i + 1).last() == items@[i as int]@);
        let mut it = items[i].duplicate();
        if crate::text::has_prefix(&to_lowercase(&chars_of(it.rationale.as_str())), "migration note:") {
            it.rationale = String::from_str("unknown");
        }
        if crate::text::has_prefix(&to_lowercase(&chars_of(it.acceptance_criteria.as_str())), "migration note:") {
            it.acceptance_criteria = String::from_str("unknown");
        }
        let area = slug_area(it.area.as_str());
        if area != it.area {
            let ghost before = views(warnings@);
            let mut w = chars_of(it.id.as_str());
            push_str(&mut w, " area `");
            push_str(&mut w, it.area.as_str());
            push_str(&mut w, "` normalized to `");
            push_str(&mut w, area.as_str());
            push_str(&mut w, "`");
            warnings.push(w);
            assert(views(warnings@) =~= before.push(items@[i as int]@.id + " area `"@ + items@[i as int]@.area
                + "` normalized to `"@ + slug(items@[i as int]@.area) + "`"@));
        }
        it.area = area;
        let ghost before = item_views(out@);
        out.push(it);
        assert(item_views(out@) =~= before.push(migrated_item(items@[i as int]@)));
        i += 1;
    }
    assert(iv.subrange(0, iv.len() as int) == iv);
    (
        TodoDocument { relative_path: None, items: out, warnings: Vec::new(), preserved_content: None },
        strings_of(&warnings),
    )
}


/// A structured entry without migration notes.
pub open spec fn migrated_entry(e: WorkHistoryEntryModel) -> WorkHistoryEntryModel {
    let limitations = if migration_note(e.limitations) { "none"@ } else { e.limitations };
    let summary = if migration_note(e.summary) { "unknown"@ } else { e.summary };
    WorkHistoryEntryModel {
        summary: crate::git_sync::replace_all(summary, "explicit migration notes"@, "explicit unknown values"@),
        limitations: crate::git_sync::replace_all(limitations, "explicit migration notes"@, "explicit unknown values"@),
        ..e
    }
}

/// The entries of legacy blocks and their warnings, in order.
pub open spec fn legacy_entries(blocks: Seq<(Seq<char>, Seq<char>)>) -> (Seq<WorkHistoryEntryModel>, Seq<Seq<char>>)
    decreases blocks.len(),
{
    if blocks.len() == 0 {
        (Seq::empty(), Seq::empty())
    } else {
        let (es, ws) = legacy_entries(blocks.drop_last());
        let (heading, body) = blocks.last();
        match legacy_heading(heading) {
            None => (es, ws),
            Some((at, title, missing_time)) => {
                let (summary, limitations, missing_limitations) = legacy_body(body);
                let w1 = if missing_time {
                    ws.push("`"@ + title + "` had no time; migration used 00:00 local time"@)
                } else {
                    ws
                };
                let w2 = if missing_limitations {
                    w1.push("`"@ + title + "` had no explicit limitations; migration used none"@)
                } else {
                    w1
                };
                (es.push(WorkHistoryEntryModel {
                    occurred_at: at,
                    title,
                    category: inferred_category(title),
                    area: "unknown"@,
                    summary,
                    limitations,
                }), w2)
            },
        }
    }
}

/// Every legacy heading of the text can be cut where the legacy reader cuts it.
pub open spec fn legacy_headings_cut_ok(content: Seq<char>) -> bool {
    let bs = legacy_blocks(normalized(content));
    forall|i: int| 0 <= i < bs.len() ==> legacy_cuts_ok(#[trigger] bs[i].0)
}

/// The entries a `WORK_HISTORY.md` migrates to and the warnings for the
/// report: its structured entries without migration notes, or else the
/// entries of its legacy dated sections.
pub open spec fn history_migration(content: Seq<char>) -> (Seq<WorkHistoryEntryModel>, Seq<Seq<char>>) {
    let parsed = crate::history::parse_history(content).entries;
    if parsed.len() > 0 {
        (parsed.map_values(|e: WorkHistoryEntryModel| migrated_entry(e)), Seq::empty())
    } else {
        let (es, ws) = legacy_entries(legacy_blocks(normalized(content)));
        (es, ws.push(if es.len() == 0 {
            "No recognizable dated working-history entries were found."@
        } else {
            "Legacy history categories were inferred from titles and areas were set to unknown."@
        }))
    }
}

fn replace_notes(s: &String) -> (r: String)
    ensures
        r@ == crate::git_sync::replace_all(s@, "explicit migration notes"@, "explicit unknown values"@),
{
    proof {
        reveal_strlit("explicit migration notes");
    }
    string_of(&crate::git_sync::replace_all_exec(&chars_of(s.as_str()), "explicit migration notes", "explicit unknown values"))
}

/// `migrate_history_content`.
pub fn migrate_history_content(content: &str) -> (r: (crate::models::WorkHistoryDocument, Vec<String>))
    requires
        crate::history::history_cuts_ok(content@),
        crate::history::parse_history(content@).entries.len() == 0 ==> legacy_headings_cut_ok(content@),
    ensures
        crate::models::entry_views(r.0.entries@) == history_migration(content@).0,
        strs(r.1@) == history_migration(content@).1,
        r.0.relative_path is None,
        r.0.categories@.len() == 0,
        r.0.areas@.len() == 0,
        r.0.warnings@.len() == 0,
        r.0.preserved_content is None,
{
    let parsed = crate::history::parse_work_history_document(content);
    proof {
        reveal_strlit("migration note:");
        reveal_strlit("unknown");
        reveal_strlit("none");
    }
    if parsed.entries.len() > 0 {
        let ghost ev = crate::models::entry_views(parsed.entries@);
        let mut out: Vec<crate::models::WorkHistoryEntry> = Vec::new();
        let mut i: usize = 0;
        while i < parsed.entries.len()
            invariant
                i <= parsed.entries@.len(),
                ev == crate::models::entry_views(parsed.entries@),
                crate::models::entry_views(out@) =~= ev.subrange(0, i as int).map_values(|e: WorkHistoryEntryModel| migrated_entry(e)),
            decreases parsed.entries@.len() - i,
        {
            let mut e = parsed.entries[i].duplicate();
            if crate::text::has_prefix(&to_lowercase(&chars_of(e.limitations.as_str())), "migration note:") {
                e.limitations = String::from_str("none");
            }
            if crate::text::has_prefix(&to_lowercase(&chars_of(e.summary.as_str())), "migration note:") {
                e.summary = String::from_str("unknown");
            }
            e.summary = replace_notes(&e.summary);
            e.limitations = replace_notes(&e.limitations);
            let ghost before = crate::models::entry_views(out@);
            out.push(e);
            assert(crate::models::entry_views(out@) =~= before.push(migrated_entry(parsed.entries@[i as int]@)));
            i += 1;
        }
        assert(ev.subrange(0, ev.len() as int) == ev);
        return (
            crate::models::WorkHistoryDocument {
                relative_path: None,
                entries: out,
                categories: Vec::new(),
                areas: Vec::new(),
                warnings: Vec::new(),
                preserved_content: None,
            },
            Vec::new(),
        );
    }
    let norm = normalize(content);
    let blocks = legacy_heading_blocks(norm.as_str());
    let ghost bv = pair_views(blocks@);
    let mut entries: Vec<crate::models::WorkHistoryEntry> = Vec::new();
    let mut warnings: Vec<Vec<char>> = Vec::new();
    let mut i: usize = 0;
    assert(crate::models::entry_views(entries@) =~= Seq::<WorkHistoryEntryModel>::empty());
    assert(views(warnings@) =~= Seq::<Seq<char>>::empty());
    while i < blocks.len()
        invariant
            i <= blocks@.len(),
            bv == pair_views(blocks@),
            bv == legacy_blocks(normalized(content@)),
            legacy_headings_cut_ok(content@),
            ({
                let (es, ws) = legacy_entries(bv.subrange(0, i as int));
                &&& crate::models::entry_views(entries@) == es
                &&& views(warnings@) == ws
            }),
        decreases blocks@.len() - i,
    {
        assert(bv.subrange(0, i + 1).drop_last() == bv.subrange(0, i as int));
        assert(bv.subrange(0, i + 1).last() == (blocks@[i as int].0@, blocks@[i as int].1@));
        assert(legacy_cuts_ok(bv[i as int].0));
        let heading = chars_of(blocks[i].0.as_str());
        match legacy_history_heading(&heading) {
            None => {},
            Some((at, title, missing_time)) => {
                let ghost w_before = views(warnings@);
                if missing_time {
                    let mut w = lit("`");
                    push_all(&mut w, &title);
                    push_str(&mut w, "` had no time; migration used 00:00 local time");
                    warnings.push(w);
                    assert(views(warnings@) =~= w_before.push("`"@ + title@ + "` had no time; migration used 00:00 local time"@));
                }
                let (summary, limitations, missing) = legacy_history_body(blocks[i].1.as_str());
                if missing {
                    let ghost w1 = views(warnings@);
                    let mut w = lit("`");
                    push_all(&mut w, &title);
                    push_str(&mut w, "` had no explicit limitations; migration used none");
                    warnings.push(w);
                    assert(views(warnings@) =~= w1.push("`"@ + title@ + "` had no explicit limitations; migration used none"@));
                }
                let title_text = string_of(&title);
                let entry = crate::models::WorkHistoryEntry {
                    occurred_at: at,
                    category: infer_category(title_text.as_str()),
                    title: title_text,
                    area: String::from_str("unknown"),
                    summary,
                    limitations,
                };
                let ghost e_before = crate::models::entry_views(entries@);
                entries.push(entry);
                assert(crate::models::entry_views(entries@) =~= e_before.push(entry@));
            },
        }
        i += 1;
    }
    assert(bv.subrange(0, bv.len() as int) == bv);
    let ghost wv = views(warnings@);
    if entries.len() == 0 {
        warnings.push(lit("No recognizable dated working-history entries were found."));
    } else {
        warnings.push(lit("Legacy history categories were inferred from titles and areas were set to unknown."));
    }
    (
        crate::models::WorkHistoryDocument {
            relative_path: None,
            entries,
            categories: Vec::new(),
            areas: Vec::new(),
            warnings: Vec::new(),
            preserved_content: None,
        },
        strings_of(&warnings),
    )
}


// ---------------------------------------------------------------------------
// The report

/// Why a migration run stopped or a migrated file was rolled back.
#[derive(Clone, Debug)]
pub enum MigrationError {
    InvalidRoot,
    Io(String),
    Validation(String),
}

impl MigrationError {
    /// The text a user sees for the error.
    pub fn message(&self) -> (r: String)
        ensures
            r@ == match self {
                MigrationError::InvalidRoot => "The migration root must be an existing directory named Projects"@,
                MigrationError::Io(m) => "Migration I/O failed: "@ + m@,
                MigrationError::Validation(m) => "Migrated content did not validate: "@ + m@,
            },
    {
        match self {
            MigrationError::InvalidRoot => String::from_str("The migration root must be an existing directory named Projects"),
            MigrationError::Io(m) => {
                let mut out = lit("Migration I/O failed: ");
                push_str(&mut out, m.as_str());
                string_of(&out)
            },
            MigrationError::Validation(m) => {
                let mut out = lit("Migrated content did not validate: ");
                push_str(&mut out, m.as_str());
                string_of(&out)
            },
        }
    }
}

/// A file that a migration rewrote, with its backup.
#[derive(Clone, Debug)]
pub struct MigratedFile {
    pub project: String,
    pub path: String,
    pub backup: String,
    pub item_count: usize,
}

/// A project folder that held nothing to migrate.
#[derive(Clone, Debug)]
pub struct SkippedProject {
    pub project: String,
    pub reason: String,
}

/// What a migration run did; paths are as displayed.
#[derive(Clone, Debug)]
pub struct MigrationReport {
    pub projects_root: String,
    pub modified_projects: Vec<String>,
    pub migrated_files: Vec<MigratedFile>,
    pub updated_agent_files: Vec<String>,
    pub warnings: Vec<String>,
    pub skipped_projects: Vec<SkippedProject>,
    pub validation_failures: Vec<String>,
}

/// The pieces one after the other.
pub open spec fn concat(pieces: Seq<Seq<char>>) -> Seq<char>
    decreases pieces.len(),
{
    if pieces.len() == 0 {
        Seq::empty()
    } else {
        concat(pieces.drop_last()) + pieces.last()
    }
}

pub open spec fn bullet(v: Seq<char>) -> Seq<char> {
    "- "@ + v + "\n"@
}

/// A bullet list, or a single `- none` bullet.
pub open spec fn bullets_or_none(lines: Seq<Seq<char>>) -> Seq<char> {
    if lines.len() == 0 {
        "- none\n"@
    } else {
        concat(lines)
    }
}

pub open spec fn migrated_line(f: MigratedFile) -> Seq<char> {
    "- "@ + f.project@ + ": `"@ + f.path@ + "` ("@ + decimal(f.item_count as nat) + " entries; backup `"@
        + f.backup@ + "`)\n"@
}

pub open spec fn agent_line(p: String) -> Seq<char> {
    "- `"@ + p@ + "`\n"@
}

pub open spec fn skipped_line(s: SkippedProject) -> Seq<char> {
    "- "@ + s.project@ + ": "@ + s.reason@ + "\n"@
}

/// The Markdown of a migration report.
pub open spec fn report_text(r: MigrationReport) -> Seq<char> {
    "# Projector project-state migration report\n\nProjects root: `"@ + r.projects_root@
        + "`\n\n## Modified projects\n\n"@
        + bullets_or_none(strs(r.modified_projects@).map_values(|v: Seq<char>| bullet(v)))
        + "## Migrated files\n\n"@
        + bullets_or_none(r.migrated_files@.map_values(|f: MigratedFile| migrated_line(f)))
        + "## Updated AGENTS.md files\n\n"@
        + bullets_or_none(r.updated_agent_files@.map_values(|p: String| agent_line(p)))
        + "## Warnings\n\n"@
        + bullets_or_none(strs(r.warnings@).map_values(|v: Seq<char>| bullet(v)))
        + "## Skipped projects\n\n"@
        + bullets_or_none(r.skipped_projects@.map_values(|s: SkippedProject| skipped_line(s)))
        + "## Validation failures\n\n"@
        + bullets_or_none(strs(r.validation_failures@).map_values(|v: Seq<char>| bullet(v)))
}

fn bullet_list(values: &Vec<String>) -> (r: Vec<char>)
    ensures
        r@ == bullets_or_none(strs(values@).map_values(|v: Seq<char>| bullet(v))),
{
    let ghost ls = strs(values@).map_values(|v: Seq<char>| bullet(v));
    if values.len() == 0 {
        return lit("- none\n");
    }
    let mut out: Vec<char> = Vec::new();
    let mut i: usize = 0;
    while i < values.len()
        invariant
            i <= values@.len(),
            ls == strs(values@).map_values(|v: Seq<char>| bullet(v)),
            out@ == concat(ls.subrange(0, i as int)),
        decreases values@.len() - i,
    {
        assert(ls.subrange(0, i + 1).drop_last() == ls.subrange(0, i as int));
        push_str(&mut out, "- ");
        push_str(&mut out, values[i].as_str());
        push_str(&mut out, "\n");
        i += 1;
    }
    assert(ls.subrange(0, ls.len() as int) == ls);
    out
}

fn migrated_list(files: &Vec<MigratedFile>) -> (r: Vec<char>)
    ensures
        r@ == bullets_or_none(files@.map_values(|f: MigratedFile| migrated_line(f))),
{
    let ghost ls = files@.map_values(|f: MigratedFile| migrated_line(f));
    if files.len() == 0 {
        return lit("- none\n");
    }
    let mut out: Vec<char> = Vec::new();
    let mut i: usize = 0;
    while i < files.len()
        invariant
            i <= files@.len(),
            ls == files@.map_values(|f: MigratedFile| migrated_line(f)),
            out@ == concat(ls.subrange(0, i as int)),
        decreases files@.len() - i,
    {
        assert(ls.subrange(0, i + 1).drop_last() == ls.subrange(0, i as int));
        let f = &files[i];
        push_str(&mut out, "- ");
        push_str(&mut out, f.project.as_str());
        push_str(&mut out, ": `");
        push_str(&mut out, f.path.as_str());
        push_str(&mut out, "` (");
        push_all(&mut out, &decimal_exec(f.item_count as u64));
        push_str(&mut out, " entries; backup `");
        push_str(&mut out, f.backup.as_str());
        push_str(&mut out, "`)\n");
        i += 1;
    }
    assert(ls.subrange(0, ls.len() as int) == ls);
    out
}

fn agent_list(paths: &Vec<String>) -> (r: Vec<char>)
    ensures
        r@ == bullets_or_none(paths@.map_values(|p: String| agent_line(p))),
{
    let ghost ls = paths@.map_values(|p: String| agent_line(p));
    if paths.len() == 0 {
        return lit("- none\n");
    }
    let mut out: Vec<char> = Vec::new();
    let mut i: usize = 0;
    while i < paths.len()
        invariant
            i <= paths@.len(),
            ls == paths@.map_values(|p: String| agent_line(p)),
            out@ == concat(ls.subrange(0, i as int)),
        decreases paths@.len() - i,
    {
        assert(ls.subrange(0, i + 1).drop_last() == ls.subrange(0, i as int));
        push_str(&mut out, "- `");
        push_str(&mut out, paths[i].as_str());
        push_str(&mut out, "`\n");
        i += 1;
    }
    assert(ls.subrange(0, ls.len() as int) == ls);
    out
}

fn skipped_list(items: &Vec<SkippedProject>) -> (r: Vec<char>)
    ensures
        r@ == bullets_or_none(items@.map_values(|s: SkippedProject| skipped_line(s))),
{
    let ghost ls = items@.map_values(|s: SkippedProject| skipped_line(s));
    if items.len() == 0 {
        return lit("- none\n");
    }
    let mut out: Vec<char> = Vec::new();
    let mut i: usize = 0;
    while i < items.len()
        invariant
            i <= items@.len(),
            ls == items@.map_values(|s: SkippedProject| skipped_line(s)),
            out@ == concat(ls.subrange(0, i as int)),
        decreases items@.len() - i,
    {
        assert(ls.subrange(0, i + 1).drop_last() == ls.subrange(0, i as int));
        push_str(&mut out, "- ");
        push_str(&mut out, items[i].project.as_str());
        push_str(&mut out, ": ");
        push_str(&mut out, items[i].reason.as_str());
        push_str(&mut out, "\n");
        i += 1;
    }
    assert(ls.subrange(0, ls.len() as int) == ls);
    out
}

/// `report_markdown`: the Markdown report of a migration run.
pub fn report_markdown(report: &MigrationReport) -> (r: String)
    ensures
        r@ == report_text(*report),
{
    let mut out = lit("# Projector project-state migration report\n\nProjects root: `");
    push_str(&mut out, report.projects_root.as_str());
    push_str(&mut out, "`\n\n## Modified projects\n\n");
    push_all(&mut out, &bullet_list(&report.modified_projects));
    push_str(&mut out, "## Migrated files\n\n");
    push_all(&mut out, &migrated_list(&report.migrated_files));
    push_str(&mut out, "## Updated AGENTS.md files\n\n");
    push_all(&mut out, &agent_list(&report.updated_agent_files));
    push_str(&mut out, "## Warnings\n\n");
    push_all(&mut out, &bullet_list(&report.warnings));
    push_str(&mut out, "## Skipped projects\n\n");
    push_all(&mut out, &skipped_list(&report.skipped_projects));
    push_str(&mut out, "## Validation failures\n\n");
    push_all(&mut out, &bullet_list(&report.validation_failures));
    string_of(&out)
}

// ---------------------------------------------------------------------------
// Files

/// The `AGENTS.md` after the Projector section is refreshed, or `None`
/// where it is already current.
pub open spec fn agents_update(original: Seq<char>) -> Option<Seq<char>> {
    let updated = crate::agent_instructions::replaced_section(
        normalized(original),
        "Projector"@,
        crate::agent_instructions::PROJECTOR_SECTION@,
    );
    if normalized(original) == updated {
        None
    } else {
        Some(updated)
    }
}

/// `update_agents_file`, given the current text (empty where the file is absent).
pub fn updated_agents_text(original: &str) -> (r: Option<String>)
    ensures
        match r {
            Some(t) => agents_update(original@) == Some(t@),
            None => agents_update(original@) is None,
        },
{
    let norm = normalize(original);
    let updated = crate::agent_instructions::replace_section(
        norm.as_str(),
        "Projector",
        crate::agent_instructions::PROJECTOR_SECTION,
    );
    if norm == updated {
        None
    } else {
        Some(updated)
    }
}

/// A `TODO.md` rewrite: the new text, the item count and the warnings, or
/// `None` where the text is already in the structured format.
pub fn planned_todo_migration(original: &str) -> (r: Option<(String, usize, Vec<String>)>)
    ensures
        ({
            let (items, warnings) = todo_migration(original@);
            let rendered = crate::todos::render_todo(items, None);
            match r {
                Some((text, count, ws)) => normalized(original@) != rendered && text@ == rendered
                    && count == items.len() && strs(ws@) == warnings,
                None => normalized(original@) == rendered,
            }
        }),
{
    let (document, warnings) = migrate_todo_content(original);
    let rendered = crate::todos::render_todo_document(&document);
    let norm = normalize(original);
    if norm == rendered {
        None
    } else {
        Some((rendered, document.items.len(), warnings))
    }
}

/// Codes that make a rewritten `TODO.md` fail its round trip.
pub open spec fn structural_code(code: Seq<char>) -> bool {
    code == "duplicate_todo_id"@ || code == "invalid_todo_id"@ || code == "missing_dependency"@
        || code == "circular_dependency"@
}

/// Whether a written `TODO.md` reads back with `expected` items and no
/// structural problem.
pub open spec fn todo_round_trips(written: Seq<char>, expected: nat) -> bool {
    let items = crate::todos::parse_todo(written).items;
    let ws = crate::todos::todo_warnings(items);
    &&& items.len() == expected
    &&& forall|i: int| 0 <= i < ws.len() ==> !structural_code(#[trigger] ws[i].code)
}

/// The check after a `TODO.md` rewrite: the failure where it did not round-trip.
pub fn check_todo_round_trip(written: &str, expected: usize) -> (r: Result<(), MigrationError>)
    ensures
        r is Ok <==> todo_round_trips(written@, expected as nat),
        r is Err ==> r->Err_0 is Validation
            && r->Err_0->Validation_0@ == decimal(expected as nat) + " TODO items did not round-trip"@,
{
    let validated = crate::todos::parse_todo_document(written);
    let structural = crate::todos::validate_todos(&validated.items);
    let ghost ws = crate::models::warning_views(structural@);
    let mut ok = validated.items.len() == expected;
    let mut i: usize = 0;
    while i < structural.len()
        invariant
            i <= structural@.len(),
            ws == crate::models::warning_views(structural@),
            ok ==> forall|j: int| 0 <= j < i ==> !structural_code(#[trigger] ws[j].code),
            ok ==> validated.items@.len() == expected,
            !ok ==> !(validated.items@.len() == expected && forall|j: int| 0 <= j < ws.len() ==> !structural_code(#[trigger] ws[j].code)),
        decreases structural@.len() - i,
    {
        let c = chars_of(structural[i].code.as_str());
        assert(ws[i as int].code == c@);
        if crate::text::str_eq(&c, "duplicate_todo_id") || crate::text::str_eq(&c, "invalid_todo_id")
            || crate::text::str_eq(&c, "missing_dependency") || crate::text::str_eq(&c, "circular_dependency")
        {
            assert(structural_code(ws[i as int].code));
            ok = false;
        }
        i += 1;
    }
    if ok {
        Ok(())
    } else {
        let mut m = decimal_exec(expected as u64);
        push_str(&mut m, " TODO items did not round-trip");
        Err(MigrationError::Validation(string_of(&m)))
    }
}

/// A `WORK_HISTORY.md` rewrite: the new text, the entry count and the
/// warnings, or `None` where the text is already in the structured format.
pub fn planned_history_migration(original: &str) -> (r: Option<(String, usize, Vec<String>)>)
    requires
        crate::history::history_cuts_ok(original@),
        crate::history::parse_history(original@).entries.len() == 0 ==> legacy_headings_cut_ok(original@),
    ensures
        ({
            let (entries, warnings) = history_migration(original@);
            let rendered = crate::history::render_history(entries, None);
            match r {
                Some((text, count, ws)) => normalized(original@) != rendered && text@ == rendered
                    && count == entries.len() && strs(ws@) == warnings,
                None => normalized(original@) == rendered,
            }
        }),
{
    let (document, warnings) = migrate_history_content(original);
    let rendered = crate::history::render_work_history_document(&document);
    let norm = normalize(original);
    if norm == rendered {
        None
    } else {
        Some((rendered, document.entries.len(), warnings))
    }
}

/// The check after a `WORK_HISTORY.md` rewrite: the failure where it does
/// not read back with `expected` entries.
pub fn check_history_round_trip(written: &str, expected: usize) -> (r: Result<(), MigrationError>)
    requires
        crate::history::history_cuts_ok(written@),
    ensures
        r is Ok <==> crate::history::parse_history(written@).entries.len() == expected,
        r is Err ==> r->Err_0 is Validation
            && r->Err_0->Validation_0@ == decimal(expected as nat) + " history entries did not round-trip"@,
{
    let validated = crate::history::parse_work_history_document(written);
    if validated.entries.len() == expected {
        Ok(())
    } else {
        let mut m = decimal_exec(expected as u64);
        push_str(&mut m, " history entries did not round-trip");
        Err(MigrationError::Validation(string_of(&m)))
    }
}

/// Whether the legacy reader can cut every heading of the text.
pub fn legacy_headings_cut_cleanly(content: &str) -> (r: bool)
    ensures
        r == legacy_headings_cut_ok(content@),
{
    let norm = normalize(content);
    let blocks = legacy_heading_blocks(norm.as_str());
    let ghost bv = pair_views(blocks@);
    let mut i: usize = 0;
    while i < blocks.len()
        invariant
            i <= blocks@.len(),
            bv == pair_views(blocks@),
            bv == legacy_blocks(normalized(content@)),
            forall|j: int| 0 <= j < i ==> legacy_cuts_ok(#[trigger] bv[j].0),
        decreases blocks@.len() - i,
    {
        if !legacy_cuts_ok_exec(&chars_of(blocks[i].0.as_str())) {
            assert(!legacy_cuts_ok(bv[i as int].0));
            return false;
        }
        i += 1;
    }
    true
}

fn legacy_cuts_ok_exec(h: &[char]) -> (r: bool)
    ensures
        r == legacy_cuts_ok(h@),
{
    proof {
        reveal_strlit("## ");
    }
    if !crate::text::has_prefix(h, "## ") {
        return true;
    }
    let v = trim_chars(&copy_range(h, 3, h.len()));
    assert(legacy_heading_text(h@) == Some(v@));
    let blen = crate::history::utf8_len_capped(&v, 16);
    let ok16 = blen < 16 || crate::history::byte_prefix_exec(&v, 16).is_some();
    let ok10 = blen < 10 || crate::history::byte_prefix_exec(&v, 10).is_some();
    ok16 && ok10
}

} // verus!
