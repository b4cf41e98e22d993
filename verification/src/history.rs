//! The structured `WORK_HISTORY.md` format: dated entries with a category,
//! an area, a summary and limitations.

use vstd::prelude::*;
use chrono::{Datelike, Timelike};
use crate::text::{
    char_byte_len, chars_of, copy_range, eq_ignore_ascii_case, eq_ignore_case, is_blank,
    is_blank_exec, join, join_chars, lines, lines_of, lit, lower_text, ltrim, push_all, push_str,
    starts_with, str_eq, string_of, to_lowercase, trim, trim_chars, trim_start, utf8_len, views,
    decimal, decimal_exec, zero_pad, zero_pad_exec,
};
use crate::models::{
    entry_views, opt_str, strs, warning_views, Minute, ValidationWarning, WarningModel,
    WorkCategory, WorkHistoryDocument, WorkHistoryEntry, WorkHistoryEntryModel,
};
use crate::markdown::{
    dedup, deduplicate_warnings, field_line, h2, heading_blocks, make_warning, nonempty_join,
    nonempty_join_exec, normalize_newlines, normalize_newlines_exec, parse_field_line,
    preserved_block, preserved_block_exec, split_heading_blocks, warning_model, block_views,
    BlockModel, HeadingBlock,
};
use crate::todos::{
    append_warnings, category_name, category_name_exec, category_named, category_named_exec,
    lookup_field, lookup_field_exec, field_views, opt_seq, text_lt, text_lt_exec, preserved_section,
    preserved_section_exec,
};

verus! {

/// The first characters of `s` whose UTF-8 encoding is exactly `n` bytes
/// long, when `n` falls on a character boundary.
pub open spec fn byte_prefix(s: Seq<char>, n: int) -> Option<Seq<char>>
    decreases s.len(),
{
    if n == 0 {
        Some(Seq::empty())
    } else if n < 0 || s.len() == 0 || char_byte_len(s[0]) > n {
        None
    } else {
        match byte_prefix(s.drop_first(), n - char_byte_len(s[0])) {
            Some(p) => Some(seq![s[0]] + p),
            None => None,
        }
    }
}

proof fn lemma_byte_prefix(s: Seq<char>, n: int)
    ensures
        byte_prefix(s, n) matches Some(p) ==> p.len() <= s.len() && p == s.subrange(0, p.len() as int),
    decreases s.len(),
{
    if n != 0 && !(n < 0 || s.len() == 0 || char_byte_len(s[0]) > n) {
        lemma_byte_prefix(s.drop_first(), n - char_byte_len(s[0]));
        if let Some(p) = byte_prefix(s.drop_first(), n - char_byte_len(s[0])) {
            assert(seq![s[0]] + p =~= s.subrange(0, p.len() as int + 1));
        }
    }
    if n == 0 {
        assert(Seq::<char>::empty() =~= s.subrange(0, 0));
    }
}

pub fn char_len_utf8(c: char) -> (r: usize)
    ensures
        r == char_byte_len(c),
{
    let v = c as u32;
    if v < 0x80 {
        1
    } else if v < 0x800 {
        2
    } else if v < 0x10000 {
        3
    } else {
        4
    }
}

/// `min(str::len, cap)` of the text.
pub fn utf8_len_capped(s: &[char], cap: usize) -> (r: usize)
    requires
        cap <= 1000000,
    ensures
        r == if utf8_len(s@) < cap { utf8_len(s@) } else { cap as nat },
{
    let mut total: usize = 0;
    let mut i: usize = 0;
    while i < s.len() && total < cap
        invariant
            i <= s@.len(),
            total == utf8_len(s@.subrange(0, i as int)),
            cap <= 1000000,
            total <= cap + 4,
        decreases s@.len() - i,
    {
        assert(s@.subrange(0, i + 1).drop_last() == s@.subrange(0, i as int));
        total = total + char_len_utf8(s[i]);
        i += 1;
    }
    proof {
        lemma_utf8_prefix(s@, i as int);
        if i == s@.len() {
            assert(s@.subrange(0, i as int) == s@);
        }
    }
    if total < cap {
        total
    } else {
        cap
    }
}

pub proof fn lemma_utf8_prefix(s: Seq<char>, k: int)
    requires
        0 <= k <= s.len(),
    ensures
        utf8_len(s.subrange(0, k)) <= utf8_len(s),
    decreases s.len() - k,
{
    if k < s.len() {
        lemma_utf8_prefix(s, k + 1);
        assert(s.subrange(0, k + 1).drop_last() == s.subrange(0, k));
    } else {
        assert(s.subrange(0, k) == s);
    }
}

pub(crate) fn byte_prefix_exec(s: &[char], n: usize) -> (r: Option<usize>)
    ensures
        match r {
            Some(k) => k <= s@.len() && byte_prefix(s@, n as int) == Some(s@.subrange(0, k as int)),
            None => byte_prefix(s@, n as int) is None,
        },
{
    let mut i: usize = 0;
    let mut left: usize = n;
    proof {
        lemma_byte_prefix(s@, n as int);
    }
    assert(s@.subrange(0, 0) =~= Seq::<char>::empty());
    assert(s@.subrange(0, s@.len() as int) == s@);
    proof {
        match byte_prefix(s@, n as int) {
            Some(p) => {
                assert(s@.subrange(0, 0) + p =~= p);
            },
            None => {},
        }
    }
    while left > 0 && i < s.len() && char_len_utf8(s[i]) <= left
        invariant
            i <= s@.len(),
            left <= n,
            byte_prefix(s@, n as int) == (match byte_prefix(s@.subrange(i as int, s@.len() as int), left as int) {
                Some(p) => Some(s@.subrange(0, i as int) + p),
                None => None,
            }),
        decreases s@.len() - i,
    {
        let ghost rest = s@.subrange(i as int, s@.len() as int);
        assert(rest.drop_first() == s@.subrange(i + 1, s@.len() as int));
        assert(rest[0] == s@[i as int]);
        proof {
            match byte_prefix(rest.drop_first(), left - char_byte_len(rest[0])) {
                Some(p) => {
                    assert(s@.subrange(0, i + 1) + p =~= s@.subrange(0, i as int) + (seq![s@[i as int]] + p));
                },
                None => {},
            }
        }
        left = left - char_len_utf8(s[i]);
        i += 1;
    }
    let ghost rest = s@.subrange(i as int, s@.len() as int);
    if left == 0 {
        assert(s@.subrange(0, i as int) + Seq::<char>::empty() =~= s@.subrange(0, i as int));
        Some(i)
    } else {
        assert(rest.len() == 0 || char_byte_len(rest[0]) > left);
        None
    }
}

/// What chrono's `NaiveDateTime::parse_from_str(s, "%Y-%m-%d %H:%M")` yields.
pub uninterp spec fn chrono_minute(s: Seq<char>) -> Option<Minute>;

/// What chrono's `NaiveDate::parse_from_str(s, "%Y-%m-%d")` yields, as (year, month, day).
pub uninterp spec fn chrono_date(s: Seq<char>) -> Option<(i32, u32, u32)>;

/// chrono's `NaiveDateTime::parse_from_str` with the `%Y-%m-%d %H:%M` format;
/// the contract names its result and claims nothing else.
#[verifier::external_body]
pub(crate) fn parse_minute_text(s: &[char]) -> (r: Option<Minute>)
    ensures
        r == chrono_minute(s@),
{
    let text: String = s.iter().collect();
    chrono::NaiveDateTime::parse_from_str(&text, "%Y-%m-%d %H:%M").ok().map(|d| Minute {
        year: d.year(),
        month: d.month(),
        day: d.day(),
        hour: d.hour(),
        minute: d.minute(),
    })
}

/// chrono's `NaiveDate::parse_from_str` with the `%Y-%m-%d` format; the
/// contract names its result and claims nothing else.
#[verifier::external_body]
pub(crate) fn parse_date_text(s: &[char]) -> (r: Option<(i32, u32, u32)>)
    ensures
        r == chrono_date(s@),
{
    let text: String = s.iter().collect();
    chrono::NaiveDate::parse_from_str(&text, "%Y-%m-%d").ok().map(|d| (d.year(), d.month(), d.day()))
}

/// The heading text after `## `, when the heading has that prefix.
pub open spec fn heading_rest(h: Seq<char>) -> Option<Seq<char>> {
    let t = trim(h);
    if starts_with(t, h2()) {
        Some(t.subrange(3, t.len() as int))
    } else {
        None
    }
}

/// The heading can be cut at bytes 10 and 16 (where it is that long) without
/// splitting a character; elsewhere the dated-heading reader would panic.
pub open spec fn heading_cuts_ok(h: Seq<char>) -> bool {
    match heading_rest(h) {
        Some(x) => {
            &&& (utf8_len(x) >= 16 ==> byte_prefix(x, 16) is Some)
            &&& (utf8_len(x) >= 10 ==> byte_prefix(x, 10) is Some)
        },
        None => true,
    }
}

/// `## YYYY-MM-DD HH:MM — Title` (standard), or a date without time and/or an
/// ASCII hyphen (accepted, not standard): the time, the title, and whether
/// the heading is standard.
pub open spec fn history_heading(h: Seq<char>) -> Option<(Minute, Seq<char>, bool)> {
    match heading_rest(h) {
        None => None,
        Some(x) => {
            if utf8_len(x) < 10 {
                None
            } else {
                let p16 = byte_prefix(x, 16).unwrap();
                let p10 = byte_prefix(x, 10).unwrap();
                let timed = utf8_len(x) >= 16 && chrono_minute(p16) is Some;
                let dated: Option<(Minute, Seq<char>)> = if timed {
                    Some((chrono_minute(p16).unwrap(), x.subrange(p16.len() as int, x.len() as int)))
                } else {
                    match chrono_date(p10) {
                        Some((y, m, d)) => Some((
                            Minute { year: y, month: m, day: d, hour: 0, minute: 0 },
                            x.subrange(p10.len() as int, x.len() as int),
                        )),
                        None => None,
                    }
                };
                match dated {
                    None => None,
                    Some((dt, rest)) => {
                        let suffix = ltrim(rest);
                        if starts_with(suffix, seq!['\u{2014}']) {
                            Some((dt, trim(suffix.drop_first()), timed))
                        } else if starts_with(suffix, seq!['-']) {
                            Some((dt, trim(suffix.drop_first()), false))
                        } else {
                            None
                        }
                    },
                }
            }
        },
    }
}

fn parse_history_heading(h: &[char]) -> (r: Option<(Minute, Vec<char>, bool)>)
    requires
        heading_cuts_ok(h@),
    ensures
        match r {
            Some((dt, title, std)) => history_heading(h@) == Some((dt, title@, std)),
            None => history_heading(h@) is None,
        },
{
    let t = trim_chars(h);
    let hh = lit("## ");
    proof {
        reveal_strlit("## ");
    }
    assert(hh@ == h2());
    if !crate::text::matches_at(&t, 0, &hh) {
        return None;
    }
    let x = copy_range(&t, 3, t.len());
    assert(heading_rest(h@) == Some(x@));
    let blen = utf8_len_capped(&x, 16);
    if blen < 10 {
        return None;
    }
    let k10: usize = match byte_prefix_exec(&x, 10) {
        Some(k) => k,
        None => {
            return None;
        },
    };
    let mut timed = false;
    let mut dt = Minute { year: 0, month: 0, day: 0, hour: 0, minute: 0 };
    let mut rest_start: usize = 0;
    if blen >= 16 {
        match byte_prefix_exec(&x, 16) {
            Some(k16) => {
                match parse_minute_text(&copy_range(&x, 0, k16)) {
                    Some(m) => {
                        timed = true;
                        dt = m;
                        rest_start = k16;
                    },
                    None => {},
                }
            },
            None => {},
        }
    }
    if !timed {
        match parse_date_text(&copy_range(&x, 0, k10)) {
            Some((y, m, d)) => {
                dt = Minute { year: y, month: m, day: d, hour: 0, minute: 0 };
                rest_start = k10;
            },
            None => {
                return None;
            },
        }
    }
    let suffix = trim_start(&copy_range(&x, rest_start, x.len()));
    if suffix.len() > 0 && suffix[0] == '\u{2014}' {
        assert(suffix@.subrange(0, 1) =~= seq!['\u{2014}']);
        let title = trim_chars(&copy_range(&suffix, 1, suffix.len()));
        assert(suffix@.subrange(1, suffix@.len() as int) == suffix@.drop_first());
        Some((dt, title, timed))
    } else if suffix.len() > 0 && suffix[0] == '-' {
        assert(suffix@.subrange(0, 1) =~= seq!['-']);
        proof {
            if starts_with(suffix@, seq!['\u{2014}']) {
                assert(suffix@.subrange(0, 1)[0] == suffix@[0]);
            }
        }
        let title = trim_chars(&copy_range(&suffix, 1, suffix.len()));
        assert(suffix@.subrange(1, suffix@.len() as int) == suffix@.drop_first());
        Some((dt, title, false))
    } else {
        proof {
            if starts_with(suffix@, seq!['\u{2014}']) || starts_with(suffix@, seq!['-']) {
                assert(suffix@.subrange(0, 1)[0] == suffix@[0]);
            }
        }
        None
    }
}


pub struct HistScan {
    pub fields: Seq<(Seq<char>, Seq<char>)>,
    pub section: u8,
    pub summary: Seq<Seq<char>>,
    pub limitations: Seq<Seq<char>>,
    pub preserved: Seq<Seq<char>>,
}

/// The effect of one body line of a history entry: `### Summary` and
/// `### Limitations` open sections; `Category`/`Area` fields count only before
/// them; other non-blank lines outside sections are kept verbatim.
pub open spec fn hist_step(st: HistScan, line: Seq<char>) -> HistScan {
    let trimmed = trim(line);
    if eq_ignore_case(trimmed, "### Summary"@) {
        HistScan { section: 1, ..st }
    } else if eq_ignore_case(trimmed, "### Limitations"@) {
        HistScan { section: 2, ..st }
    } else if field_line(line) matches Some((k, v)) && (k == "category"@ || k == "area"@) && st.section == 0 {
        HistScan { fields: st.fields.push((field_line(line).unwrap().0, field_line(line).unwrap().1)), ..st }
    } else if st.section == 1 {
        HistScan { summary: st.summary.push(line), ..st }
    } else if st.section == 2 {
        HistScan { limitations: st.limitations.push(line), ..st }
    } else if trimmed.len() > 0 {
        HistScan { preserved: st.preserved.push(line), ..st }
    } else {
        st
    }
}

pub open spec fn hist_scan(ls: Seq<Seq<char>>) -> HistScan
    decreases ls.len(),
{
    if ls.len() == 0 {
        HistScan {
            fields: Seq::empty(),
            section: 0,
            summary: Seq::empty(),
            limitations: Seq::empty(),
            preserved: Seq::empty(),
        }
    } else {
        hist_step(hist_scan(ls.drop_last()), ls.last())
    }
}

pub struct HistOutcome {
    pub entry: Option<WorkHistoryEntryModel>,
    pub warnings: Seq<WarningModel>,
    pub preserved: Seq<Seq<char>>,
}

pub open spec fn hw(code: Seq<char>, message: Seq<char>) -> Seq<WarningModel> {
    seq![warning_model(code, message, None)]
}

pub open spec fn history_block(b: BlockModel) -> HistOutcome {
    match history_heading(b.heading) {
        None => HistOutcome { entry: None, warnings: Seq::empty(), preserved: opt_seq(preserved_block(b)) },
        Some((dt, title, standard)) => {
            let w0 = if standard {
                Seq::<WarningModel>::empty()
            } else {
                hw("nonstandard_history_heading"@, "History heading should use `## YYYY-MM-DD HH:MM \u{2014} Title`."@)
            };
            let st = hist_scan(lines(b.body));
            let category = match lookup_field(st.fields, "category"@) {
                Some(v) => category_named(lower_text(trim(v))),
                None => None,
            };
            let wc = if category is None {
                hw("missing_or_invalid_category"@, "Missing or invalid Category field."@)
            } else {
                Seq::<WarningModel>::empty()
            };
            let area = match lookup_field(st.fields, "area"@) {
                Some(v) if trim(v).len() > 0 => Some(trim(v)),
                _ => None,
            };
            let wa = if area is None { hw("missing_area"@, "Missing Area field."@) } else { Seq::<WarningModel>::empty() };
            let summary = trim(join(st.summary, "\n"@));
            let limitations = trim(join(st.limitations, "\n"@));
            let ws = if summary.len() == 0 { hw("missing_summary"@, "Missing Summary section."@) } else { Seq::<WarningModel>::empty() };
            let wl = if limitations.len() == 0 {
                hw("missing_limitations"@, "Missing Limitations section."@)
            } else {
                Seq::<WarningModel>::empty()
            };
            let warnings = w0 + wc + wa + ws + wl;
            if category is Some && area is Some && summary.len() > 0 && limitations.len() > 0 {
                HistOutcome {
                    entry: Some(WorkHistoryEntryModel {
                        occurred_at: dt,
                        title,
                        category: category.unwrap(),
                        area: area.unwrap(),
                        summary,
                        limitations,
                    }),
                    warnings,
                    preserved: st.preserved,
                }
            } else {
                HistOutcome { entry: None, warnings, preserved: st.preserved.push(trim(b.raw)) }
            }
        },
    }
}

pub struct HistAcc {
    pub entries: Seq<WorkHistoryEntryModel>,
    pub warnings: Seq<WarningModel>,
    pub preserved: Seq<Seq<char>>,
}

pub open spec fn history_blocks(bs: Seq<BlockModel>) -> HistAcc
    decreases bs.len(),
{
    if bs.len() == 0 {
        HistAcc { entries: Seq::empty(), warnings: Seq::empty(), preserved: Seq::empty() }
    } else {
        let acc = history_blocks(bs.drop_last());
        let o = history_block(bs.last());
        HistAcc {
            entries: match o.entry {
                Some(e) => acc.entries.push(e),
                None => acc.entries,
            },
            warnings: acc.warnings + o.warnings,
            preserved: acc.preserved + o.preserved,
        }
    }
}

pub open spec fn category_at(i: int) -> WorkCategory {
    if i == 0 {
        WorkCategory::Feature
    } else if i == 1 {
        WorkCategory::Bugfix
    } else if i == 2 {
        WorkCategory::Refactor
    } else if i == 3 {
        WorkCategory::Test
    } else if i == 4 {
        WorkCategory::Documentation
    } else if i == 5 {
        WorkCategory::Research
    } else {
        WorkCategory::Others
    }
}

pub open spec fn has_category(entries: Seq<WorkHistoryEntryModel>, c: WorkCategory) -> bool {
    exists|i: int| 0 <= i < entries.len() && entries[i].category == c
}

pub open spec fn categories_upto(entries: Seq<WorkHistoryEntryModel>, n: int) -> Seq<WorkCategory>
    decreases n,
{
    if n <= 0 {
        Seq::empty()
    } else {
        let prev = categories_upto(entries, n - 1);
        if has_category(entries, category_at(n - 1)) {
            prev.push(category_at(n - 1))
        } else {
            prev
        }
    }
}

/// The categories that occur, in declaration order, each once.
pub open spec fn categories_of(entries: Seq<WorkHistoryEntryModel>) -> Seq<WorkCategory> {
    categories_upto(entries, 7)
}

/// Position before the first text that `x` does not sort after.
pub open spec fn text_pos_from(sorted: Seq<Seq<char>>, x: Seq<char>, i: int) -> int
    decreases sorted.len() - i,
{
    if i < 0 || i >= sorted.len() {
        sorted.len() as int
    } else if !text_lt(sorted[i], x) {
        i
    } else {
        text_pos_from(sorted, x, i + 1)
    }
}

pub(crate) proof fn lemma_text_pos(sorted: Seq<Seq<char>>, x: Seq<char>, i: int)
    requires
        0 <= i <= sorted.len(),
    ensures
        i <= text_pos_from(sorted, x, i) <= sorted.len(),
    decreases sorted.len() - i,
{
    if i < sorted.len() && text_lt(sorted[i], x) {
        lemma_text_pos(sorted, x, i + 1);
    }
}

/// Inserts `x` into a sorted sequence of texts, keeping it sorted and free of repeats.
pub open spec fn insert_text(sorted: Seq<Seq<char>>, x: Seq<char>) -> Seq<Seq<char>> {
    if sorted.contains(x) {
        sorted
    } else {
        sorted.insert(text_pos_from(sorted, x, 0), x)
    }
}

/// The areas that occur, sorted and each once (a `BTreeSet` of the areas).
pub open spec fn areas_of(entries: Seq<WorkHistoryEntryModel>) -> Seq<Seq<char>>
    decreases entries.len(),
{
    if entries.len() == 0 {
        Seq::empty()
    } else {
        insert_text(areas_of(entries.drop_last()), entries.last().area)
    }
}

pub struct HistoryDocModel {
    pub entries: Seq<WorkHistoryEntryModel>,
    pub categories: Seq<WorkCategory>,
    pub areas: Seq<Seq<char>>,
    pub warnings: Seq<WarningModel>,
    pub preserved_content: Option<Seq<char>>,
}

/// Every heading of the text can be cut where the dated-heading reader cuts it.
pub open spec fn history_cuts_ok(content: Seq<char>) -> bool {
    forall|k: int| 0 <= k < heading_blocks(normalize_newlines(content)).len()
        ==> heading_cuts_ok(#[trigger] heading_blocks(normalize_newlines(content))[k].heading)
}

pub open spec fn parse_history(content: Seq<char>) -> HistoryDocModel {
    let acc = history_blocks(heading_blocks(normalize_newlines(content)));
    let ws = acc.warnings + (if acc.preserved.len() > 0 {
        seq![crate::todos::preserved_warning()]
    } else {
        Seq::<WarningModel>::empty()
    });
    HistoryDocModel {
        entries: acc.entries,
        categories: categories_of(acc.entries),
        areas: areas_of(acc.entries),
        warnings: dedup(ws),
        preserved_content: nonempty_join(acc.preserved),
    }
}


fn hist_scan_exec(body: &[char]) -> (r: (Vec<(Vec<char>, Vec<char>)>, Vec<Vec<char>>, Vec<Vec<char>>, Vec<Vec<char>>))
    ensures
        field_views(r.0@) == hist_scan(lines(body@)).fields,
        views(r.1@) == hist_scan(lines(body@)).summary,
        views(r.2@) == hist_scan(lines(body@)).limitations,
        views(r.3@) == hist_scan(lines(body@)).preserved,
{
    let ls = lines_of(body);
    let ghost lv = views(ls@);
    let mut fields: Vec<(Vec<char>, Vec<char>)> = Vec::new();
    let mut section: u8 = 0;
    let mut summary: Vec<Vec<char>> = Vec::new();
    let mut limitations: Vec<Vec<char>> = Vec::new();
    let mut preserved: Vec<Vec<char>> = Vec::new();
    let mut i: usize = 0;
    assert(field_views(fields@) =~= Seq::<(Seq<char>, Seq<char>)>::empty());
    assert(views(summary@) =~= Seq::<Seq<char>>::empty());
    assert(views(limitations@) =~= Seq::<Seq<char>>::empty());
    assert(views(preserved@) =~= Seq::<Seq<char>>::empty());
    while i < ls.len()
        invariant
            i <= ls@.len(),
            lv == views(ls@),
            ({
                let st = hist_scan(lv.subrange(0, i as int));
                &&& field_views(fields@) == st.fields
                &&& section == st.section
                &&& views(summary@) == st.summary
                &&& views(limitations@) == st.limitations
                &&& views(preserved@) == st.preserved
            }),
        decreases ls@.len() - i,
    {
        assert(lv.subrange(0, i + 1).drop_last() == lv.subrange(0, i as int));
        assert(lv.subrange(0, i + 1).last() == ls@[i as int]@);
        let line = &ls[i];
        let trimmed = trim_chars(line);
        let ghost fv = field_views(fields@);
        let ghost sv = views(summary@);
        let ghost limv = views(limitations@);
        let ghost pv = views(preserved@);
        let copy = copy_range(line, 0, line.len());
        assert(line@.subrange(0, line@.len() as int) == line@);
        if eq_ignore_ascii_case(&trimmed, "### Summary") {
            section = 1;
        } else if eq_ignore_ascii_case(&trimmed, "### Limitations") {
            section = 2;
        } else {
            let mut taken = false;
            if section == 0 {
                match parse_field_line(line) {
                    Some((k, v)) => {
                        if str_eq(&k, "category") || str_eq(&k, "area") {
                            fields.push((k, v));
                            assert(field_views(fields@) =~= fv.push((k@, v@)));
                            taken = true;
                        }
                    },
                    None => {},
                }
            }
            if !taken {
                if section == 1 {
                    summary.push(copy);
                    assert(views(summary@) =~= sv.push(line@));
                } else if section == 2 {
                    limitations.push(copy);
                    assert(views(limitations@) =~= limv.push(line@));
                } else if trimmed.len() > 0 {
                    preserved.push(copy);
                    assert(views(preserved@) =~= pv.push(line@));
                }
            }
        }
        i += 1;
    }
    assert(lv.subrange(0, lv.len() as int) == lv);
    (fields, summary, limitations, preserved)
}

fn one_history_warning(code: &str, message: &str) -> (r: Vec<ValidationWarning>)
    ensures
        warning_views(r@) == hw(code@, message@),
{
    let mut r: Vec<ValidationWarning> = Vec::new();
    r.push(make_warning(code, &lit(message), None));
    assert(warning_views(r@) =~= hw(code@, message@));
    r
}

/// What one heading block contributes to a working-history document.
pub fn history_block_exec(b: &HeadingBlock) -> (r: (Option<WorkHistoryEntry>, Vec<ValidationWarning>, Vec<Vec<char>>))
    requires
        heading_cuts_ok(b@.heading),
    ensures
        match r.0 {
            Some(e) => history_block(b@).entry == Some(e@),
            None => history_block(b@).entry is None,
        },
        warning_views(r.1@) == history_block(b@).warnings,
        views(r.2@) == history_block(b@).preserved,
{
    let ghost expected = history_block(b@);
    match parse_history_heading(&b.heading) {
        None => {
            let mut kept: Vec<Vec<char>> = Vec::new();
            match preserved_block_exec(b) {
                Some(c) => {
                    kept.push(c);
                },
                None => {},
            }
            assert(views(kept@) =~= expected.preserved);
            let none: Vec<ValidationWarning> = Vec::new();
            assert(warning_views(none@) =~= expected.warnings);
            (None, none, kept)
        },
        Some((dt, title, standard)) => {
            let ghost st = hist_scan(lines(b.body@));
            let mut warnings: Vec<ValidationWarning> = Vec::new();
            if !standard {
                warnings.push(make_warning(
                    "nonstandard_history_heading",
                    &lit("History heading should use `## YYYY-MM-DD HH:MM \u{2014} Title`."),
                    None,
                ));
            }
            let ghost w0 = warning_views(warnings@);
            let (fields, summary_lines, limitation_lines, mut kept) = hist_scan_exec(&b.body);
            let category = match lookup_field_exec(&fields, "category") {
                Some(v) => category_named_exec(&to_lowercase(&trim_chars(&v))),
                None => None,
            };
            if category.is_none() {
                append_warnings(&mut warnings, one_history_warning("missing_or_invalid_category", "Missing or invalid Category field."));
            }
            let ghost w1 = warning_views(warnings@);
            assert(w1 =~= w0 + (if category is None {
                hw("missing_or_invalid_category"@, "Missing or invalid Category field."@)
            } else {
                Seq::<WarningModel>::empty()
            }));
            let area: Option<Vec<char>> = match lookup_field_exec(&fields, "area") {
                Some(v) => {
                    let t = trim_chars(&v);
                    if t.len() > 0 {
                        Some(t)
                    } else {
                        None
                    }
                },
                None => None,
            };
            if area.is_none() {
                append_warnings(&mut warnings, one_history_warning("missing_area", "Missing Area field."));
            }
            let ghost w2 = warning_views(warnings@);
            assert(w2 =~= w1 + (if area is None { hw("missing_area"@, "Missing Area field."@) } else { Seq::<WarningModel>::empty() }));
            let summary = trim_chars(&join_chars(&summary_lines, "\n"));
            let limitations = trim_chars(&join_chars(&limitation_lines, "\n"));
            if summary.len() == 0 {
                append_warnings(&mut warnings, one_history_warning("missing_summary", "Missing Summary section."));
            }
            let ghost w3 = warning_views(warnings@);
            assert(w3 =~= w2 + (if summary@.len() == 0 { hw("missing_summary"@, "Missing Summary section."@) } else { Seq::<WarningModel>::empty() }));
            if limitations.len() == 0 {
                append_warnings(&mut warnings, one_history_warning("missing_limitations", "Missing Limitations section."));
            }
            assert(warning_views(warnings@) =~= expected.warnings);
            match (category, area) {
                (Some(c), Some(a)) => {
                    if summary.len() > 0 && limitations.len() > 0 {
                        let entry = WorkHistoryEntry {
                            occurred_at: dt,
                            title: string_of(&title),
                            category: c,
                            area: string_of(&a),
                            summary: string_of(&summary),
                            limitations: string_of(&limitations),
                        };
                        assert(expected.entry == Some(entry@));
                        return (Some(entry), warnings, kept);
                    }
                },
                _ => {},
            }
            let ghost kv = views(kept@);
            kept.push(trim_chars(&b.raw));
            assert(views(kept@) =~= kv.push(trim(b@.raw)));
            (None, warnings, kept)
        },
    }
}

fn has_category_exec(entries: &Vec<WorkHistoryEntry>, c: WorkCategory) -> (r: bool)
    ensures
        r == has_category(entry_views(entries@), c),
{
    let mut i: usize = 0;
    while i < entries.len()
        invariant
            i <= entries@.len(),
            forall|j: int| 0 <= j < i ==> entries@[j].category != c,
        decreases entries@.len() - i,
    {
        if entries[i].category == c {
            assert(entry_views(entries@)[i as int].category == c);
            return true;
        }
        i += 1;
    }
    assert forall|j: int| 0 <= j < entry_views(entries@).len() implies entry_views(entries@)[j].category != c by {
        assert(entry_views(entries@)[j] == entries@[j]@);
    }
    false
}

fn category_at_exec(i: usize) -> (r: WorkCategory)
    ensures
        r == category_at(i as int),
{
    if i == 0 {
        WorkCategory::Feature
    } else if i == 1 {
        WorkCategory::Bugfix
    } else if i == 2 {
        WorkCategory::Refactor
    } else if i == 3 {
        WorkCategory::Test
    } else if i == 4 {
        WorkCategory::Documentation
    } else if i == 5 {
        WorkCategory::Research
    } else {
        WorkCategory::Others
    }
}

pub fn categories_exec(entries: &Vec<WorkHistoryEntry>) -> (r: Vec<WorkCategory>)
    ensures
        r@ == categories_of(entry_views(entries@)),
{
    let mut out: Vec<WorkCategory> = Vec::new();
    let mut k: usize = 0;
    while k < 7
        invariant
            k <= 7,
            out@ == categories_upto(entry_views(entries@), k as int),
        decreases 7 - k,
    {
        let c = category_at_exec(k);
        if has_category_exec(entries, c) {
            out.push(c);
        }
        k += 1;
    }
    out
}

pub fn areas_exec(entries: &Vec<WorkHistoryEntry>) -> (r: Vec<String>)
    ensures
        strs(r@) == areas_of(entry_views(entries@)),
{
    let mut sorted: Vec<String> = Vec::new();
    let mut i: usize = 0;
    assert(strs(sorted@) =~= areas_of(entry_views(entries@).subrange(0, 0)));
    while i < entries.len()
        invariant
            i <= entries@.len(),
            strs(sorted@) == areas_of(entry_views(entries@).subrange(0, i as int)),
        decreases entries@.len() - i,
    {
        let ghost ev = entry_views(entries@);
        assert(ev.subrange(0, i + 1).drop_last() == ev.subrange(0, i as int));
        assert(ev.subrange(0, i + 1).last() == entries@[i as int]@);
        let ghost sv = strs(sorted@);
        let x = chars_of(entries[i].area.as_str());
        let mut found = false;
        let mut j: usize = 0;
        while j < sorted.len()
            invariant
                j <= sorted@.len(),
                i < entries@.len(),
                x@ == entries@[i as int].area@,
                sv == strs(sorted@),
                found == exists|m: int| 0 <= m < j && sv[m] == x@,
            decreases sorted@.len() - j,
        {
            assert(sv[j as int] == sorted@[j as int]@);
            if sorted[j] == entries[i].area {
                found = true;
            }
            j += 1;
        }
        proof {
            if found {
                let m = choose|m: int| 0 <= m < sorted@.len() && sv[m] == x@;
                assert(sv.contains(x@));
            } else if sv.contains(x@) {
                let m = choose|m: int| 0 <= m < sv.len() && sv[m] == x@;
                assert(false);
            }
        }
        if !found {
            let mut p: usize = 0;
            proof {
                lemma_text_pos(sv, x@, 0);
            }
            while p < sorted.len() && text_before(&sorted, p, &x)
                invariant
                    p <= sorted@.len(),
                    sv == strs(sorted@),
                    text_pos_from(sv, x@, p as int) == text_pos_from(sv, x@, 0),
                decreases sorted@.len() - p,
            {
                p += 1;
            }
            assert(text_pos_from(sv, x@, p as int) == p as int);
            sorted.insert(p, string_of(&x));
            assert(strs(sorted@) =~= sv.insert(p as int, x@));
        }
        i += 1;
    }
    assert(entry_views(entries@).subrange(0, entries@.len() as int) == entry_views(entries@));
    sorted
}

fn text_before(sorted: &Vec<String>, p: usize, x: &[char]) -> (r: bool)
    requires
        p < sorted@.len(),
    ensures
        r == text_lt(sorted@[p as int]@, x@),
{
    let e = chars_of(sorted[p].as_str());
    text_lt_exec(&e, x)
}

pub open spec fn history_doc_model(d: WorkHistoryDocument) -> HistoryDocModel {
    HistoryDocModel {
        entries: entry_views(d.entries@),
        categories: d.categories@,
        areas: strs(d.areas@),
        warnings: warning_views(d.warnings@),
        preserved_content: opt_str(d.preserved_content),
    }
}

/// Whether every heading of the text can be cut where the dated-heading
/// reader cuts it (`history_cuts_ok`).
pub fn history_headings_cut_cleanly(content: &str) -> (r: bool)
    ensures
        r == history_cuts_ok(content@),
{
    let normalized = normalize_newlines_exec(&chars_of(content));
    let blocks = split_heading_blocks(&normalized);
    let ghost bv = block_views(blocks@);
    let mut k: usize = 0;
    while k < blocks.len()
        invariant
            k <= blocks@.len(),
            bv == block_views(blocks@),
            bv == heading_blocks(normalize_newlines(content@)),
            forall|j: int| 0 <= j < k ==> heading_cuts_ok(#[trigger] bv[j].heading),
        decreases blocks@.len() - k,
    {
        if !heading_cuts_ok_exec(&blocks[k].heading) {
            assert(!heading_cuts_ok(bv[k as int].heading));
            return false;
        }
        k += 1;
    }
    true
}

fn heading_cuts_ok_exec(h: &[char]) -> (r: bool)
    ensures
        r == heading_cuts_ok(h@),
{
    let t = trim_chars(h);
    let hh = lit("## ");
    proof {
        reveal_strlit("## ");
    }
    assert(hh@ == h2());
    if !crate::text::matches_at(&t, 0, &hh) {
        return true;
    }
    let x = copy_range(&t, 3, t.len());
    assert(heading_rest(h@) == Some(x@));
    let blen = utf8_len_capped(&x, 16);
    let ok16 = blen < 16 || byte_prefix_exec(&x, 16).is_some();
    let ok10 = blen < 10 || byte_prefix_exec(&x, 10).is_some();
    ok16 && ok10
}

/// `parse_work_history_document`: reads `WORK_HISTORY.md` text into dated
/// entries; entries that cannot be read completely are kept verbatim and
/// reported.
pub fn parse_work_history_document(content: &str) -> (d: WorkHistoryDocument)
    requires
        history_cuts_ok(content@),
    ensures
        history_doc_model(d) == parse_history(content@),
        d.relative_path is None,
{
    let raw = chars_of(content);
    let normalized = normalize_newlines_exec(&raw);
    let blocks = split_heading_blocks(&normalized);
    let ghost bv = block_views(blocks@);
    let mut entries: Vec<WorkHistoryEntry> = Vec::new();
    let mut warnings: Vec<ValidationWarning> = Vec::new();
    let mut preserved: Vec<Vec<char>> = Vec::new();
    let mut i: usize = 0;
    assert(entry_views(entries@) =~= Seq::<WorkHistoryEntryModel>::empty());
    assert(warning_views(warnings@) =~= Seq::<WarningModel>::empty());
    assert(views(preserved@) =~= Seq::<Seq<char>>::empty());
    while i < blocks.len()
        invariant
            i <= blocks@.len(),
            bv == block_views(blocks@),
            bv == heading_blocks(normalize_newlines(content@)),
            history_cuts_ok(content@),
            ({
                let acc = history_blocks(bv.subrange(0, i as int));
                &&& entry_views(entries@) == acc.entries
                &&& warning_views(warnings@) == acc.warnings
                &&& views(preserved@) == acc.preserved
            }),
        decreases blocks@.len() - i,
    {
        assert(bv.subrange(0, i + 1).drop_last() == bv.subrange(0, i as int));
        assert(bv.subrange(0, i + 1).last() == blocks@[i as int]@);
        assert(heading_cuts_ok(bv[i as int].heading));
        let (entry, ws, kept) = history_block_exec(&blocks[i]);
        let ghost ev = entry_views(entries@);
        let ghost pv = views(preserved@);
        match entry {
            Some(e) => {
                entries.push(e);
                assert(entry_views(entries@) =~= ev.push(e@));
            },
            None => {},
        }
        append_warnings(&mut warnings, ws);
        let mut k: usize = 0;
        while k < kept.len()
            invariant
                k <= kept@.len(),
                views(preserved@) == pv + views(kept@).subrange(0, k as int),
            decreases kept@.len() - k,
        {
            let ghost before = views(preserved@);
            preserved.push(copy_range(&kept[k], 0, kept[k].len()));
            assert(kept@[k as int]@.subrange(0, kept@[k as int]@.len() as int) == kept@[k as int]@);
            assert(views(preserved@) =~= before.push(kept@[k as int]@));
            assert(views(kept@).subrange(0, k + 1) =~= views(kept@).subrange(0, k as int).push(kept@[k as int]@));
            k += 1;
        }
        assert(views(kept@).subrange(0, kept@.len() as int) == views(kept@));
        i += 1;
    }
    assert(bv.subrange(0, bv.len() as int) == bv);
    if preserved.len() > 0 {
        let ghost before = warning_views(warnings@);
        warnings.push(make_warning(
            "preserved_unrecognized_content",
            &lit("Unrecognized source content is preserved for review."),
            None,
        ));
        assert(warning_views(warnings@) =~= before.push(crate::todos::preserved_warning()));
    }
    let ghost acc = history_blocks(bv);
    assert(warning_views(warnings@) =~= acc.warnings + (if acc.preserved.len() > 0 {
        seq![crate::todos::preserved_warning()]
    } else {
        Seq::<WarningModel>::empty()
    }));
    let categories = categories_exec(&entries);
    let areas = areas_exec(&entries);
    WorkHistoryDocument {
        relative_path: None,
        entries,
        categories,
        areas,
        warnings: deduplicate_warnings(warnings),
        preserved_content: nonempty_join_exec(&preserved),
    }
}


/// chrono's `%Y`: four digits, zero-padded, for years 0 to 9999; otherwise a
/// sign and at least four digits.
pub open spec fn year_text(y: i32) -> Seq<char> {
    if 0 <= y <= 9999 {
        zero_pad(decimal(y as nat), 4)
    } else if y > 9999 {
        seq!['+'] + decimal(y as nat)
    } else {
        seq!['-'] + zero_pad(decimal((-y) as nat), 4)
    }
}

pub open spec fn two_digits(v: u32) -> Seq<char> {
    zero_pad(decimal(v as nat), 2)
}

/// The `%Y-%m-%d %H:%M` text of a minute.
pub open spec fn minute_text(m: Minute) -> Seq<char> {
    year_text(m.year) + seq!['-'] + two_digits(m.month) + seq!['-'] + two_digits(m.day) + seq![' ']
        + two_digits(m.hour) + seq![':'] + two_digits(m.minute)
}

/// The Markdown of one working-history entry.
pub open spec fn render_history_entry(e: WorkHistoryEntryModel) -> Seq<char> {
    "## "@ + minute_text(e.occurred_at) + " \u{2014} "@ + trim(e.title) + "\n\n- Category: "@
        + category_name(e.category) + "\n- Area: "@ + trim(e.area) + "\n\n### Summary\n\n"@
        + trim(e.summary) + "\n\n### Limitations\n\n"@ + trim(e.limitations) + "\n"@
}

/// The `WORK_HISTORY.md` text: the entries in order, then any preserved text.
pub open spec fn render_history(entries: Seq<WorkHistoryEntryModel>, preserved: Option<Seq<char>>) -> Seq<char> {
    preserved_section(
        join(entries.map_values(|e: WorkHistoryEntryModel| render_history_entry(e)), "\n"@),
        preserved,
        crate::markdown::history_intro(),
    )
}

fn year_text_exec(y: i32) -> (r: Vec<char>)
    ensures
        r@ == year_text(y),
{
    if 0 <= y && y <= 9999 {
        zero_pad_exec(decimal_exec(y as u64), 4)
    } else if y > 9999 {
        let mut r: Vec<char> = Vec::new();
        r.push('+');
        push_all(&mut r, &decimal_exec(y as u64));
        r
    } else {
        let v: i64 = -(y as i64);
        let mut r: Vec<char> = Vec::new();
        r.push('-');
        push_all(&mut r, &zero_pad_exec(decimal_exec(v as u64), 4));
        r
    }
}

fn two_digits_exec(v: u32) -> (r: Vec<char>)
    ensures
        r@ == two_digits(v),
{
    zero_pad_exec(decimal_exec(v as u64), 2)
}

/// `%Y-%m-%d %H:%M`, as `WORK_HISTORY.md` headings write a time.
pub fn minute_text_exec(m: &Minute) -> (r: Vec<char>)
    ensures
        r@ == minute_text(*m),
{
    let mut r = year_text_exec(m.year);
    r.push('-');
    push_all(&mut r, &two_digits_exec(m.month));
    r.push('-');
    push_all(&mut r, &two_digits_exec(m.day));
    r.push(' ');
    push_all(&mut r, &two_digits_exec(m.hour));
    r.push(':');
    push_all(&mut r, &two_digits_exec(m.minute));
    r
}

pub fn render_history_entry_exec(e: &WorkHistoryEntry) -> (r: Vec<char>)
    ensures
        r@ == render_history_entry(e@),
{
    let mut out = lit("## ");
    push_all(&mut out, &minute_text_exec(&e.occurred_at));
    push_str(&mut out, " \u{2014} ");
    push_all(&mut out, &trim_chars(&chars_of(e.title.as_str())));
    push_str(&mut out, "\n\n- Category: ");
    push_str(&mut out, category_name_exec(e.category));
    push_str(&mut out, "\n- Area: ");
    push_all(&mut out, &trim_chars(&chars_of(e.area.as_str())));
    push_str(&mut out, "\n\n### Summary\n\n");
    push_all(&mut out, &trim_chars(&chars_of(e.summary.as_str())));
    push_str(&mut out, "\n\n### Limitations\n\n");
    push_all(&mut out, &trim_chars(&chars_of(e.limitations.as_str())));
    push_str(&mut out, "\n");
    out
}

/// `render_work_history_document`: the `WORK_HISTORY.md` text of a document,
/// entries in their order, then any preserved text.
pub fn render_work_history_document(document: &WorkHistoryDocument) -> (r: String)
    ensures
        r@ == render_history(entry_views(document.entries@), opt_str(document.preserved_content)),
{
    let ghost ev = entry_views(document.entries@);
    let mut texts: Vec<Vec<char>> = Vec::new();
    let mut i: usize = 0;
    while i < document.entries.len()
        invariant
            i <= document.entries@.len(),
            ev == entry_views(document.entries@),
            views(texts@) =~= ev.subrange(0, i as int).map_values(|e: WorkHistoryEntryModel| render_history_entry(e)),
        decreases document.entries@.len() - i,
    {
        let ghost before = views(texts@);
        texts.push(render_history_entry_exec(&document.entries[i]));
        assert(views(texts@) =~= before.push(render_history_entry(document.entries@[i as int]@)));
        i += 1;
    }
    assert(ev.subrange(0, ev.len() as int) == ev);
    let out = join_chars(&texts, "\n");
    let out = preserved_section_exec(
        out,
        &document.preserved_content,
        "The following source content was not recognized as structured working history and is preserved verbatim.",
    );
    string_of(&out)
}

} // verus!
