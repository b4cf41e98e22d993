//! Markdown structure shared by the TODO and working-history documents:
//! newline normalization, `## ` heading blocks, `- Key: value` field lines,
//! and warning bookkeeping.

use vstd::prelude::*;
use crate::text::{
    chars_of, copy_range, ends_with, eq_ignore_ascii_case, eq_ignore_case, find_char, find_char_exec,
    is_blank, is_blank_exec, join, join_chars, lit, lower_text, ltrim, matches_at, occurs_at,
    starts_with, string_of, strip_prefix_or_same, to_lowercase, trim, trim_chars, trim_start, views,
};
use crate::models::{opt_str, warning_views, ValidationWarning, WarningModel};

verus! {

/// `\r\n` and lone `\r` both become `\n`.
pub open spec fn normalize_newlines(s: Seq<char>) -> Seq<char>
    decreases s.len(),
{
    if s.len() == 0 {
        s
    } else if s[0] == '\r' {
        if s.len() > 1 && s[1] == '\n' {
            seq!['\n'] + normalize_newlines(s.subrange(2, s.len() as int))
        } else {
            seq!['\n'] + normalize_newlines(s.drop_first())
        }
    } else {
        seq![s[0]] + normalize_newlines(s.drop_first())
    }
}

pub fn normalize_newlines_exec(s: &[char]) -> (r: Vec<char>)
    ensures
        r@ == normalize_newlines(s@),
{
    let n: usize = s.len();
    let mut out: Vec<char> = Vec::new();
    let mut i: usize = 0;
    assert(s@.subrange(0, n as int) == s@);
    while i < n
        invariant
            n == s@.len(),
            i <= n,
            out@ + normalize_newlines(s@.subrange(i as int, n as int)) == normalize_newlines(s@),
        decreases n - i,
    {
        let ghost rest = s@.subrange(i as int, n as int);
        let ghost old_out = out@;
        if s[i] == '\r' {
            out.push('\n');
            if i + 1 < n && s[i + 1] == '\n' {
                assert(rest.subrange(2, rest.len() as int) == s@.subrange(i + 2, n as int));
                assert(out@ + normalize_newlines(s@.subrange(i + 2, n as int)) == old_out + normalize_newlines(rest));
                i += 2;
            } else {
                assert(rest.drop_first() == s@.subrange(i + 1, n as int));
                assert(out@ + normalize_newlines(s@.subrange(i + 1, n as int)) == old_out + normalize_newlines(rest));
                i += 1;
            }
        } else {
            out.push(s[i]);
            assert(rest.drop_first() == s@.subrange(i + 1, n as int));
            assert(out@ + normalize_newlines(s@.subrange(i + 1, n as int)) == old_out + normalize_newlines(rest));
            i += 1;
        }
    }
    assert(s@.subrange(n as int, n as int) =~= Seq::<char>::empty());
    assert(out@ + Seq::<char>::empty() == out@);
    out
}

pub open spec fn h2() -> Seq<char> {
    seq!['#', '#', ' ']
}

/// Line `i` of `c` starts with `## `.
pub open spec fn heading_at(c: Seq<char>, i: int) -> bool {
    &&& 0 <= i < c.len()
    &&& (i == 0 || c[i - 1] == '\n')
    &&& occurs_at(c, h2(), i)
}

pub open spec fn heading_starts_from(c: Seq<char>, i: int) -> Seq<int>
    decreases c.len() - i,
{
    if i < 0 || i >= c.len() {
        Seq::empty()
    } else if heading_at(c, i) {
        seq![i] + heading_starts_from(c, i + 1)
    } else {
        heading_starts_from(c, i + 1)
    }
}

pub proof fn lemma_heading_starts(c: Seq<char>, i: int)
    requires
        0 <= i,
    ensures
        forall|k: int| 0 <= k < heading_starts_from(c, i).len() ==> i <= #[trigger] heading_starts_from(c, i)[k] < c.len(),
        forall|k: int, l: int| 0 <= k < l < heading_starts_from(c, i).len() ==>
            heading_starts_from(c, i)[k] < heading_starts_from(c, i)[l],
    decreases c.len() - i,
{
    if i < c.len() {
        lemma_heading_starts(c, i + 1);
        let rest = heading_starts_from(c, i + 1);
        if heading_at(c, i) {
            let hs = seq![i] + rest;
            assert(heading_starts_from(c, i) == hs);
            assert forall|k: int, l: int| 0 <= k < l < hs.len() implies hs[k] < hs[l] by {
                if k > 0 {
                    assert(hs[k] == rest[k - 1]);
                }
                assert(hs[l] == rest[l - 1]);
            }
            assert forall|k: int| 0 <= k < hs.len() implies i <= #[trigger] hs[k] < c.len() by {
                if k > 0 {
                    assert(hs[k] == rest[k - 1]);
                }
            }
        }
    }
}

/// Offsets where blocks begin: each `## ` line, plus the start of the text when
/// non-blank content precedes the first heading.
pub open spec fn block_starts(c: Seq<char>) -> Seq<int> {
    let hs = heading_starts_from(c, 0);
    let first_end = if hs.len() == 0 { c.len() as int } else { hs[0] };
    if first_end != 0 && !is_blank(c.subrange(0, first_end)) {
        seq![0int] + hs
    } else {
        hs
    }
}

pub struct BlockModel {
    pub heading: Seq<char>,
    pub body: Seq<char>,
    pub raw: Seq<char>,
}

pub open spec fn block_model(raw: Seq<char>) -> BlockModel {
    let nl = find_char(raw, '\n');
    if nl < 0 {
        BlockModel { heading: raw, body: Seq::empty(), raw }
    } else {
        BlockModel { heading: raw.subrange(0, nl), body: raw.subrange(nl + 1, raw.len() as int), raw }
    }
}

/// The heading blocks of the (normalized) text `c`.
pub open spec fn heading_blocks(c: Seq<char>) -> Seq<BlockModel> {
    let bs = block_starts(c);
    Seq::new(
        bs.len(),
        |k: int| block_model(c.subrange(bs[k], if k + 1 < bs.len() { bs[k + 1] } else { c.len() as int })),
    )
}

pub struct HeadingBlock {
    pub heading: Vec<char>,
    pub body: Vec<char>,
    pub raw: Vec<char>,
}

impl View for HeadingBlock {
    type V = BlockModel;

    open spec fn view(&self) -> BlockModel {
        BlockModel { heading: self.heading@, body: self.body@, raw: self.raw@ }
    }
}

pub open spec fn block_views(v: Seq<HeadingBlock>) -> Seq<BlockModel> {
    v.map_values(|b: HeadingBlock| b@)
}

fn make_block(raw: Vec<char>) -> (b: HeadingBlock)
    ensures
        b@ == block_model(raw@),
{
    proof {
        crate::text::lemma_find_char_from(raw@, '\n', 0);
    }
    match find_char_exec(&raw, '\n') {
        Some(nl) => {
            let len: usize = raw.len();
            assert(nl < len);
            let heading = copy_range(&raw, 0, nl);
            let body = copy_range(&raw, nl + 1, len);
            HeadingBlock { heading, body, raw }
        },
        None => HeadingBlock { heading: raw, body: Vec::new(), raw: Vec::new() }.fix_raw(),
    }
}

impl HeadingBlock {
    fn fix_raw(self) -> (b: HeadingBlock)
        requires
            self.body@.len() == 0,
        ensures
            b.heading@ == self.heading@,
            b.body@ == self.body@,
            b.raw@ == self.heading@,
    {
        let raw = copy_range(&self.heading, 0, self.heading.len());
        assert(self.heading@.subrange(0, self.heading@.len() as int) == self.heading@);
        HeadingBlock { heading: self.heading, body: self.body, raw }
    }
}

/// `split_heading_blocks`: cuts the text at each line that begins with `## `.
pub fn split_heading_blocks(c: &[char]) -> (r: Vec<HeadingBlock>)
    ensures
        block_views(r@) == heading_blocks(c@),
{
    let n: usize = c.len();
    let h = lit("## ");
    let mut hs: Vec<usize> = Vec::new();
    let mut i: usize = 0;
    proof {
        lemma_heading_starts(c@, 0);
        reveal_strlit("## ");
    }
    while i < n
        invariant
            n == c@.len(),
            i <= n,
            h@ == "## "@,
            "## "@ == h2(),
            hs@.map_values(|x: usize| x as int) + heading_starts_from(c@, i as int) == heading_starts_from(c@, 0),
        decreases n - i,
    {
        let ghost old_hs = hs@;
        if (i == 0 || c[i - 1] == '\n') && matches_at(c, i, &h) {
            hs.push(i);
            assert(hs@.map_values(|x: usize| x as int) =~= old_hs.map_values(|x: usize| x as int).push(i as int));
        }
        i += 1;
    }
    let ghost hsi = heading_starts_from(c@, 0);
    assert(hs@.map_values(|x: usize| x as int) =~= hsi);
    assert(hs@.len() > 0 ==> hs@[0] as int == hsi[0]) by {
        if hs@.len() > 0 {
            assert(hs@.map_values(|x: usize| x as int)[0] == hs@[0] as int);
        }
    }
    let first_end: usize = if hs.len() == 0 { n } else { hs[0] };
    let mut starts: Vec<usize> = Vec::new();
    let lead: bool = first_end != 0 && !is_blank_exec(&copy_range(c, 0, first_end));
    let ghost prefix: Seq<int> = if lead { seq![0int] } else { Seq::<int>::empty() };
    if lead {
        starts.push(0);
    }
    assert(starts@.map_values(|x: usize| x as int) =~= prefix + hsi.subrange(0, 0));
    let mut k: usize = 0;
    while k < hs.len()
        invariant
            k <= hs@.len(),
            hs@.map_values(|x: usize| x as int) == hsi,
            hsi.len() == hs@.len(),
            starts@.map_values(|x: usize| x as int) =~= prefix + hsi.subrange(0, k as int),
        decreases hs@.len() - k,
    {
        let ghost old_starts = starts@;
        starts.push(hs[k]);
        assert(hs@.map_values(|x: usize| x as int)[k as int] == hs@[k as int] as int);
        assert(starts@.map_values(|x: usize| x as int) =~= old_starts.map_values(|x: usize| x as int).push(hs@[k as int] as int));
        assert(hsi.subrange(0, k + 1) =~= hsi.subrange(0, k as int).push(hsi[k as int]));
        k += 1;
    }
    let ghost bs = block_starts(c@);
    assert(hsi.subrange(0, hsi.len() as int) == hsi);
    assert(starts@.map_values(|x: usize| x as int) =~= bs);
    proof {
        lemma_heading_starts(c@, 0);
        assert forall|a: int, b: int| 0 <= a < b < bs.len() implies bs[a] < bs[b] && 0 <= bs[a] && bs[b] < n by {
            if bs.len() > hsi.len() {
                if a > 0 {
                    assert(bs[a] == hsi[a - 1]);
                }
                assert(bs[b] == hsi[b - 1]);
            }
        }
        assert forall|a: int| 0 <= a < bs.len() implies 0 <= #[trigger] bs[a] < n by {
            if bs.len() > hsi.len() && a > 0 {
                assert(bs[a] == hsi[a - 1]);
            }
        }
    }
    let mut blocks: Vec<HeadingBlock> = Vec::new();
    let mut j: usize = 0;
    while j < starts.len()
        invariant
            n == c@.len(),
            j <= starts@.len(),
            starts@.map_values(|x: usize| x as int) == bs,
            bs == block_starts(c@),
            heading_blocks(c@).len() == bs.len(),
            starts@.len() == bs.len(),
            forall|a: int, b: int| 0 <= a < b < bs.len() ==> bs[a] < bs[b],
            forall|a: int| 0 <= a < bs.len() ==> 0 <= #[trigger] bs[a] < n,
            block_views(blocks@) =~= heading_blocks(c@).subrange(0, j as int),
        decreases starts@.len() - j,
    {
        let start = starts[j];
        let end: usize = if j + 1 < starts.len() { starts[j + 1] } else { n };
        assert(starts@.map_values(|x: usize| x as int)[j as int] == start as int);
        assert(bs[j as int] == start as int);
        if j + 1 < starts.len() {
            assert(starts@.map_values(|x: usize| x as int)[j + 1] == end as int);
            assert(bs[j + 1] == end as int);
        }
        let raw = copy_range(c, start, end);
        let ghost end_s: int = if j + 1 < bs.len() { bs[j + 1] } else { c@.len() as int };
        assert(raw@ == c@.subrange(bs[j as int], end_s));
        assert(heading_blocks(c@)[j as int] == block_model(c@.subrange(bs[j as int], end_s)));
        let b = make_block(raw);
        let ghost old_blocks = block_views(blocks@);
        blocks.push(b);
        assert(heading_blocks(c@)[j as int] == b@);
        assert(block_views(blocks@) =~= old_blocks.push(b@));
        j += 1;
    }
    assert(heading_blocks(c@).subrange(0, starts@.len() as int) =~= heading_blocks(c@));
    blocks
}

pub open spec fn strip_all_lead(s: Seq<char>, ch: char) -> Seq<char>
    decreases s.len(),
{
    if s.len() > 0 && s[0] == ch {
        strip_all_lead(s.drop_first(), ch)
    } else {
        s
    }
}

pub open spec fn strip_all_trail(s: Seq<char>, ch: char) -> Seq<char>
    decreases s.len(),
{
    if s.len() > 0 && s.last() == ch {
        strip_all_trail(s.drop_last(), ch)
    } else {
        s
    }
}

pub open spec fn stars() -> Seq<char> {
    seq!['*', '*']
}

/// `trim_start_matches("**")`.
pub open spec fn strip_lead_pairs(s: Seq<char>) -> Seq<char>
    decreases s.len(),
{
    if starts_with(s, stars()) {
        strip_lead_pairs(s.subrange(2, s.len() as int))
    } else {
        s
    }
}

/// `trim_end_matches("**")`.
pub open spec fn strip_trail_pairs(s: Seq<char>) -> Seq<char>
    decreases s.len(),
{
    if ends_with(s, stars()) {
        strip_trail_pairs(s.subrange(0, s.len() - 2))
    } else {
        s
    }
}

/// The key (lower-cased) and value of a `- Key: value` line, where the dash
/// and `**` emphasis are optional.
pub open spec fn field_line(line: Seq<char>) -> Option<(Seq<char>, Seq<char>)> {
    let v0 = trim(line);
    let v1 = ltrim(strip_prefix_or_same(v0, seq!['-']));
    let v2 = strip_prefix_or_same(v1, stars());
    let k = find_char(v2, ':');
    if k < 0 {
        None
    } else {
        Some((
            lower_text(strip_all_trail(strip_all_lead(trim(v2.subrange(0, k)), '*'), '*')),
            trim(strip_trail_pairs(strip_lead_pairs(trim(v2.subrange(k + 1, v2.len() as int))))),
        ))
    }
}

pub fn strip_all_lead_exec(s: &[char], ch: char) -> (r: Vec<char>)
    ensures
        r@ == strip_all_lead(s@, ch),
{
    let n: usize = s.len();
    let mut i: usize = 0;
    assert(s@.subrange(0, n as int) == s@);
    while i < n && s[i] == ch
        invariant
            n == s@.len(),
            i <= n,
            strip_all_lead(s@.subrange(i as int, n as int), ch) == strip_all_lead(s@, ch),
        decreases n - i,
    {
        assert(s@.subrange(i as int, n as int).drop_first() == s@.subrange(i + 1, n as int));
        i += 1;
    }
    copy_range(s, i, n)
}

pub fn strip_all_trail_exec(s: &[char], ch: char) -> (r: Vec<char>)
    ensures
        r@ == strip_all_trail(s@, ch),
{
    let mut j: usize = s.len();
    assert(s@.subrange(0, j as int) == s@);
    while j > 0 && s[j - 1] == ch
        invariant
            j <= s@.len(),
            strip_all_trail(s@.subrange(0, j as int), ch) == strip_all_trail(s@, ch),
        decreases j,
    {
        assert(s@.subrange(0, j as int).drop_last() == s@.subrange(0, j - 1));
        j -= 1;
    }
    copy_range(s, 0, j)
}

proof fn lemma_stars_at(s: Seq<char>, i: int)
    requires
        0 <= i,
        i + 2 <= s.len(),
    ensures
        (s.subrange(i, i + 2) == stars()) == (s[i] == '*' && s[i + 1] == '*'),
{
    if s.subrange(i, i + 2) == stars() {
        assert(s.subrange(i, i + 2)[0] == s[i]);
        assert(s.subrange(i, i + 2)[1] == s[i + 1]);
    }
    if s[i] == '*' && s[i + 1] == '*' {
        assert(s.subrange(i, i + 2) =~= stars());
    }
}

fn stars_at(s: &[char], i: usize) -> (r: bool)
    requires
        i <= s@.len(),
    ensures
        r == (i + 2 <= s@.len() && s@.subrange(i as int, i + 2) == stars()),
{
    if s.len() - i >= 2 {
        proof {
            lemma_stars_at(s@, i as int);
        }
        s[i] == '*' && s[i + 1] == '*'
    } else {
        false
    }
}

fn strip_lead_pairs_exec(s: &[char]) -> (r: Vec<char>)
    ensures
        r@ == strip_lead_pairs(s@),
{
    let n: usize = s.len();
    let mut i: usize = 0;
    assert(s@.subrange(0, n as int) == s@);
    while stars_at(s, i)
        invariant
            n == s@.len(),
            i <= n,
            strip_lead_pairs(s@.subrange(i as int, n as int)) == strip_lead_pairs(s@),
        decreases n - i,
    {
        let ghost rest = s@.subrange(i as int, n as int);
        assert(rest.subrange(0, 2) == s@.subrange(i as int, i + 2));
        assert(rest.subrange(2, rest.len() as int) == s@.subrange(i + 2, n as int));
        i += 2;
    }
    proof {
        let rest = s@.subrange(i as int, n as int);
        if rest.len() >= 2 {
            assert(rest.subrange(0, 2) == s@.subrange(i as int, i + 2));
        }
    }
    copy_range(s, i, n)
}

fn strip_trail_pairs_exec(s: &[char]) -> (r: Vec<char>)
    ensures
        r@ == strip_trail_pairs(s@),
{
    let mut j: usize = s.len();
    assert(s@.subrange(0, j as int) == s@);
    while j >= 2 && stars_at(s, j - 2)
        invariant
            j <= s@.len(),
            strip_trail_pairs(s@.subrange(0, j as int)) == strip_trail_pairs(s@),
        decreases j,
    {
        let ghost pre = s@.subrange(0, j as int);
        assert(pre.subrange(pre.len() - 2, pre.len() as int) == s@.subrange(j - 2, j as int));
        assert(pre.subrange(0, pre.len() - 2) == s@.subrange(0, j - 2));
        j -= 2;
    }
    proof {
        let pre = s@.subrange(0, j as int);
        if pre.len() >= 2 {
            assert(pre.subrange(pre.len() - 2, pre.len() as int) == s@.subrange(j - 2, j as int));
        }
    }
    copy_range(s, 0, j)
}

fn strip_prefix_char(s: Vec<char>, ch: char) -> (r: Vec<char>)
    ensures
        r@ == strip_prefix_or_same(s@, seq![ch]),
{
    if s.len() > 0 && s[0] == ch {
        assert(s@.subrange(0, 1) =~= seq![ch]);
        copy_range(&s, 1, s.len())
    } else {
        proof {
            if s@.len() > 0 {
                assert(s@.subrange(0, 1)[0] == s@[0]);
            }
        }
        s
    }
}

/// `parse_field_line`.
pub fn parse_field_line(line: &[char]) -> (r: Option<(Vec<char>, Vec<char>)>)
    ensures
        match r {
            Some((k, v)) => field_line(line@) == Some((k@, v@)),
            None => field_line(line@) is None,
        },
{
    let v0 = trim_chars(line);
    let v1 = trim_start(&strip_prefix_char(v0, '-'));
    let v2 = if v1.len() >= 2 && v1[0] == '*' && v1[1] == '*' {
        assert(v1@.subrange(0, 2) =~= stars());
        copy_range(&v1, 2, v1.len())
    } else {
        proof {
            if starts_with(v1@, stars()) {
                assert(v1@.subrange(0, 2)[0] == v1@[0]);
                assert(v1@.subrange(0, 2)[1] == v1@[1]);
            }
        }
        v1
    };
    proof {
        crate::text::lemma_find_char_from(v2@, ':', 0);
    }
    match find_char_exec(&v2, ':') {
        None => None,
        Some(k) => {
            let key_part = trim_chars(&copy_range(&v2, 0, k));
            let key = to_lowercase(&strip_all_trail_exec(&strip_all_lead_exec(&key_part, '*'), '*'));
            let value_part = trim_chars(&copy_range(&v2, k + 1, v2.len()));
            let value = trim_chars(&strip_trail_pairs_exec(&strip_lead_pairs_exec(&value_part)));
            Some((key, value))
        },
    }
}

/// The kept text of a block that is not a structured entry: a previously
/// preserved section contributes its body without the explanatory sentence.
pub open spec fn preserved_block(b: BlockModel) -> Option<Seq<char>> {
    let content = if eq_ignore_case(trim(b.heading), "## Preserved Unrecognized Content"@) {
        let body = trim(b.body);
        trim(
            if starts_with(body, todo_intro()) {
                body.subrange(todo_intro().len() as int, body.len() as int)
            } else if starts_with(body, history_intro()) {
                body.subrange(history_intro().len() as int, body.len() as int)
            } else {
                body
            },
        )
    } else {
        trim(b.raw)
    };
    if content.len() > 0 {
        Some(content)
    } else {
        None
    }
}

pub open spec fn todo_intro() -> Seq<char> {
    "The following source content was not recognized as structured project state and is preserved verbatim."@
}

pub open spec fn history_intro() -> Seq<char> {
    "The following source content was not recognized as structured working history and is preserved verbatim."@
}

pub fn preserved_block_exec(b: &HeadingBlock) -> (r: Option<Vec<char>>)
    ensures
        match r {
            Some(v) => preserved_block(b@) == Some(v@),
            None => preserved_block(b@) is None,
        },
{
    let content = if eq_ignore_ascii_case(&trim_chars(&b.heading), "## Preserved Unrecognized Content") {
        let body = trim_chars(&b.body);
        let intro = lit("The following source content was not recognized as structured project state and is preserved verbatim.");
        let hintro = lit("The following source content was not recognized as structured working history and is preserved verbatim.");
        if matches_at(&body, 0, &intro) {
            trim_chars(&copy_range(&body, intro.len(), body.len()))
        } else if matches_at(&body, 0, &hintro) {
            trim_chars(&copy_range(&body, hintro.len(), body.len()))
        } else {
            trim_chars(&body)
        }
    } else {
        trim_chars(&b.raw)
    };
    if content.len() > 0 {
        Some(content)
    } else {
        None
    }
}

pub open spec fn warning_model(code: Seq<char>, message: Seq<char>, item_id: Option<Seq<char>>) -> WarningModel {
    WarningModel { code, message, item_id }
}

pub fn make_warning(code: &str, message: &[char], item_id: Option<&[char]>) -> (w: ValidationWarning)
    ensures
        w@ == warning_model(code@, message@, match item_id { Some(i) => Some(i@), None => None }),
{
    ValidationWarning {
        code: String::from_str(code),
        message: string_of(message),
        item_id: match item_id {
            Some(i) => Some(string_of(i)),
            None => None,
        },
    }
}

/// Keeps the first occurrence of each element.
pub open spec fn dedup<T>(s: Seq<T>) -> Seq<T>
    decreases s.len(),
{
    if s.len() == 0 {
        s
    } else if s.drop_last().contains(s.last()) {
        dedup(s.drop_last())
    } else {
        dedup(s.drop_last()).push(s.last())
    }
}

pub proof fn lemma_dedup_contains<T>(s: Seq<T>, x: T)
    ensures
        dedup(s).contains(x) == s.contains(x),
    decreases s.len(),
{
    if s.len() > 0 {
        lemma_dedup_contains(s.drop_last(), x);
        if s.contains(x) && !s.drop_last().contains(x) {
            assert(s.last() == x) by {
                let k = choose|k: int| 0 <= k < s.len() && s[k] == x;
                if k < s.len() - 1 {
                    assert(s.drop_last()[k] == x);
                }
            }
        }
        if s.drop_last().contains(x) {
            let k = choose|k: int| 0 <= k < s.drop_last().len() && s.drop_last()[k] == x;
            assert(s[k] == x);
        }
        if !s.drop_last().contains(s.last()) {
            assert(dedup(s) == dedup(s.drop_last()).push(s.last()));
            if dedup(s).contains(x) && !dedup(s.drop_last()).contains(x) {
                let k = choose|k: int| 0 <= k < dedup(s).len() && dedup(s)[k] == x;
                if k < dedup(s).len() - 1 {
                    assert(dedup(s.drop_last())[k] == x);
                }
                assert(s[s.len() - 1] == x);
            }
            if dedup(s.drop_last()).contains(x) {
                let k = choose|k: int| 0 <= k < dedup(s.drop_last()).len() && dedup(s.drop_last())[k] == x;
                assert(dedup(s)[k] == x);
            }
            if s.last() == x {
                assert(dedup(s)[dedup(s).len() - 1] == x);
            }
        }
    }
}

pub proof fn lemma_dedup_idempotent<T>(s: Seq<T>)
    ensures
        dedup(dedup(s)) == dedup(s),
    decreases s.len(),
{
    if s.len() > 0 {
        lemma_dedup_idempotent(s.drop_last());
        lemma_dedup_contains(s.drop_last(), s.last());
        let d = dedup(s.drop_last());
        if !s.drop_last().contains(s.last()) {
            assert(dedup(s) == d.push(s.last()));
            assert(d.push(s.last()).drop_last() == d);
            assert(d.push(s.last()).last() == s.last());
        }
    }
}

fn same_warning(a: &ValidationWarning, b: &ValidationWarning) -> (r: bool)
    ensures
        r == (a@ == b@),
{
    if a.code != b.code || a.message != b.message {
        return false;
    }
    match (&a.item_id, &b.item_id) {
        (Some(x), Some(y)) => *x == *y,
        (None, None) => true,
        _ => false,
    }
}

/// `deduplicate_warnings`: keeps the first of equal warnings, in order.
pub fn deduplicate_warnings(ws: Vec<ValidationWarning>) -> (r: Vec<ValidationWarning>)
    ensures
        warning_views(r@) == dedup(warning_views(ws@)),
{
    let mut out: Vec<ValidationWarning> = Vec::new();
    let mut i: usize = 0;
    while i < ws.len()
        invariant
            i <= ws@.len(),
            warning_views(out@) == dedup(warning_views(ws@.subrange(0, i as int))),
        decreases ws@.len() - i,
    {
        let ghost pre = warning_views(ws@.subrange(0, i as int));
        let ghost cur = warning_views(ws@.subrange(0, i + 1));
        assert(cur.drop_last() =~= pre);
        assert(cur.last() == ws@[i as int]@);
        proof {
            lemma_dedup_contains(pre, ws@[i as int]@);
        }
        let mut found = false;
        let mut k: usize = 0;
        while k < out.len()
            invariant
                i < ws@.len(),
                k <= out@.len(),
                found == exists|m: int| 0 <= m < k && out@[m]@ == ws@[i as int]@,
            decreases out@.len() - k,
        {
            if same_warning(&out[k], &ws[i]) {
                found = true;
            }
            k += 1;
        }
        proof {
            let ov = warning_views(out@);
            if found {
                let m = choose|m: int| 0 <= m < out@.len() && out@[m]@ == ws@[i as int]@;
                assert(ov[m] == ws@[i as int]@);
            } else {
                assert forall|m: int| 0 <= m < ov.len() implies ov[m] != ws@[i as int]@ by {
                    assert(ov[m] == out@[m]@);
                }
            }
        }
        if !found {
            let ghost old_out = warning_views(out@);
            out.push(ws[i].duplicate());
            assert(warning_views(out@) =~= old_out.push(ws@[i as int]@));
        }
        i += 1;
    }
    assert(ws@.subrange(0, ws@.len() as int) == ws@);
    out
}

/// The non-blank texts, in order.
pub open spec fn keep_nonblank(v: Seq<Seq<char>>) -> Seq<Seq<char>>
    decreases v.len(),
{
    if v.len() == 0 {
        v
    } else if is_blank(v.last()) {
        keep_nonblank(v.drop_last())
    } else {
        keep_nonblank(v.drop_last()).push(v.last())
    }
}

/// The non-blank texts joined by a blank line, when anything remains.
pub open spec fn nonempty_join(v: Seq<Seq<char>>) -> Option<Seq<char>> {
    let joined = join(keep_nonblank(v), "\n\n"@);
    if is_blank(joined) {
        None
    } else {
        Some(joined)
    }
}

pub fn nonempty_join_exec(v: &Vec<Vec<char>>) -> (r: Option<String>)
    ensures
        opt_str(r) == nonempty_join(views(v@)),
{
    let mut kept: Vec<Vec<char>> = Vec::new();
    let mut i: usize = 0;
    while i < v.len()
        invariant
            i <= v@.len(),
            views(kept@) == keep_nonblank(views(v@).subrange(0, i as int)),
        decreases v@.len() - i,
    {
        let ghost pre = views(v@).subrange(0, i as int);
        assert(views(v@).subrange(0, i + 1).drop_last() =~= pre);
        assert(views(v@).subrange(0, i + 1).last() == v@[i as int]@);
        if !is_blank_exec(&v[i]) {
            let ghost old_kept = views(kept@);
            kept.push(copy_range(&v[i], 0, v[i].len()));
            assert(v@[i as int]@.subrange(0, v@[i as int]@.len() as int) == v@[i as int]@);
            assert(views(kept@) =~= old_kept.push(v@[i as int]@));
        }
        i += 1;
    }
    assert(views(v@).subrange(0, v@.len() as int) == views(v@));
    let joined = join_chars(&kept, "\n\n");
    if is_blank_exec(&joined) {
        None
    } else {
        Some(string_of(&joined))
    }
}

} // verus!
