//! `STARTUP.md`: fenced PowerShell scripts to run and HTTP(S) links to open.

use vstd::prelude::*;
use crate::text::{
    chars_of, copy_range, eq_ignore_ascii_case, eq_ignore_case, find_chars, find_text, is_blank,
    is_blank_exec, is_whitespace, is_ws, join, join_chars, lines, lines_of, lit, ltrim, push_all,
    push_str, string_of, trim, trim_chars, trim_start, views,
};
use crate::models::{strs, DocumentStatus};
use crate::markdown::dedup;
use crate::todos::dedup_texts;

verus! {

/// What a start request launched.
#[derive(Clone, Copy, Debug)]
pub struct StartProjectResult {
    pub scripts_started: usize,
    pub websites_opened: usize,
}

/// The scripts and websites of a `STARTUP.md`.
#[derive(Clone, Debug, PartialEq, Eq)]
pub struct StartupPlan {
    pub scripts: Vec<String>,
    pub urls: Vec<String>,
}

/// The number of consecutive `c` at the start of `s[i..]`.
pub open spec fn run_from(s: Seq<char>, c: char, i: int) -> nat
    decreases s.len() - i,
{
    if i < 0 || i >= s.len() || s[i] != c {
        0
    } else {
        1 + run_from(s, c, i + 1)
    }
}

/// A line that opens a code fence: three or more backticks or tildes after
/// optional indentation; the marker, the run's length and the trimmed info text.
pub open spec fn opening_fence(line: Seq<char>) -> Option<(char, nat, Seq<char>)> {
    let t = ltrim(line);
    if t.len() == 0 || (t[0] != '`' && t[0] != '~') {
        None
    } else {
        let w = run_from(t, t[0], 0);
        if w >= 3 {
            Some((t[0], w, trim(t.subrange(w as int, t.len() as int))))
        } else {
            None
        }
    }
}

/// A line made only of the marker, at least `width` of them (surrounding
/// whitespace aside).
pub open spec fn is_closing_fence(line: Seq<char>, marker: char, width: nat) -> bool {
    let t = trim(line);
    &&& run_from(t, marker, 0) >= width
    &&& forall|i: int| 0 <= i < t.len() ==> t[i] == marker
}

/// The index of the first whitespace character at or after `i`, or the length.
pub open spec fn ws_from(s: Seq<char>, i: int) -> int
    decreases s.len() - i,
{
    if i < 0 || i >= s.len() {
        s.len() as int
    } else if is_ws(s[i]) {
        i
    } else {
        ws_from(s, i + 1)
    }
}

/// The first whitespace-separated word (`split_whitespace().next()`), or empty.
pub open spec fn first_word(s: Seq<char>) -> Seq<char> {
    let t = ltrim(s);
    t.subrange(0, ws_from(t, 0))
}

pub struct StartupScan {
    pub scripts: Seq<Seq<char>>,
    pub prose: Seq<char>,
    pub fence: Option<(char, nat, bool)>,
    pub script_lines: Seq<Seq<char>>,
}

/// The script of the collected lines, when it is not blank.
pub open spec fn finished_script(scripts: Seq<Seq<char>>, script_lines: Seq<Seq<char>>) -> Seq<Seq<char>> {
    let script = join(script_lines, "\n"@);
    if !is_blank(script) {
        scripts.push(script)
    } else {
        scripts
    }
}

/// One line of `STARTUP.md`: inside a fence, lines are collected for a
/// PowerShell fence and dropped otherwise; outside, a line opens a fence or
/// joins the prose in which links are looked for.
pub open spec fn startup_step(st: StartupScan, line: Seq<char>) -> StartupScan {
    match st.fence {
        Some((marker, width, powershell)) => {
            if is_closing_fence(line, marker, width) {
                StartupScan {
                    scripts: if powershell { finished_script(st.scripts, st.script_lines) } else { st.scripts },
                    prose: st.prose,
                    fence: None,
                    script_lines: Seq::empty(),
                }
            } else if powershell {
                StartupScan { script_lines: st.script_lines.push(line), ..st }
            } else {
                st
            }
        },
        None => match opening_fence(line) {
            Some((marker, width, info)) => StartupScan {
                fence: Some((marker, width, eq_ignore_case(first_word(info), "powershell"@))),
                ..st
            },
            None => StartupScan { prose: st.prose + line + "\n"@, ..st },
        },
    }
}

pub open spec fn startup_scan(ls: Seq<Seq<char>>) -> StartupScan
    decreases ls.len(),
{
    if ls.len() == 0 {
        StartupScan { scripts: Seq::empty(), prose: Seq::empty(), fence: None, script_lines: Seq::empty() }
    } else {
        startup_step(startup_scan(ls.drop_last()), ls.last())
    }
}

/// The scripts of a `STARTUP.md` (an unclosed PowerShell fence runs to the
/// end) and the links of its prose.
pub open spec fn startup_plan(markdown: Seq<char>) -> (Seq<Seq<char>>, Seq<Seq<char>>) {
    let st = startup_scan(lines(markdown));
    let scripts = match st.fence {
        Some((_, _, true)) => finished_script(st.scripts, st.script_lines),
        _ => st.scripts,
    };
    (scripts, http_urls(st.prose))
}

// ---------------------------------------------------------------------------
// Links

/// Where the next `https://` or `http://` begins.
pub open spec fn next_url_start(s: Seq<char>) -> Option<int> {
    let a = find_text(s, "https://"@);
    let b = find_text(s, "http://"@);
    if a < 0 && b < 0 {
        None
    } else if a < 0 {
        Some(b)
    } else if b < 0 || a <= b {
        Some(a)
    } else {
        Some(b)
    }
}

/// Characters that end a link (after its first character).
pub open spec fn url_stop(c: char) -> bool {
    is_ws(c) || c == '<' || c == '>' || c == '"' || c == '\'' || c == ']'
}

pub open spec fn url_end_from(c: Seq<char>, i: int) -> int
    decreases c.len() - i,
{
    if i < 0 || i >= c.len() {
        c.len() as int
    } else if url_stop(c[i]) {
        i
    } else {
        url_end_from(c, i + 1)
    }
}

pub proof fn lemma_url_end(c: Seq<char>, i: int)
    requires
        0 <= i <= c.len(),
    ensures
        i <= url_end_from(c, i) <= c.len(),
    decreases c.len() - i,
{
    if i < c.len() && !url_stop(c[i]) {
        lemma_url_end(c, i + 1);
    }
}

pub open spec fn is_url_punctuation(c: char) -> bool {
    c == '.' || c == ',' || c == ';' || c == ':' || c == '!' || c == '?'
}

pub open spec fn trim_punctuation(s: Seq<char>) -> Seq<char>
    decreases s.len(),
{
    if s.len() > 0 && is_url_punctuation(s.last()) {
        trim_punctuation(s.drop_last())
    } else {
        s
    }
}

pub open spec fn count_char(s: Seq<char>, c: char) -> nat
    decreases s.len(),
{
    if s.len() == 0 {
        0
    } else {
        count_char(s.drop_last(), c) + if s.last() == c { 1nat } else { 0nat }
    }
}

/// Drops closing parentheses at the end that have no opening partner.
pub open spec fn trim_unbalanced(s: Seq<char>) -> Seq<char>
    decreases s.len(),
{
    if s.len() > 0 && s.last() == ')' && count_char(s, ')') > count_char(s, '(') {
        trim_unbalanced(s.drop_last())
    } else {
        s
    }
}

/// A link without trailing punctuation or unbalanced closing parentheses.
pub open spec fn trim_url_ending(s: Seq<char>) -> Seq<char> {
    trim_unbalanced(trim_punctuation(s))
}

/// Every link candidate of the text, in order, trimmed.
pub open spec fn url_candidates(s: Seq<char>) -> Seq<Seq<char>>
    decreases s.len(),
{
    match next_url_start(s) {
        None => Seq::empty(),
        Some(start) => {
            if 0 <= start < s.len() {
                let c = s.subrange(start, s.len() as int);
                let end = url_end_from(c, 1);
                proof {
                    lemma_url_end(c, 1);
                }
                seq![trim_url_ending(c.subrange(0, end))] + url_candidates(c.subrange(end, c.len() as int))
            } else {
                Seq::empty()
            }
        },
    }
}

pub open spec fn nonempty_texts(v: Seq<Seq<char>>) -> Seq<Seq<char>>
    decreases v.len(),
{
    if v.len() == 0 {
        v
    } else if v.last().len() > 0 {
        nonempty_texts(v.drop_last()).push(v.last())
    } else {
        nonempty_texts(v.drop_last())
    }
}

/// The distinct links of the text, in order of first appearance.
pub open spec fn http_urls(s: Seq<char>) -> Seq<Seq<char>> {
    dedup(nonempty_texts(url_candidates(s)))
}

fn next_url_start_exec(s: &[char]) -> (r: Option<usize>)
    ensures
        match r {
            Some(k) => next_url_start(s@) == Some(k as int),
            None => next_url_start(s@) is None,
        },
{
    let a = find_chars(s, &lit("https://"));
    let b = find_chars(s, &lit("http://"));
    match (a, b) {
        (None, None) => None,
        (None, Some(y)) => Some(y),
        (Some(x), None) => Some(x),
        (Some(x), Some(y)) => {
            if x <= y {
                Some(x)
            } else {
                Some(y)
            }
        },
    }
}

fn url_end_exec(c: &[char]) -> (r: usize)
    ensures
        r as int == url_end_from(c@, 1),
{
    let mut i: usize = 1;
    if c.len() == 0 {
        return 0;
    }
    while i < c.len()
        invariant
            1 <= i <= c@.len(),
            url_end_from(c@, i as int) == url_end_from(c@, 1),
        decreases c@.len() - i,
    {
        let ch = c[i];
        if is_whitespace(ch) || ch == '<' || ch == '>' || ch == '"' || ch == '\'' || ch == ']' {
            return i;
        }
        i += 1;
    }
    i
}

fn count_char_exec(s: &[char], c: char) -> (r: usize)
    ensures
        r as nat == count_char(s@, c),
{
    let mut n: usize = 0;
    let mut i: usize = 0;
    while i < s.len()
        invariant
            i <= s@.len(),
            n <= i,
            n as nat == count_char(s@.subrange(0, i as int), c),
        decreases s@.len() - i,
    {
        assert(s@.subrange(0, i + 1).drop_last() == s@.subrange(0, i as int));
        if s[i] == c {
            n += 1;
        }
        i += 1;
    }
    assert(s@.subrange(0, i as int) == s@);
    n
}

/// `trim_url_ending`.
pub fn trim_url_ending_exec(s: &[char]) -> (r: Vec<char>)
    ensures
        r@ == trim_url_ending(s@),
{
    let mut t: Vec<char> = copy_range(s, 0, s.len());
    assert(s@.subrange(0, s@.len() as int) == s@);
    while t.len() > 0 && (t[t.len() - 1] == '.' || t[t.len() - 1] == ',' || t[t.len() - 1] == ';'
        || t[t.len() - 1] == ':' || t[t.len() - 1] == '!' || t[t.len() - 1] == '?')
        invariant
            trim_punctuation(t@) == trim_punctuation(s@),
        decreases t@.len(),
    {
        let ghost before = t@;
        t.pop();
        assert(t@ == before.drop_last());
    }
    let ghost p = t@;
    while t.len() > 0 && t[t.len() - 1] == ')' && count_char_exec(&t, ')') > count_char_exec(&t, '(')
        invariant
            trim_unbalanced(t@) == trim_unbalanced(p),
            p == trim_punctuation(s@),
        decreases t@.len(),
    {
        let ghost before = t@;
        t.pop();
        assert(t@ == before.drop_last());
    }
    t
}

/// `extract_http_urls`: the distinct HTTP(S) links of the text, in order of
/// first appearance.
pub fn extract_http_urls(markdown: &str) -> (r: Vec<String>)
    ensures
        strs(r@) == http_urls(markdown@),
{
    let s = chars_of(markdown);
    let mut found: Vec<Vec<char>> = Vec::new();
    let mut pos: usize = 0;
    assert(s@.subrange(0, s@.len() as int) == s@);
    assert(views(found@) =~= Seq::<Seq<char>>::empty());
    loop
        invariant
            pos <= s@.len(),
            s@ == markdown@,
            nonempty_texts(url_candidates(s@)) == views(found@) + nonempty_texts(url_candidates(s@.subrange(pos as int, s@.len() as int))),
        ensures
            s@ == markdown@,
            nonempty_texts(url_candidates(s@)) == views(found@),
        decreases s@.len() - pos,
    {
        let rem = copy_range(&s, pos, s.len());
        let ghost rv = rem@;
        match next_url_start_exec(&rem) {
            None => {
                assert(url_candidates(rv) =~= Seq::<Seq<char>>::empty());
                assert(nonempty_texts(url_candidates(rv)) =~= Seq::<Seq<char>>::empty());
                assert(views(found@) + Seq::<Seq<char>>::empty() =~= views(found@));
                break;
            },
            Some(start) => {
                proof {
                    reveal_strlit("https://");
                    reveal_strlit("http://");
                    crate::text::lemma_find_text_from(rv, "https://"@, 0);
                    crate::text::lemma_find_text_from(rv, "http://"@, 0);
                }
                assert(start < rem@.len());
                let cand = copy_range(&rem, start, rem.len());
                let end = url_end_exec(&cand);
                proof {
                    lemma_url_end(cand@, 1);
                }
                let raw = copy_range(&cand, 0, end);
                let url = trim_url_ending_exec(&raw);
                let ghost rest = cand@.subrange(end as int, cand@.len() as int);
                assert(url_candidates(rv) == seq![url@] + url_candidates(rest));
                let ghost tail = nonempty_texts(url_candidates(rest));
                proof {
                    lemma_nonempty_prepend(url@, url_candidates(rest));
                }
                let ghost before = views(found@);
                if url.len() > 0 {
                    found.push(url);
                    assert(views(found@) =~= before.push(url@));
                    assert(before + (seq![url@] + tail) =~= before.push(url@) + tail);
                } else {
                    assert(before + tail =~= before + tail);
                }
                assert(rest =~= s@.subrange((pos + start + end) as int, s@.len() as int));
                pos = pos + start + end;
                if end == 0 {
                    assert(false);
                }
            },
        }
    }
    let kept = dedup_texts(found);
    let mut out: Vec<String> = Vec::new();
    let mut k: usize = 0;
    while k < kept.len()
        invariant
            k <= kept@.len(),
            strs(out@) =~= views(kept@).subrange(0, k as int),
        decreases kept@.len() - k,
    {
        let ghost before = strs(out@);
        out.push(string_of(&kept[k]));
        assert(strs(out@) =~= before.push(kept@[k as int]@));
        k += 1;
    }
    assert(views(kept@).subrange(0, kept@.len() as int) == views(kept@));
    out
}

proof fn lemma_nonempty_prepend(x: Seq<char>, v: Seq<Seq<char>>)
    ensures
        nonempty_texts(seq![x] + v) == (if x.len() > 0 { seq![x] + nonempty_texts(v) } else { nonempty_texts(v) }),
    decreases v.len(),
{
    if v.len() == 0 {
        let s1 = seq![x];
        assert(seq![x] + v =~= s1);
        assert(s1.drop_last() =~= Seq::<Seq<char>>::empty());
        assert(s1.last() == x);
        assert(nonempty_texts(Seq::<Seq<char>>::empty()) == Seq::<Seq<char>>::empty());
        assert(nonempty_texts(v) == Seq::<Seq<char>>::empty());
        if x.len() > 0 {
            assert(nonempty_texts(s1) == Seq::<Seq<char>>::empty().push(x));
            assert(Seq::<Seq<char>>::empty().push(x) =~= seq![x] + Seq::<Seq<char>>::empty());
        } else {
            assert(nonempty_texts(s1) == Seq::<Seq<char>>::empty());
        }
    } else {
        lemma_nonempty_prepend(x, v.drop_last());
        assert((seq![x] + v).drop_last() =~= seq![x] + v.drop_last());
        assert((seq![x] + v).last() == v.last());
        if x.len() > 0 {
            assert(seq![x] + nonempty_texts(v.drop_last()).push(v.last()) =~= (seq![x] + nonempty_texts(v.drop_last())).push(v.last()));
        }
    }
}


// ---------------------------------------------------------------------------
// Fences and scripts

fn run_len(s: &[char], c: char) -> (r: usize)
    ensures
        r as nat == run_from(s@, c, 0),
        r <= s@.len(),
{
    let mut i: usize = 0;
    while i < s.len() && s[i] == c
        invariant
            i <= s@.len(),
            run_from(s@, c, 0) == i + run_from(s@, c, i as int),
        decreases s@.len() - i,
    {
        i += 1;
    }
    i
}

/// `opening_fence`.
pub fn opening_fence_exec(line: &[char]) -> (r: Option<(char, usize, Vec<char>)>)
    ensures
        match r {
            Some((m, w, info)) => opening_fence(line@) == Some((m, w as nat, info@)),
            None => opening_fence(line@) is None,
        },
{
    let t = trim_start(line);
    if t.len() == 0 || (t[0] != '`' && t[0] != '~') {
        return None;
    }
    let w = run_len(&t, t[0]);
    if w >= 3 {
        Some((t[0], w, trim_chars(&copy_range(&t, w, t.len()))))
    } else {
        None
    }
}

/// `is_closing_fence`.
pub fn is_closing_fence_exec(line: &[char], marker: char, width: usize) -> (r: bool)
    ensures
        r == is_closing_fence(line@, marker, width as nat),
{
    let t = trim_chars(line);
    let n = run_len(&t, marker);
    if n < width {
        return false;
    }
    let mut i: usize = 0;
    while i < t.len()
        invariant
            i <= t@.len(),
            t@ == trim(line@),
            forall|j: int| 0 <= j < i ==> t@[j] == marker,
        decreases t@.len() - i,
    {
        if t[i] != marker {
            assert(t@[i as int] != marker);
            return false;
        }
        i += 1;
    }
    true
}

fn first_word_exec(s: &[char]) -> (r: Vec<char>)
    ensures
        r@ == first_word(s@),
{
    let t = trim_start(s);
    let mut i: usize = 0;
    while i < t.len() && !is_whitespace(t[i])
        invariant
            i <= t@.len(),
            ws_from(t@, i as int) == ws_from(t@, 0),
        decreases t@.len() - i,
    {
        i += 1;
    }
    copy_range(&t, 0, i)
}

fn finish_script(scripts: &mut Vec<Vec<char>>, script_lines: &Vec<Vec<char>>)
    ensures
        views(final(scripts)@) == finished_script(views(old(scripts)@), views(script_lines@)),
{
    let script = join_chars(script_lines, "\n");
    if !is_blank_exec(&script) {
        let ghost before = views(scripts@);
        scripts.push(script);
        assert(views(scripts@) =~= before.push(script@));
    }
}

/// `parse_startup`: the PowerShell scripts and the website links of a
/// `STARTUP.md`.
pub fn parse_startup(markdown: &str) -> (r: StartupPlan)
    ensures
        strs(r.scripts@) == startup_plan(markdown@).0,
        strs(r.urls@) == startup_plan(markdown@).1,
{
    let ls = lines_of(&chars_of(markdown));
    let ghost lv = views(ls@);
    let mut scripts: Vec<Vec<char>> = Vec::new();
    let mut prose: Vec<char> = Vec::new();
    let mut fence: Option<(char, usize, bool)> = None;
    let mut script_lines: Vec<Vec<char>> = Vec::new();
    let mut i: usize = 0;
    assert(views(scripts@) =~= Seq::<Seq<char>>::empty());
    assert(views(script_lines@) =~= Seq::<Seq<char>>::empty());
    while i < ls.len()
        invariant
            i <= ls@.len(),
            lv == views(ls@),
            lv == lines(markdown@),
            ({
                let st = startup_scan(lv.subrange(0, i as int));
                &&& views(scripts@) == st.scripts
                &&& prose@ == st.prose
                &&& views(script_lines@) == st.script_lines
                &&& match fence {
                    Some((m, w, p)) => st.fence == Some((m, w as nat, p)),
                    None => st.fence is None,
                }
            }),
        decreases ls@.len() - i,
    {
        assert(lv.subrange(0, i + 1).drop_last() == lv.subrange(0, i as int));
        assert(lv.subrange(0, i + 1).last() == ls@[i as int]@);
        let line = &ls[i];
        match fence {
            Some((marker, width, powershell)) => {
                if is_closing_fence_exec(line, marker, width) {
                    if powershell {
                        finish_script(&mut scripts, &script_lines);
                    }
                    script_lines = Vec::new();
                    assert(views(script_lines@) =~= Seq::<Seq<char>>::empty());
                    fence = None;
                } else if powershell {
                    let ghost before = views(script_lines@);
                    script_lines.push(line.clone());
                    assert(views(script_lines@) =~= before.push(line@));
                }
            },
            None => {
                match opening_fence_exec(line) {
                    Some((marker, width, info)) => {
                        let language = first_word_exec(&info);
                        fence = Some((marker, width, eq_ignore_ascii_case(&language, "powershell")));
                    },
                    None => {
                        push_all(&mut prose, line);
                        push_str(&mut prose, "\n");
                    },
                }
            },
        }
        i += 1;
    }
    assert(lv.subrange(0, lv.len() as int) == lv);
    match fence {
        Some((_, _, true)) => {
            finish_script(&mut scripts, &script_lines);
        },
        _ => {},
    }
    let mut out: Vec<String> = Vec::new();
    let mut k: usize = 0;
    while k < scripts.len()
        invariant
            k <= scripts@.len(),
            strs(out@) =~= views(scripts@).subrange(0, k as int),
        decreases scripts@.len() - k,
    {
        let ghost before = strs(out@);
        out.push(string_of(&scripts[k]));
        assert(strs(out@) =~= before.push(scripts@[k as int]@));
        k += 1;
    }
    assert(views(scripts@).subrange(0, scripts@.len() as int) == views(scripts@));
    let prose_text = string_of(&prose);
    StartupPlan { scripts: out, urls: extract_http_urls(prose_text.as_str()) }
}

/// Why a `STARTUP.md` cannot be run, or its plan.
pub open spec fn plan_outcome(
    status: DocumentStatus,
    content: Option<Seq<char>>,
    truncated: bool,
    error: Option<Seq<char>>,
) -> Result<(Seq<Seq<char>>, Seq<Seq<char>>), Seq<char>> {
    match status {
        DocumentStatus::Missing => Err("STARTUP.md was not found"@),
        DocumentStatus::Error => Err(match error {
            Some(e) => e,
            None => "STARTUP.md could not be read"@,
        }),
        DocumentStatus::Available => {
            if truncated {
                Err("STARTUP.md is larger than 2 MB and cannot be run safely"@)
            } else {
                let plan = startup_plan(match content {
                    Some(c) => c,
                    None => Seq::empty(),
                });
                if plan.0.len() == 0 && plan.1.len() == 0 {
                    Err("STARTUP.md has no fenced PowerShell scripts or HTTP(S) website links"@)
                } else {
                    Ok(plan)
                }
            }
        },
    }
}

/// `load_plan`: decides, from what was observed of the project's
/// `STARTUP.md`, whether it can be run and what it runs.
pub fn load_plan(
    status: DocumentStatus,
    content: Option<String>,
    truncated: bool,
    error: Option<String>,
) -> (r: Result<StartupPlan, String>)
    ensures
        match r {
            Ok(plan) => plan_outcome(status, crate::models::opt_str(content), truncated, crate::models::opt_str(error))
                == Ok::<(Seq<Seq<char>>, Seq<Seq<char>>), Seq<char>>((strs(plan.scripts@), strs(plan.urls@))),
            Err(m) => plan_outcome(status, crate::models::opt_str(content), truncated, crate::models::opt_str(error))
                == Err::<(Seq<Seq<char>>, Seq<Seq<char>>), Seq<char>>(m@),
        },
{
    match status {
        DocumentStatus::Missing => {
            return Err(String::from_str("STARTUP.md was not found"));
        },
        DocumentStatus::Error => {
            return Err(match error {
                Some(e) => e,
                None => String::from_str("STARTUP.md could not be read"),
            });
        },
        DocumentStatus::Available => {},
    }
    if truncated {
        return Err(String::from_str("STARTUP.md is larger than 2 MB and cannot be run safely"));
    }
    let plan = match content {
        Some(c) => parse_startup(c.as_str()),
        None => parse_startup(""),
    };
    proof {
        reveal_strlit("");
    }
    if plan.scripts.len() == 0 && plan.urls.len() == 0 {
        return Err(String::from_str("STARTUP.md has no fenced PowerShell scripts or HTTP(S) website links"));
    }
    Ok(plan)
}

} // verus!
