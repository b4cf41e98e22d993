//! The mutations of project state: adding a TODO, completing one into the
//! working history, and adding a history entry. Each works on the current
//! document texts and yields the new texts; reading and writing the files is
//! left to the caller.

use vstd::prelude::*;
use crate::text::{
    chars_of, copy_range, decimal, decimal_exec, is_blank, is_blank_exec, join, join_chars, lit,
    push_all, push_str, starts_with, string_of, trim, trim_chars, views, zero_pad, zero_pad_exec,
};
use crate::models::{
    entry_views, item_views, strs, warning_views, AddTodoInput, AddWorkHistoryInput,
    CompleteTodoInput, CompleteTodoResult, Minute, ProjectState, TodoDocument, TodoItem, TodoItemModel,
    ValidationWarning, WarningModel, WorkHistoryDocument, WorkHistoryEntry, WorkHistoryEntryModel,
};
use crate::markdown::dedup;
use crate::history::{areas_of, categories_of, parse_history, render_history, HistoryDocModel};
use crate::todos::{
    dedup_texts, is_digit, is_todo_id, is_todo_id_str, item_ids, parse_todo, render_todo,
    todo_prefix, todo_warnings, TodoDocModel, text_lt, text_lt_exec, todo_doc_model,
};

verus! {

/// Why a state operation was refused.
#[derive(Clone, Debug)]
pub enum ProjectStateError {
    InvalidRoot(String),
    Validation(String),
    Io(String),
}

impl ProjectStateError {
    /// A validation failure with exactly this message.
    pub open spec fn is_validation(self, message: Seq<char>) -> bool {
        match self {
            ProjectStateError::Validation(m) => m@ == message,
            _ => false,
        }
    }

    /// The text a user sees for the error.
    pub fn message(&self) -> (r: String)
        ensures
            r@ == match self {
                ProjectStateError::InvalidRoot(m) => "The registered project directory is inaccessible: "@ + m@,
                ProjectStateError::Validation(m) => "Project state is invalid: "@ + m@,
                ProjectStateError::Io(m) => "Unable to update project state: "@ + m@,
            },
    {
        let (prefix, m) = match self {
            ProjectStateError::InvalidRoot(m) => ("The registered project directory is inaccessible: ", m),
            ProjectStateError::Validation(m) => ("Project state is invalid: ", m),
            ProjectStateError::Io(m) => ("Unable to update project state: ", m),
        };
        let mut out = lit(prefix);
        push_str(&mut out, m.as_str());
        string_of(&out)
    }
}

// ---------------------------------------------------------------------------
// Input checks

pub open spec fn nonempty_message(name: Seq<char>) -> Seq<char> {
    name + " must not be empty"@
}

/// `validate_nonempty`: a blank value is refused.
pub fn validate_nonempty(name: &str, value: &str) -> (r: Result<(), ProjectStateError>)
    ensures
        r is Err <==> is_blank(value@),
        r is Err ==> r->Err_0.is_validation(nonempty_message(name@)),
{
    if is_blank_exec(&chars_of(value)) {
        let mut m = lit(name);
        push_str(&mut m, " must not be empty");
        Err(ProjectStateError::Validation(string_of(&m)))
    } else {
        Ok(())
    }
}

pub open spec fn invalid_id_message(value: Seq<char>) -> Seq<char> {
    "`"@ + value + "` is not a valid TODO ID"@
}

/// `validate_todo_id`.
pub fn validate_todo_id(value: &str) -> (r: Result<(), ProjectStateError>)
    ensures
        r is Err <==> !is_todo_id(value@),
        r is Err ==> r->Err_0.is_validation(invalid_id_message(value@)),
{
    if is_todo_id_str(&String::from_str(value)) {
        Ok(())
    } else {
        let mut m = lit("`");
        push_str(&mut m, value);
        push_str(&mut m, "` is not a valid TODO ID");
        Err(ProjectStateError::Validation(string_of(&m)))
    }
}

/// Index of the first value that is not a TODO ID, from `i` on.
pub open spec fn first_invalid_from(values: Seq<Seq<char>>, i: int) -> Option<int>
    decreases values.len() - i,
{
    if i < 0 || i >= values.len() {
        None
    } else if !is_todo_id(values[i]) {
        Some(i)
    } else {
        first_invalid_from(values, i + 1)
    }
}

pub open spec fn invalid_in_list_message(name: Seq<char>, value: Seq<char>) -> Seq<char> {
    name + " contains invalid TODO ID `"@ + value + "`"@
}

/// `validate_todo_ids`: the first value that is not a TODO ID is reported.
pub fn validate_todo_ids(values: &Vec<String>, name: &str) -> (r: Result<(), ProjectStateError>)
    ensures
        r is Err <==> first_invalid_from(strs(values@), 0) is Some,
        r is Err ==> r->Err_0.is_validation(invalid_in_list_message(
            name@,
            strs(values@)[first_invalid_from(strs(values@), 0).unwrap()],
        )),
{
    let ghost sv = strs(values@);
    let mut i: usize = 0;
    while i < values.len()
        invariant
            i <= values@.len(),
            sv == strs(values@),
            first_invalid_from(sv, i as int) == first_invalid_from(sv, 0),
        decreases values@.len() - i,
    {
        assert(sv[i as int] == values@[i as int]@);
        if !is_todo_id_str(&values[i]) {
            let mut m = lit(name);
            push_str(&mut m, " contains invalid TODO ID `");
            push_str(&mut m, values[i].as_str());
            push_str(&mut m, "`");
            return Err(ProjectStateError::Validation(string_of(&m)));
        }
        i += 1;
    }
    Ok(())
}

/// `deduplicate`: keeps the first of equal strings.
pub fn deduplicate(values: Vec<String>) -> (r: Vec<String>)
    ensures
        strs(r@) == dedup(strs(values@)),
{
    let mut texts: Vec<Vec<char>> = Vec::new();
    let mut i: usize = 0;
    while i < values.len()
        invariant
            i <= values@.len(),
            views(texts@) =~= strs(values@).subrange(0, i as int),
        decreases values@.len() - i,
    {
        let ghost before = views(texts@);
        texts.push(chars_of(values[i].as_str()));
        assert(views(texts@) =~= before.push(values@[i as int]@));
        i += 1;
    }
    assert(strs(values@).subrange(0, values@.len() as int) == strs(values@));
    let kept = dedup_texts(texts);
    let mut out: Vec<String> = Vec::new();
    let mut k: usize = 0;
    while k < kept.len()
        invariant
            k <= kept@.len(),
            strs(out@) =~= views(kept@).subrange(0, k as int),
        decreases kept@.len() - k,
    {
        let ghost before = strs(out@);
        out.push(string_of(&kept[k]));
        assert(strs(out@) =~= before.push(kept@[k as int]@));
        k += 1;
    }
    assert(views(kept@).subrange(0, kept@.len() as int) == views(kept@));
    out
}

// ---------------------------------------------------------------------------
// TODO numbering

pub open spec fn digit_value(c: char) -> nat {
    (c as int - '0' as int) as nat
}

/// The value of a text of decimal digits.
pub open spec fn digits_value(s: Seq<char>) -> nat
    decreases s.len(),
{
    if s.len() == 0 {
        0
    } else {
        digits_value(s.drop_last()) * 10 + digit_value(s.last())
    }
}

pub open spec fn all_digits(s: Seq<char>) -> bool {
    forall|i: int| 0 <= i < s.len() ==> is_digit(s[i])
}

/// `str::parse::<u32>`: an optional `+`, then one or more digits whose value fits.
pub open spec fn parse_u32(s: Seq<char>) -> Option<nat> {
    let d = if s.len() > 0 && s[0] == '+' { s.drop_first() } else { s };
    if d.len() > 0 && all_digits(d) && digits_value(d) <= u32::MAX {
        Some(digits_value(d))
    } else {
        None
    }
}

/// The number of an ID of the form `TODO-<u32>`.
pub open spec fn todo_number(id: Seq<char>) -> Option<nat> {
    if starts_with(id, todo_prefix()) {
        parse_u32(id.subrange(5, id.len() as int))
    } else {
        None
    }
}

/// The largest TODO number among the items, or 0.
pub open spec fn max_todo_number(items: Seq<TodoItemModel>) -> nat
    decreases items.len(),
{
    if items.len() == 0 {
        0
    } else {
        let m = max_todo_number(items.drop_last());
        match todo_number(items.last().id) {
            Some(n) if n > m => n,
            _ => m,
        }
    }
}

/// The ID a new TODO receives: one past the largest number, at least three digits.
pub open spec fn next_id(items: Seq<TodoItemModel>) -> Seq<char> {
    todo_prefix() + zero_pad(decimal(max_todo_number(items) + 1), 3)
}

proof fn lemma_digits_prefix(s: Seq<char>, k: int)
    requires
        0 <= k <= s.len(),
    ensures
        digits_value(s.subrange(0, k)) <= digits_value(s),
    decreases s.len() - k,
{
    if k < s.len() {
        lemma_digits_prefix(s, k + 1);
        assert(s.subrange(0, k + 1).drop_last() == s.subrange(0, k));
    } else {
        assert(s.subrange(0, k) == s);
    }
}

fn parse_u32_exec(s: &[char]) -> (r: Option<u32>)
    ensures
        match r {
            Some(v) => parse_u32(s@) == Some(v as nat),
            None => parse_u32(s@) is None,
        },
{
    let start: usize = if s.len() > 0 && s[0] == '+' { 1 } else { 0 };
    let ghost d = if s@.len() > 0 && s@[0] == '+' { s@.drop_first() } else { s@ };
    assert(d == s@.subrange(start as int, s@.len() as int));
    if start >= s.len() {
        return None;
    }
    let mut value: u64 = 0;
    let mut i: usize = start;
    while i < s.len()
        invariant
            start <= i <= s@.len(),
            d == s@.subrange(start as int, s@.len() as int),
            d == (if s@.len() > 0 && s@[0] == '+' { s@.drop_first() } else { s@ }),
            all_digits(s@.subrange(start as int, i as int)),
            value as nat == digits_value(s@.subrange(start as int, i as int)),
            value <= u32::MAX,
        decreases s@.len() - i,
    {
        let c = s[i];
        if !('0' <= c && c <= '9') {
            assert(d[i - start] == c);
            assert(!is_digit(d[i - start]));
            assert(!all_digits(d));
            assert(parse_u32(s@) is None);
            return None;
        }
        let ghost p = s@.subrange(start as int, i + 1);
        assert(p.drop_last() == s@.subrange(start as int, i as int));
        assert(p.last() == c);
        let next: u64 = value * 10 + ((c as u32) - ('0' as u32)) as u64;
        assert(next as nat == digits_value(p));
        assert(all_digits(p)) by {
            assert forall|j: int| 0 <= j < p.len() implies is_digit(p[j]) by {
                if j < p.len() - 1 {
                    assert(p[j] == s@.subrange(start as int, i as int)[j]);
                }
            }
        }
        if next > 4294967295u64 {
            proof {
                lemma_digits_prefix(d, i + 1 - start);
                assert(d.subrange(0, i + 1 - start) =~= p);
                assert(digits_value(d) > u32::MAX);
                assert(parse_u32(s@) is None);
            }
            return None;
        }
        value = next;
        i += 1;
    }
    Some(value as u32)
}

fn todo_number_exec(id: &[char]) -> (r: Option<u32>)
    ensures
        match r {
            Some(v) => todo_number(id@) == Some(v as nat),
            None => todo_number(id@) is None,
        },
{
    if !crate::text::matches_at(id, 0, &lit("TODO-")) {
        proof {
            reveal_strlit("TODO-");
        }
        assert("TODO-"@ == todo_prefix()) by {
            reveal_strlit("TODO-");
        }
        return None;
    }
    assert("TODO-"@ == todo_prefix()) by {
        reveal_strlit("TODO-");
    }
    parse_u32_exec(&copy_range(id, 5, id.len()))
}

/// The largest TODO number among the items.
pub fn max_todo_number_exec(items: &[TodoItem]) -> (r: u32)
    ensures
        r as nat == max_todo_number(item_views(items@)),
{
    let ghost iv = item_views(items@);
    let mut m: u32 = 0;
    let mut i: usize = 0;
    while i < items.len()
        invariant
            i <= items@.len(),
            iv == item_views(items@),
            m as nat == max_todo_number(iv.subrange(0, i as int)),
        decreases items@.len() - i,
    {
        assert(iv.subrange(0, i + 1).drop_last() == iv.subrange(0, i as int));
        assert(iv.subrange(0, i + 1).last() == items@[i as int]@);
        match todo_number_exec(&chars_of(items[i].id.as_str())) {
            Some(n) => {
                if n > m {
                    m = n;
                }
            },
            None => {},
        }
        i += 1;
    }
    assert(iv.subrange(0, iv.len() as int) == iv);
    m
}

/// `next_todo_id`: one past the largest TODO number, written with at least
/// three digits.
pub fn next_todo_id(items: &[TodoItem]) -> (r: String)
    requires
        max_todo_number(item_views(items@)) < u32::MAX,
    ensures
        r@ == next_id(item_views(items@)),
{
    let m = max_todo_number_exec(items);
    let mut out = lit("TODO-");
    assert(out@ == todo_prefix()) by {
        reveal_strlit("TODO-");
    }
    push_all(&mut out, &zero_pad_exec(decimal_exec((m + 1) as u64), 3));
    string_of(&out)
}


// ---------------------------------------------------------------------------
// Documents that must be repaired before they are rewritten

/// Warning codes that make a `TODO.md` unsafe to rewrite.
pub open spec fn fatal_todo_code(code: Seq<char>) -> bool {
    ||| code == "duplicate_todo_id"@
    ||| code == "invalid_todo_id"@
    ||| code == "missing_dependency"@
    ||| code == "circular_dependency"@
    ||| code == "invalid_category"@
    ||| code == "missing_priority"@
    ||| code == "invalid_priority"@
    ||| code == "missing_area"@
    ||| code == "missing_rationale"@
    ||| code == "missing_acceptance_criteria"@
}

/// The messages of the warnings with a fatal code, in order.
pub open spec fn fatal_messages(ws: Seq<WarningModel>) -> Seq<Seq<char>>
    decreases ws.len(),
{
    if ws.len() == 0 {
        Seq::empty()
    } else if fatal_todo_code(ws.last().code) {
        fatal_messages(ws.drop_last()).push(ws.last().message)
    } else {
        fatal_messages(ws.drop_last())
    }
}

fn is_fatal_todo_code(code: &String) -> (r: bool)
    ensures
        r == fatal_todo_code(code@),
{
    let c = chars_of(code.as_str());
    crate::text::str_eq(&c, "duplicate_todo_id") || crate::text::str_eq(&c, "invalid_todo_id")
        || crate::text::str_eq(&c, "missing_dependency") || crate::text::str_eq(&c, "circular_dependency")
        || crate::text::str_eq(&c, "invalid_category") || crate::text::str_eq(&c, "missing_priority")
        || crate::text::str_eq(&c, "invalid_priority") || crate::text::str_eq(&c, "missing_area")
        || crate::text::str_eq(&c, "missing_rationale")
        || crate::text::str_eq(&c, "missing_acceptance_criteria")
}

fn fatal_todo_messages(ws: &Vec<ValidationWarning>) -> (r: Vec<Vec<char>>)
    ensures
        views(r@) == fatal_messages(warning_views(ws@)),
{
    let ghost wv = warning_views(ws@);
    let mut out: Vec<Vec<char>> = Vec::new();
    let mut i: usize = 0;
    while i < ws.len()
        invariant
            i <= ws@.len(),
            wv == warning_views(ws@),
            views(out@) == fatal_messages(wv.subrange(0, i as int)),
        decreases ws@.len() - i,
    {
        assert(wv.subrange(0, i + 1).drop_last() == wv.subrange(0, i as int));
        assert(wv.subrange(0, i + 1).last() == ws@[i as int]@);
        if is_fatal_todo_code(&ws[i].code) {
            let ghost before = views(out@);
            out.push(chars_of(ws[i].message.as_str()));
            assert(views(out@) =~= before.push(ws@[i as int]@.message));
        }
        i += 1;
    }
    assert(wv.subrange(0, wv.len() as int) == wv);
    out
}

/// The refusal for a `TODO.md` whose warnings make it unsafe to rewrite: the
/// fatal messages joined by spaces.
pub open spec fn todo_refusal(ws: Seq<WarningModel>) -> Option<Seq<char>> {
    if fatal_messages(ws).len() > 0 {
        Some(join(fatal_messages(ws), " "@))
    } else {
        None
    }
}

/// `ensure_mutable_todo_document`.
pub fn ensure_mutable_todo_document(document: &TodoDocument) -> (r: Result<(), ProjectStateError>)
    ensures
        r is Err <==> todo_refusal(warning_views(document.warnings@)) is Some,
        r is Err ==> r->Err_0.is_validation(todo_refusal(warning_views(document.warnings@)).unwrap()),
{
    let fatal = fatal_todo_messages(&document.warnings);
    if fatal.len() == 0 {
        Ok(())
    } else {
        Err(ProjectStateError::Validation(string_of(&join_chars(&fatal, " "))))
    }
}

/// Warning codes that make a `WORK_HISTORY.md` unsafe to rewrite.
pub open spec fn fatal_history_code(code: Seq<char>) -> bool {
    ||| code == "missing_or_invalid_category"@
    ||| code == "missing_area"@
    ||| code == "missing_summary"@
    ||| code == "missing_limitations"@
}

pub open spec fn history_refused(ws: Seq<WarningModel>) -> bool {
    exists|i: int| 0 <= i < ws.len() && fatal_history_code(#[trigger] ws[i].code)
}

pub open spec fn history_refusal_message() -> Seq<char> {
    "Working history contains malformed entries; migrate or repair it before mutation"@
}

/// `ensure_mutable_history_document`.
pub fn ensure_mutable_history_document(document: &WorkHistoryDocument) -> (r: Result<(), ProjectStateError>)
    ensures
        r is Err <==> history_refused(warning_views(document.warnings@)),
        r is Err ==> r->Err_0.is_validation(history_refusal_message()),
{
    let ghost wv = warning_views(document.warnings@);
    let mut i: usize = 0;
    while i < document.warnings.len()
        invariant
            i <= document.warnings@.len(),
            wv == warning_views(document.warnings@),
            forall|j: int| 0 <= j < i ==> !fatal_history_code(#[trigger] wv[j].code),
        decreases document.warnings@.len() - i,
    {
        let c = chars_of(document.warnings[i].code.as_str());
        assert(wv[i as int].code == c@);
        if crate::text::str_eq(&c, "missing_or_invalid_category") || crate::text::str_eq(&c, "missing_area")
            || crate::text::str_eq(&c, "missing_summary") || crate::text::str_eq(&c, "missing_limitations")
        {
            return Err(ProjectStateError::Validation(String::from_str(
                "Working history contains malformed entries; migrate or repair it before mutation",
            )));
        }
        i += 1;
    }
    Ok(())
}


// ---------------------------------------------------------------------------
// Adding a TODO

/// Index of the first dependency, from `i` on, that names no known ID.
pub open spec fn unknown_dependency_from(deps: Seq<Seq<char>>, ids: Seq<Seq<char>>, i: int) -> Option<int>
    decreases deps.len() - i,
{
    if i < 0 || i >= deps.len() {
        None
    } else if !ids.contains(deps[i]) {
        Some(i)
    } else {
        unknown_dependency_from(deps, ids, i + 1)
    }
}

pub open spec fn unknown_dependency_message(dep: Seq<char>) -> Seq<char> {
    "Dependency "@ + dep + " does not exist in this project"@
}

/// Why a new TODO is refused before it is built, checked in this order:
/// blank fields, malformed dependency IDs, a document that must be repaired
/// first, and dependencies that name no existing TODO.
pub open spec fn add_todo_refusal(doc: TodoDocModel, input: AddTodoInput) -> Option<Seq<char>> {
    let deps = strs(input.dependencies@);
    if is_blank(input.title@) {
        Some(nonempty_message("title"@))
    } else if is_blank(input.area@) {
        Some(nonempty_message("area"@))
    } else if is_blank(input.rationale@) {
        Some(nonempty_message("rationale"@))
    } else if is_blank(input.acceptance_criteria@) {
        Some(nonempty_message("acceptance criteria"@))
    } else if first_invalid_from(deps, 0) is Some {
        Some(invalid_in_list_message("dependencies"@, deps[first_invalid_from(deps, 0).unwrap()]))
    } else if todo_refusal(doc.warnings) is Some {
        todo_refusal(doc.warnings)
    } else if unknown_dependency_from(deps, item_ids(doc.items), 0) is Some {
        Some(unknown_dependency_message(deps[unknown_dependency_from(deps, item_ids(doc.items), 0).unwrap()]))
    } else {
        None
    }
}

/// The TODO that an accepted input becomes.
pub open spec fn new_todo(doc: TodoDocModel, input: AddTodoInput) -> TodoItemModel {
    TodoItemModel {
        id: next_id(doc.items),
        title: trim(input.title@),
        priority: input.priority,
        category: input.category,
        area: trim(input.area@),
        dependencies: dedup(strs(input.dependencies@)),
        rationale: trim(input.rationale@),
        acceptance_criteria: trim(input.acceptance_criteria@),
    }
}

/// Adding a TODO to the document `current`: the new item and the new text,
/// or the validation message.
pub open spec fn add_todo_outcome(current: Seq<char>, input: AddTodoInput) -> Result<(TodoItemModel, Seq<char>), Seq<char>> {
    let doc = parse_todo(current);
    match add_todo_refusal(doc, input) {
        Some(m) => Err(m),
        None => {
            let item = new_todo(doc, input);
            let items = doc.items.push(item);
            match todo_refusal(todo_warnings(items)) {
                Some(m) => Err(m),
                None => Ok((item, render_todo(items, doc.preserved_content))),
            }
        },
    }
}

fn find_unknown_dependency(deps: &Vec<String>, items: &Vec<TodoItem>) -> (r: Option<usize>)
    ensures
        match r {
            Some(k) => k < deps@.len() && unknown_dependency_from(strs(deps@), item_ids(item_views(items@)), 0) == Some(k as int),
            None => unknown_dependency_from(strs(deps@), item_ids(item_views(items@)), 0) is None,
        },
{
    let ghost dv = strs(deps@);
    let ghost ids = item_ids(item_views(items@));
    let mut i: usize = 0;
    while i < deps.len()
        invariant
            i <= deps@.len(),
            dv == strs(deps@),
            ids == item_ids(item_views(items@)),
            unknown_dependency_from(dv, ids, i as int) == unknown_dependency_from(dv, ids, 0),
        decreases deps@.len() - i,
    {
        let mut known = false;
        let mut j: usize = 0;
        while j < items.len()
            invariant
                i < deps@.len(),
                j <= items@.len(),
                ids == item_ids(item_views(items@)),
                known == exists|m: int| 0 <= m < j && ids[m] == deps@[i as int]@,
            decreases items@.len() - j,
        {
            assert(ids[j as int] == items@[j as int].id@);
            if items[j].id == deps[i] {
                known = true;
            }
            j += 1;
        }
        proof {
            if known {
                let m = choose|m: int| 0 <= m < items@.len() && ids[m] == deps@[i as int]@;
                assert(ids.contains(dv[i as int]));
            } else if ids.contains(dv[i as int]) {
                let m = choose|m: int| 0 <= m < ids.len() && ids[m] == dv[i as int];
                assert(false);
            }
        }
        if !known {
            return Some(i);
        }
        i += 1;
    }
    None
}

/// The stateless part of the project-state service: each mutation takes the
/// current document texts and yields the new ones.
pub struct ProjectStateService {}

impl Default for ProjectStateService {
    fn default() -> (r: Self)
        ensures
            r == (ProjectStateService {}),
    {
        ProjectStateService {}
    }
}

impl ProjectStateService {
    /// `add_todo`: validates the input against the current `TODO.md` text,
    /// numbers the new TODO one past the largest existing number, and yields
    /// the item and the new text.
    pub fn add_todo(&self, current: &str, input: AddTodoInput) -> (r: Result<(TodoItem, String), ProjectStateError>)
        requires
            add_todo_refusal(parse_todo(current@), input) is None
                ==> max_todo_number(parse_todo(current@).items) < u32::MAX,
        ensures
            match r {
                Ok((item, text)) => add_todo_outcome(current@, input) == Ok::<(TodoItemModel, Seq<char>), Seq<char>>((item@, text@)),
                Err(e) => add_todo_outcome(current@, input) is Err
                    && e.is_validation(add_todo_outcome(current@, input)->Err_0),
            },
    {
        let ghost doc = parse_todo(current@);
        let ghost expected = add_todo_outcome(current@, input);
        match validate_nonempty("title", input.title.as_str()) {
            Err(e) => { return Err(e); },
            Ok(()) => {},
        }
        match validate_nonempty("area", input.area.as_str()) {
            Err(e) => { return Err(e); },
            Ok(()) => {},
        }
        match validate_nonempty("rationale", input.rationale.as_str()) {
            Err(e) => { return Err(e); },
            Ok(()) => {},
        }
        match validate_nonempty("acceptance criteria", input.acceptance_criteria.as_str()) {
            Err(e) => { return Err(e); },
            Ok(()) => {},
        }
        proof {
            reveal_strlit("title");
            reveal_strlit("area");
            reveal_strlit("rationale");
            reveal_strlit("acceptance criteria");
        }
        match validate_todo_ids(&input.dependencies, "dependencies") {
            Err(e) => { return Err(e); },
            Ok(()) => {},
        }
        let document = crate::todos::parse_todo_document(current);
        match ensure_mutable_todo_document(&document) {
            Err(e) => { return Err(e); },
            Ok(()) => {},
        }
        match find_unknown_dependency(&input.dependencies, &document.items) {
            Some(k) => {
                let mut m = lit("Dependency ");
                push_str(&mut m, input.dependencies[k].as_str());
                push_str(&mut m, " does not exist in this project");
                return Err(ProjectStateError::Validation(string_of(&m)));
            },
            None => {},
        }
        assert(add_todo_refusal(doc, input) is None);
        let item = TodoItem {
            id: next_todo_id(&document.items),
            title: string_of(&trim_chars(&chars_of(input.title.as_str()))),
            priority: input.priority,
            category: input.category,
            area: string_of(&trim_chars(&chars_of(input.area.as_str()))),
            dependencies: deduplicate(input.dependencies),
            rationale: string_of(&trim_chars(&chars_of(input.rationale.as_str()))),
            acceptance_criteria: string_of(&trim_chars(&chars_of(input.acceptance_criteria.as_str()))),
        };
        assert(item@ == new_todo(doc, input));
        let mut items = document.items;
        let ghost before = item_views(items@);
        items.push(item.duplicate());
        assert(item_views(items@) =~= before.push(item@));
        let warnings = crate::todos::validate_todos(&items);
        let updated = TodoDocument {
            relative_path: document.relative_path,
            items,
            warnings,
            preserved_content: document.preserved_content,
        };
        match ensure_mutable_todo_document(&updated) {
            Err(e) => { return Err(e); },
            Ok(()) => {},
        }
        let text = crate::todos::render_todo_document(&updated);
        Ok((item, text))
    }
}


// ---------------------------------------------------------------------------
// Completing a TODO and recording history

/// The first index, from `i` on, of an item with the given ID.
pub open spec fn index_of_id(items: Seq<TodoItemModel>, id: Seq<char>, i: int) -> Option<int>
    decreases items.len() - i,
{
    if i < 0 || i >= items.len() {
        None
    } else if items[i].id == id {
        Some(i)
    } else {
        index_of_id(items, id, i + 1)
    }
}

/// The texts other than `x`, in order.
pub open spec fn without_text(s: Seq<Seq<char>>, x: Seq<char>) -> Seq<Seq<char>>
    decreases s.len(),
{
    if s.len() == 0 {
        s
    } else if s.last() == x {
        without_text(s.drop_last(), x)
    } else {
        without_text(s.drop_last(), x).push(s.last())
    }
}

/// The items with `id` dropped from every dependency list.
pub open spec fn released(items: Seq<TodoItemModel>, id: Seq<char>) -> Seq<TodoItemModel> {
    items.map_values(|it: TodoItemModel| TodoItemModel { dependencies: without_text(it.dependencies, id), ..it })
}

pub open spec fn complete_input_refusal(todo_id: Seq<char>, input: CompleteTodoInput) -> Option<Seq<char>> {
    if !is_todo_id(todo_id) {
        Some(invalid_id_message(todo_id))
    } else if is_blank(input.summary@) {
        Some(nonempty_message("summary"@))
    } else if is_blank(input.limitations@) {
        Some(nonempty_message("limitations"@))
    } else {
        None
    }
}

pub open spec fn missing_todo_message(id: Seq<char>) -> Seq<char> {
    "TODO "@ + id + " does not exist"@
}

pub open spec fn missing_dependency_message(id: Seq<char>, dep: Seq<char>) -> Seq<char> {
    "TODO "@ + id + " references missing dependency "@ + dep
}

/// The history entry that completing `todo` records: its title, category and
/// area, with the given summary and limitations.
pub open spec fn completion_entry(todo: TodoItemModel, input: CompleteTodoInput, now: Minute) -> WorkHistoryEntryModel {
    WorkHistoryEntryModel {
        occurred_at: now,
        title: trim(todo.title),
        category: todo.category,
        area: trim(todo.area),
        summary: trim(input.summary@),
        limitations: trim(input.limitations@),
    }
}

/// Completing `todo_id`: the completed TODO, the history entry, and the new
/// `TODO.md` and `WORK_HISTORY.md` texts, or the validation message.
pub open spec fn complete_outcome(
    todo_text: Seq<char>,
    history_text: Seq<char>,
    todo_id: Seq<char>,
    input: CompleteTodoInput,
    now: Minute,
) -> Result<(TodoItemModel, WorkHistoryEntryModel, Seq<char>, Seq<char>), Seq<char>> {
    match complete_input_refusal(todo_id, input) {
        Some(m) => Err(m),
        None => {
            let todos = parse_todo(todo_text);
            let history = parse_history(history_text);
            if todo_refusal(todos.warnings) is Some {
                Err(todo_refusal(todos.warnings).unwrap())
            } else if history_refused(history.warnings) {
                Err(history_refusal_message())
            } else {
                match index_of_id(todos.items, todo_id, 0) {
                    None => Err(missing_todo_message(todo_id)),
                    Some(k) => {
                        let done = todos.items[k];
                        match unknown_dependency_from(done.dependencies, item_ids(todos.items), 0) {
                            Some(j) => Err(missing_dependency_message(done.id, done.dependencies[j])),
                            None => {
                                let rest = released(todos.items.remove(k), done.id);
                                match todo_refusal(todo_warnings(rest)) {
                                    Some(m) => Err(m),
                                    None => {
                                        let entry = completion_entry(done, input, now);
                                        Ok((
                                            done,
                                            entry,
                                            render_todo(rest, todos.preserved_content),
                                            render_history(history.entries.push(entry), history.preserved_content),
                                        ))
                                    },
                                }
                            },
                        }
                    },
                }
            }
        },
    }
}

pub open spec fn history_input_refusal(input: AddWorkHistoryInput) -> Option<Seq<char>> {
    if is_blank(input.title@) {
        Some(nonempty_message("title"@))
    } else if is_blank(input.area@) {
        Some(nonempty_message("area"@))
    } else if is_blank(input.summary@) {
        Some(nonempty_message("summary"@))
    } else if is_blank(input.limitations@) {
        Some(nonempty_message("limitations"@))
    } else {
        None
    }
}

pub open spec fn history_entry_of(input: AddWorkHistoryInput, now: Minute) -> WorkHistoryEntryModel {
    WorkHistoryEntryModel {
        occurred_at: now,
        title: trim(input.title@),
        category: input.category,
        area: trim(input.area@),
        summary: trim(input.summary@),
        limitations: trim(input.limitations@),
    }
}

/// Recording a history entry: the entry and the new `WORK_HISTORY.md` text,
/// or the validation message.
pub open spec fn add_history_outcome(history_text: Seq<char>, input: AddWorkHistoryInput, now: Minute) -> Result<(WorkHistoryEntryModel, Seq<char>), Seq<char>> {
    match history_input_refusal(input) {
        Some(m) => Err(m),
        None => {
            let history = parse_history(history_text);
            if history_refused(history.warnings) {
                Err(history_refusal_message())
            } else {
                let entry = history_entry_of(input, now);
                Ok((entry, render_history(history.entries.push(entry), history.preserved_content)))
            }
        },
    }
}

fn index_of_id_exec(items: &Vec<TodoItem>, id: &str) -> (r: Option<usize>)
    ensures
        match r {
            Some(k) => k < items@.len() && index_of_id(item_views(items@), id@, 0) == Some(k as int),
            None => index_of_id(item_views(items@), id@, 0) is None,
        },
{
    let ghost iv = item_views(items@);
    let key = String::from_str(id);
    let mut i: usize = 0;
    while i < items.len()
        invariant
            i <= items@.len(),
            iv == item_views(items@),
            key@ == id@,
            index_of_id(iv, id@, i as int) == index_of_id(iv, id@, 0),
        decreases items@.len() - i,
    {
        assert(iv[i as int].id == items@[i as int].id@);
        if items[i].id == key {
            return Some(i);
        }
        i += 1;
    }
    None
}

fn without_string(v: &Vec<String>, x: &String) -> (r: Vec<String>)
    ensures
        strs(r@) == without_text(strs(v@), x@),
{
    let ghost sv = strs(v@);
    let mut out: Vec<String> = Vec::new();
    let mut i: usize = 0;
    while i < v.len()
        invariant
            i <= v@.len(),
            sv == strs(v@),
            strs(out@) == without_text(sv.subrange(0, i as int), x@),
        decreases v@.len() - i,
    {
        assert(sv.subrange(0, i + 1).drop_last() == sv.subrange(0, i as int));
        assert(sv.subrange(0, i + 1).last() == v@[i as int]@);
        if v[i] != *x {
            let ghost before = strs(out@);
            out.push(v[i].clone());
            assert(strs(out@) =~= before.push(v@[i as int]@));
        }
        i += 1;
    }
    assert(sv.subrange(0, sv.len() as int) == sv);
    out
}

fn release_items(items: Vec<TodoItem>, id: &String) -> (r: Vec<TodoItem>)
    ensures
        item_views(r@) == released(item_views(items@), id@),
{
    let mut out: Vec<TodoItem> = Vec::new();
    let mut i: usize = 0;
    while i < items.len()
        invariant
            i <= items@.len(),
            item_views(out@) =~= released(item_views(items@).subrange(0, i as int), id@),
        decreases items@.len() - i,
    {
        let it = &items[i];
        let next = TodoItem {
            id: it.id.clone(),
            title: it.title.clone(),
            priority: it.priority,
            category: it.category,
            area: it.area.clone(),
            dependencies: without_string(&it.dependencies, id),
            rationale: it.rationale.clone(),
            acceptance_criteria: it.acceptance_criteria.clone(),
        };
        let ghost before = item_views(out@);
        out.push(next);
        assert(item_views(out@) =~= before.push(TodoItemModel {
            dependencies: without_text(items@[i as int]@.dependencies, id@),
            ..items@[i as int]@
        }));
        i += 1;
    }
    assert(item_views(items@).subrange(0, items@.len() as int) == item_views(items@));
    out
}

fn trimmed_string(s: &String) -> (r: String)
    ensures
        r@ == trim(s@),
{
    string_of(&trim_chars(&chars_of(s.as_str())))
}

impl ProjectStateService {
    /// `complete_todo`: checks a completion of `todo_id` against the current
    /// texts and computes what it would write: the TODO removed from
    /// `TODO.md` and from every other TODO's dependencies, and a history entry
    /// carrying its title, category and area. Nothing is written here: an
    /// agent's completion is queued for review (`ReviewQueue::propose_completion`
    /// keeps the result and drops the texts), and the files change only when
    /// the proposal is approved.
    pub fn complete_todo(
        &self,
        todo_text: &str,
        history_text: &str,
        todo_id: &str,
        input: CompleteTodoInput,
        now: Minute,
    ) -> (r: Result<(CompleteTodoResult, String, String), ProjectStateError>)
        requires
            complete_input_refusal(todo_id@, input) is None ==> crate::history::history_cuts_ok(history_text@),
        ensures
            match r {
                Ok((res, todos, history)) => res.completed_todo is Some && complete_outcome(
                    todo_text@,
                    history_text@,
                    todo_id@,
                    input,
                    now,
                ) == Ok::<(TodoItemModel, WorkHistoryEntryModel, Seq<char>, Seq<char>), Seq<char>>((
                    res.completed_todo.unwrap()@,
                    res.history_entry@,
                    todos@,
                    history@,
                )),
                Err(e) => complete_outcome(todo_text@, history_text@, todo_id@, input, now) is Err
                    && e.is_validation(complete_outcome(todo_text@, history_text@, todo_id@, input, now)->Err_0),
            },
    {
        match validate_todo_id(todo_id) {
            Err(e) => { return Err(e); },
            Ok(()) => {},
        }
        match validate_nonempty("summary", input.summary.as_str()) {
            Err(e) => { return Err(e); },
            Ok(()) => {},
        }
        match validate_nonempty("limitations", input.limitations.as_str()) {
            Err(e) => { return Err(e); },
            Ok(()) => {},
        }
        proof {
            reveal_strlit("summary");
            reveal_strlit("limitations");
        }
        let todos = crate::todos::parse_todo_document(todo_text);
        let history = crate::history::parse_work_history_document(history_text);
        match ensure_mutable_todo_document(&todos) {
            Err(e) => { return Err(e); },
            Ok(()) => {},
        }
        match ensure_mutable_history_document(&history) {
            Err(e) => { return Err(e); },
            Ok(()) => {},
        }
        let k = match index_of_id_exec(&todos.items, todo_id) {
            None => {
                let mut m = lit("TODO ");
                push_str(&mut m, todo_id);
                push_str(&mut m, " does not exist");
                return Err(ProjectStateError::Validation(string_of(&m)));
            },
            Some(k) => k,
        };
        let completed = todos.items[k].duplicate();
        match find_unknown_dependency(&completed.dependencies, &todos.items) {
            Some(j) => {
                let mut m = lit("TODO ");
                push_str(&mut m, completed.id.as_str());
                push_str(&mut m, " references missing dependency ");
                push_str(&mut m, completed.dependencies[j].as_str());
                return Err(ProjectStateError::Validation(string_of(&m)));
            },
            None => {},
        }
        let mut items = todos.items;
        let ghost before = item_views(items@);
        let _removed = items.remove(k);
        assert(item_views(items@) =~= before.remove(k as int));
        let rest = release_items(items, &completed.id);
        let warnings = crate::todos::validate_todos(&rest);
        let updated = TodoDocument {
            relative_path: todos.relative_path,
            items: rest,
            warnings,
            preserved_content: todos.preserved_content,
        };
        match ensure_mutable_todo_document(&updated) {
            Err(e) => { return Err(e); },
            Ok(()) => {},
        }
        let entry = WorkHistoryEntry {
            occurred_at: now,
            title: trimmed_string(&completed.title),
            category: completed.category,
            area: trimmed_string(&completed.area),
            summary: trimmed_string(&input.summary),
            limitations: trimmed_string(&input.limitations),
        };
        let mut entries = history.entries;
        let ghost eb = entry_views(entries@);
        entries.push(entry.duplicate());
        assert(entry_views(entries@) =~= eb.push(entry@));
        let new_history = WorkHistoryDocument {
            relative_path: history.relative_path,
            entries,
            categories: history.categories,
            areas: history.areas,
            warnings: history.warnings,
            preserved_content: history.preserved_content,
        };
        let todo_out = crate::todos::render_todo_document(&updated);
        let history_out = crate::history::render_work_history_document(&new_history);
        Ok((CompleteTodoResult { completed_todo: Some(completed), history_entry: entry }, todo_out, history_out))
    }

    /// `add_work_history`: checks a standalone history entry against the
    /// current `WORK_HISTORY.md` text and computes the entry and the text with
    /// it appended. Nothing is written here: an agent's entry is queued for
    /// review (`ReviewQueue::propose_history`) and reaches the file only on
    /// approval.
    pub fn add_work_history(
        &self,
        history_text: &str,
        input: AddWorkHistoryInput,
        now: Minute,
    ) -> (r: Result<(WorkHistoryEntry, String), ProjectStateError>)
        requires
            history_input_refusal(input) is None ==> crate::history::history_cuts_ok(history_text@),
        ensures
            match r {
                Ok((entry, text)) => add_history_outcome(history_text@, input, now)
                    == Ok::<(WorkHistoryEntryModel, Seq<char>), Seq<char>>((entry@, text@)),
                Err(e) => add_history_outcome(history_text@, input, now) is Err
                    && e.is_validation(add_history_outcome(history_text@, input, now)->Err_0),
            },
    {
        match validate_nonempty("title", input.title.as_str()) {
            Err(e) => { return Err(e); },
            Ok(()) => {},
        }
        match validate_nonempty("area", input.area.as_str()) {
            Err(e) => { return Err(e); },
            Ok(()) => {},
        }
        match validate_nonempty("summary", input.summary.as_str()) {
            Err(e) => { return Err(e); },
            Ok(()) => {},
        }
        match validate_nonempty("limitations", input.limitations.as_str()) {
            Err(e) => { return Err(e); },
            Ok(()) => {},
        }
        proof {
            reveal_strlit("title");
            reveal_strlit("area");
            reveal_strlit("summary");
            reveal_strlit("limitations");
        }
        let history = crate::history::parse_work_history_document(history_text);
        match ensure_mutable_history_document(&history) {
            Err(e) => { return Err(e); },
            Ok(()) => {},
        }
        let entry = WorkHistoryEntry {
            occurred_at: now,
            title: trimmed_string(&input.title),
            category: input.category,
            area: trimmed_string(&input.area),
            summary: trimmed_string(&input.summary),
            limitations: trimmed_string(&input.limitations),
        };
        let mut entries = history.entries;
        let ghost eb = entry_views(entries@);
        entries.push(entry.duplicate());
        assert(entry_views(entries@) =~= eb.push(entry@));
        let updated = WorkHistoryDocument {
            relative_path: history.relative_path,
            entries,
            categories: history.categories,
            areas: history.areas,
            warnings: history.warnings,
            preserved_content: history.preserved_content,
        };
        let text = crate::history::render_work_history_document(&updated);
        Ok((entry, text))
    }
}


/// Applying an accepted completion of `todo_id` whose history entry was fixed
/// when it was proposed: the live TODO and the new `TODO.md` and
/// `WORK_HISTORY.md` texts, or the validation message. The live documents are
/// checked again exactly as a direct completion checks them.
pub open spec fn approval_outcome(
    todo_text: Seq<char>,
    history_text: Seq<char>,
    todo_id: Seq<char>,
    entry: WorkHistoryEntryModel,
) -> Result<(TodoItemModel, Seq<char>, Seq<char>), Seq<char>> {
    let todos = parse_todo(todo_text);
    let history = parse_history(history_text);
    if todo_refusal(todos.warnings) is Some {
        Err(todo_refusal(todos.warnings).unwrap())
    } else if history_refused(history.warnings) {
        Err(history_refusal_message())
    } else {
        match index_of_id(todos.items, todo_id, 0) {
            None => Err(missing_todo_message(todo_id)),
            Some(k) => {
                let done = todos.items[k];
                match unknown_dependency_from(done.dependencies, item_ids(todos.items), 0) {
                    Some(j) => Err(missing_dependency_message(done.id, done.dependencies[j])),
                    None => {
                        let rest = released(todos.items.remove(k), done.id);
                        match todo_refusal(todo_warnings(rest)) {
                            Some(m) => Err(m),
                            None => Ok((
                                done,
                                render_todo(rest, todos.preserved_content),
                                render_history(history.entries.push(entry), history.preserved_content),
                            )),
                        }
                    },
                }
            },
        }
    }
}

/// Appending an accepted standalone history entry: the new
/// `WORK_HISTORY.md` text, or the validation message.
pub open spec fn history_approval_outcome(history_text: Seq<char>, entry: WorkHistoryEntryModel) -> Result<Seq<char>, Seq<char>> {
    let history = parse_history(history_text);
    if history_refused(history.warnings) {
        Err(history_refusal_message())
    } else {
        Ok(render_history(history.entries.push(entry), history.preserved_content))
    }
}

impl ProjectStateService {
    /// Writes an accepted TODO completion: removes the live TODO `todo_id`,
    /// drops it from the other TODOs' dependencies and appends `entry` to the
    /// history. Yields the TODO as it stood and both new texts.
    pub fn apply_completion(
        &self,
        todo_text: &str,
        history_text: &str,
        todo_id: &str,
        entry: &WorkHistoryEntry,
    ) -> (r: Result<(TodoItem, String, String), ProjectStateError>)
        requires
            crate::history::history_cuts_ok(history_text@),
        ensures
            match r {
                Ok((done, todos, history)) => approval_outcome(todo_text@, history_text@, todo_id@, entry@)
                    == Ok::<(TodoItemModel, Seq<char>, Seq<char>), Seq<char>>((done@, todos@, history@)),
                Err(e) => approval_outcome(todo_text@, history_text@, todo_id@, entry@) is Err
                    && e.is_validation(approval_outcome(todo_text@, history_text@, todo_id@, entry@)->Err_0),
            },
    {
        let todos = crate::todos::parse_todo_document(todo_text);
        let history = crate::history::parse_work_history_document(history_text);
        match ensure_mutable_todo_document(&todos) {
            Err(e) => { return Err(e); },
            Ok(()) => {},
        }
        match ensure_mutable_history_document(&history) {
            Err(e) => { return Err(e); },
            Ok(()) => {},
        }
        let k = match index_of_id_exec(&todos.items, todo_id) {
            None => {
                let mut m = lit("TODO ");
                push_str(&mut m, todo_id);
                push_str(&mut m, " does not exist");
                return Err(ProjectStateError::Validation(string_of(&m)));
            },
            Some(k) => k,
        };
        let completed = todos.items[k].duplicate();
        match find_unknown_dependency(&completed.dependencies, &todos.items) {
            Some(j) => {
                let mut m = lit("TODO ");
                push_str(&mut m, completed.id.as_str());
                push_str(&mut m, " references missing dependency ");
                push_str(&mut m, completed.dependencies[j].as_str());
                return Err(ProjectStateError::Validation(string_of(&m)));
            },
            None => {},
        }
        let mut items = todos.items;
        let ghost before = item_views(items@);
        let _removed = items.remove(k);
        assert(item_views(items@) =~= before.remove(k as int));
        let rest = release_items(items, &completed.id);
        let warnings = crate::todos::validate_todos(&rest);
        let updated = TodoDocument {
            relative_path: todos.relative_path,
            items: rest,
            warnings,
            preserved_content: todos.preserved_content,
        };
        match ensure_mutable_todo_document(&updated) {
            Err(e) => { return Err(e); },
            Ok(()) => {},
        }
        let mut entries = history.entries;
        let ghost eb = entry_views(entries@);
        entries.push(entry.duplicate());
        assert(entry_views(entries@) =~= eb.push(entry@));
        let new_history = WorkHistoryDocument {
            relative_path: history.relative_path,
            entries,
            categories: history.categories,
            areas: history.areas,
            warnings: history.warnings,
            preserved_content: history.preserved_content,
        };
        let todo_out = crate::todos::render_todo_document(&updated);
        let history_out = crate::history::render_work_history_document(&new_history);
        Ok((completed, todo_out, history_out))
    }

    /// Writes an accepted standalone history entry: appends `entry` to the
    /// current `WORK_HISTORY.md` text.
    pub fn apply_history(&self, history_text: &str, entry: &WorkHistoryEntry) -> (r: Result<String, ProjectStateError>)
        requires
            crate::history::history_cuts_ok(history_text@),
        ensures
            match r {
                Ok(text) => history_approval_outcome(history_text@, entry@) == Ok::<Seq<char>, Seq<char>>(text@),
                Err(e) => history_approval_outcome(history_text@, entry@) is Err
                    && e.is_validation(history_approval_outcome(history_text@, entry@)->Err_0),
            },
    {
        let history = crate::history::parse_work_history_document(history_text);
        match ensure_mutable_history_document(&history) {
            Err(e) => { return Err(e); },
            Ok(()) => {},
        }
        let mut entries = history.entries;
        let ghost eb = entry_views(entries@);
        entries.push(entry.duplicate());
        assert(entry_views(entries@) =~= eb.push(entry@));
        let updated = WorkHistoryDocument {
            relative_path: history.relative_path,
            entries,
            categories: history.categories,
            areas: history.areas,
            warnings: history.warnings,
            preserved_content: history.preserved_content,
        };
        Ok(crate::history::render_work_history_document(&updated))
    }
}

/// Approving a completion on the files it was proposed against writes exactly
/// what completing the TODO directly would have written.
pub proof fn approval_matches_direct_completion(
    todo_text: Seq<char>,
    history_text: Seq<char>,
    todo_id: Seq<char>,
    input: CompleteTodoInput,
    now: Minute,
)
    requires
        complete_outcome(todo_text, history_text, todo_id, input, now) is Ok,
    ensures
        ({
            let (done, entry, todos, history) = complete_outcome(todo_text, history_text, todo_id, input, now)->Ok_0;
            approval_outcome(todo_text, history_text, todo_id, entry)
                == Ok::<(TodoItemModel, Seq<char>, Seq<char>), Seq<char>>((done, todos, history))
        }),
{
}

/// Approving standalone history on the file it was proposed against writes
/// exactly what recording the entry directly would have written.
pub proof fn history_approval_matches_direct_entry(history_text: Seq<char>, input: AddWorkHistoryInput, now: Minute)
    requires
        add_history_outcome(history_text, input, now) is Ok,
    ensures
        ({
            let (entry, text) = add_history_outcome(history_text, input, now)->Ok_0;
            history_approval_outcome(history_text, entry) == Ok::<Seq<char>, Seq<char>>(text)
        }),
{
}

// ---------------------------------------------------------------------------
// Inspecting project state

/// Display order of TODOs: by priority rank, then by ID.
pub open spec fn todo_before(a: TodoItemModel, b: TodoItemModel) -> bool {
    ||| a.priority.spec_rank() < b.priority.spec_rank()
    ||| a.priority.spec_rank() == b.priority.spec_rank() && text_lt(a.id, b.id)
}

pub open spec fn todo_pos_from(sorted: Seq<TodoItemModel>, x: TodoItemModel, i: int) -> int
    decreases sorted.len() - i,
{
    if i < 0 || i >= sorted.len() {
        sorted.len() as int
    } else if todo_before(x, sorted[i]) {
        i
    } else {
        todo_pos_from(sorted, x, i + 1)
    }
}

proof fn lemma_todo_pos(sorted: Seq<TodoItemModel>, x: TodoItemModel, i: int)
    requires
        0 <= i <= sorted.len(),
    ensures
        i <= todo_pos_from(sorted, x, i) <= sorted.len(),
    decreases sorted.len() - i,
{
    if i < sorted.len() && !todo_before(x, sorted[i]) {
        lemma_todo_pos(sorted, x, i + 1);
    }
}

/// TODOs in display order; equal keys keep their order (a stable sort).
pub open spec fn sort_by_priority(s: Seq<TodoItemModel>) -> Seq<TodoItemModel>
    decreases s.len(),
{
    if s.len() == 0 {
        s
    } else {
        let sorted = sort_by_priority(s.drop_last());
        sorted.insert(todo_pos_from(sorted, s.last(), 0), s.last())
    }
}

/// Display order of history entries: newest first, then by title.
pub open spec fn entry_before(a: WorkHistoryEntryModel, b: WorkHistoryEntryModel) -> bool {
    ||| b.occurred_at.spec_lt(a.occurred_at)
    ||| a.occurred_at == b.occurred_at && text_lt(a.title, b.title)
}

pub open spec fn entry_pos_from(sorted: Seq<WorkHistoryEntryModel>, x: WorkHistoryEntryModel, i: int) -> int
    decreases sorted.len() - i,
{
    if i < 0 || i >= sorted.len() {
        sorted.len() as int
    } else if entry_before(x, sorted[i]) {
        i
    } else {
        entry_pos_from(sorted, x, i + 1)
    }
}

proof fn lemma_entry_pos(sorted: Seq<WorkHistoryEntryModel>, x: WorkHistoryEntryModel, i: int)
    requires
        0 <= i <= sorted.len(),
    ensures
        i <= entry_pos_from(sorted, x, i) <= sorted.len(),
    decreases sorted.len() - i,
{
    if i < sorted.len() && !entry_before(x, sorted[i]) {
        lemma_entry_pos(sorted, x, i + 1);
    }
}

/// History entries in display order; equal keys keep their order.
pub open spec fn sort_entries(s: Seq<WorkHistoryEntryModel>) -> Seq<WorkHistoryEntryModel>
    decreases s.len(),
{
    if s.len() == 0 {
        s
    } else {
        let sorted = sort_entries(s.drop_last());
        sorted.insert(entry_pos_from(sorted, s.last(), 0), s.last())
    }
}

fn todo_before_exec(a: &TodoItem, b: &TodoItem) -> (r: bool)
    ensures
        r == todo_before(a@, b@),
{
    let ra = a.priority.rank();
    let rb = b.priority.rank();
    if ra != rb {
        return ra < rb;
    }
    text_lt_exec(&chars_of(a.id.as_str()), &chars_of(b.id.as_str()))
}

fn entry_before_exec(a: &WorkHistoryEntry, b: &WorkHistoryEntry) -> (r: bool)
    ensures
        r == entry_before(a@, b@),
{
    if b.occurred_at.lt(&a.occurred_at) {
        return true;
    }
    if a.occurred_at == b.occurred_at {
        return text_lt_exec(&chars_of(a.title.as_str()), &chars_of(b.title.as_str()));
    }
    false
}

/// TODOs in display order.
pub fn sort_todos_for_display(items: Vec<TodoItem>) -> (r: Vec<TodoItem>)
    ensures
        item_views(r@) == sort_by_priority(item_views(items@)),
{
    let mut sorted: Vec<TodoItem> = Vec::new();
    let mut i: usize = 0;
    assert(item_views(items@).subrange(0, 0) =~= Seq::<TodoItemModel>::empty());
    assert(item_views(sorted@) =~= Seq::<TodoItemModel>::empty());
    while i < items.len()
        invariant
            i <= items@.len(),
            item_views(sorted@) == sort_by_priority(item_views(items@).subrange(0, i as int)),
        decreases items@.len() - i,
    {
        let ghost pre = item_views(items@).subrange(0, i as int);
        assert(item_views(items@).subrange(0, i + 1).drop_last() == pre);
        assert(item_views(items@).subrange(0, i + 1).last() == items@[i as int]@);
        let ghost sv = item_views(sorted@);
        let x = items[i].duplicate();
        let mut p: usize = 0;
        proof {
            lemma_todo_pos(sv, x@, 0);
        }
        while p < sorted.len() && !todo_before_exec(&x, &sorted[p])
            invariant
                p <= sorted@.len(),
                sv == item_views(sorted@),
                todo_pos_from(sv, x@, p as int) == todo_pos_from(sv, x@, 0),
            decreases sorted@.len() - p,
        {
            p += 1;
        }
        assert(todo_pos_from(sv, x@, p as int) == p as int);
        sorted.insert(p, x);
        assert(item_views(sorted@) =~= sv.insert(p as int, items@[i as int]@));
        i += 1;
    }
    assert(item_views(items@).subrange(0, items@.len() as int) == item_views(items@));
    sorted
}

/// History entries in display order.
pub fn sort_entries_for_display(entries: Vec<WorkHistoryEntry>) -> (r: Vec<WorkHistoryEntry>)
    ensures
        entry_views(r@) == sort_entries(entry_views(entries@)),
{
    let mut sorted: Vec<WorkHistoryEntry> = Vec::new();
    let mut i: usize = 0;
    assert(entry_views(entries@).subrange(0, 0) =~= Seq::<WorkHistoryEntryModel>::empty());
    assert(entry_views(sorted@) =~= Seq::<WorkHistoryEntryModel>::empty());
    while i < entries.len()
        invariant
            i <= entries@.len(),
            entry_views(sorted@) == sort_entries(entry_views(entries@).subrange(0, i as int)),
        decreases entries@.len() - i,
    {
        let ghost pre = entry_views(entries@).subrange(0, i as int);
        assert(entry_views(entries@).subrange(0, i + 1).drop_last() == pre);
        assert(entry_views(entries@).subrange(0, i + 1).last() == entries@[i as int]@);
        let ghost sv = entry_views(sorted@);
        let x = entries[i].duplicate();
        let mut p: usize = 0;
        proof {
            lemma_entry_pos(sv, x@, 0);
        }
        while p < sorted.len() && !entry_before_exec(&x, &sorted[p])
            invariant
                p <= sorted@.len(),
                sv == entry_views(sorted@),
                entry_pos_from(sv, x@, p as int) == entry_pos_from(sv, x@, 0),
            decreases sorted@.len() - p,
        {
            p += 1;
        }
        assert(entry_pos_from(sv, x@, p as int) == p as int);
        sorted.insert(p, x);
        assert(entry_views(sorted@) =~= sv.insert(p as int, entries@[i as int]@));
        i += 1;
    }
    assert(entry_views(entries@).subrange(0, entries@.len() as int) == entry_views(entries@));
    sorted
}

impl ProjectStateService {
    /// `inspect`: the project state shown for the found documents (empty text
    /// where a document is absent), with TODOs by priority and ID and history
    /// newest first.
    pub fn inspect(
        &self,
        todo_text: &str,
        todo_path: Option<String>,
        history_text: &str,
        history_path: Option<String>,
    ) -> (r: ProjectState)
        requires
            crate::history::history_cuts_ok(history_text@),
        ensures
            todo_doc_model(r.todos) == (TodoDocModel {
                items: sort_by_priority(parse_todo(todo_text@).items),
                ..parse_todo(todo_text@)
            }),
            r.todos.relative_path == todo_path,
            crate::history::history_doc_model(r.working_history) == ({
                let h = parse_history(history_text@);
                let sorted = sort_entries(h.entries);
                HistoryDocModel {
                    entries: sorted,
                    categories: categories_of(sorted),
                    areas: areas_of(sorted),
                    ..h
                }
            }),
            r.working_history.relative_path == history_path,
            r.pending_reviews@.len() == 0,
    {
        let todos = crate::todos::parse_todo_document(todo_text);
        let history = crate::history::parse_work_history_document(history_text);
        let entries = sort_entries_for_display(history.entries);
        let categories = crate::history::categories_exec(&entries);
        let areas = crate::history::areas_exec(&entries);
        ProjectState {
            todos: TodoDocument {
                relative_path: todo_path,
                items: sort_todos_for_display(todos.items),
                warnings: todos.warnings,
                preserved_content: todos.preserved_content,
            },
            working_history: WorkHistoryDocument {
                relative_path: history_path,
                entries,
                categories,
                areas,
                warnings: history.warnings,
                preserved_content: history.preserved_content,
            },
            pending_reviews: Vec::new(),
        }
    }
}


// ---------------------------------------------------------------------------
// Laws

proof fn lemma_without_text(s: Seq<Seq<char>>, x: Seq<char>)
    ensures
        !without_text(s, x).contains(x),
        forall|y: Seq<char>| y != x && s.contains(y) ==> #[trigger] without_text(s, x).contains(y),
    decreases s.len(),
{
    if s.len() > 0 {
        lemma_without_text(s.drop_last(), x);
        let p = without_text(s.drop_last(), x);
        if s.last() != x {
            assert(without_text(s, x) == p.push(s.last()));
            assert(p.push(s.last())[p.len() as int] == s.last());
            assert forall|y: Seq<char>| y != x && s.contains(y) implies #[trigger] without_text(s, x).contains(y) by {
                let j = choose|j: int| 0 <= j < s.len() && s[j] == y;
                if j < s.len() - 1 {
                    assert(s.drop_last()[j] == y);
                    assert(s.drop_last().contains(y));
                    assert(without_text(s.drop_last(), x).contains(y));
                    let m = choose|m: int| 0 <= m < p.len() && p[m] == y;
                    assert(p.push(s.last())[m] == y);
                } else {
                    assert(p.push(s.last())[p.len() as int] == y);
                }
            }
            if p.push(s.last()).contains(x) {
                let m = choose|m: int| 0 <= m < p.len() + 1 && p.push(s.last())[m] == x;
                if m < p.len() {
                    assert(p[m] == x);
                }
            }
        } else {
            assert forall|y: Seq<char>| y != x && s.contains(y) implies #[trigger] without_text(s, x).contains(y) by {
                let j = choose|j: int| 0 <= j < s.len() && s[j] == y;
                if j < s.len() - 1 {
                    assert(s.drop_last()[j] == y);
                }
            }
        }
    }
}

/// Completing a TODO keeps the other TODOs, with their IDs, in order, and
/// leaves no dependency on the completed one; their other dependencies stay.
pub proof fn completion_clears_references(items: Seq<TodoItemModel>, k: int)
    requires
        0 <= k < items.len(),
    ensures
        ({
            let others = items.remove(k);
            let rest = released(others, items[k].id);
            &&& rest.len() == others.len()
            &&& forall|j: int| 0 <= j < rest.len() ==> #[trigger] rest[j].id == others[j].id
            &&& forall|j: int| 0 <= j < rest.len() ==> !(#[trigger] rest[j].dependencies).contains(items[k].id)
            &&& forall|j: int, d: Seq<char>| 0 <= j < rest.len() && d != items[k].id && others[j].dependencies.contains(d)
                ==> #[trigger] rest[j].dependencies.contains(d)
        }),
{
    let others = items.remove(k);
    let rest = released(others, items[k].id);
    assert forall|j: int| 0 <= j < rest.len() implies !(#[trigger] rest[j].dependencies).contains(items[k].id) by {
        lemma_without_text(others[j].dependencies, items[k].id);
    }
    assert forall|j: int, d: Seq<char>| 0 <= j < rest.len() && d != items[k].id && others[j].dependencies.contains(d)
        implies #[trigger] rest[j].dependencies.contains(d) by {
        lemma_without_text(others[j].dependencies, items[k].id);
    }
}

proof fn lemma_digit_char(d: nat)
    requires
        d < 10,
    ensures
        is_digit(crate::text::digit_char(d)),
        digit_value(crate::text::digit_char(d)) == d,
{
}

proof fn lemma_decimal_digits(n: nat)
    ensures
        all_digits(decimal(n)),
        digits_value(decimal(n)) == n,
        decimal(n).len() > 0,
    decreases n,
{
    if n >= 10 {
        lemma_decimal_digits(n / 10);
        lemma_digit_char(n % 10);
        let s = decimal(n / 10);
        assert(decimal(n) == s.push(crate::text::digit_char(n % 10)));
        assert(s.push(crate::text::digit_char(n % 10)).drop_last() == s);
        assert forall|i: int| 0 <= i < decimal(n).len() implies is_digit(decimal(n)[i]) by {
            if i < s.len() {
                assert(decimal(n)[i] == s[i]);
            }
        }
        assert((n / 10) * 10 + n % 10 == n) by (nonlinear_arith);
        assert(s.push(crate::text::digit_char(n % 10)).last() == crate::text::digit_char(n % 10));
        assert(digits_value(decimal(n)) == digits_value(s) * 10 + digit_value(crate::text::digit_char(n % 10)));
    } else {
        lemma_digit_char(n);
        let one = seq![crate::text::digit_char(n)];
        assert(one.drop_last() =~= Seq::<char>::empty());
        assert(one.last() == crate::text::digit_char(n));
        assert(digits_value(one) == digits_value(one.drop_last()) * 10 + digit_value(one.last()));
    }
}

proof fn lemma_zeros_value(z: Seq<char>, s: Seq<char>)
    requires
        forall|i: int| 0 <= i < z.len() ==> z[i] == '0',
    ensures
        digits_value(z + s) == digits_value(s),
    decreases s.len(), z.len(),
{
    if s.len() > 0 {
        lemma_zeros_value(z, s.drop_last());
        assert((z + s).drop_last() =~= z + s.drop_last());
        assert((z + s).last() == s.last());
    } else {
        assert(z + s =~= z);
        if z.len() > 0 {
            lemma_zeros_value(z.drop_last(), s);
            assert(z.drop_last() + s =~= z.drop_last());
            assert(z.drop_last() == (z + s).drop_last());
        }
    }
}

proof fn lemma_next_number(n: nat)
    requires
        1 <= n <= u32::MAX,
    ensures
        parse_u32(zero_pad(decimal(n), 3)) == Some(n),
{
    lemma_decimal_digits(n);
    let d = decimal(n);
    let p = zero_pad(d, 3);
    if d.len() < 3 {
        let z = Seq::new((3 - d.len()) as nat, |i: int| '0');
        assert(p == z + d);
        lemma_zeros_value(z, d);
        assert(p[0] == '0');
        assert forall|i: int| 0 <= i < p.len() implies is_digit(p[i]) by {
            if i >= z.len() {
                assert(p[i] == d[i - z.len()]);
            }
        }
    } else {
        assert(p[0] == d[0]);
        assert(is_digit(d[0]));
    }
}

/// A new TODO's ID is used by no existing TODO.
pub proof fn next_id_is_fresh(items: Seq<TodoItemModel>)
    requires
        max_todo_number(items) < u32::MAX,
    ensures
        forall|i: int| 0 <= i < items.len() ==> #[trigger] items[i].id != next_id(items),
{
    let n = max_todo_number(items) + 1;
    lemma_next_number(n);
    let id = next_id(items);
    assert(id.subrange(0, 5) =~= todo_prefix());
    assert(id.subrange(5, id.len() as int) =~= zero_pad(decimal(n), 3));
    assert(todo_number(id) == Some(n));
    assert forall|i: int| 0 <= i < items.len() implies #[trigger] items[i].id != next_id(items) by {
        lemma_max_bounds(items, i);
    }
}

proof fn lemma_max_bounds(items: Seq<TodoItemModel>, i: int)
    requires
        0 <= i < items.len(),
    ensures
        todo_number(items[i].id) matches Some(m) ==> m <= max_todo_number(items),
    decreases items.len(),
{
    if i < items.len() - 1 {
        assert(items.drop_last()[i] == items[i]);
        lemma_max_bounds(items.drop_last(), i);
    }
}

} // verus!
