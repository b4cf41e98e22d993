//! What the library's operations are for, stated over their inputs and
//! results: the duplicate-ID report of TODO validation, the time a Codex
//! session was last seen, which legacy TODO lines migrate, the order of the
//! working history, and the scripts of `STARTUP.md`.

use vstd::prelude::*;
use crate::models::{TodoItemModel, WarningModel};
use crate::markdown::{dedup, lemma_dedup_contains};
use crate::todos::{cycle_warnings, dep_warnings, dep_warnings_of, id_warnings, item_ids, todo_warnings};
use crate::models::UnixMicros;
use crate::text::{is_ws, ltrim, rtrim, starts_with, trim};
use crate::migration::legacy_title;
use crate::models::{Minute, WorkHistoryEntryModel};
use crate::project_state::{entry_before, entry_pos_from, sort_entries};
use crate::text::{is_blank, join, split_on};
use crate::agent_instructions::{lemma_split_join, lines_free_of};
use crate::startup::finished_script;
use crate::codex_monitor::{
    CodexHookEvent, SessionModel, event_effect, event_initial_state, event_session, ingested, is_unlinked, kept_upto,
    lemma_kept_upto, lemma_session_index_range, older_count, pruned_away, seen, session_index, unlinked_count,
};

verus! {

// ---------------------------------------------------------------------------
// Duplicate TODO IDs

/// The warnings hold a duplicate-ID warning naming `x`.
pub open spec fn reports_duplicate(ws: Seq<WarningModel>, x: Seq<char>) -> bool {
    exists|k: int|
        0 <= k < ws.len() && #[trigger] ws[k].code == "duplicate_todo_id"@ && ws[k].message == "TODO ID is duplicated."@
            && ws[k].item_id == Some(x)
}

/// Two items of the list have the ID `x`.
pub open spec fn id_repeated(items: Seq<TodoItemModel>, x: Seq<char>) -> bool {
    exists|i: int, j: int| 0 <= i < j < items.len() && #[trigger] items[i].id == x && #[trigger] items[j].id == x
}

/// No warning has the duplicate-ID code.
pub open spec fn no_duplicate_code(ws: Seq<WarningModel>) -> bool {
    forall|k: int| 0 <= k < ws.len() ==> #[trigger] ws[k].code != "duplicate_todo_id"@
}

proof fn lemma_codes_differ()
    ensures
        "missing_dependency"@ != "duplicate_todo_id"@,
        "circular_dependency"@ != "duplicate_todo_id"@,
        "invalid_todo_id"@ != "duplicate_todo_id"@,
{
    reveal_strlit("missing_dependency");
    reveal_strlit("circular_dependency");
    reveal_strlit("invalid_todo_id");
    reveal_strlit("duplicate_todo_id");
    assert("missing_dependency"@[0] != "duplicate_todo_id"@[0]);
    assert("circular_dependency"@[0] != "duplicate_todo_id"@[0]);
}

proof fn lemma_dep_of_no_duplicate(ids: Seq<Seq<char>>, id: Seq<char>, deps: Seq<Seq<char>>)
    ensures
        no_duplicate_code(dep_warnings_of(ids, id, deps)),
    decreases deps.len(),
{
    lemma_codes_differ();
    if deps.len() > 0 {
        lemma_dep_of_no_duplicate(ids, id, deps.drop_last());
        let w = dep_warnings_of(ids, id, deps);
        let p = dep_warnings_of(ids, id, deps.drop_last());
        assert forall|k: int| 0 <= k < w.len() implies #[trigger] w[k].code != "duplicate_todo_id"@ by {
            if k < p.len() {
                assert(w[k] == p[k]);
            }
        }
    }
}

proof fn lemma_dep_no_duplicate(ids: Seq<Seq<char>>, items: Seq<TodoItemModel>)
    ensures
        no_duplicate_code(dep_warnings(ids, items)),
    decreases items.len(),
{
    if items.len() > 0 {
        lemma_dep_no_duplicate(ids, items.drop_last());
        lemma_dep_of_no_duplicate(ids, items.last().id, items.last().dependencies);
        let w = dep_warnings(ids, items);
        let p = dep_warnings(ids, items.drop_last());
        let q = dep_warnings_of(ids, items.last().id, items.last().dependencies);
        assert forall|k: int| 0 <= k < w.len() implies #[trigger] w[k].code != "duplicate_todo_id"@ by {
            if k < p.len() {
                assert(w[k] == p[k]);
            } else {
                assert(w[k] == q[k - p.len()]);
            }
        }
    }
}

proof fn lemma_cycle_no_duplicate(all: Seq<TodoItemModel>, items: Seq<TodoItemModel>)
    ensures
        no_duplicate_code(cycle_warnings(all, items)),
    decreases items.len(),
{
    lemma_codes_differ();
    if items.len() > 0 {
        lemma_cycle_no_duplicate(all, items.drop_last());
        let w = cycle_warnings(all, items);
        let p = cycle_warnings(all, items.drop_last());
        assert forall|k: int| 0 <= k < w.len() implies #[trigger] w[k].code != "duplicate_todo_id"@ by {
            if k < p.len() {
                assert(w[k] == p[k]);
            }
        }
    }
}

proof fn lemma_id_warnings_duplicates(items: Seq<TodoItemModel>, x: Seq<char>)
    ensures
        reports_duplicate(id_warnings(items), x) <==> id_repeated(items, x),
    decreases items.len(),
{
    lemma_codes_differ();
    if items.len() > 0 {
        let d = items.drop_last();
        let it = items.last();
        lemma_id_warnings_duplicates(d, x);
        let p = id_warnings(d);
        let inv: Seq<WarningModel> = if !crate::todos::is_todo_id(it.id) {
            seq![crate::markdown::warning_model("invalid_todo_id"@, "TODO ID must use the form TODO-NNN."@, Some(it.id))]
        } else {
            Seq::<WarningModel>::empty()
        };
        let dup: Seq<WarningModel> = if item_ids(d).contains(it.id) {
            seq![crate::markdown::warning_model("duplicate_todo_id"@, "TODO ID is duplicated."@, Some(it.id))]
        } else {
            Seq::<WarningModel>::empty()
        };
        let w = id_warnings(items);
        assert(w == p + inv + dup);
        if reports_duplicate(w, x) {
            let k = choose|k: int|
                0 <= k < w.len() && #[trigger] w[k].code == "duplicate_todo_id"@ && w[k].message == "TODO ID is duplicated."@
                    && w[k].item_id == Some(x);
            if k < p.len() {
                assert(w[k] == p[k]);
                assert(reports_duplicate(p, x));
                let (i, j) = choose|i: int, j: int| 0 <= i < j < d.len() && #[trigger] d[i].id == x && #[trigger] d[j].id == x;
                assert(items[i] == d[i] && items[j] == d[j]);
                assert(id_repeated(items, x));
            } else if k < p.len() + inv.len() {
                assert(w[k] == inv[k - p.len()]);
                assert(false);
            } else {
                assert(w[k] == dup[k - p.len() - inv.len()]);
                assert(x == it.id);
                let i = choose|i: int| 0 <= i < item_ids(d).len() && item_ids(d)[i] == it.id;
                assert(item_ids(d)[i] == d[i].id);
                assert(items[i] == d[i]);
                assert(items[items.len() - 1].id == x);
                assert(id_repeated(items, x));
            }
        }
        if id_repeated(items, x) {
            let (i, j) = choose|i: int, j: int| 0 <= i < j < items.len() && #[trigger] items[i].id == x && #[trigger] items[j].id == x;
            if j < items.len() - 1 {
                assert(d[i] == items[i] && d[j] == items[j]);
                assert(id_repeated(d, x));
                let k = choose|k: int|
                    0 <= k < p.len() && #[trigger] p[k].code == "duplicate_todo_id"@ && p[k].message == "TODO ID is duplicated."@
                        && p[k].item_id == Some(x);
                assert(w[k] == p[k]);
                assert(reports_duplicate(w, x));
            } else {
                assert(it.id == x);
                assert(d[i] == items[i]);
                assert(item_ids(d)[i] == d[i].id);
                assert(item_ids(d).contains(it.id));
                assert(dup.len() == 1);
                let k: int = (p.len() + inv.len()) as int;
                assert(w[k] == dup[0]);
                assert(w[k].code == "duplicate_todo_id"@ && w[k].message == "TODO ID is duplicated."@
                    && w[k].item_id == Some(x));
                assert(reports_duplicate(w, x));
            }
        }
    }
}

/// TODO validation reports a duplicated ID exactly when two items share it:
/// a `duplicate_todo_id` warning, "TODO ID is duplicated.", naming `x` is
/// among the warnings if and only if two items of the list have the ID `x`.
pub proof fn duplicate_ids_are_reported_exactly(items: Seq<TodoItemModel>, x: Seq<char>)
    ensures
        reports_duplicate(todo_warnings(items), x) <==> id_repeated(items, x),
{
    let a = id_warnings(items);
    let b = dep_warnings(item_ids(items), items);
    let c = cycle_warnings(items, items);
    let all = a + b + c;
    lemma_id_warnings_duplicates(items, x);
    lemma_dep_no_duplicate(item_ids(items), items);
    lemma_cycle_no_duplicate(items, items);
    assert(todo_warnings(items) == dedup(all));
    let w = dedup(all);
    if reports_duplicate(w, x) {
        let k = choose|k: int|
            0 <= k < w.len() && #[trigger] w[k].code == "duplicate_todo_id"@ && w[k].message == "TODO ID is duplicated."@
                && w[k].item_id == Some(x);
        lemma_dedup_contains(all, w[k]);
        assert(w.contains(w[k]));
        let m = choose|m: int| 0 <= m < all.len() && all[m] == w[k];
        if m < a.len() {
            assert(all[m] == a[m]);
            assert(reports_duplicate(a, x));
        } else if m < a.len() + b.len() {
            assert(all[m] == b[m - a.len()]);
        } else {
            assert(all[m] == c[m - a.len() - b.len()]);
        }
    }
    if id_repeated(items, x) {
        let k = choose|k: int|
            0 <= k < a.len() && #[trigger] a[k].code == "duplicate_todo_id"@ && a[k].message == "TODO ID is duplicated."@
                && a[k].item_id == Some(x);
        assert(all[k] == a[k]);
        assert(all.contains(a[k]));
        lemma_dedup_contains(all, a[k]);
        let n = choose|n: int| 0 <= n < w.len() && w[n] == a[k];
        assert(w[n].code == "duplicate_todo_id"@);
    }
}

// ---------------------------------------------------------------------------
// Codex sessions: the time a session was last seen

/// No two sessions share an ID.
pub open spec fn session_ids_distinct(ss: Seq<SessionModel>) -> bool {
    forall|i: int, j: int| #![trigger ss[i], ss[j]] 0 <= i < j < ss.len() ==> ss[i].session_id != ss[j].session_id
}

proof fn lemma_session_index_found(ss: Seq<SessionModel>, id: Seq<char>, i: int)
    requires
        0 <= i,
    ensures
        session_index(ss, id, i) matches Some(k) ==> ss[k].session_id == id,
        session_index(ss, id, i) is None ==> forall|m: int| i <= m < ss.len() ==> #[trigger] ss[m].session_id != id,
    decreases ss.len() - i,
{
    if i < ss.len() && ss[i].session_id != id {
        lemma_session_index_found(ss, id, i + 1);
    }
}

proof fn lemma_effect_keeps_identity(e: CodexHookEvent, s: SessionModel, now: UnixMicros)
    ensures
        event_effect(e, s, now).session_id == s.session_id,
        event_effect(e, s, now).last_seen_at == s.last_seen_at,
{
}

proof fn lemma_kept_distinct(ss: Seq<SessionModel>, n: int)
    requires
        session_ids_distinct(ss),
        0 <= n <= ss.len(),
    ensures
        session_ids_distinct(kept_upto(ss, n)),
    decreases n,
{
    if n > 0 {
        lemma_kept_distinct(ss, n - 1);
        lemma_kept_upto(ss, n - 1);
        let prev = kept_upto(ss, n - 1);
        let cur = kept_upto(ss, n);
        assert forall|i: int, j: int| #![trigger cur[i], cur[j]] 0 <= i < j < cur.len()
            implies cur[i].session_id != cur[j].session_id by {
            if j < prev.len() {
                assert(cur[i] == prev[i] && cur[j] == prev[j]);
            } else {
                assert(cur[i] == prev[i]);
                assert(cur[j] == ss[n - 1]);
                let m = choose|m: int| 0 <= m < n - 1 && #[trigger] prev[i] == ss[m];
                assert(ss[m].session_id != ss[n - 1].session_id);
            }
        }
    }
}

proof fn lemma_older_than_newest(ss: Seq<SessionModel>, i: int, n: int)
    requires
        0 <= i < ss.len(),
        0 <= n <= ss.len(),
        forall|j: int| 0 <= j < ss.len() && j != i ==> #[trigger] ss[j].last_seen_at < ss[i].last_seen_at,
    ensures
        older_count(ss, i, n) + (if i < n && is_unlinked(ss[i]) { 1int } else { 0int }) == unlinked_count(ss, n),
    decreases n,
{
    if n > 0 {
        lemma_older_than_newest(ss, i, n - 1);
        if n - 1 != i {
            assert(ss[n - 1].last_seen_at < ss[i].last_seen_at);
        }
    }
}

proof fn lemma_kept_contains(ss: Seq<SessionModel>, n: int, i: int)
    requires
        0 <= i < n <= ss.len(),
        !pruned_away(ss, i),
    ensures
        kept_upto(ss, n).contains(ss[i]),
    decreases n,
{
    let cur = kept_upto(ss, n);
    if i < n - 1 {
        lemma_kept_contains(ss, n - 1, i);
        let prev = kept_upto(ss, n - 1);
        let j = choose|j: int| 0 <= j < prev.len() && prev[j] == ss[i];
        if !pruned_away(ss, n - 1) {
            assert(cur[j] == prev[j]);
        }
    } else {
        assert(cur[cur.len() - 1] == ss[i]);
    }
}

/// An accepted event marks its session as seen at the time it was observed:
/// in the sessions after the event, the session with the event's ID (which
/// may have been there before or be new) was last seen at `now`, and no two
/// sessions share an ID. When `now` is later than every session was last
/// seen, that session is the newest and pruning keeps it.
pub proof fn ingest_marks_the_session_seen_now(ss: Seq<SessionModel>, e: CodexHookEvent, now: UnixMicros)
    requires
        session_ids_distinct(ss),
    ensures
        session_ids_distinct(ingested(ss, e, now)),
        forall|j: int| 0 <= j < ingested(ss, e, now).len() && #[trigger] ingested(ss, e, now)[j].session_id == event_session(e).0
            ==> ingested(ss, e, now)[j].last_seen_at == now,
        (forall|i: int| 0 <= i < ss.len() ==> #[trigger] ss[i].last_seen_at < now) ==> exists|j: int|
            0 <= j < ingested(ss, e, now).len() && #[trigger] ingested(ss, e, now)[j].session_id == event_session(e).0,
{
    let (id, cwd) = event_session(e);
    let (ss1, k) = seen(ss, id, cwd, now, event_initial_state(e));
    lemma_session_index_range(ss, id, 0);
    lemma_session_index_found(ss, id, 0);
    assert(0 <= k < ss1.len());
    assert(ss1[k].session_id == id && ss1[k].last_seen_at == now);
    assert forall|i: int| 0 <= i < ss1.len() && i != k implies #[trigger] ss1[i].session_id != id by {
        assert(ss1[i] == ss[i]);
        if session_index(ss, id, 0) is None {
        } else {
            if i < k {
                assert(ss[i].session_id != ss[k].session_id);
            } else {
                assert(ss[k].session_id != ss[i].session_id);
            }
        }
    }
    lemma_effect_keeps_identity(e, ss1[k], now);
    let ss2 = ss1.update(k, event_effect(e, ss1[k], now));
    assert(ss2[k].session_id == id && ss2[k].last_seen_at == now);
    assert forall|i: int, j: int| #![trigger ss2[i], ss2[j]] 0 <= i < j < ss2.len()
        implies ss2[i].session_id != ss2[j].session_id by {
        if i == k || j == k {
        } else {
            assert(ss2[i] == ss1[i] && ss2[j] == ss1[j]);
            if j < ss.len() {
                assert(ss1[i] == ss[i] && ss1[j] == ss[j]);
            }
        }
    }
    assert(session_ids_distinct(ss2));
    lemma_kept_distinct(ss2, ss2.len() as int);
    lemma_kept_upto(ss2, ss2.len() as int);
    let r = kept_upto(ss2, ss2.len() as int);
    assert(r == ingested(ss, e, now));
    assert forall|j: int| 0 <= j < r.len() && #[trigger] r[j].session_id == id implies r[j].last_seen_at == now by {
        let i = choose|i: int| 0 <= i < ss2.len() && #[trigger] r[j] == ss2[i];
        if i != k {
            assert(ss2[i] == ss1[i]);
        }
    }
    if forall|i: int| 0 <= i < ss.len() ==> #[trigger] ss[i].last_seen_at < now {
        assert forall|j: int| 0 <= j < ss2.len() && j != k implies #[trigger] ss2[j].last_seen_at < ss2[k].last_seen_at by {
            assert(ss2[j] == ss1[j]);
            assert(ss1[j] == ss[j]);
        }
        let n = ss2.len() as int;
        if is_unlinked(ss2[k]) {
            lemma_older_than_newest(ss2, k, n);
            assert(!pruned_away(ss2, k));
            lemma_kept_contains(ss2, n, k);
        } else {
            assert(r.contains(ss2[k]));
        }
        let j = choose|j: int| 0 <= j < r.len() && r[j] == ss2[k];
        assert(r[j].session_id == id);
    }
}

// ---------------------------------------------------------------------------
// Legacy TODO lines

proof fn lemma_ltrim_indent(ind: Seq<char>, s: Seq<char>)
    requires
        forall|i: int| 0 <= i < ind.len() ==> is_ws(#[trigger] ind[i]),
        s.len() > 0,
        !is_ws(s[0]),
    ensures
        ltrim(ind + s) == s,
    decreases ind.len(),
{
    if ind.len() == 0 {
        assert(ind + s =~= s);
    } else {
        assert((ind + s).drop_first() =~= ind.drop_first() + s);
        assert((ind + s)[0] == ind[0]);
        lemma_ltrim_indent(ind.drop_first(), s);
    }
}

proof fn lemma_rtrim_keeps(s: Seq<char>, m: int)
    requires
        0 <= m < s.len(),
        !is_ws(s[m]),
    ensures
        m < rtrim(s).len() <= s.len(),
        rtrim(s) == s.subrange(0, rtrim(s).len() as int),
    decreases s.len(),
{
    if s.len() > 0 && is_ws(s.last()) {
        assert(m < s.len() - 1);
        lemma_rtrim_keeps(s.drop_last(), m);
        let r = rtrim(s.drop_last());
        assert(r == rtrim(s));
        assert(s.drop_last().subrange(0, r.len() as int) =~= s.subrange(0, r.len() as int));
    } else {
        assert(s.subrange(0, s.len() as int) =~= s);
    }
}

/// Only open checklist items and numbered headings migrate: a line whose
/// trimmed text starts neither with `- [ ]` nor with `## ` gives no legacy
/// TODO title.
pub proof fn only_open_items_and_headings_migrate(line: Seq<char>)
    ensures
        !starts_with(trim(line), "- [ ]"@) && !starts_with(trim(line), "## "@) ==> legacy_title(line) is None,
{
}

/// A checked checklist item is finished work and does not migrate: a line
/// made of indentation, `- [`, a mark other than a space, `]` and any rest,
/// such as `- [x] Ship login`, gives no legacy TODO title.
pub proof fn checked_items_do_not_migrate(indent: Seq<char>, mark: char, rest: Seq<char>)
    requires
        forall|i: int| 0 <= i < indent.len() ==> is_ws(#[trigger] indent[i]),
        mark != ' ',
    ensures
        legacy_title(indent + "- ["@ + seq![mark] + "]"@ + rest) is None,
{
    reveal_strlit("- [");
    reveal_strlit("]");
    reveal_strlit("- [ ]");
    reveal_strlit("## ");
    let item = "- ["@ + seq![mark] + "]"@ + rest;
    let line = indent + "- ["@ + seq![mark] + "]"@ + rest;
    assert(line =~= indent + item);
    assert(item[0] == '-' && item[3] == mark && item[4] == ']');
    lemma_ltrim_indent(indent, item);
    lemma_rtrim_keeps(item, 4);
    let t = trim(line);
    assert(t == rtrim(item));
    assert(t.len() >= 5);
    assert(t[0] == item[0] && t[3] == item[3]);
    assert(t.subrange(0, 5)[3] != "- [ ]"@[3]);
    assert(t.subrange(0, 3)[0] != "## "@[0]);
    assert(!starts_with(t, "- [ ]"@));
    assert(!starts_with(t, "## "@));
}

// ---------------------------------------------------------------------------
// The working history, newest first

/// Each entry happened no later than every entry before it.
pub open spec fn newest_first(r: Seq<WorkHistoryEntryModel>) -> bool {
    forall|i: int, j: int| #![trigger r[i], r[j]] 0 <= i < j < r.len() ==> !r[i].occurred_at.spec_lt(r[j].occurred_at)
}

proof fn lemma_not_later_trans(a: Minute, b: Minute, c: Minute)
    requires
        !a.spec_lt(b),
        !b.spec_lt(c),
    ensures
        !a.spec_lt(c),
{
}

proof fn lemma_entry_pos_bounds(sorted: Seq<WorkHistoryEntryModel>, x: WorkHistoryEntryModel, i: int)
    requires
        0 <= i <= sorted.len(),
    ensures
        i <= entry_pos_from(sorted, x, i) <= sorted.len(),
        forall|m: int| i <= m < entry_pos_from(sorted, x, i) ==> !entry_before(x, #[trigger] sorted[m]),
        entry_pos_from(sorted, x, i) < sorted.len() ==> entry_before(x, sorted[entry_pos_from(sorted, x, i)]),
    decreases sorted.len() - i,
{
    if i < sorted.len() && !entry_before(x, sorted[i]) {
        lemma_entry_pos_bounds(sorted, x, i + 1);
    }
}

/// The working history is shown newest first: in the display order of any
/// list of entries, no entry happened later than one shown before it, and
/// the display order holds exactly the entries it was given.
pub proof fn history_is_shown_newest_first(s: Seq<WorkHistoryEntryModel>)
    ensures
        newest_first(sort_entries(s)),
        sort_entries(s).to_multiset() == s.to_multiset(),
    decreases s.len(),
{
    if s.len() > 0 {
        let d = s.drop_last();
        let x = s.last();
        history_is_shown_newest_first(d);
        let sorted = sort_entries(d);
        lemma_entry_pos_bounds(sorted, x, 0);
        let p = entry_pos_from(sorted, x, 0);
        let r = sorted.insert(p, x);
        assert(r == sort_entries(s));
        assert forall|i: int, j: int| #![trigger r[i], r[j]] 0 <= i < j < r.len()
            implies !r[i].occurred_at.spec_lt(r[j].occurred_at) by {
            if j < p {
                assert(r[i] == sorted[i] && r[j] == sorted[j]);
            } else if j == p {
                assert(r[i] == sorted[i]);
                assert(!entry_before(x, sorted[i]));
            } else if i < p {
                assert(r[i] == sorted[i] && r[j] == sorted[j - 1]);
            } else if i == p {
                assert(r[j] == sorted[j - 1]);
                assert(entry_before(x, sorted[p]));
                assert(!x.occurred_at.spec_lt(sorted[p].occurred_at));
                if p < j - 1 {
                    assert(!sorted[p].occurred_at.spec_lt(sorted[j - 1].occurred_at));
                    lemma_not_later_trans(x.occurred_at, sorted[p].occurred_at, sorted[j - 1].occurred_at);
                }
            } else {
                assert(r[i] == sorted[i - 1] && r[j] == sorted[j - 1]);
            }
        }
        vstd::seq_lib::to_multiset_insert(sorted, p, x);
        vstd::seq_lib::to_multiset_build(d, x);
        assert(d.push(x) == s);
    }
}

// ---------------------------------------------------------------------------
// Scripts of STARTUP.md

proof fn lemma_all_ws_is_blank(s: Seq<char>)
    requires
        forall|i: int| 0 <= i < s.len() ==> is_ws(#[trigger] s[i]),
    ensures
        is_blank(s),
    decreases s.len(),
{
    if s.len() > 0 {
        assert(is_ws(s[0]));
        lemma_all_ws_is_blank(s.drop_first());
        assert(ltrim(s) == ltrim(s.drop_first()));
    }
}

proof fn lemma_visible_char_not_blank(s: Seq<char>, m: int)
    requires
        0 <= m < s.len(),
        !is_ws(s[m]),
    ensures
        !is_blank(s),
    decreases s.len(),
{
    if is_ws(s[0]) {
        assert(m > 0);
        lemma_visible_char_not_blank(s.drop_first(), m - 1);
        assert(ltrim(s) == ltrim(s.drop_first()));
    } else {
        assert(ltrim(s) == s);
        lemma_rtrim_keeps(s, m);
    }
}

proof fn lemma_join_holds_piece(q: Seq<Seq<char>>, sep: Seq<char>, i: int) -> (off: int)
    requires
        0 <= i < q.len(),
    ensures
        0 <= off,
        off + q[i].len() <= join(q, sep).len(),
        forall|t: int| 0 <= t < q[i].len() ==> join(q, sep)[off + t] == #[trigger] q[i][t],
    decreases q.len(),
{
    if q.len() == 1 {
        0
    } else {
        let prev = join(q.drop_last(), sep);
        assert(join(q, sep) == prev + sep + q.last());
        if i < q.len() - 1 {
            let o = lemma_join_holds_piece(q.drop_last(), sep, i);
            assert(q.drop_last()[i] == q[i]);
            o
        } else {
            (prev.len() + sep.len()) as int
        }
    }
}

/// The script taken from a PowerShell fence is its lines joined with line
/// breaks: when at least one of the fence's lines is not blank, one script
/// is added, and splitting it at `\n` gives back exactly the fence's lines.
pub proof fn fence_script_keeps_its_lines(scripts: Seq<Seq<char>>, script_lines: Seq<Seq<char>>)
    requires
        lines_free_of(script_lines, '\n'),
        exists|i: int| 0 <= i < script_lines.len() && !is_blank(#[trigger] script_lines[i]),
    ensures
        finished_script(scripts, script_lines).len() == scripts.len() + 1,
        finished_script(scripts, script_lines).drop_last() == scripts,
        split_on(finished_script(scripts, script_lines).last(), '\n') == script_lines,
{
    let i = choose|i: int| 0 <= i < script_lines.len() && !is_blank(#[trigger] script_lines[i]);
    let line = script_lines[i];
    if forall|m: int| 0 <= m < line.len() ==> is_ws(#[trigger] line[m]) {
        lemma_all_ws_is_blank(line);
    }
    let m = choose|m: int| 0 <= m < line.len() && !is_ws(#[trigger] line[m]);
    let script = join(script_lines, "\n"@);
    let off = lemma_join_holds_piece(script_lines, "\n"@, i);
    assert(script[off + m] == line[m]);
    lemma_visible_char_not_blank(script, off + m);
    assert(finished_script(scripts, script_lines) == scripts.push(script));
    lemma_split_join(script_lines);
}

} // verus!
