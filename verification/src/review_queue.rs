//! The review queue. Work that an agent reports as done does not reach the
//! project's Markdown files directly: it waits here as a proposal until a
//! person approves it (and the files are written) or rejects it (and nothing
//! is written).

use vstd::prelude::*;
use crate::text::{lit, string_of};
use crate::models::{
    proposal_views, AddWorkHistoryInput, CompleteTodoInput, CompleteTodoResult, CompletionProposal,
    Minute, ProposalKind, ProposalModel, TodoItemModel, UnixMicros, WorkHistoryEntryModel,
};
use crate::project_state::{
    add_history_outcome, approval_outcome, complete_outcome, history_approval_outcome,
    history_input_refusal, complete_input_refusal, ProjectStateError, ProjectStateService,
};

verus! {

/// The proposals that wait for a decision, oldest first.
pub struct ReviewQueue {
    pub proposals: Vec<CompletionProposal>,
}

impl View for ReviewQueue {
    type V = Seq<ProposalModel>;

    open spec fn view(&self) -> Seq<ProposalModel> {
        proposal_views(self.proposals@)
    }
}

/// The proposals of one project, in queue order.
pub open spec fn pending_of(s: Seq<ProposalModel>, project_id: u128) -> Seq<ProposalModel>
    decreases s.len(),
{
    if s.len() == 0 {
        Seq::empty()
    } else {
        let rest = pending_of(s.drop_last(), project_id);
        if s.last().project_id == project_id {
            rest.push(s.last())
        } else {
            rest
        }
    }
}

/// The first position, from `i` on, of proposal `proposal_id` of project
/// `project_id`.
pub open spec fn position_from(s: Seq<ProposalModel>, project_id: u128, proposal_id: u128, i: int) -> Option<int>
    decreases s.len() - i,
{
    if i < 0 || i >= s.len() {
        None
    } else if s[i].project_id == project_id && s[i].id == proposal_id {
        Some(i)
    } else {
        position_from(s, project_id, proposal_id, i + 1)
    }
}

pub open spec fn position_of(s: Seq<ProposalModel>, project_id: u128, proposal_id: u128) -> Option<int> {
    position_from(s, project_id, proposal_id, 0)
}

pub open spec fn unknown_proposal_message() -> Seq<char> {
    "Unknown review proposal"@
}

/// The proposal an agent's TODO completion becomes.
pub open spec fn completion_proposal(
    proposal_id: u128,
    project_id: u128,
    requested_at: UnixMicros,
    todo: TodoItemModel,
    entry: WorkHistoryEntryModel,
) -> ProposalModel {
    ProposalModel {
        id: proposal_id,
        project_id,
        requested_at,
        kind: ProposalKind::TodoCompletion,
        todo: Some(todo),
        proposed_entry: entry,
    }
}

/// The proposal an agent's standalone history entry becomes.
pub open spec fn history_proposal(
    proposal_id: u128,
    project_id: u128,
    requested_at: UnixMicros,
    entry: WorkHistoryEntryModel,
) -> ProposalModel {
    ProposalModel {
        id: proposal_id,
        project_id,
        requested_at,
        kind: ProposalKind::WorkHistory,
        todo: None,
        proposed_entry: entry,
    }
}

/// Whether approving `p` removes a TODO (rather than only appending history).
pub open spec fn removes_todo(p: ProposalModel) -> bool {
    p.kind == ProposalKind::TodoCompletion && p.todo is Some
}

fn unknown_proposal() -> (e: ProjectStateError)
    ensures
        e.is_validation(unknown_proposal_message()),
{
    ProjectStateError::Validation(string_of(&lit("Unknown review proposal")))
}

/// No two proposals share a project and an id.
pub open spec fn keys_unique(s: Seq<ProposalModel>) -> bool {
    forall|i: int, j: int|
        0 <= i < j < s.len() ==> !(#[trigger] s[i].project_id == #[trigger] s[j].project_id && s[i].id == s[j].id)
}

proof fn lemma_position_from(s: Seq<ProposalModel>, project_id: u128, proposal_id: u128, i: int)
    requires
        0 <= i,
    ensures
        match position_from(s, project_id, proposal_id, i) {
            Some(k) => i <= k < s.len() && s[k].project_id == project_id && s[k].id == proposal_id,
            None => forall|j: int| i <= j < s.len() ==> !(#[trigger] s[j].project_id == project_id && s[j].id == proposal_id),
        },
    decreases s.len() - i,
{
    if i < s.len() {
        lemma_position_from(s, project_id, proposal_id, i + 1);
        if position_from(s, project_id, proposal_id, i) is None {
            assert forall|j: int| i <= j < s.len() implies !(#[trigger] s[j].project_id == project_id && s[j].id == proposal_id) by {
                if j > i {
                }
            }
        }
    }
}

/// Once a proposal is approved or rejected it is gone: where no two
/// proposals share a project and an id, the queue left by the decision holds
/// no proposal that a second decision could find.
pub proof fn decided_proposal_is_gone(s: Seq<ProposalModel>, project_id: u128, proposal_id: u128)
    requires
        keys_unique(s),
        position_of(s, project_id, proposal_id) is Some,
    ensures
        position_of(s.remove(position_of(s, project_id, proposal_id).unwrap()), project_id, proposal_id) is None,
{
    let k = position_of(s, project_id, proposal_id).unwrap();
    lemma_position_from(s, project_id, proposal_id, 0);
    let t = s.remove(k);
    lemma_position_from(t, project_id, proposal_id, 0);
    match position_of(t, project_id, proposal_id) {
        None => {},
        Some(m) => {
            if m < k {
                assert(t[m] == s[m]);
                assert(!(s[m].project_id == s[k].project_id && s[m].id == s[k].id));
            } else {
                assert(t[m] == s[m + 1]);
                assert(!(s[k].project_id == s[m + 1].project_id && s[k].id == s[m + 1].id));
            }
        },
    }
}

/// Proposing adds the proposal at the end of its project's pending list and
/// leaves every other project's list as it was.
pub proof fn proposing_extends_only_its_project(s: Seq<ProposalModel>, p: ProposalModel, project_id: u128)
    ensures
        pending_of(s.push(p), project_id) == (if p.project_id == project_id {
            pending_of(s, project_id).push(p)
        } else {
            pending_of(s, project_id)
        }),
{
    assert(s.push(p).drop_last() =~= s);
}

impl ReviewQueue {
    pub fn new() -> (q: ReviewQueue)
        ensures
            q@ == Seq::<ProposalModel>::empty(),
    {
        ReviewQueue { proposals: Vec::new() }
    }

    /// A queue holding the proposals read back from storage, in their order.
    pub fn from_proposals(proposals: Vec<CompletionProposal>) -> (q: ReviewQueue)
        ensures
            q@ == proposal_views(proposals@),
    {
        ReviewQueue { proposals }
    }

    fn find(&self, project_id: u128, proposal_id: u128) -> (r: Option<usize>)
        ensures
            match r {
                Some(k) => k < self@.len() && position_of(self@, project_id, proposal_id) == Some(k as int),
                None => position_of(self@, project_id, proposal_id) is None,
            },
    {
        let ghost s = self@;
        let mut i: usize = 0;
        while i < self.proposals.len()
            invariant
                i <= self.proposals@.len(),
                s == proposal_views(self.proposals@),
                position_from(s, project_id, proposal_id, i as int) == position_from(s, project_id, proposal_id, 0),
            decreases self.proposals@.len() - i,
        {
            assert(s[i as int] == self.proposals@[i as int]@);
            if self.proposals[i].project_id == project_id && self.proposals[i].id == proposal_id {
                return Some(i);
            }
            i += 1;
        }
        None
    }

    /// The proposals of `project_id` that wait for a decision, oldest first.
    pub fn pending_reviews(&self, project_id: u128) -> (r: Vec<CompletionProposal>)
        ensures
            proposal_views(r@) == pending_of(self@, project_id),
    {
        let ghost s = self@;
        let mut out: Vec<CompletionProposal> = Vec::new();
        let mut i: usize = 0;
        while i < self.proposals.len()
            invariant
                i <= self.proposals@.len(),
                s == proposal_views(self.proposals@),
                proposal_views(out@) == pending_of(s.subrange(0, i as int), project_id),
            decreases self.proposals@.len() - i,
        {
            assert(s.subrange(0, i + 1).drop_last() =~= s.subrange(0, i as int));
            assert(s.subrange(0, i + 1).last() == self.proposals@[i as int]@);
            if self.proposals[i].project_id == project_id {
                let ghost before = proposal_views(out@);
                out.push(self.proposals[i].duplicate());
                assert(proposal_views(out@) =~= before.push(self.proposals@[i as int]@));
            }
            i += 1;
        }
        assert(s.subrange(0, s.len() as int) =~= s);
        out
    }

    /// Queues an agent's completion of TODO `todo_id` without touching the
    /// files: the completion is checked against the current texts as a direct
    /// completion would be, and the TODO as it stands and the history entry
    /// it would add are kept for review.
    pub fn propose_completion(
        &mut self,
        service: &ProjectStateService,
        proposal_id: u128,
        project_id: u128,
        requested_at: UnixMicros,
        todo_text: &str,
        history_text: &str,
        todo_id: &str,
        input: CompleteTodoInput,
        now: Minute,
    ) -> (r: Result<CompletionProposal, ProjectStateError>)
        requires
            complete_input_refusal(todo_id@, input) is None ==> crate::history::history_cuts_ok(history_text@),
        ensures
            match r {
                Ok(p) => {
                    &&& complete_outcome(todo_text@, history_text@, todo_id@, input, now) is Ok
                    &&& p@ == completion_proposal(
                        proposal_id,
                        project_id,
                        requested_at,
                        complete_outcome(todo_text@, history_text@, todo_id@, input, now)->Ok_0.0,
                        complete_outcome(todo_text@, history_text@, todo_id@, input, now)->Ok_0.1,
                    )
                    &&& final(self)@ == old(self)@.push(p@)
                },
                Err(e) => {
                    &&& complete_outcome(todo_text@, history_text@, todo_id@, input, now) is Err
                    &&& e.is_validation(complete_outcome(todo_text@, history_text@, todo_id@, input, now)->Err_0)
                    &&& final(self)@ == old(self)@
                },
            },
    {
        match service.complete_todo(todo_text, history_text, todo_id, input, now) {
            Err(e) => Err(e),
            Ok((result, _todos, _history)) => {
                let todo = match result.completed_todo {
                    Some(t) => t,
                    None => { return Err(unknown_proposal()); },
                };
                let proposal = CompletionProposal {
                    id: proposal_id,
                    project_id,
                    requested_at,
                    kind: ProposalKind::TodoCompletion,
                    todo: Some(todo),
                    proposed_entry: result.history_entry,
                };
                let ghost before = self@;
                self.proposals.push(proposal.duplicate());
                assert(self@ =~= before.push(proposal@));
                Ok(proposal)
            },
        }
    }

    /// Queues an agent's standalone history entry without touching the files;
    /// the entry is checked as recording it directly would check it.
    pub fn propose_history(
        &mut self,
        service: &ProjectStateService,
        proposal_id: u128,
        project_id: u128,
        requested_at: UnixMicros,
        history_text: &str,
        input: AddWorkHistoryInput,
        now: Minute,
    ) -> (r: Result<CompletionProposal, ProjectStateError>)
        requires
            history_input_refusal(input) is None ==> crate::history::history_cuts_ok(history_text@),
        ensures
            match r {
                Ok(p) => {
                    &&& add_history_outcome(history_text@, input, now) is Ok
                    &&& p@ == history_proposal(
                        proposal_id,
                        project_id,
                        requested_at,
                        add_history_outcome(history_text@, input, now)->Ok_0.0,
                    )
                    &&& final(self)@ == old(self)@.push(p@)
                },
                Err(e) => {
                    &&& add_history_outcome(history_text@, input, now) is Err
                    &&& e.is_validation(add_history_outcome(history_text@, input, now)->Err_0)
                    &&& final(self)@ == old(self)@
                },
            },
    {
        match service.add_work_history(history_text, input, now) {
            Err(e) => Err(e),
            Ok((entry, _text)) => {
                let proposal = CompletionProposal {
                    id: proposal_id,
                    project_id,
                    requested_at,
                    kind: ProposalKind::WorkHistory,
                    todo: None,
                    proposed_entry: entry,
                };
                let ghost before = self@;
                self.proposals.push(proposal.duplicate());
                assert(self@ =~= before.push(proposal@));
                Ok(proposal)
            },
        }
    }

    /// Approves proposal `proposal_id` of `project_id` against the current
    /// texts. A TODO completion removes the live TODO, releases it from the
    /// other TODOs' dependencies and appends the proposed entry; standalone
    /// history only appends the entry. On success the proposal leaves the
    /// queue and the new `TODO.md` text (none when it is unchanged) and
    /// `WORK_HISTORY.md` text are returned; on failure the queue is unchanged.
    pub fn approve(
        &mut self,
        service: &ProjectStateService,
        project_id: u128,
        proposal_id: u128,
        todo_text: &str,
        history_text: &str,
    ) -> (r: Result<(CompleteTodoResult, Option<String>, String), ProjectStateError>)
        requires
            position_of(old(self)@, project_id, proposal_id) is Some ==> crate::history::history_cuts_ok(history_text@),
        ensures
            match position_of(old(self)@, project_id, proposal_id) {
                None => {
                    &&& r is Err
                    &&& r->Err_0.is_validation(unknown_proposal_message())
                    &&& final(self)@ == old(self)@
                },
                Some(k) => {
                    let p = old(self)@[k];
                    if removes_todo(p) {
                        let outcome = approval_outcome(todo_text@, history_text@, p.todo.unwrap().id, p.proposed_entry);
                        match r {
                            Ok((res, todos, history)) => {
                                &&& outcome is Ok
                                &&& res.completed_todo is Some
                                &&& res.completed_todo.unwrap()@ == outcome->Ok_0.0
                                &&& res.history_entry@ == p.proposed_entry
                                &&& todos is Some
                                &&& todos.unwrap()@ == outcome->Ok_0.1
                                &&& history@ == outcome->Ok_0.2
                                &&& final(self)@ == old(self)@.remove(k)
                            },
                            Err(e) => {
                                &&& outcome is Err
                                &&& e.is_validation(outcome->Err_0)
                                &&& final(self)@ == old(self)@
                            },
                        }
                    } else {
                        let outcome = history_approval_outcome(history_text@, p.proposed_entry);
                        match r {
                            Ok((res, todos, history)) => {
                                &&& outcome is Ok
                                &&& res.completed_todo is None
                                &&& res.history_entry@ == p.proposed_entry
                                &&& todos is None
                                &&& history@ == outcome->Ok_0
                                &&& final(self)@ == old(self)@.remove(k)
                            },
                            Err(e) => {
                                &&& outcome is Err
                                &&& e.is_validation(outcome->Err_0)
                                &&& final(self)@ == old(self)@
                            },
                        }
                    }
                },
            },
    {
        let k = match self.find(project_id, proposal_id) {
            None => { return Err(unknown_proposal()); },
            Some(k) => k,
        };
        let entry = self.proposals[k].proposed_entry.duplicate();
        let todo_id: Option<String> = match (&self.proposals[k].kind, &self.proposals[k].todo) {
            (ProposalKind::TodoCompletion, Some(t)) => Some(t.id.clone()),
            _ => None,
        };
        match todo_id {
            Some(id) => {
                match service.apply_completion(todo_text, history_text, id.as_str(), &entry) {
                    Err(e) => Err(e),
                    Ok((done, todos, history)) => {
                        let ghost before = self@;
                        let _approved = self.proposals.remove(k);
                        assert(self@ =~= before.remove(k as int));
                        Ok((CompleteTodoResult { completed_todo: Some(done), history_entry: entry }, Some(todos), history))
                    },
                }
            },
            None => {
                match service.apply_history(history_text, &entry) {
                    Err(e) => Err(e),
                    Ok(history) => {
                        let ghost before = self@;
                        let _approved = self.proposals.remove(k);
                        assert(self@ =~= before.remove(k as int));
                        Ok((CompleteTodoResult { completed_todo: None, history_entry: entry }, None, history))
                    },
                }
            },
        }
    }

    /// Rejects proposal `proposal_id` of `project_id`: it leaves the queue and
    /// is returned; no project text is involved.
    pub fn reject(&mut self, project_id: u128, proposal_id: u128) -> (r: Result<CompletionProposal, ProjectStateError>)
        ensures
            match position_of(old(self)@, project_id, proposal_id) {
                None => {
                    &&& r is Err
                    &&& r->Err_0.is_validation(unknown_proposal_message())
                    &&& final(self)@ == old(self)@
                },
                Some(k) => {
                    &&& r is Ok
                    &&& r->Ok_0@ == old(self)@[k]
                    &&& final(self)@ == old(self)@.remove(k)
                },
            },
    {
        match self.find(project_id, proposal_id) {
            None => Err(unknown_proposal()),
            Some(k) => {
                let ghost before = self@;
                let p = self.proposals.remove(k);
                assert(self@ =~= before.remove(k as int));
                Ok(p)
            },
        }
    }
}

} // verus!
