use projector::models::{
    AddWorkHistoryInput, CompleteTodoInput, Minute, ProposalKind, TodoDocument, TodoItem, TodoPriority,
    WorkCategory,
};
use projector::project_state::{ProjectStateError, ProjectStateService};
use projector::review_queue::ReviewQueue;
use projector::todos::render_todo_document;

const PROJECT: u128 = 7;
const OTHER_PROJECT: u128 = 8;

fn todo(id: &str, dependencies: &[&str]) -> TodoItem {
    TodoItem {
        id: id.into(),
        title: format!("Task {id}"),
        priority: TodoPriority::High,
        category: WorkCategory::Feature,
        area: "state".into(),
        dependencies: dependencies.iter().map(|value| value.to_string()).collect(),
        rationale: "Needed.".into(),
        acceptance_criteria: "Verified.".into(),
    }
}

fn todo_text(items: Vec<TodoItem>) -> String {
    render_todo_document(&TodoDocument { relative_path: None, items, warnings: Vec::new(), preserved_content: None })
}

fn minute() -> Minute {
    Minute { year: 2026, month: 7, day: 27, hour: 9, minute: 5 }
}

fn completion() -> CompleteTodoInput {
    CompleteTodoInput { summary: "Done.".into(), limitations: "None.".into() }
}

fn history_input() -> AddWorkHistoryInput {
    AddWorkHistoryInput {
        title: "Investigated sync".into(),
        category: WorkCategory::Research,
        area: "git".into(),
        summary: "Read the fetch code.".into(),
        limitations: "No changes made.".into(),
    }
}

fn validation_message(error: ProjectStateError) -> String {
    match error {
        ProjectStateError::Validation(message) => message,
        other => panic!("expected a validation error, got {other:?}"),
    }
}

#[test]
fn proposing_a_completion_keeps_the_todo_and_its_entry_for_review() {
    let service = ProjectStateService::default();
    let mut queue = ReviewQueue::new();
    let todos = todo_text(vec![todo("TODO-001", &[]), todo("TODO-002", &["TODO-001"])]);
    let proposal = queue
        .propose_completion(&service, 1, PROJECT, 1_000, &todos, "", "TODO-001", completion(), minute())
        .unwrap();
    assert_eq!(proposal.id, 1);
    assert_eq!(proposal.project_id, PROJECT);
    assert_eq!(proposal.requested_at, 1_000);
    assert_eq!(proposal.kind, ProposalKind::TodoCompletion);
    assert_eq!(proposal.todo.as_ref().unwrap().id, "TODO-001");
    assert_eq!(proposal.proposed_entry.title, "Task TODO-001");
    assert_eq!(proposal.proposed_entry.summary, "Done.");
    assert_eq!(proposal.proposed_entry.occurred_at, minute());
    let pending = queue.pending_reviews(PROJECT);
    assert_eq!(pending.len(), 1);
    assert_eq!(pending[0].id, 1);
    assert!(queue.pending_reviews(OTHER_PROJECT).is_empty());
}

#[test]
fn a_refused_completion_is_not_queued() {
    let service = ProjectStateService::default();
    let mut queue = ReviewQueue::new();
    let todos = todo_text(vec![todo("TODO-001", &[])]);
    let error = queue
        .propose_completion(&service, 1, PROJECT, 1_000, &todos, "", "TODO-009", completion(), minute())
        .unwrap_err();
    assert_eq!(validation_message(error), "TODO TODO-009 does not exist");
    assert!(queue.proposals.is_empty());
}

#[test]
fn approving_a_completion_writes_what_direct_completion_writes() {
    let service = ProjectStateService::default();
    let mut queue = ReviewQueue::new();
    let todos = todo_text(vec![todo("TODO-001", &[]), todo("TODO-002", &["TODO-001"])]);
    queue
        .propose_completion(&service, 1, PROJECT, 1_000, &todos, "", "TODO-001", completion(), minute())
        .unwrap();
    let (direct, direct_todos, direct_history) =
        service.complete_todo(&todos, "", "TODO-001", completion(), minute()).unwrap();
    let (result, new_todos, new_history) = queue.approve(&service, PROJECT, 1, &todos, "").unwrap();
    assert_eq!(result.completed_todo, direct.completed_todo);
    assert_eq!(result.history_entry, direct.history_entry);
    assert_eq!(new_todos.unwrap(), direct_todos);
    assert_eq!(new_history, direct_history);
    assert!(!direct_todos.contains("## TODO-001:"));
    assert!(direct_todos.contains("## TODO-002:"));
    assert!(queue.pending_reviews(PROJECT).is_empty());
}

#[test]
fn approval_revalidates_the_live_todo() {
    let service = ProjectStateService::default();
    let mut queue = ReviewQueue::new();
    let todos = todo_text(vec![todo("TODO-001", &[])]);
    queue
        .propose_completion(&service, 1, PROJECT, 1_000, &todos, "", "TODO-001", completion(), minute())
        .unwrap();
    let changed = todo_text(vec![todo("TODO-002", &[])]);
    let error = queue.approve(&service, PROJECT, 1, &changed, "").unwrap_err();
    assert_eq!(validation_message(error), "TODO TODO-001 does not exist");
    assert_eq!(queue.pending_reviews(PROJECT).len(), 1);
}

#[test]
fn approving_standalone_history_only_appends_the_entry() {
    let service = ProjectStateService::default();
    let mut queue = ReviewQueue::new();
    let proposal = queue
        .propose_history(&service, 2, PROJECT, 2_000, "", history_input(), minute())
        .unwrap();
    assert_eq!(proposal.kind, ProposalKind::WorkHistory);
    assert!(proposal.todo.is_none());
    let (_, direct_history) = service.add_work_history("", history_input(), minute()).unwrap();
    let (result, new_todos, new_history) = queue.approve(&service, PROJECT, 2, "", "").unwrap();
    assert!(result.completed_todo.is_none());
    assert_eq!(result.history_entry.title, "Investigated sync");
    assert!(new_todos.is_none());
    assert_eq!(new_history, direct_history);
    assert!(new_history.contains("Investigated sync"));
}

#[test]
fn rejecting_discards_only_that_proposal() {
    let service = ProjectStateService::default();
    let mut queue = ReviewQueue::new();
    queue.propose_history(&service, 1, PROJECT, 1_000, "", history_input(), minute()).unwrap();
    queue.propose_history(&service, 2, PROJECT, 2_000, "", history_input(), minute()).unwrap();
    queue.propose_history(&service, 3, OTHER_PROJECT, 3_000, "", history_input(), minute()).unwrap();
    let rejected = queue.reject(PROJECT, 1).unwrap();
    assert_eq!(rejected.id, 1);
    let pending: Vec<u128> = queue.pending_reviews(PROJECT).iter().map(|proposal| proposal.id).collect();
    assert_eq!(pending, vec![2]);
    assert_eq!(queue.pending_reviews(OTHER_PROJECT).len(), 1);
}

#[test]
fn a_decided_proposal_cannot_be_decided_again() {
    let service = ProjectStateService::default();
    let mut queue = ReviewQueue::new();
    queue.propose_history(&service, 1, PROJECT, 1_000, "", history_input(), minute()).unwrap();
    queue.reject(PROJECT, 1).unwrap();
    assert_eq!(validation_message(queue.reject(PROJECT, 1).unwrap_err()), "Unknown review proposal");
    assert_eq!(
        validation_message(queue.approve(&service, PROJECT, 1, "", "").unwrap_err()),
        "Unknown review proposal"
    );
}

#[test]
fn proposals_are_found_only_under_their_own_project() {
    let service = ProjectStateService::default();
    let mut queue = ReviewQueue::new();
    queue.propose_history(&service, 1, PROJECT, 1_000, "", history_input(), minute()).unwrap();
    assert!(queue.reject(OTHER_PROJECT, 1).is_err());
    assert_eq!(queue.pending_reviews(PROJECT).len(), 1);
}
