use projector::models::{
    AddTodoInput, AddWorkHistoryInput, CompleteTodoInput, Minute, TodoDocument, TodoItem,
    TodoPriority, WorkCategory,
};
use projector::project_state::{ProjectStateError, ProjectStateService};
use projector::todos::{parse_todo_document, render_todo_document, validate_todos};

fn sample_todo(id: &str, priority: TodoPriority, dependencies: &[&str]) -> TodoItem {
    TodoItem {
        id: id.into(),
        title: format!("Task {id}"),
        priority,
        category: WorkCategory::Feature,
        area: "state".into(),
        dependencies: dependencies.iter().map(|value| value.to_string()).collect(),
        rationale: "Needed.".into(),
        acceptance_criteria: "The behavior is verified.".into(),
    }
}

fn document(items: Vec<TodoItem>) -> TodoDocument {
    TodoDocument { relative_path: None, items, warnings: Vec::new(), preserved_content: None }
}

fn minute() -> Minute {
    Minute { year: 2026, month: 7, day: 27, hour: 9, minute: 5 }
}

#[test]
fn todo_parser_writer_round_trip_is_deterministic() {
    let document = document(vec![sample_todo("TODO-001", TodoPriority::High, &[])]);
    let rendered = render_todo_document(&document);
    let parsed = parse_todo_document(&rendered);
    assert_eq!(parsed.items, document.items);
    assert!(parsed.warnings.is_empty());
    assert_eq!(render_todo_document(&parsed), rendered);
}

#[test]
fn legacy_bold_todo_fields_are_parsed_for_migration() {
    let parsed = parse_todo_document(
        "## TODO-002 - Legacy title\n\n\
         - **Priority:** Medium\n\
         - **Status:** Planned\n\
         - **Area:** Backend / adapters\n\
         - **Dependencies:** none\n\
         - **Rationale:** Needed.\n\
         - **Acceptance criteria:** Verified.",
    );
    assert_eq!(parsed.items.len(), 1);
    assert_eq!(parsed.items[0].priority, TodoPriority::Medium);
    assert_eq!(parsed.items[0].area, "Backend / adapters");
}

#[test]
fn cycles_are_reported_for_every_participant() {
    let warnings = validate_todos(&[
        sample_todo("TODO-001", TodoPriority::High, &["TODO-002"]),
        sample_todo("TODO-002", TodoPriority::High, &["TODO-001"]),
    ]);
    assert_eq!(
        warnings.iter().filter(|warning| warning.code == "circular_dependency").count(),
        2
    );
}

#[test]
fn malformed_content_is_preserved_with_warning() {
    let parsed =
        parse_todo_document("## TODO-001: Incomplete\n\n- Status: planned\n\nOriginal details.");
    assert!(parsed.items.is_empty());
    assert!(parsed.preserved_content.unwrap().contains("Original details"));
    assert!(!parsed.warnings.is_empty());
}

#[test]
fn priority_order_and_dependency_failures_are_reported() {
    let text = render_todo_document(&document(vec![
        sample_todo("TODO-002", TodoPriority::Low, &["TODO-999"]),
        sample_todo("TODO-001", TodoPriority::Critical, &["TODO-002"]),
    ]));
    let state = ProjectStateService::default().inspect(&text, Some("TODO.md".into()), "", None);
    assert_eq!(state.todos.items[0].id, "TODO-001");
    assert!(state.todos.warnings.iter().any(|warning| warning.code == "missing_dependency"));
}

#[test]
fn completing_todo_updates_both_files_and_satisfies_dependents() {
    let service = ProjectStateService::default();
    let todo_text = render_todo_document(&document(vec![
        sample_todo("TODO-001", TodoPriority::High, &[]),
        sample_todo("TODO-002", TodoPriority::Medium, &["TODO-001"]),
    ]));
    let (result, todos, history) = service
        .complete_todo(
            &todo_text,
            "",
            "TODO-001",
            CompleteTodoInput { summary: "Implemented it.".into(), limitations: "none".into() },
            minute(),
        )
        .unwrap();
    assert_eq!(result.completed_todo.unwrap().id, "TODO-001");
    assert_eq!(result.history_entry.title, "Task TODO-001");
    assert_eq!(result.history_entry.category, WorkCategory::Feature);
    let state = service.inspect(&todos, None, &history, None);
    assert_eq!(state.todos.items.len(), 1);
    assert!(state.todos.items[0].dependencies.is_empty());
    assert_eq!(state.working_history.entries.len(), 1);
    assert_eq!(state.working_history.entries[0].area, "state");
    assert!(history.starts_with("## 2026-07-27 09:05 \u{2014} Task TODO-001\n"));
}

#[test]
fn failed_completion_does_not_modify_either_file() {
    let todo_text = render_todo_document(&document(vec![sample_todo(
        "TODO-001",
        TodoPriority::High,
        &["TODO-999"],
    )]));
    let result = ProjectStateService::default().complete_todo(
        &todo_text,
        "",
        "TODO-001",
        CompleteTodoInput { summary: "No change.".into(), limitations: "none".into() },
        minute(),
    );
    let (todo_file, history_file) = match &result {
        Ok((_, todos, history)) => (todos.clone(), history.clone()),
        Err(_) => (todo_text.clone(), String::new()),
    };
    assert!(matches!(result, Err(ProjectStateError::Validation(_))));
    assert_eq!(todo_file, todo_text);
    assert_eq!(history_file, "");
}

#[test]
fn added_todos_are_numbered_past_the_largest_id() {
    let service = ProjectStateService::default();
    let mut text = String::new();
    let mut ids = Vec::new();
    for index in 0..8 {
        let (item, next) = service
            .add_todo(
                &text,
                AddTodoInput {
                    title: format!("Task {index}"),
                    priority: TodoPriority::Medium,
                    category: WorkCategory::Feature,
                    area: "state".into(),
                    dependencies: Vec::new(),
                    rationale: "Needed.".into(),
                    acceptance_criteria: "Done.".into(),
                },
            )
            .unwrap();
        ids.push(item.id);
        text = next;
    }
    assert_eq!(ids[0], "TODO-001");
    assert_eq!(ids[7], "TODO-008");
    assert_eq!(parse_todo_document(&text).items.len(), 8);
}

#[test]
fn add_todo_rejects_blank_fields_and_unknown_dependencies() {
    let service = ProjectStateService::default();
    let input = |title: &str, dependencies: Vec<String>| AddTodoInput {
        title: title.into(),
        priority: TodoPriority::Low,
        category: WorkCategory::Others,
        area: "state".into(),
        dependencies,
        rationale: "Needed.".into(),
        acceptance_criteria: "Done.".into(),
    };
    match service.add_todo("", input("  ", Vec::new())) {
        Err(ProjectStateError::Validation(message)) => assert_eq!(message, "title must not be empty"),
        other => panic!("unexpected {other:?}"),
    }
    match service.add_todo("", input("Task", vec!["TODO-1".into()])) {
        Err(ProjectStateError::Validation(message)) => {
            assert_eq!(message, "dependencies contains invalid TODO ID `TODO-1`")
        }
        other => panic!("unexpected {other:?}"),
    }
    match service.add_todo("", input("Task", vec!["TODO-004".into()])) {
        Err(ProjectStateError::Validation(message)) => {
            assert_eq!(message, "Dependency TODO-004 does not exist in this project")
        }
        other => panic!("unexpected {other:?}"),
    }
}

#[test]
fn work_history_is_appended_with_the_given_minute() {
    let service = ProjectStateService::default();
    let (entry, text) = service
        .add_work_history(
            "",
            AddWorkHistoryInput {
                title: " Research recorded ".into(),
                category: WorkCategory::Research,
                area: "project-state".into(),
                summary: "Investigated the contract.".into(),
                limitations: "none".into(),
            },
            minute(),
        )
        .unwrap();
    assert_eq!(entry.title, "Research recorded");
    assert_eq!(
        text,
        "## 2026-07-27 09:05 \u{2014} Research recorded\n\n- Category: research\n- Area: project-state\n\n### Summary\n\nInvestigated the contract.\n\n### Limitations\n\nnone\n"
    );
}

#[test]
fn todo_file_does_not_depend_on_item_order() {
    let forward = render_todo_document(&document(vec![
        sample_todo("TODO-001", TodoPriority::High, &[]),
        sample_todo("TODO-002", TodoPriority::Low, &["TODO-001"]),
        sample_todo("TODO-003", TodoPriority::Medium, &[]),
    ]));
    let shuffled = render_todo_document(&document(vec![
        sample_todo("TODO-003", TodoPriority::Medium, &[]),
        sample_todo("TODO-001", TodoPriority::High, &[]),
        sample_todo("TODO-002", TodoPriority::Low, &["TODO-001"]),
    ]));
    assert_eq!(forward, shuffled);
    let parsed = parse_todo_document(&shuffled);
    let ids: Vec<&str> = parsed.items.iter().map(|item| item.id.as_str()).collect();
    assert_eq!(ids, vec!["TODO-001", "TODO-002", "TODO-003"]);
    assert!(parsed.warnings.is_empty());
}
