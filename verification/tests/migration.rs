use projector::migration_run::is_projects_root;
use projector::migration_run::migration_order;
use projector::migration_run::{finish_report, record_project, AgentsOutcome, FileOutcome};
use projector::migration::{
    infer_category, legacy_history_body, legacy_todo_items, migrate_history_content,
    migrate_todo_content, planned_todo_migration, report_markdown, slug_area, updated_agents_text,
    MigratedFile, MigrationReport, SkippedProject,
};
use projector::models::{TodoPriority, WorkCategory};
use projector::todos::render_todo_document;

#[test]
fn legacy_checklists_become_structured_todos() {
    let items = legacy_todo_items("# TODO\n\n- [ ] Keep this original task\n## 2. Write the docs\n");
    assert_eq!(items.len(), 2);
    assert_eq!(items[0].id, "TODO-001");
    assert_eq!(items[0].title, "Keep this original task");
    assert_eq!(items[0].priority, TodoPriority::Low);
    assert_eq!(items[1].category, WorkCategory::Documentation);
    let (document, warnings) = migrate_todo_content("# TODO\n\n- [ ] Keep this original task");
    let rendered = render_todo_document(&document);
    assert!(rendered.contains("Keep this original task"));
    assert!(rendered.contains("- Rationale: unknown"));
    assert!(rendered.contains("- Category:"));
    assert!(!rendered.contains("- Status:"));
    assert_eq!(warnings.len(), 1);
}

#[test]
fn todo_migration_is_idempotent() {
    let (text, count, _) = planned_todo_migration("# TODO\n\n- [ ] Keep this original task").unwrap();
    assert_eq!(count, 1);
    assert!(planned_todo_migration(&text).is_none());
}

#[test]
fn legacy_history_sections_become_entries() {
    let (document, warnings) =
        migrate_history_content("# History\n\n## 2026-07-20 \u{2014} Initial work\n\n- Implemented the first version.");
    assert_eq!(document.entries.len(), 1);
    let entry = &document.entries[0];
    assert_eq!(entry.title, "Initial work");
    assert_eq!(entry.area, "unknown");
    assert_eq!(entry.limitations, "none");
    assert_eq!(entry.summary, "- Implemented the first version.");
    assert_eq!((entry.occurred_at.hour, entry.occurred_at.minute), (0, 0));
    assert_eq!(warnings.len(), 3);
}

#[test]
fn legacy_bodies_read_summary_and_limitations_fields() {
    let (summary, limitations, missing) =
        legacy_history_body("- Summary: Did it.\n- Limitations/Future implementations: Slow.\n");
    assert_eq!((summary.as_str(), limitations.as_str(), missing), ("Did it.", "Slow.", false));
    let (summary, limitations, missing) = legacy_history_body("\n");
    assert_eq!((summary.as_str(), limitations.as_str(), missing), ("unknown", "none", true));
}

#[test]
fn areas_become_slugs_and_titles_suggest_categories() {
    assert_eq!(slug_area("  Backend / Adapters!! "), "backend-adapters");
    assert_eq!(slug_area("--"), "");
    assert_eq!(infer_category("Fix login failure"), WorkCategory::Bugfix);
    assert_eq!(infer_category("Test harness"), WorkCategory::Test);
    assert_eq!(infer_category("Policy decision"), WorkCategory::Others);
    assert_eq!(infer_category("New dashboard"), WorkCategory::Feature);
}

#[test]
fn agents_files_gain_the_projector_section_once() {
    let updated = updated_agents_text("# AGENTS\n").unwrap();
    assert!(updated.contains("## Projector\n"));
    assert!(updated_agents_text(&updated).is_none());
}

#[test]
fn the_report_lists_every_section() {
    let report = MigrationReport {
        projects_root: "/p/Projects".into(),
        modified_projects: vec!["Example".into()],
        migrated_files: vec![MigratedFile {
            project: "Example".into(),
            path: "/p/Projects/Example/TODO.md".into(),
            backup: "/p/Projects/Example/TODO.md.projector-backup".into(),
            item_count: 3,
        }],
        updated_agent_files: Vec::new(),
        warnings: Vec::new(),
        skipped_projects: vec![SkippedProject { project: "Empty".into(), reason: "Nothing.".into() }],
        validation_failures: Vec::new(),
    };
    assert_eq!(
        report_markdown(&report),
        "# Projector project-state migration report\n\nProjects root: `/p/Projects`\n\n## Modified projects\n\n- Example\n## Migrated files\n\n- Example: `/p/Projects/Example/TODO.md` (3 entries; backup `/p/Projects/Example/TODO.md.projector-backup`)\n## Updated AGENTS.md files\n\n- none\n## Warnings\n\n- none\n## Skipped projects\n\n- Empty: Nothing.\n## Validation failures\n\n- none\n"
    );
}

#[test]
fn structured_history_needs_no_second_migration() {
    let text = "## 2026-07-20 10:30 \u{2014} Initial work\n\n- Category: feature\n- Area: core\n\n### Summary\n\nBuilt the first version.\n\n### Limitations\n\nNone known.\n";
    assert!(projector::migration::planned_history_migration(text).is_none());
}

fn empty_report() -> MigrationReport {
    MigrationReport {
        projects_root: "/tmp/Projects".into(),
        modified_projects: Vec::new(),
        migrated_files: Vec::new(),
        updated_agent_files: Vec::new(),
        warnings: Vec::new(),
        skipped_projects: Vec::new(),
        validation_failures: Vec::new(),
    }
}

#[test]
fn only_a_projects_directory_is_accepted_as_root() {
    assert!(is_projects_root(Some("Projects")));
    assert!(is_projects_root(Some("projects")));
    assert!(!is_projects_root(Some("Work")));
    assert!(!is_projects_root(None));
}

#[test]
fn project_folders_are_visited_by_lower_cased_name() {
    let order = migration_order(vec!["beta".into(), "Alpha".into(), "alpha".into(), "Gamma".into()]);
    assert_eq!(order, vec!["Alpha", "alpha", "beta", "Gamma"]);
}

#[test]
fn project_outcomes_are_recorded_in_order() {
    let report = record_project(
        empty_report(),
        "Zeta",
        FileOutcome::Migrated(
            MigratedFile { project: "Zeta".into(), path: "/p/TODO.md".into(), backup: "/p/TODO.md.projector-backup".into(), item_count: 2 },
            vec!["legacy status dropped".into()],
        ),
        FileOutcome::Failed("/p/WORK_HISTORY.md".into(), "Migrated content did not validate: bad".into()),
        AgentsOutcome::Updated("/p/AGENTS.md".into(), "/p/AGENTS.md.projector-backup".into()),
    );
    let report = record_project(report, "Empty", FileOutcome::Missing, FileOutcome::Missing, AgentsOutcome::Unchanged);
    let report = record_project(report, "Alpha", FileOutcome::Missing, FileOutcome::Unchanged, AgentsOutcome::Updated("a".into(), "b".into()));
    assert_eq!(
        report.warnings,
        vec![
            "Zeta: legacy status dropped",
            "Zeta: AGENTS.md backed up to /p/AGENTS.md.projector-backup",
            "Empty: no recognizable TODO file found",
            "Empty: no recognizable working-history file found",
            "Alpha: no recognizable TODO file found",
            "Alpha: AGENTS.md backed up to b",
        ]
    );
    assert_eq!(report.validation_failures, vec!["Zeta: /p/WORK_HISTORY.md: Migrated content did not validate: bad"]);
    assert_eq!(report.migrated_files.len(), 1);
    assert_eq!(report.updated_agent_files, vec!["/p/AGENTS.md", "a"]);
    assert_eq!(report.skipped_projects.len(), 1);
    assert_eq!(report.skipped_projects[0].project, "Empty");
    let finished = finish_report(report);
    assert_eq!(finished.modified_projects, vec!["Alpha", "Zeta"]);
}
