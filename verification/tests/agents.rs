use projector::agent_instructions::{migrate_agents, new_project_agents, replace_section, PROJECTOR_SECTION};

#[test]
fn migration_replaces_managed_sections_and_preserves_other_guidance() {
    let existing = "# Instructions\n\n## Existing\n\nKeep.\n\n## Subagents\n\nOld workers.\n\n## Projector\n\nOld API.\n\n## Later\n\nAlso keep.\n";
    let updated = migrate_agents(
        Some(existing),
        "Example",
        "## Custom instructions\n\nUse concise prose.",
        "## Subagents\n\nNew workers.",
        "## Projector\n\nNew API.",
    );
    assert!(updated.contains("## Existing\n\nKeep."));
    assert!(updated.contains("## Custom instructions\n\nUse concise prose."));
    assert!(updated.contains("## Subagents\n\nNew workers."));
    assert!(updated.contains("## Projector\n\nNew API."));
    assert!(updated.contains("## Later\n\nAlso keep."));
    assert!(!updated.contains("Old workers"));
    assert!(!updated.contains("Old API"));
}

#[test]
fn agents_section_is_replaced_without_touching_other_instructions() {
    let content = "# AGENTS\n\n## Existing\n\nKeep.\n\n## Projector\n\nOld.\n\n## Later\n\nAlso keep.\n";
    let updated = replace_section(content, "Projector", PROJECTOR_SECTION);
    assert!(updated.contains("## Existing\n\nKeep."));
    assert!(updated.contains("POST /projects/{projectId}/todos/{todoId}/complete"));
    assert!(updated.contains(
        "Use `POST /projects/{projectId}/todos/{todoId}/complete` when that TODO is finished."
    ));
    assert!(!updated.contains("TODO status is derived"));
    assert!(updated.contains("## Later\n\nAlso keep."));
    assert!(!updated.contains("\nOld.\n"));
}

#[test]
fn new_agents_file_lists_the_sections_in_order() {
    let text = new_project_agents("Demo", " ## Custom instructions ", "## Subagents\n\nA.", "## Projector\n\nB.\n");
    assert_eq!(
        text,
        "# AGENTS.md instructions for Demo\n\nProject files are the source of truth. Keep changes scoped to this project and preserve unrelated work.\n\n## Custom instructions\n\n## Subagents\n\nA.\n\n## Projector\n\nB.\n"
    );
    assert_eq!(migrate_agents(None, "Demo", "## Custom instructions", "## Subagents\n\nA.", "## Projector\n\nB."), text);
}

#[test]
fn a_missing_section_is_appended_once() {
    let updated = replace_section("# Notes\r\n\r\nKeep.", "Projector", "## Projector\n\nNew.");
    assert_eq!(updated, "# Notes\n\nKeep.\n\n## Projector\n\nNew.\n");
    assert_eq!(replace_section(&updated, "Projector", "## Projector\n\nNew."), updated);
}

#[test]
fn replacing_a_present_section_twice_changes_nothing() {
    let content = "# Notes\n\n## Projector\n\nOld text.\nMore old text.\n\n## Keep\n\nKept.\n";
    let once = replace_section(content, "Projector", "## Projector\n\nNew guidance.");
    assert_eq!(once, "# Notes\n\n## Projector\n\nNew guidance.\n## Keep\n\nKept.\n");
    assert_eq!(replace_section(&once, "Projector", "## Projector\n\nNew guidance."), once);
}

#[test]
fn trailing_whitespace_after_a_bare_heading_marker_is_not_stable() {
    let content = "## Projector\nold\n## ";
    let once = replace_section(content, "Projector", "## Projector\n\nNew.");
    assert_eq!(once, "## Projector\n\nNew.\n##\n");
    assert_eq!(replace_section(&once, "Projector", "## Projector\n\nNew."), "## Projector\n\nNew.\n");
}
