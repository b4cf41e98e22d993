use projector::registry::project_scaffold;
use projector::subagent_settings::{
    settings_backups, ExistingFile, ReasoningEffort, SubagentSettings, SubagentSettingsError, SubagentSettingsStore,
    WorkerAgentSettings,
};

fn worker(file_name: &str, name: &str, model: &str, effort: ReasoningEffort) -> WorkerAgentSettings {
    WorkerAgentSettings {
        file_name: file_name.into(),
        name: name.into(),
        description: format!("The {name} worker."),
        model: model.into(),
        model_reasoning_effort: effort,
        sandbox_mode: "workspace-write".into(),
        developer_instructions: "Keep changes small.\nReport what changed.".into(),
    }
}

fn defaults() -> SubagentSettings {
    SubagentSettings {
        version: 1,
        custom_section: "## Custom instructions".into(),
        projector_section: projector::agent_instructions::PROJECTOR_SECTION.into(),
        subagents_section: "## Subagents\n\nUse the built-in `explorer` for independent, read-only codebase investigation.".into(),
        worker_low: worker("worker-low.toml", "worker_low", "gpt-5.6-luna", ReasoningEffort::Medium),
        worker_medium: worker("worker-medium.toml", "worker_medium", "gpt-5.6-luna", ReasoningEffort::Max),
        worker_high: worker("worker-high.toml", "worker_high", "gpt-5.6-sol", ReasoningEffort::High),
    }
}

fn validate(settings: &SubagentSettings) -> Result<(), SubagentSettingsError> {
    projector::subagent_settings::validate_settings(settings, &defaults())
}

#[test]
fn immutable_worker_identity_and_invalid_guidance_are_rejected() {
    let mut changed = defaults();
    changed.worker_low.name = "renamed".into();
    assert!(validate(&changed).is_err());

    let mut changed = defaults();
    changed.subagents_section = "Use workers.".into();
    assert!(validate(&changed).is_err());
}

#[test]
fn validation_messages_name_the_first_problem() {
    assert!(validate(&defaults()).is_ok());
    let mut changed = defaults();
    changed.version = 2;
    match validate(&changed) {
        Err(SubagentSettingsError::Validation(m)) => assert_eq!(m, "unsupported settings version 2"),
        other => panic!("unexpected {other:?}"),
    }
    let mut changed = defaults();
    changed.worker_medium.model = "gpt 5".into();
    match validate(&changed) {
        Err(SubagentSettingsError::Validation(m)) => {
            assert_eq!(m, "worker_medium model must be a single model identifier")
        }
        other => panic!("unexpected {other:?}"),
    }
    let mut changed = defaults();
    changed.worker_high.description = "x".repeat(2001);
    match validate(&changed) {
        Err(SubagentSettingsError::Validation(m)) => assert_eq!(m, "worker_high description is too large"),
        other => panic!("unexpected {other:?}"),
    }
}

#[test]
fn settings_are_saved_reloaded_and_reset_to_bundled_defaults() {
    let mut store = SubagentSettingsStore::new(defaults(), defaults()).unwrap();
    let mut changed = store.settings().clone();
    changed.worker_low.description = "A user-edited description.".into();
    let saved = store.save(changed.clone()).unwrap();
    assert_eq!(store.settings(), &changed);
    let reloaded = SubagentSettingsStore::new(defaults(), saved).unwrap();
    assert_eq!(reloaded.settings(), &changed);
    let reset = store.reset();
    assert_eq!(reset, defaults());
    assert_eq!(store.settings(), &defaults());
}

#[test]
fn generated_files_are_valid_custom_agent_toml() {
    let files = defaults().generated_files("Example").unwrap();
    assert_eq!(files.len(), 4);
    assert_eq!(files[0].path, "AGENTS.md");
    assert!(files[0].content.contains("## Subagents"));
    assert!(files[0].content.contains("## Projector"));
    assert_eq!(files[1].path, ".codex/agents/worker-low.toml");
    for file in &files[1..] {
        let parsed: toml::Value = toml::from_str(&file.content).unwrap();
        assert!(parsed.get("name").is_some());
        assert!(parsed.get("developer_instructions").is_some());
        assert!(file.content.ends_with('\n'));
    }
    let low: toml::Value = toml::from_str(&files[1].content).unwrap();
    assert_eq!(low["model_reasoning_effort"].as_str(), Some("medium"));
    assert!(files[1].content.starts_with("name = \"worker_low\"\n"));
}

#[test]
fn preview_validates_before_generating() {
    let store = SubagentSettingsStore::new(defaults(), defaults()).unwrap();
    let files = store.preview(&defaults()).unwrap();
    assert!(files[0].content.starts_with("# AGENTS.md instructions for Example Project\n"));
    let mut changed = defaults();
    changed.worker_low.sandbox_mode = "danger-full-access".into();
    assert!(store.preview(&changed).is_err());
}

#[test]
fn migration_updates_only_managed_files_and_is_idempotent() {
    let mut settings = defaults();
    settings.custom_section = "## Custom instructions\n\nCustom project guidance.".into();
    settings.projector_section = "## Projector\n\nCustom API guidance.".into();
    settings.subagents_section = "## Subagents\n\nCustom worker guidance.".into();
    let existing = vec![
        ExistingFile::Text("# Existing\n\n## Keep\n\nUntouched.\n\n## Subagents\n\nOld.\n\n## Projector\n\nOld.\n".into()),
        ExistingFile::Text("old".into()),
        ExistingFile::Missing,
        ExistingFile::Missing,
    ];
    let first = settings.settings_updates("Example", &existing).unwrap();
    assert_eq!(first.len(), 4);
    assert_eq!(first[0].path, "AGENTS.md");
    assert!(first[0].content.contains("## Keep\n\nUntouched."));
    assert!(first[0].content.contains("Custom project guidance."));
    assert!(first[0].content.contains("Custom API guidance."));
    assert!(first[0].content.contains("Custom worker guidance."));
    assert_eq!(first[1].path, ".codex/agents/worker-low.toml");
    let backups = settings_backups(&first, &vec!["AGENTS.md".into(), ".codex/agents/worker-low.toml".into()]);
    assert!(backups.contains(&"AGENTS.md.projector-backup".to_string()));
    assert!(backups.contains(&".codex/agents/worker-low.toml.projector-backup".to_string()));
    assert!(!backups.contains(&".codex/agents/worker-medium.toml.projector-backup".to_string()));

    let written: Vec<ExistingFile> = first.iter().map(|file| ExistingFile::Text(file.content.clone())).collect();
    let second = settings.settings_updates("Example", &written).unwrap();
    assert!(second.is_empty());
}

#[test]
fn migration_rejects_non_utf8_agents_without_changing_it() {
    let existing = vec![ExistingFile::NotText, ExistingFile::Missing, ExistingFile::Missing, ExistingFile::Missing];
    let result = defaults().settings_updates("Binary", &existing);
    let written: Vec<String> = match &result {
        Ok(updates) => updates.iter().map(|update| update.path.clone()).collect(),
        Err(_) => Vec::new(),
    };
    let backups = match &result {
        Ok(updates) => settings_backups(updates, &vec!["AGENTS.md".into()]),
        Err(_) => Vec::new(),
    };
    match result {
        Err(error) => assert!(error.message().contains("not valid UTF-8")),
        Ok(_) => panic!("a non-UTF-8 AGENTS.md must not be rewritten"),
    }
    assert!(!written.contains(&"AGENTS.md".to_string()));
    assert!(backups.is_empty());
}

#[test]
fn new_projects_start_with_readme_agents_and_empty_state_files() {
    let files = project_scaffold("New Project", &defaults()).unwrap();
    let paths: Vec<&str> = files.iter().map(|file| file.path.as_str()).collect();
    assert_eq!(
        paths,
        vec![
            "README.md",
            "AGENTS.md",
            ".codex/agents/worker-low.toml",
            ".codex/agents/worker-medium.toml",
            ".codex/agents/worker-high.toml",
            "TODO.md",
            "WORK_HISTORY.md",
        ]
    );
    assert_eq!(files[0].content, "# New Project\n\nDescribe the project here.\n");
    assert!(files[1].content.contains("## Subagents"));
    assert!(files[1].content.contains("## Projector"));
    assert!(files[2].content.contains("name = \"worker_low\""));
    assert_eq!(files[5].content, "");
    assert_eq!(files[6].content, "");
}
