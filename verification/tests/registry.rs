use projector::models::{GitInfo, RegistryData};
use projector::observer::{sort_projects, ProjectSummary};
use projector::registry::{validate_project_name, RegistryError, RegistryStore};

fn empty() -> RegistryStore {
    RegistryStore::from_data(RegistryData::default()).unwrap()
}

#[test]
fn registration_is_idempotent() {
    let mut store = empty();
    let first = store.register("/tmp/example", Some("example"), false);
    let duplicate = store.register("/tmp/example", Some("example"), false);
    assert_eq!(first.id, duplicate.id);
    assert_eq!(store.entries().len(), 1);
    assert_eq!(first.name, "example");
    assert!(first.last_opened.is_none());
}

#[test]
fn paths_compare_case_insensitively_where_the_file_system_does() {
    let mut store = empty();
    let first = store.register_with("C:\\Code\\Demo", Some("Demo"), true, 1, 10);
    let again = store.register_with("c:\\code\\demo", Some("demo"), true, 2, 20);
    assert_eq!(again.id, first.id);
    let other = store.register_with("c:\\code\\demo", Some("demo"), false, 3, 30);
    assert_eq!(other.id, 3);
    assert_eq!(store.entries().len(), 2);
}

#[test]
fn removal_and_touch_affect_only_the_entry() {
    let mut store = empty();
    store.register_with("/a", Some("a"), false, 1, 10);
    store.register_with("/b", Some(" "), false, 2, 10);
    assert_eq!(store.entries()[1].name, "/b");
    let touched = store.touch_at(2, 99).unwrap();
    assert_eq!(touched.last_opened, Some(99));
    assert!(store.touch_at(5, 99).is_err());
    assert_eq!(store.remove(1).unwrap().id, 1);
    assert!(store.remove(1).is_none());
    assert_eq!(store.entries().len(), 1);
    assert_eq!(store.find(2).unwrap().last_opened, Some(99));
}

#[test]
fn unsupported_registry_versions_are_refused() {
    assert!(matches!(
        RegistryStore::from_data(RegistryData { version: 2, projects: Vec::new() }),
        Err(RegistryError::UnsupportedVersion(2))
    ));
}

#[test]
fn project_creation_rejects_unsafe_names() {
    assert!(validate_project_name("../outside").is_err());
    assert!(validate_project_name("CON").is_err());
    assert!(validate_project_name("com3.txt").is_err());
    assert!(validate_project_name("name.").is_err());
    assert!(validate_project_name("  ").is_err());
    assert_eq!(validate_project_name("  New Project ").unwrap(), "New Project");
    assert_eq!(validate_project_name("COM0").unwrap(), "COM0");
    match validate_project_name("LPT1") {
        Err(RegistryError::InvalidProjectName(m)) => assert_eq!(m, "That name is reserved by Windows"),
        other => panic!("unexpected {other:?}"),
    }
}

#[test]
fn projects_are_listed_by_recent_use_then_name() {
    let summary = |id: u128, name: &str, last_opened: Option<i64>| ProjectSummary {
        id,
        name: name.into(),
        path: format!("/projects/{name}"),
        registered_at: 1,
        last_opened,
        git: GitInfo::not_repository(),
    };
    let listed = sort_projects(vec![
        summary(1, "beta", Some(5)),
        summary(2, "Alpha", None),
        summary(3, "gamma", Some(9)),
        summary(4, "alpha", None),
        summary(5, "Zed", None),
    ]);
    let ids: Vec<u128> = listed.iter().map(|project| project.id).collect();
    assert_eq!(ids, vec![3, 1, 2, 4, 5]);
}

#[test]
fn unknown_ids_are_named_in_hyphenated_form() {
    let mut store = RegistryStore::from_data(RegistryData::default()).unwrap();
    let error = store.touch_at(0xa1a2a3a4b1b2c1c2d1d2d3d4d5d6d7d8, 1).unwrap_err();
    assert_eq!(
        error.message(),
        "Project directory does not exist or cannot be accessed: Unknown project id a1a2a3a4-b1b2-c1c2-d1d2-d3d4d5d6d7d8"
    );
}
