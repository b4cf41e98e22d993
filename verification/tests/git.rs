use projector::observer::{
    commits_from, fetch_precheck_from, observation_from, pull_precheck_from, upstream_from, CommitRead, GitErrorKind, GitRead,
    HeadState, RepositoryAccess, UpstreamRead,
};
use projector::git_sync::{
    classify_fetch_failure, classify_pull_failure, classify_sync_status, latest, FetchOutcome, GitSyncState,
};
use projector::git_sync::GitFetchSnapshot;
use projector::models::{GitFetchStatus, GitSyncStatus};
use projector::observer::{fetch_precheck, observe_git, pull_precheck};

#[test]
fn classifies_authentication_and_offline_failures() {
    assert_eq!(
        classify_fetch_failure("fatal: Authentication failed").status,
        GitFetchStatus::AuthenticationFailed
    );
    assert_eq!(
        classify_fetch_failure("fatal: unable to access: Could not resolve host").status,
        GitFetchStatus::Offline
    );
    assert_eq!(classify_fetch_failure("fatal: an unexpected failure").status, GitFetchStatus::Failed);
}

#[test]
fn pull_failure_reports_fast_forward_refusal() {
    assert_eq!(
        classify_pull_failure("fatal: Not possible to fast-forward, aborting."),
        "The branch has diverged from its upstream, so it cannot be fast-forwarded."
    );
}

#[test]
fn pull_failure_messages_speak_of_pulling() {
    assert_eq!(
        classify_pull_failure("fatal: an unexpected failure"),
        "Git pull failed. Run git pull in the repository for details."
    );
    assert_eq!(classify_pull_failure(""), "Git pull failed without additional details.");
    assert_eq!(
        classify_fetch_failure("").error.as_deref(),
        Some("Git fetch failed without additional details.")
    );
}

#[test]
fn classifies_all_upstream_relationships() {
    assert_eq!(classify_sync_status(0, 0), GitSyncStatus::Synchronized);
    assert_eq!(classify_sync_status(2, 0), GitSyncStatus::Ahead);
    assert_eq!(classify_sync_status(0, 3), GitSyncStatus::Behind);
    assert_eq!(classify_sync_status(1, 1), GitSyncStatus::Diverged);
}

#[test]
fn latest_prefers_the_later_time() {
    assert_eq!(latest(Some(3), Some(5)), Some(5));
    assert_eq!(latest(None, Some(5)), Some(5));
    assert_eq!(latest(Some(3), None), Some(3));
    assert_eq!(latest(None, None), None);
}

#[test]
fn a_second_operation_is_refused_while_one_is_under_way() {
    let mut state = GitSyncState::from_cache(&vec![]);
    assert!(state.begin_fetch(7));
    assert_eq!(state.snapshot(7).status, GitFetchStatus::Fetching);
    assert!(!state.begin_fetch(7));
    assert!(!state.begin_pull(7));
    assert!(state.begin_pull(8));
    state.finish_pull(8, true, 500);
    assert_eq!(state.snapshot(8).status, GitFetchStatus::Succeeded);
    assert_eq!(state.snapshot(8).last_successful_fetch, Some(500));
    assert!(state.begin_pull(8));
}

#[test]
fn finished_fetches_are_remembered_in_the_cache() {
    let mut state = GitSyncState::from_cache(&vec![(1, 100)]);
    assert_eq!(state.snapshot(1).status, GitFetchStatus::Idle);
    assert_eq!(state.snapshot(1).last_successful_fetch, Some(100));
    assert_eq!(state.snapshot(2).last_successful_fetch, None);

    assert!(state.begin_fetch(1));
    state.finish_fetch(1, FetchOutcome { status: GitFetchStatus::Offline, error: Some("offline".to_string()) }, 200);
    let snapshot = state.snapshot(1);
    assert_eq!(snapshot.status, GitFetchStatus::Offline);
    assert_eq!(snapshot.error, Some("offline".to_string()));
    assert_eq!(snapshot.last_successful_fetch, Some(100));

    assert!(state.begin_fetch(1));
    state.finish_fetch(1, FetchOutcome { status: GitFetchStatus::Succeeded, error: None }, 300);
    assert_eq!(state.snapshot(1).last_successful_fetch, Some(300));
    assert_eq!(state.cache_entries(), vec![(1, 300)]);

    state.remove(1);
    assert_eq!(state.snapshot(1).status, GitFetchStatus::Idle);
    assert_eq!(state.cache_entries(), vec![]);
}

#[test]
fn missing_remote_is_reported_without_running_fetch() {
    let temp = tempfile::tempdir().unwrap();
    git2::Repository::init(temp.path()).unwrap();
    let outcome = fetch_precheck(temp.path().to_str().unwrap()).unwrap();
    assert_eq!(outcome.status, GitFetchStatus::NoRemote);
    assert!(outcome.error.unwrap().contains("No Git remotes"));
}

#[test]
fn pull_requires_an_upstream_branch() {
    let temp = tempfile::tempdir().unwrap();
    let repo = git2::Repository::init(temp.path()).unwrap();
    let signature = git2::Signature::now("Projector Test", "projector@example.invalid").unwrap();
    let tree_id = {
        let mut index = repo.index().unwrap();
        index.write_tree().unwrap()
    };
    let tree = repo.find_tree(tree_id).unwrap();
    repo.commit(Some("HEAD"), &signature, &signature, "Initial", &tree, &[]).unwrap();
    drop(tree);
    drop(repo);

    let error = pull_precheck(temp.path().to_str().unwrap()).unwrap_err();
    assert!(error.contains("does not have an upstream"));
}

#[test]
fn non_git_directories_are_supported() {
    let temp = tempfile::tempdir().unwrap();
    let observation = observe_git(temp.path().to_str().unwrap(), &GitFetchSnapshot::default());
    assert!(!observation.info.is_repository);
    assert!(observation.info.error.is_none());
}

#[test]
fn a_fresh_repository_reports_no_commits_and_a_clean_tree() {
    let temp = tempfile::tempdir().unwrap();
    git2::Repository::init(temp.path()).unwrap();
    let observation = observe_git(temp.path().to_str().unwrap(), &GitFetchSnapshot::default());
    assert!(observation.info.is_repository);
    assert_eq!(observation.info.branch.as_deref(), Some("No commits yet"));
    assert_eq!(observation.info.dirty, Some(false));
    assert!(observation.info.recent_commits.is_empty());
}

#[test]
fn recent_commits_carry_short_hex_ids_and_whole_second_times() {
    let temp = tempfile::tempdir().unwrap();
    let repo = git2::Repository::init(temp.path()).unwrap();
    let signature =
        git2::Signature::new("Projector Test", "projector@example.invalid", &git2::Time::new(1_700_000_000, 0)).unwrap();
    let tree_id = {
        let mut index = repo.index().unwrap();
        index.write_tree().unwrap()
    };
    let tree = repo.find_tree(tree_id).unwrap();
    let oid = repo.commit(Some("HEAD"), &signature, &signature, "Initial", &tree, &[]).unwrap();
    drop(tree);
    drop(repo);

    let observation = observe_git(temp.path().to_str().unwrap(), &GitFetchSnapshot::default());
    let commits = &observation.info.recent_commits;
    assert_eq!(commits.len(), 1);
    assert_eq!(commits[0].id, oid.to_string()[..8]);
    assert!(commits[0].id.chars().all(|c| c.is_ascii_hexdigit() && !c.is_ascii_uppercase()));
    assert_eq!(commits[0].committed_at, 1_700_000_000_000_000);
    assert_eq!(commits[0].summary, "Initial");
    assert_eq!(commits[0].author, "Projector Test");
}

#[test]
fn upstream_counts_keep_ahead_and_behind_apart() {
    let status = upstream_from(UpstreamRead::Compared(Some("refs/remotes/origin/main".into()), Ok((3, 1))));
    assert_eq!(status.upstream.as_deref(), Some("origin/main"));
    assert_eq!(status.ahead, Some(3));
    assert_eq!(status.behind, Some(1));
    assert_eq!(status.sync_status, GitSyncStatus::Diverged);
    assert!(status.message.is_none());
    let ahead_only = upstream_from(UpstreamRead::Compared(None, Ok((2, 0))));
    assert_eq!(ahead_only.sync_status, GitSyncStatus::Ahead);
    let missing = upstream_from(UpstreamRead::UpstreamMissing);
    assert_eq!(missing.sync_status, GitSyncStatus::Unknown);
    assert_eq!(missing.message.as_deref(), Some("The current branch has no available upstream branch."));
    let failed = upstream_from(UpstreamRead::Compared(None, Err("boom".into())));
    assert_eq!(failed.message.as_deref(), Some("Unable to compare with the upstream branch: boom"));
}

#[test]
fn fetch_precheck_decides_from_what_was_read() {
    let none = fetch_precheck_from(&RepositoryAccess::Inside, &Ok(0)).unwrap();
    assert_eq!(none.status, GitFetchStatus::NoRemote);
    assert!(fetch_precheck_from(&RepositoryAccess::Inside, &Ok(2)).is_none());
    let unavailable =
        fetch_precheck_from(&RepositoryAccess::OpenFailed(GitErrorKind::Other, "locked".into()), &Ok(1)).unwrap();
    assert_eq!(unavailable.status, GitFetchStatus::Failed);
    assert_eq!(unavailable.error.as_deref(), Some("The repository is unavailable: locked"));
    let outside = fetch_precheck_from(&RepositoryAccess::Outside, &Ok(1)).unwrap();
    assert_eq!(outside.error.as_deref(), Some("Git metadata is outside the registered project directory"));
}

#[test]
fn pull_precheck_decides_from_what_was_read() {
    assert!(pull_precheck_from(&RepositoryAccess::Inside, &HeadState::Branch(true), &Ok(0)).is_ok());
    assert_eq!(
        pull_precheck_from(&RepositoryAccess::Inside, &HeadState::Branch(true), &Ok(2)).unwrap_err(),
        "Pull requires a clean working tree. Commit, stash, or discard local changes first."
    );
    assert_eq!(
        pull_precheck_from(&RepositoryAccess::Inside, &HeadState::Branch(false), &Ok(0)).unwrap_err(),
        "The current branch does not have an upstream branch."
    );
    assert_eq!(
        pull_precheck_from(&RepositoryAccess::Inside, &HeadState::Detached, &Ok(0)).unwrap_err(),
        "Pull is unavailable while the repository has a detached HEAD."
    );
    assert_eq!(
        pull_precheck_from(&RepositoryAccess::Outside, &HeadState::Branch(true), &Ok(0)).unwrap_err(),
        "Git metadata is outside the registered project directory."
    );
}

#[test]
fn commit_list_keeps_readable_items_of_the_first_twenty_five() {
    let mut reads = vec![None];
    for index in 0..30 {
        reads.push(Some(CommitRead {
            id: format!("{index:08x}"),
            committed_at: if index == 1 { None } else { Some(index as i64 * 1_000_000) },
            summary: if index == 0 { None } else { Some(format!("Commit {index}")) },
            author: None,
        }));
    }
    let commits = commits_from(&reads);
    assert_eq!(commits.len(), 23);
    assert_eq!(commits[0].id, "00000000");
    assert_eq!(commits[0].summary, "Untitled commit");
    assert_eq!(commits[0].author, "Unknown author");
    assert_eq!(commits[1].id, "00000002");
    assert_eq!(commits[22].id, "00000017");
}

#[test]
fn observation_reports_a_missing_repository_without_error() {
    let observation = observation_from(GitRead::Unopened(GitErrorKind::NotFound, "no".into()), &GitFetchSnapshot::default());
    assert!(!observation.info.is_repository);
    assert!(observation.info.error.is_none());
    let broken = observation_from(GitRead::Unopened(GitErrorKind::Other, "bad".into()), &GitFetchSnapshot::default());
    assert_eq!(broken.info.error.as_deref(), Some("Unable to inspect Git repository: bad"));
}

#[test]
fn documents_are_picked_by_alias_preference_and_cut_at_two_megabytes() {
    let names = vec![Some("notes.md".to_string()), None, Some("working_history.MD".to_string()), Some("Work_History.md".to_string())];
    let aliases = vec!["WORK_HISTORY.md".to_string(), "WORKING_HISTORY.md".to_string()];
    assert_eq!(projector::observer::pick_document(&names, &aliases), Some(3));
    assert_eq!(projector::observer::pick_document(&names, &vec!["README.md".to_string()]), None);
    let (bytes, truncated) = projector::observer::limit_document(vec![7u8; projector::observer::MAX_DOCUMENT_BYTES + 1]);
    assert!(truncated);
    assert_eq!(bytes.len(), 2 * 1024 * 1024);
    let (short, cut) = projector::observer::limit_document(vec![1, 2, 3]);
    assert_eq!(short, vec![1, 2, 3]);
    assert!(!cut);
}

#[test]
fn the_first_entry_named_like_an_alias_is_found() {
    let names = vec![Some("notes.md".to_string()), None, Some("working_history.md".to_string()), Some("WORK_HISTORY.md".to_string())];
    let aliases = vec!["WORK_HISTORY.md".to_string(), "WORKING_HISTORY.md".to_string()];
    assert_eq!(projector::observer::first_named_entry(&names, &aliases), Some(2));
    assert_eq!(projector::observer::first_named_entry(&names, &vec!["TODO.md".to_string()]), None);
}

#[test]
fn finished_git_runs_become_outcomes() {
    let ok = projector::git_sync::fetch_outcome(projector::git_sync::GitRun::Exited(true, String::new()));
    assert_eq!(ok.status, GitFetchStatus::Succeeded);
    assert!(ok.error.is_none());
    let late = projector::git_sync::fetch_outcome(projector::git_sync::GitRun::TimedOut);
    assert_eq!(late.status, GitFetchStatus::TimedOut);
    assert_eq!(late.error.as_deref(), Some("Git fetch timed out after 30 seconds."));
    let denied = projector::git_sync::fetch_outcome(projector::git_sync::GitRun::Exited(
        false,
        "fatal: Authentication failed for 'https://example.invalid/repo.git/'".into(),
    ));
    assert_eq!(denied.status, GitFetchStatus::AuthenticationFailed);
    assert_eq!(
        projector::git_sync::pull_outcome(projector::git_sync::GitRun::TimedOut).unwrap_err(),
        "Git pull timed out after 30 seconds."
    );
    assert!(projector::git_sync::pull_outcome(projector::git_sync::GitRun::Exited(true, String::new())).is_ok());
    assert_eq!(
        projector::git_sync::pull_outcome(projector::git_sync::GitRun::Failed("Unable to start Git pull: gone".into())).unwrap_err(),
        "Unable to start Git pull: gone"
    );
}
