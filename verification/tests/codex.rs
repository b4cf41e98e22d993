use projector::codex_monitor::{
    CodexHookEvent, CodexMonitorData, CodexMonitorError, CodexMonitorStore, LifecycleState,
    TransitionKind, MAX_TRANSITIONS, MAX_UNLINKED_SESSIONS,
};

fn empty_store() -> CodexMonitorStore {
    CodexMonitorStore::from_data(CodexMonitorData { version: 1, sessions: Vec::new() }).unwrap().0
}

fn start(session_id: &str) -> CodexHookEvent {
    CodexHookEvent::SubagentStart {
        session_id: session_id.into(),
        cwd: "C:\\code\\project".into(),
        agent_id: "agent-1".into(),
        agent_type: "worker_low".into(),
    }
}

fn stop(session_id: &str) -> CodexHookEvent {
    CodexHookEvent::SubagentStop {
        session_id: session_id.into(),
        cwd: "C:\\code\\project".into(),
        agent_id: "agent-1".into(),
        agent_type: "worker_low".into(),
    }
}

#[test]
fn deduplicates_events_and_keeps_stops_terminal() {
    let mut store = empty_store();
    store.ingest(start("session-1")).unwrap();
    store.ingest(start("session-1")).unwrap();
    store.ingest(stop("session-1")).unwrap();
    store.ingest(start("session-1")).unwrap();

    let session = &store.snapshot(7).detected_sessions[0];
    assert_eq!(session.agents[0].state, LifecycleState::Stopped);
    assert_eq!(
        session
            .transitions
            .iter()
            .filter(|transition| transition.kind == TransitionKind::SubagentStarted)
            .count(),
        1
    );
}

#[test]
fn accepts_stop_before_start_without_reopening_agent() {
    let mut store = empty_store();
    store.ingest(stop("session-1")).unwrap();
    store.ingest(start("session-1")).unwrap();
    assert_eq!(store.snapshot(7).detected_sessions[0].agents[0].state, LifecycleState::Stopped);
}

#[test]
fn restart_marks_running_state_unknown() {
    let mut store = empty_store();
    store.ingest(start("session-1")).unwrap();
    let (reloaded, changed) = CodexMonitorStore::from_data(store.data()).unwrap();
    assert!(changed);
    let session = &reloaded.snapshot(7).detected_sessions[0];
    assert_eq!(session.state, LifecycleState::Unknown);
    assert_eq!(session.agents[0].state, LifecycleState::Unknown);
    let (_, changed_again) = CodexMonitorStore::from_data(reloaded.data()).unwrap();
    assert!(!changed_again);
}

#[test]
fn links_to_one_project_and_removes_project_data() {
    let mut store = empty_store();
    store.ingest(start("session-1")).unwrap();
    let project_id = 41;
    store.link(project_id, "session-1").unwrap();
    assert_eq!(store.snapshot(project_id).linked_sessions.len(), 1);
    assert!(matches!(store.link(42, "session-1"), Err(CodexMonitorError::AlreadyLinked { .. })));
    assert!(store.remove_project(project_id));
    assert!(store.snapshot(project_id).linked_sessions.is_empty());
}

#[test]
fn validates_identifiers() {
    let mut store = empty_store();
    assert!(matches!(
        store.ingest(CodexHookEvent::SessionStart { session_id: "".into(), cwd: "C:\\code".into() }),
        Err(CodexMonitorError::Validation(_))
    ));
    match store.ingest(CodexHookEvent::SessionStart { session_id: "a\u{7}".into(), cwd: "C:\\code".into() }) {
        Err(CodexMonitorError::Validation(message)) => assert_eq!(
            message,
            "session_id must be non-empty, contain no control characters, and be at most 256 bytes"
        ),
        other => panic!("unexpected {other:?}"),
    }
}

#[test]
fn bounds_unlinked_sessions_and_transition_history() {
    let mut store = empty_store();
    for index in 0..55 {
        store
            .ingest(CodexHookEvent::SessionStart {
                session_id: format!("session-{index:02}"),
                cwd: "C:\\code\\project".into(),
            })
            .unwrap();
    }
    let snapshot = store.snapshot(7);
    assert_eq!(snapshot.detected_sessions.len(), MAX_UNLINKED_SESSIONS);
    assert!(snapshot.detected_sessions.iter().all(|session| session.session_id != "session-00"));

    for index in 0..120 {
        store
            .ingest(CodexHookEvent::SubagentStart {
                session_id: "session-54".into(),
                cwd: "C:\\code\\project".into(),
                agent_id: format!("agent-{index}"),
                agent_type: "worker_low".into(),
            })
            .unwrap();
    }
    let session = store
        .snapshot(7)
        .detected_sessions
        .into_iter()
        .find(|session| session.session_id == "session-54")
        .unwrap();
    assert_eq!(session.transitions.len(), MAX_TRANSITIONS);
}

#[test]
fn oldest_unlinked_sessions_are_pruned_first() {
    let mut store = empty_store();
    for index in 0..52 {
        store
            .ingest_at(
                CodexHookEvent::SessionStart { session_id: format!("s-{index}"), cwd: "C:\\code".into() },
                1000 - index,
            )
            .unwrap();
    }
    let kept: Vec<String> = store.snapshot(7).detected_sessions.into_iter().map(|s| s.session_id).collect();
    assert_eq!(kept.len(), 50);
    assert_eq!(kept[0], "s-0");
    assert!(!kept.contains(&"s-51".to_string()) && !kept.contains(&"s-50".to_string()));
}

#[test]
fn session_end_marks_running_agents_unknown() {
    let mut store = empty_store();
    store.ingest_at(start("s"), 10).unwrap();
    store
        .ingest_at(CodexHookEvent::SessionEnd { session_id: "s".into(), cwd: "C:\\code\\project".into() }, 20)
        .unwrap();
    let session = &store.snapshot(7).detected_sessions[0];
    assert_eq!(session.state, LifecycleState::Stopped);
    assert_eq!(session.agents[0].state, LifecycleState::Unknown);
    assert_eq!(session.agents[0].last_seen_at, 20);
    let kinds: Vec<TransitionKind> = session.transitions.iter().map(|t| t.kind).collect();
    assert_eq!(
        kinds,
        vec![
            TransitionKind::SessionStarted,
            TransitionKind::SubagentStarted,
            TransitionKind::SessionStopped,
            TransitionKind::SubagentUnknown
        ]
    );
}
