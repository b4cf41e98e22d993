//! Monitoring of Codex sessions and their subagents from hook events: the
//! lifecycle of each session and agent, a bounded transition history, links
//! to projects, and a bounded number of unlinked sessions.

use vstd::prelude::*;
use crate::text::{chars_of, is_blank, is_blank_exec, lit, push_all, push_str, string_of, utf8_len};
use crate::models::UnixMicros;
use crate::registry::is_control;

verus! {

/// The most unlinked sessions kept.
pub const MAX_UNLINKED_SESSIONS: usize = 50;
/// The most transitions kept per session.
pub const MAX_TRANSITIONS: usize = 100;
pub const MAX_ID_LENGTH: usize = 256;
pub const MAX_CWD_LENGTH: usize = 4096;
pub const MAX_AGENT_TYPE_LENGTH: usize = 256;

#[derive(Clone, Copy, Debug, PartialEq, Eq, Structural)]
pub enum LifecycleState {
    Running,
    Stopped,
    Unknown,
}

#[derive(Clone, Copy, Debug, PartialEq, Eq, Structural)]
pub enum TransitionKind {
    SessionStarted,
    SessionStopped,
    SessionUnknown,
    SubagentStarted,
    SubagentStopped,
    SubagentUnknown,
}

#[derive(Clone, Debug, PartialEq, Eq)]
pub struct CodexAgent {
    pub agent_id: String,
    pub agent_type: String,
    pub state: LifecycleState,
    pub first_seen_at: UnixMicros,
    pub last_seen_at: UnixMicros,
}

#[derive(Clone, Debug, PartialEq, Eq)]
pub struct CodexTransition {
    pub kind: TransitionKind,
    pub agent_id: Option<String>,
    pub agent_type: Option<String>,
    pub observed_at: UnixMicros,
}

#[derive(Clone, Debug, PartialEq, Eq)]
pub struct CodexSession {
    pub session_id: String,
    pub cwd: String,
    pub linked_project_id: Option<u128>,
    pub state: LifecycleState,
    pub first_seen_at: UnixMicros,
    pub last_seen_at: UnixMicros,
    pub agents: Vec<CodexAgent>,
    pub transitions: Vec<CodexTransition>,
}

#[derive(Clone, Debug, PartialEq, Eq)]
pub struct CodexMonitoringSnapshot {
    pub detected_sessions: Vec<CodexSession>,
    pub linked_sessions: Vec<CodexSession>,
}

/// A lifecycle event reported by a Codex hook.
#[derive(Clone, Debug)]
pub enum CodexHookEvent {
    SessionStart { session_id: String, cwd: String },
    SessionEnd { session_id: String, cwd: String },
    SubagentStart { session_id: String, cwd: String, agent_id: String, agent_type: String },
    SubagentStop { session_id: String, cwd: String, agent_id: String, agent_type: String },
}

/// Why a monitoring operation was refused.
#[derive(Clone, Debug)]
pub enum CodexMonitorError {
    Io(String),
    Json(String),
    UnsupportedVersion(u8),
    Validation(String),
    UnknownSession(String),
    AlreadyLinked { session_id: String },
}

/// The persisted monitoring data.
#[derive(Clone, Debug)]
pub struct CodexMonitorData {
    pub version: u8,
    pub sessions: Vec<CodexSession>,
}

// ---------------------------------------------------------------------------
// Models

pub struct AgentModel {
    pub agent_id: Seq<char>,
    pub agent_type: Seq<char>,
    pub state: LifecycleState,
    pub first_seen_at: UnixMicros,
    pub last_seen_at: UnixMicros,
}

pub struct TransitionModel {
    pub kind: TransitionKind,
    pub agent_id: Option<Seq<char>>,
    pub agent_type: Option<Seq<char>>,
    pub observed_at: UnixMicros,
}

pub struct SessionModel {
    pub session_id: Seq<char>,
    pub cwd: Seq<char>,
    pub linked_project_id: Option<u128>,
    pub state: LifecycleState,
    pub first_seen_at: UnixMicros,
    pub last_seen_at: UnixMicros,
    pub agents: Seq<AgentModel>,
    pub transitions: Seq<TransitionModel>,
}

impl View for CodexAgent {
    type V = AgentModel;

    open spec fn view(&self) -> AgentModel {
        AgentModel {
            agent_id: self.agent_id@,
            agent_type: self.agent_type@,
            state: self.state,
            first_seen_at: self.first_seen_at,
            last_seen_at: self.last_seen_at,
        }
    }
}

impl View for CodexTransition {
    type V = TransitionModel;

    open spec fn view(&self) -> TransitionModel {
        TransitionModel {
            kind: self.kind,
            agent_id: crate::models::opt_str(self.agent_id),
            agent_type: crate::models::opt_str(self.agent_type),
            observed_at: self.observed_at,
        }
    }
}

pub open spec fn agent_views(v: Seq<CodexAgent>) -> Seq<AgentModel> {
    v.map_values(|a: CodexAgent| a@)
}

pub open spec fn transition_views(v: Seq<CodexTransition>) -> Seq<TransitionModel> {
    v.map_values(|t: CodexTransition| t@)
}

impl View for CodexSession {
    type V = SessionModel;

    open spec fn view(&self) -> SessionModel {
        SessionModel {
            session_id: self.session_id@,
            cwd: self.cwd@,
            linked_project_id: self.linked_project_id,
            state: self.state,
            first_seen_at: self.first_seen_at,
            last_seen_at: self.last_seen_at,
            agents: agent_views(self.agents@),
            transitions: transition_views(self.transitions@),
        }
    }
}

pub open spec fn session_views(v: Seq<CodexSession>) -> Seq<SessionModel> {
    v.map_values(|s: CodexSession| s@)
}

impl CodexAgent {
    pub fn duplicate(&self) -> (r: CodexAgent)
        ensures
            r@ == self@,
    {
        CodexAgent {
            agent_id: self.agent_id.clone(),
            agent_type: self.agent_type.clone(),
            state: self.state,
            first_seen_at: self.first_seen_at,
            last_seen_at: self.last_seen_at,
        }
    }
}

impl CodexTransition {
    pub fn duplicate(&self) -> (r: CodexTransition)
        ensures
            r@ == self@,
    {
        CodexTransition {
            kind: self.kind,
            agent_id: crate::models::clone_opt(&self.agent_id),
            agent_type: crate::models::clone_opt(&self.agent_type),
            observed_at: self.observed_at,
        }
    }
}

fn clone_agents(v: &Vec<CodexAgent>) -> (r: Vec<CodexAgent>)
    ensures
        agent_views(r@) == agent_views(v@),
{
    let mut out: Vec<CodexAgent> = Vec::new();
    let mut i: usize = 0;
    while i < v.len()
        invariant
            i <= v@.len(),
            agent_views(out@) =~= agent_views(v@).subrange(0, i as int),
        decreases v@.len() - i,
    {
        let ghost before = agent_views(out@);
        out.push(v[i].duplicate());
        assert(agent_views(out@) =~= before.push(v@[i as int]@));
        i += 1;
    }
    out
}

fn clone_transitions(v: &Vec<CodexTransition>) -> (r: Vec<CodexTransition>)
    ensures
        transition_views(r@) == transition_views(v@),
{
    let mut out: Vec<CodexTransition> = Vec::new();
    let mut i: usize = 0;
    while i < v.len()
        invariant
            i <= v@.len(),
            transition_views(out@) =~= transition_views(v@).subrange(0, i as int),
        decreases v@.len() - i,
    {
        let ghost before = transition_views(out@);
        out.push(v[i].duplicate());
        assert(transition_views(out@) =~= before.push(v@[i as int]@));
        i += 1;
    }
    out
}

impl CodexSession {
    pub fn duplicate(&self) -> (r: CodexSession)
        ensures
            r@ == self@,
    {
        CodexSession {
            session_id: self.session_id.clone(),
            cwd: self.cwd.clone(),
            linked_project_id: self.linked_project_id,
            state: self.state,
            first_seen_at: self.first_seen_at,
            last_seen_at: self.last_seen_at,
            agents: clone_agents(&self.agents),
            transitions: clone_transitions(&self.transitions),
        }
    }
}

// ---------------------------------------------------------------------------
// Event validation

/// A hook text must be non-blank, hold no control characters, and be at most
/// `max` UTF-8 bytes.
pub open spec fn valid_text(value: Seq<char>, max: nat) -> bool {
    &&& !is_blank(value)
    &&& utf8_len(value) <= max
    &&& forall|i: int| 0 <= i < value.len() ==> !is_control(#[trigger] value[i])
}

pub open spec fn invalid_text_message(name: Seq<char>, max: nat) -> Seq<char> {
    name + " must be non-empty, contain no control characters, and be at most "@ + crate::text::decimal(max)
        + " bytes"@
}

/// `validate_text`.
pub fn validate_text(name: &str, value: &str, max: usize) -> (r: Result<(), CodexMonitorError>)
    requires
        max <= 4096,
    ensures
        r is Ok <==> valid_text(value@, max as nat),
        r is Err ==> r->Err_0 is Validation && r->Err_0->Validation_0@ == invalid_text_message(name@, max as nat),
{
    let v = chars_of(value);
    let mut ok = !is_blank_exec(&v) && crate::history::utf8_len_capped(&v, max + 1) <= max;
    let mut i: usize = 0;
    while i < v.len()
        invariant
            i <= v@.len(),
            v@ == value@,
            ok ==> forall|j: int| 0 <= j < i ==> !is_control(#[trigger] v@[j]),
            ok ==> !is_blank(value@) && utf8_len(value@) <= max,
            !ok ==> !valid_text(value@, max as nat),
        decreases v@.len() - i,
    {
        let c = v[i];
        if ('\u{0}' <= c && c <= '\u{1f}') || ('\u{7f}' <= c && c <= '\u{9f}') {
            assert(is_control(v@[i as int]));
            ok = false;
        }
        i += 1;
    }
    if ok {
        Ok(())
    } else {
        let mut m = lit(name);
        push_str(&mut m, " must be non-empty, contain no control characters, and be at most ");
        push_all(&mut m, &crate::text::decimal_exec(max as u64));
        push_str(&mut m, " bytes");
        Err(CodexMonitorError::Validation(string_of(&m)))
    }
}

/// The first invalid text of an event, in the order session, cwd, agent ID,
/// agent type, with its field name and limit.
pub open spec fn event_refusal(e: CodexHookEvent) -> Option<Seq<char>> {
    let (sid, cwd, agent) = match e {
        CodexHookEvent::SessionStart { session_id, cwd } => (session_id@, cwd@, None),
        CodexHookEvent::SessionEnd { session_id, cwd } => (session_id@, cwd@, None),
        CodexHookEvent::SubagentStart { session_id, cwd, agent_id, agent_type } => (session_id@, cwd@, Some((agent_id@, agent_type@))),
        CodexHookEvent::SubagentStop { session_id, cwd, agent_id, agent_type } => (session_id@, cwd@, Some((agent_id@, agent_type@))),
    };
    if !valid_text(sid, 256) {
        Some(invalid_text_message("session_id"@, 256))
    } else if !valid_text(cwd, 4096) {
        Some(invalid_text_message("cwd"@, 4096))
    } else {
        match agent {
            Some((aid, atype)) => if !valid_text(aid, 256) {
                Some(invalid_text_message("agent_id"@, 256))
            } else if !valid_text(atype, 256) {
                Some(invalid_text_message("agent_type"@, 256))
            } else {
                None
            },
            None => None,
        }
    }
}

/// `validate_event`.
pub fn validate_event(event: &CodexHookEvent) -> (r: Result<(), CodexMonitorError>)
    ensures
        r is Ok <==> event_refusal(*event) is None,
        r is Err ==> r->Err_0 is Validation && r->Err_0->Validation_0@ == event_refusal(*event).unwrap(),
{
    let (session_id, cwd, agent) = match event {
        CodexHookEvent::SessionStart { session_id, cwd } => (session_id, cwd, None),
        CodexHookEvent::SessionEnd { session_id, cwd } => (session_id, cwd, None),
        CodexHookEvent::SubagentStart { session_id, cwd, agent_id, agent_type } => (session_id, cwd, Some((agent_id, agent_type))),
        CodexHookEvent::SubagentStop { session_id, cwd, agent_id, agent_type } => (session_id, cwd, Some((agent_id, agent_type))),
    };
    match validate_text("session_id", session_id.as_str(), MAX_ID_LENGTH) {
        Err(e) => { return Err(e); },
        Ok(()) => {},
    }
    match validate_text("cwd", cwd.as_str(), MAX_CWD_LENGTH) {
        Err(e) => { return Err(e); },
        Ok(()) => {},
    }
    match agent {
        Some((agent_id, agent_type)) => {
            match validate_text("agent_id", agent_id.as_str(), MAX_ID_LENGTH) {
                Err(e) => { return Err(e); },
                Ok(()) => {},
            }
            validate_text("agent_type", agent_type.as_str(), MAX_AGENT_TYPE_LENGTH)
        },
        None => Ok(()),
    }
}

// ---------------------------------------------------------------------------
// Transition history

/// The history with `t` appended, keeping only the newest `MAX_TRANSITIONS`.
pub open spec fn pushed(ts: Seq<TransitionModel>, t: TransitionModel) -> Seq<TransitionModel> {
    let p = ts.push(t);
    if p.len() > 100 {
        p.subrange(p.len() - 100, p.len() as int)
    } else {
        p
    }
}

/// `push_transition`.
pub fn push_transition(
    session: &mut CodexSession,
    kind: TransitionKind,
    agent_id: Option<String>,
    agent_type: Option<String>,
    observed_at: UnixMicros,
)
    ensures
        final(session)@ == (SessionModel {
            transitions: pushed(
                old(session)@.transitions,
                TransitionModel {
                    kind,
                    agent_id: crate::models::opt_str(agent_id),
                    agent_type: crate::models::opt_str(agent_type),
                    observed_at,
                },
            ),
            ..old(session)@
        }),
{
    let t = CodexTransition { kind, agent_id, agent_type, observed_at };
    let ghost before = transition_views(session.transitions@);
    let mut ts: Vec<CodexTransition> = Vec::new();
    std::mem::swap(&mut ts, &mut session.transitions);
    ts.push(t);
    let ghost p = before.push(t@);
    assert(transition_views(ts@) =~= p);
    if ts.len() > MAX_TRANSITIONS {
        let excess: usize = ts.len() - MAX_TRANSITIONS;
        let mut kept: Vec<CodexTransition> = Vec::new();
        let mut i: usize = excess;
        while i < ts.len()
            invariant
                excess <= i <= ts@.len(),
                transition_views(ts@) == p,
                transition_views(kept@) =~= p.subrange(excess as int, i as int),
            decreases ts@.len() - i,
        {
            let ghost kb = transition_views(kept@);
            kept.push(ts[i].duplicate());
            assert(transition_views(kept@) =~= kb.push(p[i as int]));
            i += 1;
        }
        session.transitions = kept;
    } else {
        session.transitions = ts;
    }
}


// ---------------------------------------------------------------------------
// Lifecycle of one session

pub open spec fn session_transition(kind: TransitionKind, now: UnixMicros) -> TransitionModel {
    TransitionModel { kind, agent_id: None, agent_type: None, observed_at: now }
}

pub open spec fn agent_transition(kind: TransitionKind, agent_id: Seq<char>, agent_type: Seq<char>, now: UnixMicros) -> TransitionModel {
    TransitionModel { kind, agent_id: Some(agent_id), agent_type: Some(agent_type), observed_at: now }
}

/// The IDs and types of the running agents, in order.
pub open spec fn running_agents(agents: Seq<AgentModel>) -> Seq<(Seq<char>, Seq<char>)>
    decreases agents.len(),
{
    if agents.len() == 0 {
        Seq::empty()
    } else if agents.last().state == LifecycleState::Running {
        running_agents(agents.drop_last()).push((agents.last().agent_id, agents.last().agent_type))
    } else {
        running_agents(agents.drop_last())
    }
}

/// The history after one `SubagentUnknown` transition per listed agent, in order.
pub open spec fn push_unknowns(ts: Seq<TransitionModel>, list: Seq<(Seq<char>, Seq<char>)>, now: UnixMicros) -> Seq<TransitionModel>
    decreases list.len(),
{
    if list.len() == 0 {
        ts
    } else {
        pushed(
            push_unknowns(ts, list.drop_last(), now),
            agent_transition(TransitionKind::SubagentUnknown, list.last().0, list.last().1, now),
        )
    }
}

pub open spec fn agent_now_unknown(a: AgentModel, now: UnixMicros, touch: bool) -> AgentModel {
    if a.state == LifecycleState::Running {
        AgentModel { state: LifecycleState::Unknown, last_seen_at: if touch { now } else { a.last_seen_at }, ..a }
    } else {
        a
    }
}

/// Running agents become unknown (seen `now` where `touch`), each with a
/// `SubagentUnknown` transition.
pub open spec fn agents_unknown(s: SessionModel, now: UnixMicros, touch: bool) -> SessionModel {
    SessionModel {
        agents: s.agents.map_values(|a: AgentModel| agent_now_unknown(a, now, touch)),
        transitions: push_unknowns(s.transitions, running_agents(s.agents), now),
        ..s
    }
}

/// A session start: a session not running becomes running.
pub open spec fn session_started(s: SessionModel, now: UnixMicros) -> SessionModel {
    if s.state != LifecycleState::Running {
        SessionModel {
            state: LifecycleState::Running,
            transitions: pushed(s.transitions, session_transition(TransitionKind::SessionStarted, now)),
            ..s
        }
    } else {
        s
    }
}

/// A session end: the session stops and its running agents become unknown.
pub open spec fn session_ended(s: SessionModel, now: UnixMicros) -> SessionModel {
    let s1 = if s.state != LifecycleState::Stopped {
        SessionModel {
            state: LifecycleState::Stopped,
            transitions: pushed(s.transitions, session_transition(TransitionKind::SessionStopped, now)),
            ..s
        }
    } else {
        s
    };
    agents_unknown(s1, now, true)
}

/// The first agent, from `i` on, with this ID.
pub open spec fn agent_index(agents: Seq<AgentModel>, id: Seq<char>, i: int) -> Option<int>
    decreases agents.len() - i,
{
    if i < 0 || i >= agents.len() {
        None
    } else if agents[i].agent_id == id {
        Some(i)
    } else {
        agent_index(agents, id, i + 1)
    }
}

pub open spec fn new_agent(id: Seq<char>, agent_type: Seq<char>, state: LifecycleState, now: UnixMicros) -> AgentModel {
    AgentModel { agent_id: id, agent_type, state, first_seen_at: now, last_seen_at: now }
}

/// A subagent start: a stopped agent stays stopped (stops are terminal); an
/// agent not yet running starts; a new agent is recorded as running. A
/// session that has not stopped is running.
pub open spec fn subagent_started(s: SessionModel, id: Seq<char>, agent_type: Seq<char>, now: UnixMicros) -> SessionModel {
    let s1 = if s.state != LifecycleState::Stopped { SessionModel { state: LifecycleState::Running, ..s } } else { s };
    match agent_index(s1.agents, id, 0) {
        Some(k) => {
            let a = s1.agents[k];
            if a.state == LifecycleState::Stopped {
                s1
            } else if a.state != LifecycleState::Running {
                SessionModel {
                    agents: s1.agents.update(k, AgentModel { state: LifecycleState::Running, last_seen_at: now, ..a }),
                    transitions: pushed(s1.transitions, agent_transition(TransitionKind::SubagentStarted, id, agent_type, now)),
                    ..s1
                }
            } else {
                SessionModel { agents: s1.agents.update(k, AgentModel { last_seen_at: now, ..a }), ..s1 }
            }
        },
        None => SessionModel {
            agents: s1.agents.push(new_agent(id, agent_type, LifecycleState::Running, now)),
            transitions: pushed(s1.transitions, agent_transition(TransitionKind::SubagentStarted, id, agent_type, now)),
            ..s1
        },
    }
}

/// A subagent stop: the agent is stopped, with a transition unless it
/// already was; an unseen agent is recorded as stopped.
pub open spec fn subagent_stopped(s: SessionModel, id: Seq<char>, agent_type: Seq<char>, now: UnixMicros) -> SessionModel {
    match agent_index(s.agents, id, 0) {
        Some(k) => {
            let a = s.agents[k];
            if a.state != LifecycleState::Stopped {
                SessionModel {
                    agents: s.agents.update(k, AgentModel { state: LifecycleState::Stopped, last_seen_at: now, ..a }),
                    transitions: pushed(s.transitions, agent_transition(TransitionKind::SubagentStopped, id, agent_type, now)),
                    ..s
                }
            } else {
                SessionModel { agents: s.agents.update(k, AgentModel { last_seen_at: now, ..a }), ..s }
            }
        },
        None => SessionModel {
            agents: s.agents.push(new_agent(id, agent_type, LifecycleState::Stopped, now)),
            transitions: pushed(s.transitions, agent_transition(TransitionKind::SubagentStopped, id, agent_type, now)),
            ..s
        },
    }
}

fn agent_index_exec(agents: &Vec<CodexAgent>, id: &String) -> (r: Option<usize>)
    ensures
        match r {
            Some(k) => k < agents@.len() && agent_index(agent_views(agents@), id@, 0) == Some(k as int),
            None => agent_index(agent_views(agents@), id@, 0) is None,
        },
{
    let ghost av = agent_views(agents@);
    let mut i: usize = 0;
    while i < agents.len()
        invariant
            i <= agents@.len(),
            av == agent_views(agents@),
            agent_index(av, id@, i as int) == agent_index(av, id@, 0),
        decreases agents@.len() - i,
    {
        assert(av[i as int] == agents@[i as int]@);
        if agents[i].agent_id == *id {
            return Some(i);
        }
        i += 1;
    }
    None
}

/// Marks running agents unknown and records a transition for each.
fn mark_agents_unknown(session: &mut CodexSession, now: UnixMicros, touch: bool)
    ensures
        final(session)@ == agents_unknown(old(session)@, now, touch),
{
    let ghost s0 = session@;
    let mut agents: Vec<CodexAgent> = Vec::new();
    std::mem::swap(&mut agents, &mut session.agents);
    let ghost av = agent_views(agents@);
    let mut updated: Vec<CodexAgent> = Vec::new();
    let mut unknown: Vec<(String, String)> = Vec::new();
    let mut i: usize = 0;
    while i < agents.len()
        invariant
            i <= agents@.len(),
            av == agent_views(agents@),
            agent_views(updated@) =~= av.subrange(0, i as int).map_values(|a: AgentModel| agent_now_unknown(a, now, touch)),
            unknown@.map_values(|p: (String, String)| (p.0@, p.1@)) =~= running_agents(av.subrange(0, i as int)),
        decreases agents@.len() - i,
    {
        assert(av.subrange(0, i + 1).drop_last() == av.subrange(0, i as int));
        assert(av.subrange(0, i + 1).last() == agents@[i as int]@);
        let mut a = agents[i].duplicate();
        if a.state == LifecycleState::Running {
            let ghost ub = unknown@.map_values(|p: (String, String)| (p.0@, p.1@));
            unknown.push((a.agent_id.clone(), a.agent_type.clone()));
            assert(unknown@.map_values(|p: (String, String)| (p.0@, p.1@)) =~= ub.push((a@.agent_id, a@.agent_type)));
            a.state = LifecycleState::Unknown;
            if touch {
                a.last_seen_at = now;
            }
        }
        let ghost before = agent_views(updated@);
        updated.push(a);
        assert(agent_views(updated@) =~= before.push(agent_now_unknown(agents@[i as int]@, now, touch)));
        i += 1;
    }
    assert(av.subrange(0, av.len() as int) == av);
    session.agents = updated;
    let ghost list = running_agents(av);
    let mut k: usize = 0;
    while k < unknown.len()
        invariant
            k <= unknown@.len(),
            unknown@.map_values(|p: (String, String)| (p.0@, p.1@)) == list,
            list == running_agents(s0.agents),
            session@ == (SessionModel {
                agents: s0.agents.map_values(|a: AgentModel| agent_now_unknown(a, now, touch)),
                transitions: push_unknowns(s0.transitions, list.subrange(0, k as int), now),
                ..s0
            }),
        decreases unknown@.len() - k,
    {
        assert(list.subrange(0, k + 1).drop_last() == list.subrange(0, k as int));
        assert(list.subrange(0, k + 1).last() == (unknown@[k as int].0@, unknown@[k as int].1@));
        push_transition(
            session,
            TransitionKind::SubagentUnknown,
            Some(unknown[k].0.clone()),
            Some(unknown[k].1.clone()),
            now,
        );
        k += 1;
    }
    assert(list.subrange(0, list.len() as int) == list);
}

fn start_session(session: &mut CodexSession, now: UnixMicros)
    ensures
        final(session)@ == session_started(old(session)@, now),
{
    if session.state != LifecycleState::Running {
        session.state = LifecycleState::Running;
        push_transition(session, TransitionKind::SessionStarted, None, None, now);
    }
}

fn end_session(session: &mut CodexSession, now: UnixMicros)
    ensures
        final(session)@ == session_ended(old(session)@, now),
{
    if session.state != LifecycleState::Stopped {
        session.state = LifecycleState::Stopped;
        push_transition(session, TransitionKind::SessionStopped, None, None, now);
    }
    mark_agents_unknown(session, now, true);
}

fn start_agent(session: &mut CodexSession, agent_id: &String, agent_type: &String, now: UnixMicros)
    ensures
        final(session)@ == subagent_started(old(session)@, agent_id@, agent_type@, now),
{
    if session.state != LifecycleState::Stopped {
        session.state = LifecycleState::Running;
    }
    match agent_index_exec(&session.agents, agent_id) {
        Some(k) => {
            let mut a = session.agents[k].duplicate();
            if a.state == LifecycleState::Stopped {
            } else if a.state != LifecycleState::Running {
                a.last_seen_at = now;
                a.state = LifecycleState::Running;
                let ghost before = agent_views(session.agents@);
                session.agents.set(k, a);
                assert(agent_views(session.agents@) =~= before.update(k as int, a@));
                push_transition(session, TransitionKind::SubagentStarted, Some(agent_id.clone()), Some(agent_type.clone()), now);
            } else {
                a.last_seen_at = now;
                let ghost before = agent_views(session.agents@);
                session.agents.set(k, a);
                assert(agent_views(session.agents@) =~= before.update(k as int, a@));
            }
        },
        None => {
            let ghost before = agent_views(session.agents@);
            session.agents.push(CodexAgent {
                agent_id: agent_id.clone(),
                agent_type: agent_type.clone(),
                state: LifecycleState::Running,
                first_seen_at: now,
                last_seen_at: now,
            });
            assert(agent_views(session.agents@) =~= before.push(new_agent(agent_id@, agent_type@, LifecycleState::Running, now)));
            push_transition(session, TransitionKind::SubagentStarted, Some(agent_id.clone()), Some(agent_type.clone()), now);
        },
    }
}

fn stop_agent(session: &mut CodexSession, agent_id: &String, agent_type: &String, now: UnixMicros)
    ensures
        final(session)@ == subagent_stopped(old(session)@, agent_id@, agent_type@, now),
{
    match agent_index_exec(&session.agents, agent_id) {
        Some(k) => {
            let mut a = session.agents[k].duplicate();
            a.last_seen_at = now;
            if a.state != LifecycleState::Stopped {
                a.state = LifecycleState::Stopped;
                let ghost before = agent_views(session.agents@);
                session.agents.set(k, a);
                assert(agent_views(session.agents@) =~= before.update(k as int, a@));
                push_transition(session, TransitionKind::SubagentStopped, Some(agent_id.clone()), Some(agent_type.clone()), now);
            } else {
                let ghost before = agent_views(session.agents@);
                session.agents.set(k, a);
                assert(agent_views(session.agents@) =~= before.update(k as int, a@));
            }
        },
        None => {
            let ghost before = agent_views(session.agents@);
            session.agents.push(CodexAgent {
                agent_id: agent_id.clone(),
                agent_type: agent_type.clone(),
                state: LifecycleState::Stopped,
                first_seen_at: now,
                last_seen_at: now,
            });
            assert(agent_views(session.agents@) =~= before.push(new_agent(agent_id@, agent_type@, LifecycleState::Stopped, now)));
            push_transition(session, TransitionKind::SubagentStopped, Some(agent_id.clone()), Some(agent_type.clone()), now);
        },
    }
}


// ---------------------------------------------------------------------------
// The sessions

/// The first session, from `i` on, with this ID.
pub open spec fn session_index(ss: Seq<SessionModel>, id: Seq<char>, i: int) -> Option<int>
    decreases ss.len() - i,
{
    if i < 0 || i >= ss.len() {
        None
    } else if ss[i].session_id == id {
        Some(i)
    } else {
        session_index(ss, id, i + 1)
    }
}

pub open spec fn initial_kind(state: LifecycleState) -> TransitionKind {
    match state {
        LifecycleState::Running => TransitionKind::SessionStarted,
        LifecycleState::Stopped => TransitionKind::SessionStopped,
        LifecycleState::Unknown => TransitionKind::SessionUnknown,
    }
}

pub open spec fn new_session(id: Seq<char>, cwd: Seq<char>, now: UnixMicros, state: LifecycleState) -> SessionModel {
    SessionModel {
        session_id: id,
        cwd,
        linked_project_id: None,
        state,
        first_seen_at: now,
        last_seen_at: now,
        agents: Seq::empty(),
        transitions: seq![session_transition(initial_kind(state), now)],
    }
}

/// The sessions after an event for `id` was seen: an existing session takes
/// the event's working directory and time; an unseen one is recorded in the
/// event's initial state. Also the position of the session.
pub open spec fn seen(ss: Seq<SessionModel>, id: Seq<char>, cwd: Seq<char>, now: UnixMicros, state: LifecycleState) -> (Seq<SessionModel>, int) {
    match session_index(ss, id, 0) {
        Some(k) => (ss.update(k, SessionModel { cwd, last_seen_at: now, ..ss[k] }), k),
        None => (ss.push(new_session(id, cwd, now, state)), ss.len() as int),
    }
}

pub open spec fn is_unlinked(s: SessionModel) -> bool {
    s.linked_project_id is None
}

/// The number of unlinked sessions among the first `n`.
pub open spec fn unlinked_count(ss: Seq<SessionModel>, n: int) -> nat
    decreases n,
{
    if n <= 0 {
        0
    } else {
        unlinked_count(ss, n - 1) + if is_unlinked(ss[n - 1]) { 1nat } else { 0nat }
    }
}

/// Whether session `j` comes before session `i` when unlinked sessions are
/// ordered by when they were last seen, oldest first, ties in list order.
pub open spec fn seen_before(ss: Seq<SessionModel>, j: int, i: int) -> bool {
    ss[j].last_seen_at < ss[i].last_seen_at || (ss[j].last_seen_at == ss[i].last_seen_at && j < i)
}

/// The number of unlinked sessions among the first `n` seen before session `i`.
pub open spec fn older_count(ss: Seq<SessionModel>, i: int, n: int) -> nat
    decreases n,
{
    if n <= 0 {
        0
    } else {
        older_count(ss, i, n - 1) + if is_unlinked(ss[n - 1]) && seen_before(ss, n - 1, i) { 1nat } else { 0nat }
    }
}

/// Whether pruning drops session `i`: it is among the oldest unlinked
/// sessions beyond the newest `MAX_UNLINKED_SESSIONS`.
pub open spec fn pruned_away(ss: Seq<SessionModel>, i: int) -> bool {
    let total = unlinked_count(ss, ss.len() as int);
    &&& total > 50
    &&& is_unlinked(ss[i])
    &&& older_count(ss, i, ss.len() as int) < total - 50
}

/// The first `n` sessions that pruning keeps, in order.
pub open spec fn kept_upto(ss: Seq<SessionModel>, n: int) -> Seq<SessionModel>
    decreases n,
{
    if n <= 0 {
        Seq::empty()
    } else if pruned_away(ss, n - 1) {
        kept_upto(ss, n - 1)
    } else {
        kept_upto(ss, n - 1).push(ss[n - 1])
    }
}

/// `prune_unlinked`: only the newest `MAX_UNLINKED_SESSIONS` unlinked sessions remain.
pub open spec fn pruned(ss: Seq<SessionModel>) -> Seq<SessionModel> {
    kept_upto(ss, ss.len() as int)
}

/// The initial state a session takes when an event first reports it.
pub open spec fn event_initial_state(e: CodexHookEvent) -> LifecycleState {
    match e {
        CodexHookEvent::SessionStart { .. } => LifecycleState::Running,
        CodexHookEvent::SessionEnd { .. } => LifecycleState::Stopped,
        CodexHookEvent::SubagentStart { .. } => LifecycleState::Running,
        CodexHookEvent::SubagentStop { .. } => LifecycleState::Unknown,
    }
}

pub open spec fn event_session(e: CodexHookEvent) -> (Seq<char>, Seq<char>) {
    match e {
        CodexHookEvent::SessionStart { session_id, cwd } => (session_id@, cwd@),
        CodexHookEvent::SessionEnd { session_id, cwd } => (session_id@, cwd@),
        CodexHookEvent::SubagentStart { session_id, cwd, .. } => (session_id@, cwd@),
        CodexHookEvent::SubagentStop { session_id, cwd, .. } => (session_id@, cwd@),
    }
}

/// What an event does to its session.
pub open spec fn event_effect(e: CodexHookEvent, s: SessionModel, now: UnixMicros) -> SessionModel {
    match e {
        CodexHookEvent::SessionStart { .. } => session_started(s, now),
        CodexHookEvent::SessionEnd { .. } => session_ended(s, now),
        CodexHookEvent::SubagentStart { agent_id, agent_type, .. } => subagent_started(s, agent_id@, agent_type@, now),
        CodexHookEvent::SubagentStop { agent_id, agent_type, .. } => subagent_stopped(s, agent_id@, agent_type@, now),
    }
}

/// The sessions after a valid event observed at `now`, pruned.
pub open spec fn ingested(ss: Seq<SessionModel>, e: CodexHookEvent, now: UnixMicros) -> Seq<SessionModel> {
    let (id, cwd) = event_session(e);
    let (ss1, k) = seen(ss, id, cwd, now, event_initial_state(e));
    pruned(ss1.update(k, event_effect(e, ss1[k], now)))
}

/// After a restart, running sessions and agents are of unknown state.
/// Every session as a restart at `now` leaves it.
pub open spec fn restarted_all(ss: Seq<SessionModel>, now: UnixMicros) -> Seq<SessionModel> {
    ss.map_values(|s: SessionModel| restarted_session(s, now))
}

pub open spec fn restarted_session(s: SessionModel, now: UnixMicros) -> SessionModel {
    let s1 = if s.state == LifecycleState::Running {
        SessionModel {
            state: LifecycleState::Unknown,
            transitions: pushed(s.transitions, session_transition(TransitionKind::SessionUnknown, now)),
            ..s
        }
    } else {
        s
    };
    agents_unknown(s1, now, false)
}

pub open spec fn restart_changes(s: SessionModel) -> bool {
    s.state == LifecycleState::Running || running_agents(s.agents).len() > 0
}

/// Newest first; equal times keep their order.
pub open spec fn newest_pos_from(sorted: Seq<SessionModel>, x: SessionModel, i: int) -> int
    decreases sorted.len() - i,
{
    if i < 0 || i >= sorted.len() {
        sorted.len() as int
    } else if x.last_seen_at > sorted[i].last_seen_at {
        i
    } else {
        newest_pos_from(sorted, x, i + 1)
    }
}

pub proof fn lemma_newest_pos(sorted: Seq<SessionModel>, x: SessionModel, i: int)
    requires
        0 <= i <= sorted.len(),
    ensures
        i <= newest_pos_from(sorted, x, i) <= sorted.len(),
    decreases sorted.len() - i,
{
    if i < sorted.len() && !(x.last_seen_at > sorted[i].last_seen_at) {
        lemma_newest_pos(sorted, x, i + 1);
    }
}

/// The sessions that satisfy `keep`, newest first (a stable sort).
pub open spec fn newest_first(ss: Seq<SessionModel>, keep: spec_fn(SessionModel) -> bool) -> Seq<SessionModel>
    decreases ss.len(),
{
    if ss.len() == 0 {
        Seq::empty()
    } else {
        let sorted = newest_first(ss.drop_last(), keep);
        if keep(ss.last()) {
            sorted.insert(newest_pos_from(sorted, ss.last(), 0), ss.last())
        } else {
            sorted
        }
    }
}

pub open spec fn linked_to(project_id: u128) -> spec_fn(SessionModel) -> bool {
    |s: SessionModel| s.linked_project_id == Some(project_id)
}

pub open spec fn unlinked_filter() -> spec_fn(SessionModel) -> bool {
    |s: SessionModel| s.linked_project_id is None
}


fn unlinked_count_exec(sessions: &Vec<CodexSession>) -> (r: usize)
    ensures
        r as nat == unlinked_count(session_views(sessions@), sessions@.len() as int),
        r <= sessions@.len(),
{
    let ghost ss = session_views(sessions@);
    let mut n: usize = 0;
    let mut i: usize = 0;
    while i < sessions.len()
        invariant
            i <= sessions@.len(),
            ss == session_views(sessions@),
            n <= i,
            n as nat == unlinked_count(ss, i as int),
        decreases sessions@.len() - i,
    {
        assert(ss[i as int] == sessions@[i as int]@);
        if sessions[i].linked_project_id.is_none() {
            n += 1;
        }
        i += 1;
    }
    n
}

fn older_count_exec(sessions: &Vec<CodexSession>, i: usize) -> (r: usize)
    requires
        i < sessions@.len(),
    ensures
        r as nat == older_count(session_views(sessions@), i as int, sessions@.len() as int),
{
    let ghost ss = session_views(sessions@);
    let mut n: usize = 0;
    let mut j: usize = 0;
    while j < sessions.len()
        invariant
            j <= sessions@.len(),
            i < sessions@.len(),
            ss == session_views(sessions@),
            n <= j,
            n as nat == older_count(ss, i as int, j as int),
        decreases sessions@.len() - j,
    {
        assert(ss[j as int] == sessions@[j as int]@);
        assert(ss[i as int] == sessions@[i as int]@);
        if sessions[j].linked_project_id.is_none()
            && (sessions[j].last_seen_at < sessions[i].last_seen_at
                || (sessions[j].last_seen_at == sessions[i].last_seen_at && j < i))
        {
            n += 1;
        }
        j += 1;
    }
    n
}

/// The Codex monitoring data held in memory; the caller persists `data()`
/// after each change.
pub struct CodexMonitorStore {
    sessions: Vec<CodexSession>,
}

impl CodexMonitorStore {
    pub closed spec fn spec_sessions(&self) -> Seq<SessionModel> {
        session_views(self.sessions@)
    }

    /// The data to persist: the current version and a copy of the sessions.
    pub fn data(&self) -> (r: CodexMonitorData)
        ensures
            session_views(r.sessions@) == self.spec_sessions(),
            r.version == 1,
    {
        let mut sessions: Vec<CodexSession> = Vec::new();
        let mut i: usize = 0;
        while i < self.sessions.len()
            invariant
                i <= self.sessions@.len(),
                session_views(sessions@) =~= session_views(self.sessions@).subrange(0, i as int),
            decreases self.sessions@.len() - i,
        {
            let ghost before = session_views(sessions@);
            sessions.push(self.sessions[i].duplicate());
            assert(session_views(sessions@) =~= before.push(self.sessions@[i as int]@));
            i += 1;
        }
        assert(session_views(self.sessions@).subrange(0, self.sessions@.len() as int) == session_views(self.sessions@));
        CodexMonitorData { version: 1, sessions }
    }

    /// Loaded data after a restart at `now`: what was running is now of
    /// unknown state. Also whether anything changed.
    pub fn from_data_at(data: CodexMonitorData, now: UnixMicros) -> (r: Result<(CodexMonitorStore, bool), CodexMonitorError>)
        ensures
            data.version != 1 <==> r is Err,
            r is Err ==> r->Err_0 == CodexMonitorError::UnsupportedVersion(data.version),
            r is Ok ==> r->Ok_0.0.spec_sessions() == session_views(data.sessions@).map_values(|s: SessionModel| restarted_session(s, now))
                && (r->Ok_0.1 <==> exists|i: int| 0 <= i < data.sessions@.len() && restart_changes(#[trigger] session_views(data.sessions@)[i])),
    {
        if data.version != 1 {
            return Err(CodexMonitorError::UnsupportedVersion(data.version));
        }
        let ghost ss = session_views(data.sessions@);
        let mut out: Vec<CodexSession> = Vec::new();
        let mut changed = false;
        let mut i: usize = 0;
        while i < data.sessions.len()
            invariant
                i <= data.sessions@.len(),
                ss == session_views(data.sessions@),
                session_views(out@) =~= ss.subrange(0, i as int).map_values(|s: SessionModel| restarted_session(s, now)),
                changed <==> exists|j: int| 0 <= j < i && restart_changes(#[trigger] ss[j]),
            decreases data.sessions@.len() - i,
        {
            let mut s = data.sessions[i].duplicate();
            let ghost s0 = s@;
            assert(s0 == ss[i as int]);
            if s.state == LifecycleState::Running {
                s.state = LifecycleState::Unknown;
                push_transition(&mut s, TransitionKind::SessionUnknown, None, None, now);
                changed = true;
            }
            let ghost s1 = s@;
            let mut a: usize = 0;
            let mut any_agent = false;
            while a < s.agents.len()
                invariant
                    a <= s.agents@.len(),
                    any_agent <==> exists|m: int| 0 <= m < a && s.agents@[m].state == LifecycleState::Running,
                decreases s.agents@.len() - a,
            {
                if s.agents[a].state == LifecycleState::Running {
                    any_agent = true;
                }
                a += 1;
            }
            proof {
                lemma_running_agents_empty(s1.agents);
                assert(s1.agents == s0.agents);
                if any_agent {
                    let m = choose|m: int| 0 <= m < s.agents@.len() && s.agents@[m].state == LifecycleState::Running;
                    assert(s1.agents[m].state == LifecycleState::Running);
                }
            }
            if any_agent {
                changed = true;
            }
            mark_agents_unknown(&mut s, now, false);
            let ghost before = session_views(out@);
            out.push(s);
            assert(session_views(out@) =~= before.push(restarted_session(ss[i as int], now)));
            i += 1;
        }
        assert(ss.subrange(0, ss.len() as int) == ss);
        Ok((CodexMonitorStore { sessions: out }, changed))
    }

    /// `load`: loaded data after a restart now.
    pub fn from_data(data: CodexMonitorData) -> (r: Result<(CodexMonitorStore, bool), CodexMonitorError>)
        ensures
            data.version != 1 <==> r is Err,
            r is Err ==> r->Err_0 == CodexMonitorError::UnsupportedVersion(data.version),
            r is Ok ==> exists|now: UnixMicros|
                r->Ok_0.0.spec_sessions() == #[trigger] restarted_all(session_views(data.sessions@), now),
            r is Ok ==> (r->Ok_0.1 <==> exists|i: int| 0 <= i < data.sessions@.len() && restart_changes(#[trigger] session_views(data.sessions@)[i])),
    {
        let now = crate::registry::utc_now_micros();
        let r = Self::from_data_at(data, now);
        proof {
            if r is Ok {
                assert(r->Ok_0.0.spec_sessions() == restarted_all(session_views(data.sessions@), now));
            }
        }
        r
    }

    fn session_at(&mut self, id: &String, cwd: &String, now: UnixMicros, state: LifecycleState) -> (k: usize)
        ensures
            seen(old(self).spec_sessions(), id@, cwd@, now, state) == (final(self).spec_sessions(), k as int),
            k < final(self).spec_sessions().len(),
    {
        let ghost ss = self.spec_sessions();
        let mut i: usize = 0;
        while i < self.sessions.len()
            invariant
                i <= self.sessions@.len(),
                ss == session_views(self.sessions@),
                ss == old(self).spec_sessions(),
                session_index(ss, id@, i as int) == session_index(ss, id@, 0),
            decreases self.sessions@.len() - i,
        {
            assert(ss[i as int] == self.sessions@[i as int]@);
            if self.sessions[i].session_id == *id {
                let mut s = self.sessions.remove(i);
                s.cwd = cwd.clone();
                s.last_seen_at = now;
                self.sessions.insert(i, s);
                assert(self.spec_sessions() =~= ss.update(i as int, SessionModel { cwd: cwd@, last_seen_at: now, ..ss[i as int] }));
                return i;
            }
            i += 1;
        }
        let mut transitions: Vec<CodexTransition> = Vec::new();
        transitions.push(CodexTransition {
            kind: match state {
                LifecycleState::Running => TransitionKind::SessionStarted,
                LifecycleState::Stopped => TransitionKind::SessionStopped,
                LifecycleState::Unknown => TransitionKind::SessionUnknown,
            },
            agent_id: None,
            agent_type: None,
            observed_at: now,
        });
        let session = CodexSession {
            session_id: id.clone(),
            cwd: cwd.clone(),
            linked_project_id: None,
            state,
            first_seen_at: now,
            last_seen_at: now,
            agents: Vec::new(),
            transitions,
        };
        assert(session@.agents =~= Seq::<AgentModel>::empty());
        assert(session@.transitions =~= seq![session_transition(initial_kind(state), now)]);
        let k = self.sessions.len();
        self.sessions.push(session);
        assert(self.spec_sessions() =~= ss.push(new_session(id@, cwd@, now, state)));
        k
    }

    fn prune_unlinked(&mut self)
        ensures
            final(self).spec_sessions() == pruned(old(self).spec_sessions()),
    {
        let ghost ss = self.spec_sessions();
        let total = unlinked_count_exec(&self.sessions);
        let mut kept: Vec<CodexSession> = Vec::new();
        let mut i: usize = 0;
        while i < self.sessions.len()
            invariant
                i <= self.sessions@.len(),
                ss == session_views(self.sessions@),
                total as nat == unlinked_count(ss, ss.len() as int),
                total <= ss.len(),
                session_views(kept@) =~= kept_upto(ss, i as int),
            decreases self.sessions@.len() - i,
        {
            assert(ss[i as int] == self.sessions@[i as int]@);
            let away = total > MAX_UNLINKED_SESSIONS && self.sessions[i].linked_project_id.is_none()
                && older_count_exec(&self.sessions, i) < total - MAX_UNLINKED_SESSIONS;
            if !away {
                let ghost before = session_views(kept@);
                kept.push(self.sessions[i].duplicate());
                assert(session_views(kept@) =~= before.push(ss[i as int]));
            }
            i += 1;
        }
        self.sessions = kept;
    }

    /// `ingest` with the time given: applies a valid hook event, then prunes
    /// the oldest unlinked sessions.
    pub fn ingest_at(&mut self, event: CodexHookEvent, now: UnixMicros) -> (r: Result<(), CodexMonitorError>)
        ensures
            r is Err <==> event_refusal(event) is Some,
            r is Err ==> r->Err_0 is Validation && r->Err_0->Validation_0@ == event_refusal(event).unwrap()
                && final(self).spec_sessions() == old(self).spec_sessions(),
            r is Ok ==> final(self).spec_sessions() == ingested(old(self).spec_sessions(), event, now),
    {
        match validate_event(&event) {
            Err(e) => { return Err(e); },
            Ok(()) => {},
        }
        let ghost e0 = event;
        let state = match &event {
            CodexHookEvent::SessionStart { .. } => LifecycleState::Running,
            CodexHookEvent::SessionEnd { .. } => LifecycleState::Stopped,
            CodexHookEvent::SubagentStart { .. } => LifecycleState::Running,
            CodexHookEvent::SubagentStop { .. } => LifecycleState::Unknown,
        };
        let (session_id, cwd) = match &event {
            CodexHookEvent::SessionStart { session_id, cwd } => (session_id, cwd),
            CodexHookEvent::SessionEnd { session_id, cwd } => (session_id, cwd),
            CodexHookEvent::SubagentStart { session_id, cwd, .. } => (session_id, cwd),
            CodexHookEvent::SubagentStop { session_id, cwd, .. } => (session_id, cwd),
        };
        let k = self.session_at(session_id, cwd, now, state);
        let ghost ss1 = self.spec_sessions();
        let mut s = self.sessions.remove(k);
        assert(s@ == ss1[k as int]);
        match &event {
            CodexHookEvent::SessionStart { .. } => start_session(&mut s, now),
            CodexHookEvent::SessionEnd { .. } => end_session(&mut s, now),
            CodexHookEvent::SubagentStart { agent_id, agent_type, .. } => start_agent(&mut s, agent_id, agent_type, now),
            CodexHookEvent::SubagentStop { agent_id, agent_type, .. } => stop_agent(&mut s, agent_id, agent_type, now),
        }
        self.sessions.insert(k, s);
        assert(self.spec_sessions() =~= ss1.update(k as int, event_effect(e0, ss1[k as int], now)));
        self.prune_unlinked();
        Ok(())
    }

    /// `ingest`: applies a valid hook event observed now.
    pub fn ingest(&mut self, event: CodexHookEvent) -> (r: Result<(), CodexMonitorError>)
        ensures
            r is Err <==> event_refusal(event) is Some,
            r is Err ==> r->Err_0 is Validation && r->Err_0->Validation_0@ == event_refusal(event).unwrap()
                && final(self).spec_sessions() == old(self).spec_sessions(),
            r is Ok ==> exists|now: UnixMicros| final(self).spec_sessions() == #[trigger] ingested(old(self).spec_sessions(), event, now),
    {
        let now = crate::registry::utc_now_micros();
        let r = self.ingest_at(event, now);
        proof {
            if r is Ok {
                assert(final(self).spec_sessions() == ingested(old(self).spec_sessions(), event, now));
            }
        }
        r
    }
}

proof fn lemma_running_agents_empty(agents: Seq<AgentModel>)
    ensures
        running_agents(agents).len() > 0 <==> exists|m: int| 0 <= m < agents.len() && agents[m].state == LifecycleState::Running,
    decreases agents.len(),
{
    if agents.len() > 0 {
        lemma_running_agents_empty(agents.drop_last());
        if exists|m: int| 0 <= m < agents.len() && agents[m].state == LifecycleState::Running {
            let m = choose|m: int| 0 <= m < agents.len() && agents[m].state == LifecycleState::Running;
            if m < agents.len() - 1 {
                assert(agents.drop_last()[m].state == LifecycleState::Running);
            }
        }
        if exists|m: int| 0 <= m < agents.drop_last().len() && agents.drop_last()[m].state == LifecycleState::Running {
            let m = choose|m: int| 0 <= m < agents.drop_last().len() && agents.drop_last()[m].state == LifecycleState::Running;
            assert(agents[m].state == LifecycleState::Running);
        }
    }
}


impl CodexMonitorError {
    /// The text a user sees for the error.
    pub fn message(&self) -> (r: String)
        ensures
            r@ == match self {
                CodexMonitorError::Io(m) => "Unable to read or write Codex monitoring data: "@ + m@,
                CodexMonitorError::Json(m) => "The saved Codex monitoring data is invalid JSON: "@ + m@,
                CodexMonitorError::UnsupportedVersion(v) => "Unsupported Codex monitoring data version: "@ + crate::text::decimal(*v as nat),
                CodexMonitorError::Validation(m) => "The Codex hook event is invalid: "@ + m@,
                CodexMonitorError::UnknownSession(m) => "Unknown detected Codex session "@ + m@,
                CodexMonitorError::AlreadyLinked { session_id } => "Codex session "@ + session_id@ + " is already linked to another project"@,
            },
    {
        match self {
            CodexMonitorError::Io(m) => {
                let mut out = lit("Unable to read or write Codex monitoring data: ");
                push_str(&mut out, m.as_str());
                string_of(&out)
            },
            CodexMonitorError::Json(m) => {
                let mut out = lit("The saved Codex monitoring data is invalid JSON: ");
                push_str(&mut out, m.as_str());
                string_of(&out)
            },
            CodexMonitorError::UnsupportedVersion(v) => {
                let mut out = lit("Unsupported Codex monitoring data version: ");
                push_all(&mut out, &crate::text::decimal_exec(*v as u64));
                string_of(&out)
            },
            CodexMonitorError::Validation(m) => {
                let mut out = lit("The Codex hook event is invalid: ");
                push_str(&mut out, m.as_str());
                string_of(&out)
            },
            CodexMonitorError::UnknownSession(m) => {
                let mut out = lit("Unknown detected Codex session ");
                push_str(&mut out, m.as_str());
                string_of(&out)
            },
            CodexMonitorError::AlreadyLinked { session_id } => {
                let mut out = lit("Codex session ");
                push_str(&mut out, session_id.as_str());
                push_str(&mut out, " is already linked to another project");
                string_of(&out)
            },
        }
    }
}

/// The first session, from `i` on, with this ID and linked to this project.
pub open spec fn linked_index(ss: Seq<SessionModel>, id: Seq<char>, project_id: u128, i: int) -> Option<int>
    decreases ss.len() - i,
{
    if i < 0 || i >= ss.len() {
        None
    } else if ss[i].session_id == id && ss[i].linked_project_id == Some(project_id) {
        Some(i)
    } else {
        linked_index(ss, id, project_id, i + 1)
    }
}

/// The sessions not linked to the project, in order.
pub open spec fn without_project(ss: Seq<SessionModel>, project_id: u128) -> Seq<SessionModel>
    decreases ss.len(),
{
    if ss.len() == 0 {
        ss
    } else if ss.last().linked_project_id == Some(project_id) {
        without_project(ss.drop_last(), project_id)
    } else {
        without_project(ss.drop_last(), project_id).push(ss.last())
    }
}

fn sorted_newest_first(sessions: &Vec<CodexSession>, project: Option<u128>) -> (r: Vec<CodexSession>)
    ensures
        session_views(r@) == newest_first(
            session_views(sessions@),
            match project {
                Some(p) => linked_to(p),
                None => unlinked_filter(),
            },
        ),
{
    let ghost keep = match project {
        Some(p) => linked_to(p),
        None => unlinked_filter(),
    };
    let ghost ss = session_views(sessions@);
    let mut sorted: Vec<CodexSession> = Vec::new();
    let mut i: usize = 0;
    assert(ss.subrange(0, 0) =~= Seq::<SessionModel>::empty());
    assert(session_views(sorted@) =~= Seq::<SessionModel>::empty());
    while i < sessions.len()
        invariant
            i <= sessions@.len(),
            ss == session_views(sessions@),
            keep == (match project {
                Some(p) => linked_to(p),
                None => unlinked_filter(),
            }),
            session_views(sorted@) == newest_first(ss.subrange(0, i as int), keep),
        decreases sessions@.len() - i,
    {
        assert(ss.subrange(0, i + 1).drop_last() == ss.subrange(0, i as int));
        assert(ss.subrange(0, i + 1).last() == sessions@[i as int]@);
        let wanted = sessions[i].linked_project_id == project;
        assert(wanted == keep(sessions@[i as int]@));
        if wanted {
            let ghost sv = session_views(sorted@);
            let x = sessions[i].duplicate();
            let mut p: usize = 0;
            proof {
                lemma_newest_pos(sv, x@, 0);
            }
            while p < sorted.len() && !(x.last_seen_at > sorted[p].last_seen_at)
                invariant
                    p <= sorted@.len(),
                    sv == session_views(sorted@),
                    newest_pos_from(sv, x@, p as int) == newest_pos_from(sv, x@, 0),
                decreases sorted@.len() - p,
            {
                assert(sv[p as int] == sorted@[p as int]@);
                p += 1;
            }
            proof {
                if p < sorted@.len() {
                    assert(sv[p as int] == sorted@[p as int]@);
                }
            }
            assert(newest_pos_from(sv, x@, p as int) == p as int);
            sorted.insert(p, x);
            assert(session_views(sorted@) =~= sv.insert(p as int, sessions@[i as int]@));
        }
        i += 1;
    }
    assert(ss.subrange(0, ss.len() as int) == ss);
    sorted
}

impl CodexMonitorStore {
    /// `snapshot`: the unlinked sessions and the sessions linked to the
    /// project, each newest first.
    pub fn snapshot(&self, project_id: u128) -> (r: CodexMonitoringSnapshot)
        ensures
            session_views(r.detected_sessions@) == newest_first(self.spec_sessions(), unlinked_filter()),
            session_views(r.linked_sessions@) == newest_first(self.spec_sessions(), linked_to(project_id)),
    {
        CodexMonitoringSnapshot {
            detected_sessions: sorted_newest_first(&self.sessions, None),
            linked_sessions: sorted_newest_first(&self.sessions, Some(project_id)),
        }
    }

    /// `link`: links a detected session to a project; a session linked to
    /// another project stays as it is.
    pub fn link(&mut self, project_id: u128, session_id: &str) -> (r: Result<(), CodexMonitorError>)
        ensures
            match session_index(old(self).spec_sessions(), session_id@, 0) {
                None => r matches Err(CodexMonitorError::UnknownSession(m)) && m@ == session_id@
                    && final(self).spec_sessions() == old(self).spec_sessions(),
                Some(k) => if old(self).spec_sessions()[k].linked_project_id matches Some(other) && other != project_id {
                    r matches Err(CodexMonitorError::AlreadyLinked { session_id: m }) && m@ == session_id@
                        && final(self).spec_sessions() == old(self).spec_sessions()
                } else {
                    r is Ok && final(self).spec_sessions() == old(self).spec_sessions().update(
                        k,
                        SessionModel { linked_project_id: Some(project_id), ..old(self).spec_sessions()[k] },
                    )
                },
            },
    {
        let ghost ss = self.spec_sessions();
        let key = String::from_str(session_id);
        let mut i: usize = 0;
        while i < self.sessions.len()
            invariant
                i <= self.sessions@.len(),
                ss == session_views(self.sessions@),
                ss == old(self).spec_sessions(),
                key@ == session_id@,
                session_index(ss, session_id@, i as int) == session_index(ss, session_id@, 0),
            decreases self.sessions@.len() - i,
        {
            assert(ss[i as int] == self.sessions@[i as int]@);
            if self.sessions[i].session_id == key {
                match self.sessions[i].linked_project_id {
                    Some(other) => {
                        if other != project_id {
                            return Err(CodexMonitorError::AlreadyLinked { session_id: key });
                        }
                    },
                    None => {},
                }
                let mut s = self.sessions.remove(i);
                s.linked_project_id = Some(project_id);
                self.sessions.insert(i, s);
                assert(self.spec_sessions() =~= ss.update(i as int, SessionModel { linked_project_id: Some(project_id), ..ss[i as int] }));
                return Ok(());
            }
            i += 1;
        }
        Err(CodexMonitorError::UnknownSession(key))
    }

    /// `unlink`: the session linked to this project becomes detected again;
    /// the oldest unlinked sessions are then pruned.
    pub fn unlink(&mut self, project_id: u128, session_id: &str) -> (r: Result<(), CodexMonitorError>)
        ensures
            match linked_index(old(self).spec_sessions(), session_id@, project_id, 0) {
                None => r matches Err(CodexMonitorError::UnknownSession(m)) && m@ == session_id@
                    && final(self).spec_sessions() == old(self).spec_sessions(),
                Some(k) => r is Ok && final(self).spec_sessions() == pruned(old(self).spec_sessions().update(
                    k,
                    SessionModel { linked_project_id: None, ..old(self).spec_sessions()[k] },
                )),
            },
    {
        let ghost ss = self.spec_sessions();
        let key = String::from_str(session_id);
        let mut i: usize = 0;
        while i < self.sessions.len()
            invariant
                i <= self.sessions@.len(),
                ss == session_views(self.sessions@),
                ss == old(self).spec_sessions(),
                key@ == session_id@,
                linked_index(ss, session_id@, project_id, i as int) == linked_index(ss, session_id@, project_id, 0),
            decreases self.sessions@.len() - i,
        {
            assert(ss[i as int] == self.sessions@[i as int]@);
            if self.sessions[i].session_id == key && self.sessions[i].linked_project_id == Some(project_id) {
                let mut s = self.sessions.remove(i);
                s.linked_project_id = None;
                self.sessions.insert(i, s);
                assert(self.spec_sessions() =~= ss.update(i as int, SessionModel { linked_project_id: None, ..ss[i as int] }));
                self.prune_unlinked();
                return Ok(());
            }
            i += 1;
        }
        Err(CodexMonitorError::UnknownSession(key))
    }

    /// `remove_project`: drops the sessions linked to the project; whether
    /// any were dropped.
    pub fn remove_project(&mut self, project_id: u128) -> (changed: bool)
        ensures
            final(self).spec_sessions() == without_project(old(self).spec_sessions(), project_id),
            changed <==> final(self).spec_sessions().len() != old(self).spec_sessions().len(),
    {
        let ghost ss = self.spec_sessions();
        let mut kept: Vec<CodexSession> = Vec::new();
        let mut i: usize = 0;
        while i < self.sessions.len()
            invariant
                i <= self.sessions@.len(),
                ss == session_views(self.sessions@),
                session_views(kept@) =~= without_project(ss.subrange(0, i as int), project_id),
                kept@.len() <= i,
            decreases self.sessions@.len() - i,
        {
            assert(ss.subrange(0, i + 1).drop_last() == ss.subrange(0, i as int));
            assert(ss.subrange(0, i + 1).last() == self.sessions@[i as int]@);
            if self.sessions[i].linked_project_id != Some(project_id) {
                let ghost before = session_views(kept@);
                kept.push(self.sessions[i].duplicate());
                assert(session_views(kept@) =~= before.push(ss[i as int]));
            }
            i += 1;
        }
        assert(ss.subrange(0, ss.len() as int) == ss);
        let changed = kept.len() != self.sessions.len();
        self.sessions = kept;
        changed
    }
}


// ---------------------------------------------------------------------------
// Laws

/// A stopped subagent stays stopped: a later start leaves the agent and the
/// history as they were.
pub proof fn stops_are_terminal(s: SessionModel, id: Seq<char>, agent_type: Seq<char>, now: UnixMicros)
    requires
        agent_index(s.agents, id, 0) matches Some(k) && s.agents[k].state == LifecycleState::Stopped,
    ensures
        ({
            let k = agent_index(s.agents, id, 0).unwrap();
            let t = subagent_started(s, id, agent_type, now);
            &&& t.agents == s.agents
            &&& t.transitions == s.transitions
            &&& t.agents[k].state == LifecycleState::Stopped
        }),
{
}

/// A stop always leaves the agent stopped, whether or not it was seen before.
pub proof fn stop_leaves_agent_stopped(s: SessionModel, id: Seq<char>, agent_type: Seq<char>, now: UnixMicros)
    ensures
        ({
            let t = subagent_stopped(s, id, agent_type, now);
            agent_index(t.agents, id, 0) matches Some(k) && t.agents[k].state == LifecycleState::Stopped
        }),
{
    match agent_index(s.agents, id, 0) {
        Some(k) => {
            lemma_agent_index_found(s.agents, id, 0);
            lemma_agent_index_update(s.agents, id, k, 0);
            let a = s.agents[k];
            if a.state != LifecycleState::Stopped {
                let b = AgentModel { state: LifecycleState::Stopped, last_seen_at: now, ..a };
                assert(agent_index(s.agents.update(k, b), id, 0) == Some(k));
            } else {
                let b = AgentModel { last_seen_at: now, ..a };
                assert(agent_index(s.agents.update(k, b), id, 0) == Some(k));
            }
        },
        None => {
            lemma_agent_index_push(s.agents, id, new_agent(id, agent_type, LifecycleState::Stopped, now), 0);
        },
    }
}

proof fn lemma_agent_index_found(agents: Seq<AgentModel>, id: Seq<char>, i: int)
    requires
        0 <= i,
        agent_index(agents, id, i) matches Some(k),
    ensures
        agent_index(agents, id, i) matches Some(k) && i <= k < agents.len() && agents[k].agent_id == id
            && forall|j: int| i <= j < k ==> agents[j].agent_id != id,
    decreases agents.len() - i,
{
    if i < agents.len() && agents[i].agent_id != id {
        lemma_agent_index_found(agents, id, i + 1);
    }
}

proof fn lemma_agent_index_update(agents: Seq<AgentModel>, id: Seq<char>, k: int, i: int)
    requires
        0 <= i <= k,
        agent_index(agents, id, i) == Some(k),
    ensures
        forall|a: AgentModel| a.agent_id == id ==> agent_index(#[trigger] agents.update(k, a), id, i) == Some(k),
    decreases k - i,
{
    lemma_agent_index_found(agents, id, i);
    if i < k {
        lemma_agent_index_update(agents, id, k, i + 1);
    }
}

proof fn lemma_agent_index_push(agents: Seq<AgentModel>, id: Seq<char>, a: AgentModel, i: int)
    requires
        0 <= i <= agents.len(),
        agent_index(agents, id, i) is None,
        a.agent_id == id,
    ensures
        agent_index(agents.push(a), id, i) == Some(agents.len() as int),
    decreases agents.len() - i,
{
    if i < agents.len() {
        assert(agents.push(a)[i] == agents[i]);
        lemma_agent_index_push(agents, id, a, i + 1);
    }
}

/// Repeating the start of a running subagent records no new transition.
pub proof fn repeated_start_adds_no_transition(s: SessionModel, id: Seq<char>, agent_type: Seq<char>, now: UnixMicros)
    requires
        agent_index(s.agents, id, 0) matches Some(k) && s.agents[k].state == LifecycleState::Running,
    ensures
        subagent_started(s, id, agent_type, now).transitions == s.transitions,
{
}

pub open spec fn history_bounded(s: SessionModel) -> bool {
    s.transitions.len() <= 100
}

proof fn lemma_push_unknowns_bounded(ts: Seq<TransitionModel>, list: Seq<(Seq<char>, Seq<char>)>, now: UnixMicros)
    requires
        ts.len() <= 100,
    ensures
        push_unknowns(ts, list, now).len() <= 100,
    decreases list.len(),
{
    if list.len() > 0 {
        lemma_push_unknowns_bounded(ts, list.drop_last(), now);
    }
}

/// Every event keeps a session's transition history within
/// `MAX_TRANSITIONS` entries.
pub proof fn events_keep_history_bounded(e: CodexHookEvent, s: SessionModel, now: UnixMicros)
    requires
        history_bounded(s),
    ensures
        history_bounded(event_effect(e, s, now)),
{
    match e {
        CodexHookEvent::SessionEnd { .. } => {
            let s1 = if s.state != LifecycleState::Stopped {
                SessionModel {
                    state: LifecycleState::Stopped,
                    transitions: pushed(s.transitions, session_transition(TransitionKind::SessionStopped, now)),
                    ..s
                }
            } else {
                s
            };
            lemma_push_unknowns_bounded(s1.transitions, running_agents(s1.agents), now);
        },
        _ => {},
    }
}

proof fn lemma_seen_before_trans(ss: Seq<SessionModel>, a: int, b: int, c: int)
    requires
        seen_before(ss, a, b),
        seen_before(ss, b, c),
    ensures
        seen_before(ss, a, c),
{
}

/// A session seen before another is older than strictly fewer sessions.
proof fn lemma_older_strict(ss: Seq<SessionModel>, i: int, j: int, n: int)
    requires
        0 <= i < ss.len(),
        0 <= j < ss.len(),
        is_unlinked(ss[j]),
        seen_before(ss, j, i),
        0 <= n <= ss.len(),
    ensures
        older_count(ss, j, n) + (if j < n { 1int } else { 0int }) <= older_count(ss, i, n),
    decreases n,
{
    if n > 0 {
        lemma_older_strict(ss, i, j, n - 1);
        let k = n - 1;
        if is_unlinked(ss[k]) && seen_before(ss, k, j) {
            lemma_seen_before_trans(ss, k, j, i);
        }
    }
}

/// An unlinked session is older than fewer sessions than there are unlinked ones.
proof fn lemma_older_below(ss: Seq<SessionModel>, i: int, n: int)
    requires
        0 <= i < ss.len(),
        is_unlinked(ss[i]),
        0 <= n <= ss.len(),
    ensures
        older_count(ss, i, n) + (if i < n { 1int } else { 0int }) <= unlinked_count(ss, n),
    decreases n,
{
    if n > 0 {
        lemma_older_below(ss, i, n - 1);
    }
}

proof fn lemma_unlinked_push(s: Seq<SessionModel>, x: SessionModel, k: int)
    requires
        0 <= k <= s.len(),
    ensures
        unlinked_count(s.push(x), k) == unlinked_count(s, k),
    decreases k,
{
    if k > 0 {
        lemma_unlinked_push(s, x, k - 1);
        assert(s.push(x)[k - 1] == s[k - 1]);
    }
}

/// The unlinked sessions among the first `m` that pruning keeps.
pub open spec fn kept_unlinked(ss: Seq<SessionModel>, m: int) -> Set<int> {
    Set::new(|i: int| 0 <= i < m && is_unlinked(ss[i]) && !pruned_away(ss, i))
}

proof fn lemma_kept_count(ss: Seq<SessionModel>, m: int)
    requires
        0 <= m <= ss.len(),
    ensures
        kept_unlinked(ss, m).finite(),
        unlinked_count(kept_upto(ss, m), kept_upto(ss, m).len() as int) == kept_unlinked(ss, m).len(),
    decreases m,
{
    if m == 0 {
        assert(kept_unlinked(ss, m) =~= Set::<int>::empty());
    } else {
        lemma_kept_count(ss, m - 1);
        let prev = kept_upto(ss, m - 1);
        let before = kept_unlinked(ss, m - 1);
        let x = ss[m - 1];
        if pruned_away(ss, m - 1) {
            assert(kept_unlinked(ss, m) =~= before);
        } else {
            lemma_unlinked_push(prev, x, prev.len() as int);
            assert(prev.push(x)[prev.len() as int] == x);
            if is_unlinked(x) {
                assert(kept_unlinked(ss, m) =~= before.insert(m - 1));
                assert(!before.contains(m - 1));
            } else {
                assert(kept_unlinked(ss, m) =~= before);
            }
        }
    }
}

/// However many sessions were detected, pruning leaves at most
/// `MAX_UNLINKED_SESSIONS` of them that are not linked to a project.
pub proof fn pruning_keeps_at_most_fifty_unlinked(ss: Seq<SessionModel>)
    ensures
        unlinked_count(pruned(ss), pruned(ss).len() as int) <= 50,
{
    let n = ss.len() as int;
    let total = unlinked_count(ss, n) as int;
    lemma_kept_count(ss, n);
    let kept = kept_unlinked(ss, n);
    let lo: int = if total > 50 { total - 50 } else { 0 };
    let rank = |i: int| older_count(ss, i, n) as int;
    assert forall|a: int, b: int| kept.contains(a) && kept.contains(b) && #[trigger] rank(a) == #[trigger] rank(b)
        implies a == b by {
        if a != b {
            if seen_before(ss, b, a) {
                lemma_older_strict(ss, a, b, n);
            } else {
                assert(seen_before(ss, a, b));
                lemma_older_strict(ss, b, a, n);
            }
        }
    }
    assert(kept.subset_of(vstd::set_lib::set_int_range(0, n)));
    vstd::set_lib::lemma_int_range(0, n);
    vstd::set_lib::lemma_len_subset(kept, vstd::set_lib::set_int_range(0, n));
    let ranks = kept.map(rank);
    vstd::set_lib::lemma_map_size(kept, ranks, rank);
    assert forall|r: int| ranks.contains(r) implies lo <= r < total by {
        let i = choose|i: int| kept.contains(i) && rank(i) == r;
        lemma_older_below(ss, i, n);
    }
    assert(ranks.subset_of(vstd::set_lib::set_int_range(lo, total)));
    assert(lo <= total);
    vstd::set_lib::lemma_int_range(lo, total);
    vstd::set_lib::lemma_len_subset(ranks, vstd::set_lib::set_int_range(lo, total));
}


// ---------------------------------------------------------------------------
// What any run of accepted events keeps

/// Every session keeps at most 100 transitions.
pub open spec fn all_history_bounded(ss: Seq<SessionModel>) -> bool {
    forall|i: int| 0 <= i < ss.len() ==> history_bounded(#[trigger] ss[i])
}

/// Every linked session of `before` is still there, with the same link.
pub open spec fn linked_sessions_kept(before: Seq<SessionModel>, after: Seq<SessionModel>) -> bool {
    forall|i: int| 0 <= i < before.len() && !is_unlinked(#[trigger] before[i]) ==> exists|j: int|
        0 <= j < after.len() && after[j].session_id == before[i].session_id
            && after[j].linked_project_id == before[i].linked_project_id
}

pub(crate) proof fn lemma_session_index_range(ss: Seq<SessionModel>, id: Seq<char>, i: int)
    requires
        0 <= i,
    ensures
        session_index(ss, id, i) matches Some(k) ==> i <= k < ss.len(),
    decreases ss.len() - i,
{
    if i < ss.len() && ss[i].session_id != id {
        lemma_session_index_range(ss, id, i + 1);
    }
}

pub(crate) proof fn lemma_kept_upto(ss: Seq<SessionModel>, n: int)
    requires
        0 <= n <= ss.len(),
    ensures
        forall|j: int| 0 <= j < kept_upto(ss, n).len() ==> exists|i: int| 0 <= i < n && #[trigger] kept_upto(ss, n)[j] == ss[i],
        forall|i: int| 0 <= i < n && !is_unlinked(#[trigger] ss[i]) ==> kept_upto(ss, n).contains(ss[i]),
    decreases n,
{
    if n > 0 {
        lemma_kept_upto(ss, n - 1);
        let prev = kept_upto(ss, n - 1);
        let cur = kept_upto(ss, n);
        assert forall|j: int| 0 <= j < cur.len() implies exists|i: int| 0 <= i < n && #[trigger] cur[j] == ss[i] by {
            if j < prev.len() {
                assert(cur[j] == prev[j]);
                let i = choose|i: int| 0 <= i < n - 1 && prev[j] == ss[i];
                assert(cur[j] == ss[i]);
            } else {
                assert(cur[j] == ss[n - 1]);
            }
        }
        assert forall|i: int| 0 <= i < n && !is_unlinked(#[trigger] ss[i]) implies cur.contains(ss[i]) by {
            if i < n - 1 {
                let j = choose|j: int| 0 <= j < prev.len() && prev[j] == ss[i];
                if !pruned_away(ss, n - 1) {
                    assert(cur[j] == prev[j]);
                }
            } else {
                assert(!pruned_away(ss, n - 1));
                assert(cur[cur.len() - 1] == ss[i]);
            }
        }
    }
}

/// One accepted event keeps the store bounded: at most 50 unlinked
/// sessions, at most 100 transitions in each session, and every linked
/// session still there with its link.
pub proof fn ingest_keeps_the_store_bounded(ss: Seq<SessionModel>, e: CodexHookEvent, now: UnixMicros)
    requires
        all_history_bounded(ss),
    ensures
        unlinked_count(ingested(ss, e, now), ingested(ss, e, now).len() as int) <= 50,
        all_history_bounded(ingested(ss, e, now)),
        linked_sessions_kept(ss, ingested(ss, e, now)),
{
    let (id, cwd) = event_session(e);
    let (ss1, k) = seen(ss, id, cwd, now, event_initial_state(e));
    lemma_session_index_range(ss, id, 0);
    assert(0 <= k < ss1.len());
    assert(ss1.len() >= ss.len());
    assert forall|i: int| 0 <= i < ss1.len() implies history_bounded(#[trigger] ss1[i]) by {
        if i < ss.len() {
            assert(history_bounded(ss[i]));
        }
    }
    events_keep_history_bounded(e, ss1[k], now);
    let u = ss1.update(k, event_effect(e, ss1[k], now));
    assert(all_history_bounded(u));
    pruning_keeps_at_most_fifty_unlinked(u);
    lemma_kept_upto(u, u.len() as int);
    let r = pruned(u);
    assert(r == ingested(ss, e, now));
    assert forall|j: int| 0 <= j < r.len() implies history_bounded(#[trigger] r[j]) by {
        let i = choose|i: int| 0 <= i < u.len() && r[j] == u[i];
    }
    assert forall|i: int| 0 <= i < ss.len() && !is_unlinked(#[trigger] ss[i]) implies exists|j: int|
        0 <= j < r.len() && r[j].session_id == ss[i].session_id && r[j].linked_project_id == ss[i].linked_project_id by {
        assert(u[i].session_id == ss[i].session_id && u[i].linked_project_id == ss[i].linked_project_id);
        assert(!is_unlinked(u[i]));
        assert(r.contains(u[i]));
        let j = choose|j: int| 0 <= j < r.len() && r[j] == u[i];
    }
}

/// The sessions after accepted events, each with the time it was observed.
pub open spec fn ingested_all(ss: Seq<SessionModel>, events: Seq<(CodexHookEvent, UnixMicros)>) -> Seq<SessionModel>
    decreases events.len(),
{
    if events.len() == 0 {
        ss
    } else {
        ingested(ingested_all(ss, events.drop_last()), events.last().0, events.last().1)
    }
}

/// Any run of accepted events keeps the store bounded: after each event at
/// most 50 sessions are unlinked, every session keeps at most 100
/// transitions, and no linked session is ever dropped.
pub proof fn ingesting_any_events_keeps_the_store_bounded(ss: Seq<SessionModel>, events: Seq<(CodexHookEvent, UnixMicros)>)
    requires
        all_history_bounded(ss),
    ensures
        all_history_bounded(ingested_all(ss, events)),
        events.len() > 0 ==> unlinked_count(ingested_all(ss, events), ingested_all(ss, events).len() as int) <= 50,
        linked_sessions_kept(ss, ingested_all(ss, events)),
    decreases events.len(),
{
    if events.len() == 0 {
        assert forall|i: int| 0 <= i < ss.len() && !is_unlinked(#[trigger] ss[i]) implies exists|j: int|
            0 <= j < ss.len() && ss[j].session_id == ss[i].session_id && ss[j].linked_project_id == ss[i].linked_project_id by {
        }
    } else {
        let d = events.drop_last();
        ingesting_any_events_keeps_the_store_bounded(ss, d);
        let mid = ingested_all(ss, d);
        ingest_keeps_the_store_bounded(mid, events.last().0, events.last().1);
        let r = ingested_all(ss, events);
        assert forall|i: int| 0 <= i < ss.len() && !is_unlinked(#[trigger] ss[i]) implies exists|j: int|
            0 <= j < r.len() && r[j].session_id == ss[i].session_id && r[j].linked_project_id == ss[i].linked_project_id by {
            let m = choose|m: int| 0 <= m < mid.len() && mid[m].session_id == ss[i].session_id
                && mid[m].linked_project_id == ss[i].linked_project_id;
            assert(!is_unlinked(mid[m]));
        }
    }
}

} // verus!
