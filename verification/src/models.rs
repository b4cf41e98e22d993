//! Data types shared by the project-state, registry and Git modules, each with
//! a mathematical model (`View`) over sequences of characters.

use vstd::prelude::*;

verus! {

/// Microseconds since the Unix epoch (UTC).
pub type UnixMicros = i64;

#[derive(Clone, Copy, Debug, PartialEq, Eq, Structural)]
pub enum TodoPriority {
    Critical,
    High,
    Medium,
    Low,
}

impl TodoPriority {
    /// Sort rank: more urgent priorities come first.
    pub open spec fn spec_rank(self) -> u8 {
        match self {
            TodoPriority::Critical => 0,
            TodoPriority::High => 1,
            TodoPriority::Medium => 2,
            TodoPriority::Low => 3,
        }
    }

    pub fn rank(self) -> (r: u8)
        ensures
            r == self.spec_rank(),
    {
        match self {
            TodoPriority::Critical => 0,
            TodoPriority::High => 1,
            TodoPriority::Medium => 2,
            TodoPriority::Low => 3,
        }
    }
}

#[derive(Clone, Copy, Debug, PartialEq, Eq, PartialOrd, Ord, Hash, Structural)]
pub enum WorkCategory {
    Feature,
    Bugfix,
    Refactor,
    Test,
    Documentation,
    Research,
    Others,
}

impl WorkCategory {
    /// Position in the declared order, which is the order `Ord` compares by.
    pub open spec fn spec_index(self) -> u8 {
        match self {
            WorkCategory::Feature => 0,
            WorkCategory::Bugfix => 1,
            WorkCategory::Refactor => 2,
            WorkCategory::Test => 3,
            WorkCategory::Documentation => 4,
            WorkCategory::Research => 5,
            WorkCategory::Others => 6,
        }
    }

    pub fn index(self) -> (r: u8)
        ensures
            r == self.spec_index(),
    {
        match self {
            WorkCategory::Feature => 0,
            WorkCategory::Bugfix => 1,
            WorkCategory::Refactor => 2,
            WorkCategory::Test => 3,
            WorkCategory::Documentation => 4,
            WorkCategory::Research => 5,
            WorkCategory::Others => 6,
        }
    }
}

/// A wall-clock minute in local time (`YYYY-MM-DD HH:MM`).
#[derive(Clone, Copy, Debug, PartialEq, Eq, PartialOrd, Ord, Hash, Structural)]
pub struct Minute {
    pub year: i32,
    pub month: u32,
    pub day: u32,
    pub hour: u32,
    pub minute: u32,
}

impl Minute {
    /// Lexicographic order on (year, month, day, hour, minute).
    pub open spec fn spec_lt(self, other: Minute) -> bool {
        ||| self.year < other.year
        ||| self.year == other.year && self.month < other.month
        ||| self.year == other.year && self.month == other.month && self.day < other.day
        ||| self.year == other.year && self.month == other.month && self.day == other.day
            && self.hour < other.hour
        ||| self.year == other.year && self.month == other.month && self.day == other.day
            && self.hour == other.hour && self.minute < other.minute
    }

    pub fn lt(&self, other: &Minute) -> (r: bool)
        ensures
            r == self.spec_lt(*other),
    {
        if self.year != other.year {
            return self.year < other.year;
        }
        if self.month != other.month {
            return self.month < other.month;
        }
        if self.day != other.day {
            return self.day < other.day;
        }
        if self.hour != other.hour {
            return self.hour < other.hour;
        }
        self.minute < other.minute
    }
}

pub struct TodoItemModel {
    pub id: Seq<char>,
    pub title: Seq<char>,
    pub priority: TodoPriority,
    pub category: WorkCategory,
    pub area: Seq<char>,
    pub dependencies: Seq<Seq<char>>,
    pub rationale: Seq<char>,
    pub acceptance_criteria: Seq<char>,
}

#[derive(Clone, Debug, PartialEq, Eq)]
pub struct TodoItem {
    pub id: String,
    pub title: String,
    pub priority: TodoPriority,
    pub category: WorkCategory,
    pub area: String,
    pub dependencies: Vec<String>,
    pub rationale: String,
    pub acceptance_criteria: String,
}

/// A sequence of strings, as texts.
pub open spec fn strs(v: Seq<String>) -> Seq<Seq<char>> {
    v.map_values(|s: String| s@)
}

pub open spec fn opt_str(o: Option<String>) -> Option<Seq<char>> {
    match o {
        Some(s) => Some(s@),
        None => None,
    }
}

impl View for TodoItem {
    type V = TodoItemModel;

    open spec fn view(&self) -> TodoItemModel {
        TodoItemModel {
            id: self.id@,
            title: self.title@,
            priority: self.priority,
            category: self.category,
            area: self.area@,
            dependencies: strs(self.dependencies@),
            rationale: self.rationale@,
            acceptance_criteria: self.acceptance_criteria@,
        }
    }
}

pub fn clone_strings(v: &Vec<String>) -> (r: Vec<String>)
    ensures
        strs(r@) == strs(v@),
{
    let mut r: Vec<String> = Vec::new();
    let mut i: usize = 0;
    while i < v.len()
        invariant
            i <= v@.len(),
            strs(r@) =~= strs(v@.subrange(0, i as int)),
        decreases v@.len() - i,
    {
        let ghost old_r = r@;
        let c = v[i].clone();
        r.push(c);
        assert(strs(r@) =~= strs(old_r).push(v@[i as int]@));
        assert(v@.subrange(0, i + 1) =~= v@.subrange(0, i as int).push(v@[i as int]));
        i += 1;
    }
    assert(v@.subrange(0, v@.len() as int) == v@);
    r
}

pub fn clone_opt(o: &Option<String>) -> (r: Option<String>)
    ensures
        opt_str(r) == opt_str(*o),
{
    match o {
        Some(s) => Some(s.clone()),
        None => None,
    }
}

impl TodoItem {
    pub fn duplicate(&self) -> (r: TodoItem)
        ensures
            r@ == self@,
    {
        TodoItem {
            id: self.id.clone(),
            title: self.title.clone(),
            priority: self.priority,
            category: self.category,
            area: self.area.clone(),
            dependencies: clone_strings(&self.dependencies),
            rationale: self.rationale.clone(),
            acceptance_criteria: self.acceptance_criteria.clone(),
        }
    }
}

pub struct WarningModel {
    pub code: Seq<char>,
    pub message: Seq<char>,
    pub item_id: Option<Seq<char>>,
}

#[derive(Clone, Debug, PartialEq, Eq)]
pub struct ValidationWarning {
    pub code: String,
    pub message: String,
    pub item_id: Option<String>,
}

impl View for ValidationWarning {
    type V = WarningModel;

    open spec fn view(&self) -> WarningModel {
        WarningModel { code: self.code@, message: self.message@, item_id: opt_str(self.item_id) }
    }
}

impl ValidationWarning {
    pub fn duplicate(&self) -> (r: ValidationWarning)
        ensures
            r@ == self@,
    {
        ValidationWarning {
            code: self.code.clone(),
            message: self.message.clone(),
            item_id: clone_opt(&self.item_id),
        }
    }
}

pub open spec fn item_views(v: Seq<TodoItem>) -> Seq<TodoItemModel> {
    v.map_values(|x: TodoItem| x@)
}

pub open spec fn warning_views(v: Seq<ValidationWarning>) -> Seq<WarningModel> {
    v.map_values(|x: ValidationWarning| x@)
}

#[derive(Clone, Debug)]
pub struct TodoDocument {
    pub relative_path: Option<String>,
    pub items: Vec<TodoItem>,
    pub warnings: Vec<ValidationWarning>,
    pub preserved_content: Option<String>,
}

pub struct WorkHistoryEntryModel {
    pub occurred_at: Minute,
    pub title: Seq<char>,
    pub category: WorkCategory,
    pub area: Seq<char>,
    pub summary: Seq<char>,
    pub limitations: Seq<char>,
}

#[derive(Clone, Debug, PartialEq, Eq)]
pub struct WorkHistoryEntry {
    pub occurred_at: Minute,
    pub title: String,
    pub category: WorkCategory,
    pub area: String,
    pub summary: String,
    pub limitations: String,
}

impl View for WorkHistoryEntry {
    type V = WorkHistoryEntryModel;

    open spec fn view(&self) -> WorkHistoryEntryModel {
        WorkHistoryEntryModel {
            occurred_at: self.occurred_at,
            title: self.title@,
            category: self.category,
            area: self.area@,
            summary: self.summary@,
            limitations: self.limitations@,
        }
    }
}

impl WorkHistoryEntry {
    pub fn duplicate(&self) -> (r: WorkHistoryEntry)
        ensures
            r@ == self@,
    {
        WorkHistoryEntry {
            occurred_at: self.occurred_at,
            title: self.title.clone(),
            category: self.category,
            area: self.area.clone(),
            summary: self.summary.clone(),
            limitations: self.limitations.clone(),
        }
    }
}

pub open spec fn entry_views(v: Seq<WorkHistoryEntry>) -> Seq<WorkHistoryEntryModel> {
    v.map_values(|x: WorkHistoryEntry| x@)
}

#[derive(Clone, Debug)]
pub struct WorkHistoryDocument {
    pub relative_path: Option<String>,
    pub entries: Vec<WorkHistoryEntry>,
    pub categories: Vec<WorkCategory>,
    pub areas: Vec<String>,
    pub warnings: Vec<ValidationWarning>,
    pub preserved_content: Option<String>,
}

#[derive(Clone, Debug)]
pub struct AddTodoInput {
    pub title: String,
    pub priority: TodoPriority,
    pub category: WorkCategory,
    pub area: String,
    pub dependencies: Vec<String>,
    pub rationale: String,
    pub acceptance_criteria: String,
}

#[derive(Clone, Debug)]
pub struct CompleteTodoInput {
    pub summary: String,
    pub limitations: String,
}

#[derive(Clone, Debug)]
pub struct AddWorkHistoryInput {
    pub title: String,
    pub category: WorkCategory,
    pub area: String,
    pub summary: String,
    pub limitations: String,
}

#[derive(Clone, Debug)]
pub struct CompleteTodoResult {
    pub completed_todo: Option<TodoItem>,
    pub history_entry: WorkHistoryEntry,
}

#[derive(Clone, Copy, Debug, PartialEq, Eq, Structural)]
pub enum ProposalKind {
    TodoCompletion,
    WorkHistory,
}

#[derive(Clone, Debug)]
pub struct CompletionProposal {
    pub id: u128,
    pub project_id: u128,
    pub requested_at: UnixMicros,
    pub kind: ProposalKind,
    pub todo: Option<TodoItem>,
    pub proposed_entry: WorkHistoryEntry,
}

pub struct ProposalModel {
    pub id: u128,
    pub project_id: u128,
    pub requested_at: UnixMicros,
    pub kind: ProposalKind,
    pub todo: Option<TodoItemModel>,
    pub proposed_entry: WorkHistoryEntryModel,
}

pub open spec fn opt_todo(o: Option<TodoItem>) -> Option<TodoItemModel> {
    match o {
        Some(t) => Some(t@),
        None => None,
    }
}

impl View for CompletionProposal {
    type V = ProposalModel;

    open spec fn view(&self) -> ProposalModel {
        ProposalModel {
            id: self.id,
            project_id: self.project_id,
            requested_at: self.requested_at,
            kind: self.kind,
            todo: opt_todo(self.todo),
            proposed_entry: self.proposed_entry@,
        }
    }
}

impl CompletionProposal {
    pub fn duplicate(&self) -> (r: CompletionProposal)
        ensures
            r@ == self@,
    {
        CompletionProposal {
            id: self.id,
            project_id: self.project_id,
            requested_at: self.requested_at,
            kind: self.kind,
            todo: match &self.todo {
                Some(t) => Some(t.duplicate()),
                None => None,
            },
            proposed_entry: self.proposed_entry.duplicate(),
        }
    }
}

pub open spec fn proposal_views(v: Seq<CompletionProposal>) -> Seq<ProposalModel> {
    v.map_values(|p: CompletionProposal| p@)
}

#[derive(Clone, Debug)]
pub struct ProjectState {
    pub todos: TodoDocument,
    pub working_history: WorkHistoryDocument,
    pub pending_reviews: Vec<CompletionProposal>,
}

#[derive(Clone, Copy, Debug, PartialEq, Eq, Structural)]
pub enum DocumentStatus {
    Available,
    Missing,
    Error,
}

#[derive(Clone, Copy, Debug, PartialEq, Eq, Structural)]
pub enum GitSyncStatus {
    Ahead,
    Behind,
    Diverged,
    Synchronized,
    Unknown,
}

#[derive(Clone, Copy, Debug, PartialEq, Eq, Structural)]
pub enum GitFetchStatus {
    Idle,
    Fetching,
    Succeeded,
    NoRemote,
    AuthenticationFailed,
    Offline,
    TimedOut,
    Failed,
}

#[derive(Clone, Debug)]
pub struct RegistryEntry {
    pub id: u128,
    pub name: String,
    pub path: String,
    pub registered_at: UnixMicros,
    pub last_opened: Option<UnixMicros>,
}

pub struct RegistryEntryModel {
    pub id: u128,
    pub name: Seq<char>,
    pub path: Seq<char>,
    pub registered_at: UnixMicros,
    pub last_opened: Option<UnixMicros>,
}

impl View for RegistryEntry {
    type V = RegistryEntryModel;

    open spec fn view(&self) -> RegistryEntryModel {
        RegistryEntryModel {
            id: self.id,
            name: self.name@,
            path: self.path@,
            registered_at: self.registered_at,
            last_opened: self.last_opened,
        }
    }
}

impl RegistryEntry {
    pub fn duplicate(&self) -> (r: RegistryEntry)
        ensures
            r@ == self@,
    {
        RegistryEntry {
            id: self.id,
            name: self.name.clone(),
            path: self.path.clone(),
            registered_at: self.registered_at,
            last_opened: self.last_opened,
        }
    }
}

pub open spec fn registry_views(v: Seq<RegistryEntry>) -> Seq<RegistryEntryModel> {
    v.map_values(|e: RegistryEntry| e@)
}

/// The persisted registry: a format version and the registered projects.
#[derive(Clone, Debug)]
pub struct RegistryData {
    pub version: u8,
    pub projects: Vec<RegistryEntry>,
}

impl Default for RegistryData {
    fn default() -> (r: RegistryData)
        ensures
            r.version == 1,
            r.projects@.len() == 0,
    {
        RegistryData { version: 1, projects: Vec::new() }
    }
}

#[derive(Clone, Debug)]
pub struct GitCommit {
    pub id: String,
    pub summary: String,
    pub author: String,
    pub committed_at: UnixMicros,
}

#[derive(Clone, Debug)]
pub struct GitInfo {
    pub is_repository: bool,
    pub branch: Option<String>,
    pub dirty: Option<bool>,
    pub recent_commits: Vec<GitCommit>,
    pub last_activity: Option<UnixMicros>,
    pub upstream: Option<String>,
    pub ahead: Option<usize>,
    pub behind: Option<usize>,
    pub sync_status: GitSyncStatus,
    pub sync_message: Option<String>,
    pub fetch_status: GitFetchStatus,
    pub last_successful_fetch: Option<UnixMicros>,
    pub fetch_error: Option<String>,
    pub error: Option<String>,
}

impl GitInfo {
    /// Observation of a directory that is not a Git repository.
    pub fn not_repository() -> (r: GitInfo)
        ensures
            !r.is_repository,
            r.branch is None,
            r.dirty is None,
            r.recent_commits@.len() == 0,
            r.last_activity is None,
            r.upstream is None,
            r.ahead is None,
            r.behind is None,
            r.sync_status == GitSyncStatus::Unknown,
            r.sync_message is None,
            r.fetch_status == GitFetchStatus::Idle,
            r.last_successful_fetch is None,
            r.fetch_error is None,
            r.error is None,
    {
        GitInfo {
            is_repository: false,
            branch: None,
            dirty: None,
            recent_commits: Vec::new(),
            last_activity: None,
            upstream: None,
            ahead: None,
            behind: None,
            sync_status: GitSyncStatus::Unknown,
            sync_message: None,
            fetch_status: GitFetchStatus::Idle,
            last_successful_fetch: None,
            fetch_error: None,
            error: None,
        }
    }

    /// A non-repository observation that carries an error message.
    pub fn error(message: String) -> (r: GitInfo)
        ensures
            !r.is_repository,
            r.branch is None,
            r.dirty is None,
            r.recent_commits@.len() == 0,
            r.last_activity is None,
            r.upstream is None,
            r.ahead is None,
            r.behind is None,
            r.sync_status == GitSyncStatus::Unknown,
            r.sync_message is None,
            r.fetch_status == GitFetchStatus::Idle,
            r.last_successful_fetch is None,
            r.fetch_error is None,
            r.error == Some(message),
    {
        let mut info = GitInfo::not_repository();
        info.error = Some(message);
        info
    }
}

} // verus!
