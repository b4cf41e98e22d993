//! Git synchronization decisions: how fetch and pull failures are reported,
//! how a branch relates to its upstream, and the per-project fetch state.

use vstd::prelude::*;
use crate::text::{
    chars_of, contains_str, contains_text, decimal, decimal_exec, lit, lower_text, push_all, push_str,
    starts_with, string_of, to_lowercase,
};
use crate::models::{opt_str, GitFetchStatus, GitInfo, GitSyncStatus, UnixMicros};

verus! {

/// How a fetch ended.
#[derive(Clone, Debug)]
pub struct FetchOutcome {
    pub status: GitFetchStatus,
    pub error: Option<String>,
}

/// `failed`: a failed fetch with this message.
pub fn failed(message: String) -> (r: FetchOutcome)
    ensures
        r.status == GitFetchStatus::Failed,
        r.error == Some(message),
{
    FetchOutcome { status: GitFetchStatus::Failed, error: Some(message) }
}

pub open spec fn mentions_authentication(lower: Seq<char>) -> bool {
    ||| contains_text(lower, "authentication failed"@)
    ||| contains_text(lower, "could not read username"@)
    ||| contains_text(lower, "permission denied (publickey)"@)
    ||| contains_text(lower, "invalid username or password"@)
    ||| contains_text(lower, "terminal prompts disabled"@)
    ||| contains_text(lower, "credential"@)
}

pub open spec fn mentions_network(lower: Seq<char>) -> bool {
    ||| contains_text(lower, "could not resolve host"@)
    ||| contains_text(lower, "failed to connect"@)
    ||| contains_text(lower, "network is unreachable"@)
    ||| contains_text(lower, "network unreachable"@)
    ||| contains_text(lower, "connection timed out"@)
    ||| contains_text(lower, "couldn't connect to server"@)
}

pub open spec fn auth_failure_message() -> Seq<char> {
    "Git authentication failed. Check this repository's credentials and try again."@
}

pub open spec fn offline_message() -> Seq<char> {
    "Git could not reach the remote. Check the network connection and try again."@
}

/// The status and message a failed fetch reports for its error output:
/// credential problems, then network problems, then anything else.
pub open spec fn fetch_failure(stderr: Seq<char>) -> (GitFetchStatus, Seq<char>) {
    let lower = lower_text(stderr);
    if mentions_authentication(lower) {
        (GitFetchStatus::AuthenticationFailed, auth_failure_message())
    } else if mentions_network(lower) {
        (GitFetchStatus::Offline, offline_message())
    } else if stderr.len() == 0 {
        (GitFetchStatus::Failed, "Git fetch failed without additional details."@)
    } else {
        (GitFetchStatus::Failed, "Git fetch failed. Run git fetch in the repository for details."@)
    }
}

/// `classify_fetch_failure`.
pub fn classify_fetch_failure(stderr: &str) -> (r: FetchOutcome)
    ensures
        r.status == fetch_failure(stderr@).0,
        r.error matches Some(m) && m@ == fetch_failure(stderr@).1,
{
    let lower = to_lowercase(&chars_of(stderr));
    let auth = contains_str(&lower, "authentication failed") || contains_str(&lower, "could not read username")
        || contains_str(&lower, "permission denied (publickey)")
        || contains_str(&lower, "invalid username or password")
        || contains_str(&lower, "terminal prompts disabled") || contains_str(&lower, "credential");
    if auth {
        return FetchOutcome {
            status: GitFetchStatus::AuthenticationFailed,
            error: Some(String::from_str("Git authentication failed. Check this repository's credentials and try again.")),
        };
    }
    let offline = contains_str(&lower, "could not resolve host") || contains_str(&lower, "failed to connect")
        || contains_str(&lower, "network is unreachable") || contains_str(&lower, "network unreachable")
        || contains_str(&lower, "connection timed out") || contains_str(&lower, "couldn't connect to server");
    if offline {
        return FetchOutcome {
            status: GitFetchStatus::Offline,
            error: Some(String::from_str("Git could not reach the remote. Check the network connection and try again.")),
        };
    }
    let message = if stderr.unicode_len() == 0 {
        String::from_str("Git fetch failed without additional details.")
    } else {
        String::from_str("Git fetch failed. Run git fetch in the repository for details.")
    };
    FetchOutcome { status: GitFetchStatus::Failed, error: Some(message) }
}

/// `str::replace`: every occurrence of `from`, left to right and without
/// overlap, replaced by `to`.
pub open spec fn replace_all(s: Seq<char>, from: Seq<char>, to: Seq<char>) -> Seq<char>
    decreases s.len(),
{
    if from.len() == 0 || s.len() < from.len() {
        s
    } else if starts_with(s, from) {
        to + replace_all(s.subrange(from.len() as int, s.len() as int), from, to)
    } else {
        seq![s[0]] + replace_all(s.drop_first(), from, to)
    }
}

/// `str::replace` for a non-empty pattern.
pub fn replace_all_exec(s: &[char], from: &str, to: &str) -> (r: Vec<char>)
    requires
        from@.len() > 0,
    ensures
        r@ == replace_all(s@, from@, to@),
{
    let f = chars_of(from);
    let t = chars_of(to);
    let mut out: Vec<char> = Vec::new();
    let mut i: usize = 0;
    assert(s@.subrange(0, s@.len() as int) == s@);
    assert(out@ + replace_all(s@, f@, t@) =~= replace_all(s@, f@, t@));
    while i < s.len()
        invariant
            i <= s@.len(),
            f@ == from@,
            t@ == to@,
            f@.len() > 0,
            replace_all(s@, f@, t@) == out@ + replace_all(s@.subrange(i as int, s@.len() as int), f@, t@),
        decreases s@.len() - i,
    {
        let ghost rest = s@.subrange(i as int, s@.len() as int);
        if f.len() <= s.len() - i && crate::text::matches_at(s, i, &f) {
            assert(rest.subrange(0, f@.len() as int) =~= s@.subrange(i as int, i + f@.len()));
            assert(rest.subrange(f@.len() as int, rest.len() as int) =~= s@.subrange(i + f@.len(), s@.len() as int));
            let ghost before = out@;
            push_all(&mut out, &t);
            assert(out@ + replace_all(s@.subrange(i + f@.len(), s@.len() as int), f@, t@)
                =~= before + (t@ + replace_all(s@.subrange(i + f@.len(), s@.len() as int), f@, t@)));
            i = i + f.len();
        } else {
            proof {
                if rest.len() >= f@.len() && starts_with(rest, f@) {
                    assert(rest.subrange(0, f@.len() as int) =~= s@.subrange(i as int, i + f@.len()));
                    assert(false);
                }
            }
            let ghost before = out@;
            out.push(s[i]);
            assert(rest.drop_first() =~= s@.subrange(i + 1, s@.len() as int));
            proof {
                if rest.len() < f@.len() {
                    assert(replace_all(rest, f@, t@) == rest);
                    assert(replace_all(rest.drop_first(), f@, t@) == rest.drop_first());
                    assert(rest =~= seq![s@[i as int]] + rest.drop_first());
                }
            }
            assert(out@ + replace_all(rest.drop_first(), f@, t@) =~= before + (seq![s@[i as int]] + replace_all(rest.drop_first(), f@, t@)));
            i += 1;
        }
    }
    assert(s@.subrange(i as int, s@.len() as int) =~= Seq::<char>::empty());
    assert(out@ + Seq::<char>::empty() =~= out@);
    out
}

pub open spec fn diverged_message() -> Seq<char> {
    "The branch has diverged from its upstream, so it cannot be fast-forwarded."@
}

/// The message a failed pull reports: a refused fast-forward, or the fetch
/// message with "fetch" read as "pull".
pub open spec fn pull_failure(stderr: Seq<char>) -> Seq<char> {
    let lower = lower_text(stderr);
    if contains_text(lower, "not possible to fast-forward"@) || contains_text(lower, "cannot fast-forward"@)
        || contains_text(lower, "diverging branches"@)
    {
        diverged_message()
    } else {
        replace_all(fetch_failure(stderr).1, "fetch"@, "pull"@)
    }
}

/// `classify_pull_failure`.
pub fn classify_pull_failure(stderr: &str) -> (r: String)
    ensures
        r@ == pull_failure(stderr@),
{
    let lower = to_lowercase(&chars_of(stderr));
    if contains_str(&lower, "not possible to fast-forward") || contains_str(&lower, "cannot fast-forward")
        || contains_str(&lower, "diverging branches")
    {
        return String::from_str("The branch has diverged from its upstream, so it cannot be fast-forwarded.");
    }
    let outcome = classify_fetch_failure(stderr);
    let message = match outcome.error {
        Some(m) => m,
        None => String::from_str("Git pull failed."),
    };
    proof {
        reveal_strlit("fetch");
    }
    string_of(&replace_all_exec(&chars_of(message.as_str()), "fetch", "pull"))
}

/// `classify_sync_status`: how a branch stands against its upstream.
pub fn classify_sync_status(ahead: usize, behind: usize) -> (r: GitSyncStatus)
    ensures
        r == (if ahead == 0 && behind == 0 {
            GitSyncStatus::Synchronized
        } else if behind == 0 {
            GitSyncStatus::Ahead
        } else if ahead == 0 {
            GitSyncStatus::Behind
        } else {
            GitSyncStatus::Diverged
        }),
{
    if ahead == 0 && behind == 0 {
        GitSyncStatus::Synchronized
    } else if behind == 0 {
        GitSyncStatus::Ahead
    } else if ahead == 0 {
        GitSyncStatus::Behind
    } else {
        GitSyncStatus::Diverged
    }
}

/// `latest`: the later of two optional times.
pub fn latest(left: Option<UnixMicros>, right: Option<UnixMicros>) -> (r: Option<UnixMicros>)
    ensures
        r == match (left, right) {
            (Some(a), Some(b)) => Some(if a >= b { a } else { b }),
            (Some(a), None) => Some(a),
            (None, Some(b)) => Some(b),
            (None, None) => None::<UnixMicros>,
        },
{
    match (left, right) {
        (Some(a), Some(b)) => Some(if a >= b { a } else { b }),
        (Some(a), None) => Some(a),
        (None, Some(b)) => Some(b),
        (None, None) => None,
    }
}

/// What is known of a project's last fetch.
#[derive(Clone, Debug)]
pub struct GitFetchSnapshot {
    pub status: GitFetchStatus,
    pub last_successful_fetch: Option<UnixMicros>,
    pub error: Option<String>,
}

impl Default for GitFetchSnapshot {
    fn default() -> (r: GitFetchSnapshot)
        ensures
            r.status == GitFetchStatus::Idle,
            r.last_successful_fetch is None,
            r.error is None,
    {
        GitFetchSnapshot { status: GitFetchStatus::Idle, last_successful_fetch: None, error: None }
    }
}

/// `with_fetch`: the Git observation carrying the fetch snapshot.
pub fn with_fetch(git: GitInfo, fetch: &GitFetchSnapshot) -> (r: GitInfo)
    ensures
        r == (GitInfo {
            fetch_status: fetch.status,
            last_successful_fetch: fetch.last_successful_fetch,
            fetch_error: fetch.error,
            ..git
        }),
{
    let mut git = git;
    git.fetch_status = fetch.status;
    git.last_successful_fetch = fetch.last_successful_fetch;
    git.fetch_error = fetch.error.clone();
    git
}


// ---------------------------------------------------------------------------
// Per-project fetch state

pub struct SnapshotModel {
    pub status: GitFetchStatus,
    pub last_successful_fetch: Option<UnixMicros>,
    pub error: Option<Seq<char>>,
}

impl View for GitFetchSnapshot {
    type V = SnapshotModel;

    open spec fn view(&self) -> SnapshotModel {
        SnapshotModel {
            status: self.status,
            last_successful_fetch: self.last_successful_fetch,
            error: crate::models::opt_str(self.error),
        }
    }
}

impl GitFetchSnapshot {
    pub fn duplicate(&self) -> (r: GitFetchSnapshot)
        ensures
            r@ == self@,
    {
        GitFetchSnapshot {
            status: self.status,
            last_successful_fetch: self.last_successful_fetch,
            error: crate::models::clone_opt(&self.error),
        }
    }
}

pub open spec fn idle() -> SnapshotModel {
    SnapshotModel { status: GitFetchStatus::Idle, last_successful_fetch: None, error: None }
}

/// The snapshot recorded for a project, or an idle one.
pub open spec fn snapshot_of(states: Map<u128, SnapshotModel>, id: u128) -> SnapshotModel {
    if states.contains_key(id) {
        states[id]
    } else {
        idle()
    }
}

/// `entry` records the last successful fetch of a project in `states`.
pub open spec fn cached_in(states: Map<u128, SnapshotModel>, entry: (u128, UnixMicros)) -> bool {
    states.contains_key(entry.0) && states[entry.0].last_successful_fetch == Some(entry.1)
}

/// The fetch state of every project and the projects with a fetch or pull
/// under way; at most one operation runs per project.
pub struct GitSyncState {
    ids: Vec<u128>,
    snapshots: Vec<GitFetchSnapshot>,
    active: Vec<u128>,
}

impl GitSyncState {
    /// Each project has at most one snapshot.
    pub closed spec fn wf(&self) -> bool {
        &&& self.ids@.len() == self.snapshots@.len()
        &&& self.ids@.no_duplicates()
        &&& self.active@.no_duplicates()
    }

    pub closed spec fn spec_states(&self) -> Map<u128, SnapshotModel> {
        Map::new(
            |id: u128| self.ids@.contains(id),
            |id: u128| self.snapshots@[self.ids@.index_of(id)]@,
        )
    }

    pub closed spec fn spec_active(&self) -> Set<u128> {
        self.active@.to_set()
    }

    /// The state after a restart: the last successful fetch of each project
    /// from the cache, nothing under way.
    pub fn from_cache(cache: &Vec<(u128, UnixMicros)>) -> (r: GitSyncState)
        ensures
            r.wf(),
            r.spec_active() == Set::<u128>::empty(),
            forall|id: u128| #[trigger] r.spec_states().contains_key(id) ==> r.spec_states()[id].status == GitFetchStatus::Idle
                && r.spec_states()[id].error is None && r.spec_states()[id].last_successful_fetch is Some,
            forall|k: int| 0 <= k < cache@.len() ==> #[trigger] r.spec_states().contains_key(cache@[k].0),
    {
        let mut state = GitSyncState { ids: Vec::new(), snapshots: Vec::new(), active: Vec::new() };
        assert(state.ids@.no_duplicates());
        let mut k: usize = 0;
        while k < cache.len()
            invariant
                k <= cache@.len(),
                state.wf(),
                state.active@.len() == 0,
                forall|id: u128| #[trigger] state.spec_states().contains_key(id) ==> state.spec_states()[id].status == GitFetchStatus::Idle
                    && state.spec_states()[id].error is None && state.spec_states()[id].last_successful_fetch is Some,
                forall|j: int| 0 <= j < k ==> #[trigger] state.spec_states().contains_key(cache@[j].0),
            decreases cache@.len() - k,
        {
            let (id, time) = cache[k];
            state.put(id, GitFetchSnapshot { status: GitFetchStatus::Idle, last_successful_fetch: Some(time), error: None });
            k += 1;
        }
        assert(state.active@.to_set() =~= Set::<u128>::empty());
        state
    }

    fn index_of(&self, id: u128) -> (r: Option<usize>)
        requires
            self.wf(),
        ensures
            match r {
                Some(k) => k < self.ids@.len() && self.ids@[k as int] == id && self.ids@.index_of(id) == k as int,
                None => !self.ids@.contains(id),
            },
    {
        let mut i: usize = 0;
        while i < self.ids.len()
            invariant
                self.wf(),
                i <= self.ids@.len(),
                forall|j: int| 0 <= j < i ==> self.ids@[j] != id,
            decreases self.ids@.len() - i,
        {
            if self.ids[i] == id {
                proof {
                    assert(self.ids@[i as int] == id);
                    assert(self.ids@.contains(id));
                    let f = self.ids@.index_of(id);
                    assert(self.ids@[f] == id);
                }
                return Some(i);
            }
            i += 1;
        }
        None
    }

    /// Records the snapshot of a project.
    fn put(&mut self, id: u128, snapshot: GitFetchSnapshot)
        requires
            old(self).wf(),
        ensures
            final(self).wf(),
            final(self).spec_states() == old(self).spec_states().insert(id, snapshot@),
            final(self).active@ == old(self).active@,
    {
        match self.index_of(id) {
            Some(k) => {
                let ghost before = self.spec_states();
                self.snapshots.set(k, snapshot);
                assert(self.spec_states() =~= before.insert(id, snapshot@)) by {
                    assert forall|x: u128| #[trigger] self.ids@.contains(x) && x != id implies
                        self.snapshots@[self.ids@.index_of(x)]@ == before[x] by {
                    }
                }
            },
            None => {
                let ghost before = self.spec_states();
                let ghost old_ids = self.ids@;
                self.ids.push(id);
                self.snapshots.push(snapshot);
                proof {
                    assert(self.ids@ == old_ids.push(id));
                    assert forall|a: int, b: int| 0 <= a < b < self.ids@.len() implies self.ids@[a] != self.ids@[b] by {
                        assert(self.ids@[a] == old_ids[a]);
                        if b == old_ids.len() {
                            assert(self.ids@[b] == id);
                            if old_ids[a] == id {
                                assert(old_ids.contains(id));
                            }
                        } else {
                            assert(self.ids@[b] == old_ids[b]);
                        }
                    }
                    assert forall|x: u128| self.ids@.contains(x) <==> (old_ids.contains(x) || x == id) by {
                        if old_ids.contains(x) {
                            let j = choose|j: int| 0 <= j < old_ids.len() && old_ids[j] == x;
                            assert(self.ids@[j] == x);
                        }
                        if x == id {
                            assert(self.ids@[old_ids.len() as int] == id);
                        }
                        if self.ids@.contains(x) {
                            let j = choose|j: int| 0 <= j < self.ids@.len() && self.ids@[j] == x;
                            if j < old_ids.len() {
                                assert(old_ids[j] == x);
                            }
                        }
                    }
                    assert forall|x: u128| #[trigger] self.ids@.contains(x) implies
                        self.snapshots@[self.ids@.index_of(x)]@ == before.insert(id, snapshot@)[x] by {
                        if x != id {
                            let j = self.ids@.index_of(x);
                            assert(j < old_ids.len()) by {
                                if j == old_ids.len() {
                                    assert(self.ids@[j] == id);
                                }
                            }
                            assert(old_ids[j] == x);
                            assert(old_ids.contains(x));
                            assert(old_ids.index_of(x) == j) by {
                                let f = old_ids.index_of(x);
                                if f != j {
                                    if f < j {
                                        assert(self.ids@[f] == x);
                                    } else {
                                        assert(old_ids[f] == x);
                                    }
                                }
                            }
                        } else {
                            let j = self.ids@.index_of(x);
                            assert(j == old_ids.len()) by {
                                if j < old_ids.len() {
                                    assert(old_ids[j] == id);
                                }
                            }
                        }
                    }
                    assert(self.spec_states() =~= before.insert(id, snapshot@));
                }
            },
        }
    }

    /// `snapshot`: what is known of the project's last fetch.
    pub fn snapshot(&self, id: u128) -> (r: GitFetchSnapshot)
        requires
            self.wf(),
        ensures
            r@ == snapshot_of(self.spec_states(), id),
    {
        match self.index_of(id) {
            Some(k) => self.snapshots[k].duplicate(),
            None => GitFetchSnapshot::default(),
        }
    }

    fn active_index(&self, id: u128) -> (r: Option<usize>)
        ensures
            match r {
                Some(k) => k < self.active@.len() && self.active@[k as int] == id,
                None => !self.active@.contains(id),
            },
    {
        let mut i: usize = 0;
        while i < self.active.len()
            invariant
                i <= self.active@.len(),
                forall|j: int| 0 <= j < i ==> self.active@[j] != id,
            decreases self.active@.len() - i,
        {
            if self.active[i] == id {
                return Some(i);
            }
            i += 1;
        }
        None
    }

    /// Claims the project for a fetch or pull; refused while one is under way.
    fn claim(&mut self, id: u128) -> (r: bool)
        requires
            old(self).wf(),
        ensures
            final(self).wf(),
            r <==> !old(self).spec_active().contains(id),
            final(self).spec_active() == old(self).spec_active().insert(id),
            final(self).spec_states() == old(self).spec_states(),
    {
        match self.active_index(id) {
            Some(_) => {
                assert(self.active@.to_set().contains(id));
                assert(self.active@.to_set().insert(id) =~= self.active@.to_set());
                false
            },
            None => {
                let ghost before = self.active@;
                self.active.push(id);
                proof {
                    assert(self.active@ == before.push(id));
                    assert forall|a: int, b: int| 0 <= a < b < self.active@.len() implies self.active@[a] != self.active@[b] by {
                        if b == self.active@.len() - 1 && self.active@[a] == id {
                            assert(before[a] == id);
                        }
                    }
                    assert forall|x: u128| self.active@.contains(x) <==> (before.contains(x) || x == id) by {
                        if before.contains(x) {
                            let j = choose|j: int| 0 <= j < before.len() && before[j] == x;
                            assert(self.active@[j] == x);
                        }
                        if x == id {
                            assert(self.active@[before.len() as int] == id);
                        }
                        if self.active@.contains(x) {
                            let j = choose|j: int| 0 <= j < self.active@.len() && self.active@[j] == x;
                            if j < before.len() {
                                assert(before[j] == x);
                            }
                        }
                    }
                    assert(self.active@.to_set() =~= before.to_set().insert(id));
                    assert(!before.to_set().contains(id));
                }
                true
            },
        }
    }

    /// Releases the project's claim.
    fn release(&mut self, id: u128)
        requires
            old(self).wf(),
        ensures
            final(self).wf(),
            final(self).spec_active() == old(self).spec_active().remove(id),
            final(self).spec_states() == old(self).spec_states(),
    {
        match self.active_index(id) {
            Some(k) => {
                let ghost before = self.active@;
                self.active.remove(k);
                proof {
                    assert(self.active@ == before.remove(k as int));
                    assert forall|a: int, b: int| 0 <= a < b < self.active@.len() implies self.active@[a] != self.active@[b] by {
                        let a0 = if a < k { a } else { a + 1 };
                        let b0 = if b < k { b } else { b + 1 };
                        assert(self.active@[a] == before[a0]);
                        assert(self.active@[b] == before[b0]);
                    }
                    assert forall|x: u128| self.active@.to_set().contains(x) <==> before.to_set().remove(id).contains(x) by {
                        if self.active@.contains(x) {
                            let j = choose|j: int| 0 <= j < self.active@.len() && self.active@[j] == x;
                            let j0 = if j < k { j } else { j + 1 };
                            assert(before[j0] == x);
                            assert(j0 != k);
                        }
                        if before.contains(x) && x != id {
                            let j = choose|j: int| 0 <= j < before.len() && before[j] == x;
                            assert(j != k);
                            let j1 = if j < k { j } else { j - 1 };
                            assert(self.active@[j1] == x);
                        }
                    }
                    assert(self.active@.to_set() =~= before.to_set().remove(id));
                }
            },
            None => {
                assert(self.active@.to_set().remove(id) =~= self.active@.to_set());
            },
        }
    }

    /// Starts a fetch: refused while an operation is under way, else the
    /// project is claimed and its snapshot reads fetching, without an error.
    pub fn begin_fetch(&mut self, id: u128) -> (started: bool)
        requires
            old(self).wf(),
        ensures
            final(self).wf(),
            started <==> !old(self).spec_active().contains(id),
            final(self).spec_active() == old(self).spec_active().insert(id),
            !started ==> final(self).spec_states() == old(self).spec_states(),
            started ==> final(self).spec_states() == old(self).spec_states().insert(id, SnapshotModel {
                status: GitFetchStatus::Fetching,
                error: None,
                ..snapshot_of(old(self).spec_states(), id)
            }),
    {
        if !self.claim(id) {
            return false;
        }
        let mut snapshot = self.snapshot(id);
        snapshot.status = GitFetchStatus::Fetching;
        snapshot.error = None;
        self.put(id, snapshot);
        true
    }

    /// `finish_fetch`: records how the fetch ended (a success at `now`) and
    /// releases the project.
    pub fn finish_fetch(&mut self, id: u128, outcome: FetchOutcome, now: UnixMicros)
        requires
            old(self).wf(),
        ensures
            final(self).wf(),
            final(self).spec_active() == old(self).spec_active().remove(id),
            final(self).spec_states() == old(self).spec_states().insert(id, SnapshotModel {
                status: outcome.status,
                error: crate::models::opt_str(outcome.error),
                last_successful_fetch: if outcome.status == GitFetchStatus::Succeeded {
                    Some(now)
                } else {
                    snapshot_of(old(self).spec_states(), id).last_successful_fetch
                },
            }),
    {
        let mut snapshot = self.snapshot(id);
        snapshot.status = outcome.status;
        snapshot.error = outcome.error;
        if snapshot.status == GitFetchStatus::Succeeded {
            snapshot.last_successful_fetch = Some(now);
        }
        self.put(id, snapshot);
        self.release(id);
    }

    /// Starts a pull: refused while an operation is under way.
    pub fn begin_pull(&mut self, id: u128) -> (started: bool)
        requires
            old(self).wf(),
        ensures
            final(self).wf(),
            started <==> !old(self).spec_active().contains(id),
            final(self).spec_active() == old(self).spec_active().insert(id),
            final(self).spec_states() == old(self).spec_states(),
    {
        self.claim(id)
    }

    /// Ends a pull: the project is released; a successful pull counts as a
    /// successful fetch at `now`.
    pub fn finish_pull(&mut self, id: u128, succeeded: bool, now: UnixMicros)
        requires
            old(self).wf(),
        ensures
            final(self).wf(),
            final(self).spec_active() == old(self).spec_active().remove(id),
            !succeeded ==> final(self).spec_states() == old(self).spec_states(),
            succeeded ==> final(self).spec_states() == old(self).spec_states().insert(id, SnapshotModel {
                status: GitFetchStatus::Succeeded,
                last_successful_fetch: Some(now),
                error: None,
            }),
    {
        self.release(id);
        if succeeded {
            let mut snapshot = self.snapshot(id);
            snapshot.status = GitFetchStatus::Succeeded;
            snapshot.last_successful_fetch = Some(now);
            snapshot.error = None;
            self.put(id, snapshot);
        }
    }

    /// The times of the last successful fetches, for the cache.
    pub fn cache_entries(&self) -> (r: Vec<(u128, UnixMicros)>)
        requires
            self.wf(),
        ensures
            forall|k: int| 0 <= k < r@.len() ==> cached_in(self.spec_states(), #[trigger] r@[k]),
            forall|id: u128| #[trigger] self.spec_states().contains_key(id) && self.spec_states()[id].last_successful_fetch is Some
                ==> exists|k: int| 0 <= k < r@.len() && r@[k].0 == id,
    {
        let mut out: Vec<(u128, UnixMicros)> = Vec::new();
        let mut i: usize = 0;
        while i < self.ids.len()
            invariant
                self.wf(),
                i <= self.ids@.len(),
                forall|k: int| 0 <= k < out@.len() ==> cached_in(self.spec_states(), #[trigger] out@[k]),
                forall|j: int| 0 <= j < i && self.snapshots@[j]@.last_successful_fetch is Some
                    ==> exists|k: int| 0 <= k < out@.len() && out@[k].0 == #[trigger] self.ids@[j],
            decreases self.ids@.len() - i,
        {
            proof {
                assert(self.ids@.contains(self.ids@[i as int]));
                let f = self.ids@.index_of(self.ids@[i as int]);
                assert(f == i as int) by {
                    if f != i as int {
                        assert(self.ids@[f] == self.ids@[i as int]);
                    }
                }
            }
            let ghost before = out@;
            let last = self.snapshots[i].last_successful_fetch;
            if let Some(time) = last {
                out.push((self.ids[i], time));
            }
            proof {
                assert forall|k: int| 0 <= k < out@.len() implies cached_in(self.spec_states(), #[trigger] out@[k]) by {
                    if k < before.len() {
                        assert(out@[k] == before[k]);
                    } else {
                        assert(out@[k].0 == self.ids@[i as int]);
                    }
                }
                assert forall|j: int| 0 <= j < i + 1 && self.snapshots@[j]@.last_successful_fetch is Some
                    implies exists|k: int| 0 <= k < out@.len() && out@[k].0 == #[trigger] self.ids@[j] by {
                    if j < i {
                        let k = choose|k: int| 0 <= k < before.len() && before[k].0 == self.ids@[j];
                        assert(out@[k] == before[k]);
                    } else {
                        assert(out@[before.len() as int].0 == self.ids@[j]);
                    }
                }
            }
            i += 1;
        }
        proof {
            assert forall|id: u128| #[trigger] self.spec_states().contains_key(id) && self.spec_states()[id].last_successful_fetch is Some
                implies exists|k: int| 0 <= k < out@.len() && out@[k].0 == id by {
                let j = self.ids@.index_of(id);
                assert(self.ids@[j] == id);
            }
        }
        out
    }

    /// `remove`: forgets the project's fetch state.
    pub fn remove(&mut self, id: u128)
        requires
            old(self).wf(),
        ensures
            final(self).wf(),
            final(self).spec_states() == old(self).spec_states().remove(id),
            final(self).spec_active() == old(self).spec_active(),
    {
        match self.index_of(id) {
            Some(k) => {
                let ghost before = self.spec_states();
                let ghost old_ids = self.ids@;
                let ghost old_snaps = self.snapshots@;
                self.ids.remove(k);
                self.snapshots.remove(k);
                proof {
                    assert(self.ids@ == old_ids.remove(k as int));
                    assert forall|a: int, b: int| 0 <= a < b < self.ids@.len() implies self.ids@[a] != self.ids@[b] by {
                        let a0 = if a < k { a } else { a + 1 };
                        let b0 = if b < k { b } else { b + 1 };
                        assert(self.ids@[a] == old_ids[a0]);
                        assert(self.ids@[b] == old_ids[b0]);
                    }
                    assert forall|x: u128| self.ids@.contains(x) <==> old_ids.contains(x) && x != id by {
                        if self.ids@.contains(x) {
                            let j = choose|j: int| 0 <= j < self.ids@.len() && self.ids@[j] == x;
                            let j0 = if j < k { j } else { j + 1 };
                            assert(old_ids[j0] == x);
                            assert(j0 != k);
                        }
                        if old_ids.contains(x) && x != id {
                            let j = choose|j: int| 0 <= j < old_ids.len() && old_ids[j] == x;
                            assert(j != k);
                            let j1 = if j < k { j } else { j - 1 };
                            assert(self.ids@[j1] == x);
                        }
                    }
                    assert forall|x: u128| #[trigger] self.ids@.contains(x) implies
                        self.snapshots@[self.ids@.index_of(x)]@ == before[x] by {
                        let j = self.ids@.index_of(x);
                        let j0 = if j < k { j } else { j + 1 };
                        assert(old_ids[j0] == x);
                        assert(old_ids.index_of(x) == j0) by {
                            let f = old_ids.index_of(x);
                            if f != j0 {
                                assert(old_ids[f] == x);
                                assert(old_ids[j0] == x);
                            }
                        }
                        assert(self.snapshots@[j] == old_snaps[j0]);
                    }
                    assert(self.spec_states() =~= before.remove(id));
                }
            },
            None => {
                assert(self.spec_states().remove(id) =~= self.spec_states());
            },
        }
    }
}

/// How long a fetch or a pull may run.
pub const GIT_TIMEOUT_SECONDS: u64 = 30;

/// How a run of the git program ended: it exited (successfully or not, with
/// its trimmed error output), it ran out of time, or it could not be started
/// or watched (the message).
pub enum GitRun {
    Exited(bool, String),
    TimedOut,
    Failed(String),
}

pub open spec fn timed_out_message(operation: Seq<char>) -> Seq<char> {
    "Git "@ + operation + " timed out after "@ + decimal(GIT_TIMEOUT_SECONDS as nat) + " seconds."@
}

fn timed_out_exec(operation: &str) -> (r: String)
    ensures
        r@ == timed_out_message(operation@),
{
    let mut m = lit("Git ");
    push_str(&mut m, operation);
    push_str(&mut m, " timed out after ");
    push_all(&mut m, &decimal_exec(GIT_TIMEOUT_SECONDS));
    push_str(&mut m, " seconds.");
    string_of(&m)
}

/// The fetch outcome of a finished run: its status and message.
pub open spec fn fetch_run_outcome(run: GitRun) -> (GitFetchStatus, Option<Seq<char>>) {
    match run {
        GitRun::Exited(success, stderr) => if success {
            (GitFetchStatus::Succeeded, None)
        } else {
            (fetch_failure(stderr@).0, Some(fetch_failure(stderr@).1))
        },
        GitRun::TimedOut => (GitFetchStatus::TimedOut, Some(timed_out_message("fetch"@))),
        GitRun::Failed(m) => (GitFetchStatus::Failed, Some(m@)),
    }
}

/// The outcome of a fetch from how the git run ended.
pub fn fetch_outcome(run: GitRun) -> (r: FetchOutcome)
    ensures
        (r.status, opt_str(r.error)) == fetch_run_outcome(run),
{
    match run {
        GitRun::Exited(success, stderr) => {
            if success {
                FetchOutcome { status: GitFetchStatus::Succeeded, error: None }
            } else {
                classify_fetch_failure(stderr.as_str())
            }
        },
        GitRun::TimedOut => FetchOutcome { status: GitFetchStatus::TimedOut, error: Some(timed_out_exec("fetch")) },
        GitRun::Failed(m) => FetchOutcome { status: GitFetchStatus::Failed, error: Some(m) },
    }
}

/// The result of a pull from how the git run ended: nothing, or the message.
pub open spec fn pull_run_outcome(run: GitRun) -> Option<Seq<char>> {
    match run {
        GitRun::Exited(success, stderr) => if success {
            None
        } else {
            Some(pull_failure(stderr@))
        },
        GitRun::TimedOut => Some(timed_out_message("pull"@)),
        GitRun::Failed(m) => Some(m@),
    }
}

/// The result of a pull from how the git run ended.
pub fn pull_outcome(run: GitRun) -> (r: Result<(), String>)
    ensures
        match r {
            Ok(()) => pull_run_outcome(run) is None,
            Err(m) => pull_run_outcome(run) == Some(m@),
        },
{
    match run {
        GitRun::Exited(success, stderr) => {
            if success {
                Ok(())
            } else {
                Err(classify_pull_failure(stderr.as_str()))
            }
        },
        GitRun::TimedOut => Err(timed_out_exec("pull")),
        GitRun::Failed(m) => Err(m),
    }
}

} // verus!
