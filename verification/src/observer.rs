//! Read-only observation of a project's Git repository (branch, upstream
//! relationship, working-tree state, recent commits) and the checks made
//! before a fetch or a pull. What Git finds on disk is not known here: the
//! contracts say what holds of every outcome.

use vstd::prelude::*;
use crate::text::{chars_of, copy_range, eq_ignore_ascii_case, eq_ignore_case, lit, push_str, starts_with, string_of};
use crate::models::{opt_str, GitCommit, GitFetchStatus, GitInfo, GitSyncStatus, UnixMicros};
use crate::git_sync::{classify_sync_status, failed, latest, with_fetch, FetchOutcome, GitFetchSnapshot};

verus! {

#[verifier::external_type_specification]
#[verifier::external_body]
pub struct ExRepository(git2::Repository);

#[verifier::external_type_specification]
#[verifier::external_body]
pub struct ExReference<'a>(git2::Reference<'a>);

#[verifier::external_type_specification]
#[verifier::external_body]
pub struct ExBranch<'a>(git2::Branch<'a>);

#[verifier::external_type_specification]
#[verifier::external_body]
pub struct ExOid(git2::Oid);

#[verifier::external_type_specification]
#[verifier::external_body]
pub struct ExCommit<'a>(git2::Commit<'a>);

#[verifier::external_type_specification]
#[verifier::external_body]
pub struct ExRevwalk<'a>(git2::Revwalk<'a>);

#[verifier::external_type_specification]
#[verifier::external_body]
pub struct ExGitError(git2::Error);

/// The kinds of Git error that the observation tells apart.
#[derive(Clone, Copy, Debug, PartialEq, Eq, Structural)]
pub enum GitErrorKind {
    NotFound,
    UnbornBranch,
    Other,
}

/// The most recent commits listed.
pub const MAX_COMMITS: usize = 25;

// ---------------------------------------------------------------------------
// Calls into git2 and std::path

/// `git2::Repository::open`.
#[verifier::external_body]
fn open_repository(root: &str) -> (r: Result<git2::Repository, git2::Error>) {
    git2::Repository::open(root)
}

/// `git2::Error::code`, as the kinds the observation tells apart.
#[verifier::external_body]
fn error_kind(error: &git2::Error) -> (r: GitErrorKind) {
    match error.code() {
        git2::ErrorCode::NotFound => GitErrorKind::NotFound,
        git2::ErrorCode::UnbornBranch => GitErrorKind::UnbornBranch,
        _ => GitErrorKind::Other,
    }
}

/// The `Display` text of a `git2::Error`.
#[verifier::external_body]
fn error_text(error: &git2::Error) -> (r: String) {
    error.to_string()
}

/// `git2::Repository::head`.
#[verifier::external_body]
fn repository_head<'a>(repo: &'a git2::Repository) -> (r: Result<git2::Reference<'a>, git2::Error>) {
    repo.head()
}

/// `git2::Reference::is_branch`.
#[verifier::external_body]
fn reference_is_branch(reference: &git2::Reference) -> (r: bool) {
    reference.is_branch()
}

/// `git2::Reference::shorthand`.
#[verifier::external_body]
fn reference_shorthand(reference: &git2::Reference) -> (r: Result<String, git2::Error>) {
    reference.shorthand().map(str::to_owned)
}

/// `git2::Reference::target`.
#[verifier::external_body]
fn reference_target(reference: &git2::Reference) -> (r: Option<git2::Oid>) {
    reference.target()
}

/// `git2::Repository::find_branch` for a local branch.
#[verifier::external_body]
fn find_local_branch<'a>(repo: &'a git2::Repository, name: &str) -> (r: Result<git2::Branch<'a>, git2::Error>) {
    repo.find_branch(name, git2::BranchType::Local)
}

/// `git2::Branch::upstream`.
#[verifier::external_body]
fn branch_upstream<'a>(branch: &git2::Branch<'a>) -> (r: Result<git2::Branch<'a>, git2::Error>) {
    branch.upstream()
}

/// `git2::Branch::name`.
#[verifier::external_body]
fn branch_name(branch: &git2::Branch) -> (r: Result<Option<String>, git2::Error>) {
    branch.name().map(|name| name.map(str::to_owned))
}

/// `git2::Branch::get`: the branch's reference.
#[verifier::external_body]
fn branch_reference<'a, 'b>(branch: &'b git2::Branch<'a>) -> (r: &'b git2::Reference<'a>) {
    branch.get()
}

/// `git2::Repository::graph_ahead_behind`.
#[verifier::external_body]
fn graph_ahead_behind(repo: &git2::Repository, local: git2::Oid, upstream: git2::Oid) -> (r: Result<(usize, usize), git2::Error>) {
    repo.graph_ahead_behind(local, upstream)
}

/// A lowercase hexadecimal digit.
pub open spec fn is_lower_hex(c: char) -> bool {
    ('0' <= c && c <= '9') || ('a' <= c && c <= 'f')
}

/// Text made of lowercase hexadecimal digits only.
pub open spec fn lower_hex_text(s: Seq<char>) -> bool {
    forall|i: int| 0 <= i < s.len() ==> is_lower_hex(#[trigger] s[i])
}

/// The changed entries of the working tree: untracked files included (and
/// the contents of untracked directories), ignored files left out.
fn changed_entries(repo: &git2::Repository) -> (r: Result<Vec<Option<String>>, git2::Error>) {
    repository_statuses(repo, false, true, true)
}

/// The hexadecimal text of an object ID (`git2::Oid`'s `Display`). libgit2
/// writes the SHA-1 digest (this build has no SHA-256 object IDs) as forty
/// digits from `0123456789abcdef`; which digits is not stated.
#[verifier::external_body]
fn oid_text(oid: git2::Oid) -> (r: String)
    ensures
        r@.len() == 40,
        lower_hex_text(r@),
{
    oid.to_string()
}

/// `git2::Repository::path`: the repository's Git directory, as text.
#[verifier::external_body]
fn git_directory(repo: &git2::Repository) -> (r: String) {
    repo.path().to_string_lossy().into_owned()
}

/// `git2::Repository::statuses` with the given status options: the path of
/// each changed entry (`None` where it is not UTF-8).
#[verifier::external_body]
fn repository_statuses(
    repo: &git2::Repository,
    include_ignored: bool,
    include_untracked: bool,
    recurse_untracked_dirs: bool,
) -> (r: Result<Vec<Option<String>>, git2::Error>) {
    let mut options = git2::StatusOptions::new();
    options
        .include_ignored(include_ignored)
        .include_untracked(include_untracked)
        .recurse_untracked_dirs(recurse_untracked_dirs);
    repo.statuses(Some(&mut options))
        .map(|statuses| statuses.iter().map(|entry| entry.path().ok().map(str::to_owned)).collect())
}

/// `git2::Repository::remotes`: how many remotes are configured.
#[verifier::external_body]
fn remote_count(repo: &git2::Repository) -> (r: Result<usize, git2::Error>) {
    repo.remotes().map(|remotes| remotes.len())
}

/// `git2::Repository::revwalk`.
#[verifier::external_body]
fn repository_revwalk<'a>(repo: &'a git2::Repository) -> (r: Result<git2::Revwalk<'a>, git2::Error>) {
    repo.revwalk()
}

/// `git2::Revwalk::push_head`.
#[verifier::external_body]
fn revwalk_push_head(walk: &mut git2::Revwalk) -> (r: Result<(), git2::Error>) {
    walk.push_head()
}

/// The next item of a `git2::Revwalk`.
#[verifier::external_body]
fn revwalk_next(walk: &mut git2::Revwalk) -> (r: Option<Result<git2::Oid, git2::Error>>) {
    walk.next()
}

/// `git2::Repository::find_commit`.
#[verifier::external_body]
fn find_commit<'a>(repo: &'a git2::Repository, oid: git2::Oid) -> (r: Result<git2::Commit<'a>, git2::Error>) {
    repo.find_commit(oid)
}

/// `git2::Commit::id`.
#[verifier::external_body]
fn commit_id(commit: &git2::Commit) -> (r: git2::Oid) {
    commit.id()
}

/// The seconds of `git2::Commit::time`.
#[verifier::external_body]
fn commit_seconds(commit: &git2::Commit) -> (r: i64) {
    commit.time().seconds()
}

/// `git2::Commit::summary`, where it is UTF-8.
#[verifier::external_body]
fn commit_summary(commit: &git2::Commit) -> (r: Option<String>) {
    commit.summary().ok().flatten().map(str::to_owned)
}

/// The name of `git2::Commit::author`, where it is UTF-8.
#[verifier::external_body]
fn commit_author(commit: &git2::Commit) -> (r: Option<String>) {
    commit.author().name().ok().map(str::to_owned)
}

/// `chrono::DateTime::<Utc>::from_timestamp(seconds, 0)` in microseconds
/// (`timestamp_micros`, which is the seconds times a million when there are
/// no sub-second parts); `None` where chrono cannot represent the time. The
/// bound keeps that product within `i64`.
#[verifier::external_body]
fn seconds_to_micros(seconds: i64) -> (r: Option<UnixMicros>)
    requires
        -9_223_372_036_854 <= seconds <= 9_223_372_036_854,
    ensures
        r matches Some(m) ==> m == seconds * 1_000_000,
{
    chrono::DateTime::<chrono::Utc>::from_timestamp(seconds, 0).map(|time| time.timestamp_micros())
}

/// `std::path::Path::is_dir`.
#[verifier::external_body]
fn is_directory(path: &str) -> (r: bool) {
    std::path::Path::new(path).is_dir()
}

/// `std::path::Path::canonicalize`, as text.
#[verifier::external_body]
fn canonical_path(path: &str) -> (r: Option<String>) {
    std::path::Path::new(path).canonicalize().ok().map(|p| p.to_string_lossy().into_owned())
}

/// `std::path::Path::starts_with` (whole components).
#[verifier::external_body]
fn path_starts_with(path: &str, base: &str) -> (r: bool) {
    std::path::Path::new(path).starts_with(base)
}

/// `std::path::Path::join`, as text.
#[verifier::external_body]
fn join_path(base: &str, relative: &str) -> (r: String) {
    std::path::Path::new(base).join(relative).to_string_lossy().into_owned()
}

// ---------------------------------------------------------------------------
// Decisions

/// Whether the repository's Git directory lies inside the project directory.
fn repository_is_within_root(repo: &git2::Repository, root: &str) -> (r: bool) {
    match (canonical_path(root), canonical_path(git_directory(repo).as_str())) {
        (Some(root), Some(git_dir)) => path_starts_with(git_dir.as_str(), root.as_str()),
        _ => false,
    }
}

/// The relation of the current branch to its upstream.
#[derive(Clone, Debug)]
pub struct UpstreamStatus {
    pub upstream: Option<String>,
    pub ahead: Option<usize>,
    pub behind: Option<usize>,
    pub sync_status: GitSyncStatus,
    pub message: Option<String>,
}

/// Every outcome is consistent: counts come together, classify the
/// relationship, and come without a message; without counts the relationship
/// is unknown and a message says why.
pub open spec fn upstream_consistent(u: UpstreamStatus) -> bool {
    match (u.ahead, u.behind) {
        (Some(a), Some(b)) => u.message is None && u.sync_status == (if a == 0 && b == 0 {
            GitSyncStatus::Synchronized
        } else if b == 0 {
            GitSyncStatus::Ahead
        } else if a == 0 {
            GitSyncStatus::Behind
        } else {
            GitSyncStatus::Diverged
        }),
        (None, None) => u.message is Some && u.sync_status == GitSyncStatus::Unknown,
        _ => false,
    }
}

fn unknown_upstream(upstream: Option<String>, message: String) -> (r: UpstreamStatus)
    ensures
        upstream_consistent(r),
        r.ahead is None,
        r.upstream == upstream,
        r.message == Some(message),
{
    UpstreamStatus { upstream, ahead: None, behind: None, sync_status: GitSyncStatus::Unknown, message: Some(message) }
}

/// What was read of the checked-out branch and its upstream, up to the first
/// step that could not be read; error texts are the errors' messages.
pub enum UpstreamRead {
    HeadUnborn,
    HeadFailed(String),
    Detached,
    NameFailed(String),
    BranchFailed(String),
    UpstreamMissing,
    UpstreamFailed(String),
    LocalTargetMissing(Option<String>),
    UpstreamTargetMissing(Option<String>),
    Compared(Option<String>, Result<(usize, usize), String>),
}

/// An upstream status over texts.
pub struct UpstreamModel {
    pub upstream: Option<Seq<char>>,
    pub ahead: Option<usize>,
    pub behind: Option<usize>,
    pub sync_status: GitSyncStatus,
    pub message: Option<Seq<char>>,
}

pub open spec fn upstream_view(u: UpstreamStatus) -> UpstreamModel {
    UpstreamModel {
        upstream: opt_str(u.upstream),
        ahead: u.ahead,
        behind: u.behind,
        sync_status: u.sync_status,
        message: opt_str(u.message),
    }
}

/// The upstream branch's name as shown: its full name without the leading
/// `refs/remotes/`.
pub open spec fn remote_branch_name(raw: Option<String>) -> Option<Seq<char>> {
    match raw {
        Some(n) => Some(strip_all_prefix_spec(n@, "refs/remotes/"@)),
        None => None,
    }
}

pub open spec fn unknown_model(upstream: Option<Seq<char>>, message: Seq<char>) -> UpstreamModel {
    UpstreamModel { upstream, ahead: None, behind: None, sync_status: GitSyncStatus::Unknown, message: Some(message) }
}

pub open spec fn sync_of(ahead: usize, behind: usize) -> GitSyncStatus {
    if ahead == 0 && behind == 0 {
        GitSyncStatus::Synchronized
    } else if behind == 0 {
        GitSyncStatus::Ahead
    } else if ahead == 0 {
        GitSyncStatus::Behind
    } else {
        GitSyncStatus::Diverged
    }
}

/// The upstream status that what was read gives.
pub open spec fn upstream_model(read: UpstreamRead) -> UpstreamModel {
    match read {
        UpstreamRead::HeadUnborn => unknown_model(None, "The branch has no commits yet."@),
        UpstreamRead::HeadFailed(t) => unknown_model(None, "Unable to inspect the current branch: "@ + t@),
        UpstreamRead::Detached => unknown_model(None, "Detached HEAD has no upstream branch."@),
        UpstreamRead::NameFailed(t) => unknown_model(None, "The current branch name is unavailable: "@ + t@),
        UpstreamRead::BranchFailed(t) => unknown_model(None, "Unable to inspect the current branch: "@ + t@),
        UpstreamRead::UpstreamMissing => unknown_model(None, "The current branch has no available upstream branch."@),
        UpstreamRead::UpstreamFailed(t) => unknown_model(None, "Unable to inspect the upstream branch: "@ + t@),
        UpstreamRead::LocalTargetMissing(n) => unknown_model(remote_branch_name(n), "The current branch target is unavailable."@),
        UpstreamRead::UpstreamTargetMissing(n) => unknown_model(remote_branch_name(n), "The upstream branch target is unavailable."@),
        UpstreamRead::Compared(n, c) => match c {
            Ok((a, b)) => UpstreamModel {
                upstream: remote_branch_name(n),
                ahead: Some(a),
                behind: Some(b),
                sync_status: sync_of(a, b),
                message: None,
            },
            Err(t) => unknown_model(remote_branch_name(n), "Unable to compare with the upstream branch: "@ + t@),
        },
    }
}

fn prefixed(prefix: &str, text: &str) -> (r: String)
    ensures
        r@ == prefix@ + text@,
{
    let mut m = lit(prefix);
    push_str(&mut m, text);
    string_of(&m)
}

fn remote_name_exec(raw: Option<String>) -> (r: Option<String>)
    ensures
        opt_str(r) == remote_branch_name(raw),
{
    match raw {
        Some(name) => {
            let remote = lit("refs/remotes/");
            Some(string_of(&strip_all_prefix(&chars_of(name.as_str()), &remote)))
        },
        None => None,
    }
}

/// The upstream status from what was read of the branch and its upstream.
pub fn upstream_from(read: UpstreamRead) -> (r: UpstreamStatus)
    ensures
        upstream_view(r) == upstream_model(read),
        upstream_consistent(r),
{
    match read {
        UpstreamRead::HeadUnborn => unknown_upstream(None, String::from_str("The branch has no commits yet.")),
        UpstreamRead::HeadFailed(t) => unknown_upstream(None, prefixed("Unable to inspect the current branch: ", t.as_str())),
        UpstreamRead::Detached => unknown_upstream(None, String::from_str("Detached HEAD has no upstream branch.")),
        UpstreamRead::NameFailed(t) => unknown_upstream(None, prefixed("The current branch name is unavailable: ", t.as_str())),
        UpstreamRead::BranchFailed(t) => unknown_upstream(None, prefixed("Unable to inspect the current branch: ", t.as_str())),
        UpstreamRead::UpstreamMissing => unknown_upstream(
            None,
            String::from_str("The current branch has no available upstream branch."),
        ),
        UpstreamRead::UpstreamFailed(t) => unknown_upstream(None, prefixed("Unable to inspect the upstream branch: ", t.as_str())),
        UpstreamRead::LocalTargetMissing(n) => unknown_upstream(
            remote_name_exec(n),
            String::from_str("The current branch target is unavailable."),
        ),
        UpstreamRead::UpstreamTargetMissing(n) => unknown_upstream(
            remote_name_exec(n),
            String::from_str("The upstream branch target is unavailable."),
        ),
        UpstreamRead::Compared(n, c) => match c {
            Ok((ahead, behind)) => UpstreamStatus {
                upstream: remote_name_exec(n),
                ahead: Some(ahead),
                behind: Some(behind),
                sync_status: classify_sync_status(ahead, behind),
                message: None,
            },
            Err(t) => unknown_upstream(remote_name_exec(n), prefixed("Unable to compare with the upstream branch: ", t.as_str())),
        },
    }
}

/// Reads the checked-out branch and its upstream through git2.
fn read_upstream(repo: &git2::Repository) -> UpstreamRead {
    let head = match repository_head(repo) {
        Ok(head) => head,
        Err(error) => {
            return match error_kind(&error) {
                GitErrorKind::UnbornBranch => UpstreamRead::HeadUnborn,
                _ => UpstreamRead::HeadFailed(error_text(&error)),
            };
        },
    };
    if !reference_is_branch(&head) {
        return UpstreamRead::Detached;
    }
    let branch_name_text = match reference_shorthand(&head) {
        Ok(name) => name,
        Err(error) => {
            return UpstreamRead::NameFailed(error_text(&error));
        },
    };
    let branch = match find_local_branch(repo, branch_name_text.as_str()) {
        Ok(branch) => branch,
        Err(error) => {
            return UpstreamRead::BranchFailed(error_text(&error));
        },
    };
    let upstream = match branch_upstream(&branch) {
        Ok(upstream) => upstream,
        Err(error) => {
            return match error_kind(&error) {
                GitErrorKind::NotFound => UpstreamRead::UpstreamMissing,
                _ => UpstreamRead::UpstreamFailed(error_text(&error)),
            };
        },
    };
    let raw_name = match branch_name(&upstream) {
        Ok(Some(name)) => Some(name),
        _ => None,
    };
    let local_oid = match reference_target(branch_reference(&branch)) {
        Some(oid) => oid,
        None => {
            return UpstreamRead::LocalTargetMissing(raw_name);
        },
    };
    let upstream_oid = match reference_target(branch_reference(&upstream)) {
        Some(oid) => oid,
        None => {
            return UpstreamRead::UpstreamTargetMissing(raw_name);
        },
    };
    let comparison = match graph_ahead_behind(repo, local_oid, upstream_oid) {
        Ok(counts) => Ok(counts),
        Err(error) => Err(error_text(&error)),
    };
    UpstreamRead::Compared(raw_name, comparison)
}

/// `upstream_status`: how the checked-out branch stands against its
/// upstream, or why that cannot be told. What git2 returns decides; the
/// status is `upstream_from` of what was read.
pub fn upstream_status(repo: &git2::Repository) -> (r: UpstreamStatus)
    ensures
        upstream_consistent(r),
{
    upstream_from(read_upstream(repo))
}

/// `trim_start_matches(prefix)`: every leading copy of a non-empty prefix removed.
pub open spec fn strip_all_prefix_spec(s: Seq<char>, p: Seq<char>) -> Seq<char>
    decreases s.len(),
{
    if p.len() > 0 && crate::text::starts_with(s, p) {
        strip_all_prefix_spec(s.subrange(p.len() as int, s.len() as int), p)
    } else {
        s
    }
}

fn strip_all_prefix(s: &[char], p: &[char]) -> (r: Vec<char>)
    ensures
        r@ == strip_all_prefix_spec(s@, p@),
{
    let mut i: usize = 0;
    assert(s@.subrange(0, s@.len() as int) == s@);
    while p.len() > 0 && p.len() <= s.len() - i && crate::text::matches_at(s, i, p)
        invariant
            i <= s@.len(),
            strip_all_prefix_spec(s@.subrange(i as int, s@.len() as int), p@) == strip_all_prefix_spec(s@, p@),
        decreases s@.len() - i,
    {
        let ghost rest = s@.subrange(i as int, s@.len() as int);
        assert(rest.subrange(0, p@.len() as int) =~= s@.subrange(i as int, i + p@.len()));
        assert(rest.subrange(p@.len() as int, rest.len() as int) =~= s@.subrange(i + p@.len(), s@.len() as int));
        i = i + p.len();
    }
    proof {
        let rest = s@.subrange(i as int, s@.len() as int);
        if p@.len() > 0 && crate::text::starts_with(rest, p@) {
            assert(rest.subrange(0, p@.len() as int) =~= s@.subrange(i as int, i + p@.len()));
        }
    }
    copy_range(s, i, s.len())
}

/// The first eight characters of an object ID.
fn short_oid(oid: git2::Oid) -> (r: String)
    ensures
        r@.len() == 8,
        lower_hex_text(r@),
{
    let text = chars_of(oid_text(oid).as_str());
    let n: usize = if text.len() < 8 { text.len() } else { 8 };
    string_of(&copy_range(&text, 0, n))
}

/// The commit time in microseconds, where it is representable.
fn micros_of_commit(commit: &git2::Commit) -> (r: Option<UnixMicros>)
    ensures
        r matches Some(m) ==> m % 1_000_000 == 0,
{
    let seconds = commit_seconds(commit);
    if seconds < -9_223_372_036_854 || seconds > 9_223_372_036_854 {
        return None;
    }
    let r = seconds_to_micros(seconds);
    proof {
        assert((seconds * 1_000_000) % 1_000_000 == 0) by (nonlinear_arith);
    }
    r
}

/// What was read of one commit of the walk: its short ID, its time where
/// chrono can represent it, and its summary and author where they are UTF-8.
pub struct CommitRead {
    pub id: String,
    pub committed_at: Option<UnixMicros>,
    pub summary: Option<String>,
    pub author: Option<String>,
}

/// A listed commit over texts.
pub struct CommitModel {
    pub id: Seq<char>,
    pub summary: Seq<char>,
    pub author: Seq<char>,
    pub committed_at: UnixMicros,
}

pub open spec fn commit_view(c: GitCommit) -> CommitModel {
    CommitModel { id: c.id@, summary: c.summary@, author: c.author@, committed_at: c.committed_at }
}

pub open spec fn commit_views(v: Seq<GitCommit>) -> Seq<CommitModel> {
    v.map_values(|c: GitCommit| commit_view(c))
}

/// The listed commit for what was read, where its time is known.
pub open spec fn commit_of(c: CommitRead) -> Option<CommitModel> {
    match c.committed_at {
        None => None,
        Some(t) => Some(CommitModel {
            id: c.id@,
            summary: match c.summary {
                Some(s) => s@,
                None => "Untitled commit"@,
            },
            author: match c.author {
                Some(a) => a@,
                None => "Unknown author"@,
            },
            committed_at: t,
        }),
    }
}

/// The commits listed from walk items, in walk order; unreadable items
/// (`None`) and commits without a representable time are left out.
pub open spec fn commits_kept(reads: Seq<Option<CommitRead>>) -> Seq<CommitModel>
    decreases reads.len(),
{
    if reads.len() == 0 {
        Seq::empty()
    } else {
        let prev = commits_kept(reads.drop_last());
        match reads.last() {
            Some(c) => match commit_of(c) {
                Some(m) => prev.push(m),
                None => prev,
            },
            None => prev,
        }
    }
}

/// The first `MAX_COMMITS` items of the walk.
pub open spec fn walk_window(reads: Seq<Option<CommitRead>>) -> Seq<Option<CommitRead>> {
    if reads.len() > 25 {
        reads.subrange(0, 25)
    } else {
        reads
    }
}

/// The commit list from the walk items: the readable ones of the first
/// `MAX_COMMITS` items, in walk order (newest first).
pub fn commits_from(reads: &Vec<Option<CommitRead>>) -> (r: Vec<GitCommit>)
    ensures
        commit_views(r@) == commits_kept(walk_window(reads@)),
        r@.len() <= 25,
{
    let n: usize = if reads.len() > MAX_COMMITS { MAX_COMMITS } else { reads.len() };
    let mut out: Vec<GitCommit> = Vec::new();
    let mut i: usize = 0;
    while i < n
        invariant
            i <= n,
            n <= reads@.len(),
            n <= 25,
            walk_window(reads@) == reads@.subrange(0, n as int),
            commit_views(out@) == commits_kept(reads@.subrange(0, i as int)),
            out@.len() <= i,
        decreases n - i,
    {
        assert(reads@.subrange(0, i + 1).drop_last() =~= reads@.subrange(0, i as int));
        assert(reads@.subrange(0, i + 1).last() == reads@[i as int]);
        match &reads[i] {
            None => {},
            Some(c) => match c.committed_at {
                None => {},
                Some(t) => {
                    let entry = GitCommit {
                        id: c.id.clone(),
                        summary: match &c.summary {
                            Some(s) => s.clone(),
                            None => String::from_str("Untitled commit"),
                        },
                        author: match &c.author {
                            Some(a) => a.clone(),
                            None => String::from_str("Unknown author"),
                        },
                        committed_at: t,
                    };
                    let ghost before = commit_views(out@);
                    let ghost ev = commit_view(entry);
                    out.push(entry);
                    assert(commit_views(out@) =~= before.push(ev));
                },
            },
        }
        i += 1;
    }
    proof {
        if reads@.len() <= 25 {
            assert(reads@.subrange(0, n as int) =~= reads@);
        }
    }
    out
}

/// Walk items whose IDs are eight lowercase hexadecimal digits and whose
/// times are whole seconds.
pub open spec fn read_well_formed(r: Option<CommitRead>) -> bool {
    r matches Some(c) ==> c.id@.len() == 8 && lower_hex_text(c.id@) && (c.committed_at matches Some(t) ==> t % 1_000_000 == 0)
}

proof fn lemma_commits_kept_well_formed(reads: Seq<Option<CommitRead>>)
    requires
        forall|i: int| 0 <= i < reads.len() ==> read_well_formed(#[trigger] reads[i]),
    ensures
        forall|j: int| 0 <= j < commits_kept(reads).len() ==> {
            let m = #[trigger] commits_kept(reads)[j];
            &&& m.id.len() == 8
            &&& lower_hex_text(m.id)
            &&& m.committed_at % 1_000_000 == 0
        },
    decreases reads.len(),
{
    if reads.len() > 0 {
        let d = reads.drop_last();
        assert forall|i: int| 0 <= i < d.len() implies read_well_formed(#[trigger] d[i]) by {
            assert(d[i] == reads[i]);
        }
        lemma_commits_kept_well_formed(d);
        assert(read_well_formed(reads[reads.len() - 1]));
        let prev = commits_kept(d);
        let kept = commits_kept(reads);
        assert forall|j: int| 0 <= j < kept.len() implies ({
            let m = #[trigger] kept[j];
            &&& m.id.len() == 8
            &&& lower_hex_text(m.id)
            &&& m.committed_at % 1_000_000 == 0
        }) by {
            if j < prev.len() {
                assert(kept[j] == prev[j]);
            } else {
                let c = reads.last()->Some_0;
                assert(kept[j] == commit_of(c)->Some_0);
            }
        }
    }
}

/// Walks up to `MAX_COMMITS` items from HEAD through git2; each item is the
/// commit read, or `None` where it could not be read.
fn walk_commits(repo: &git2::Repository) -> (r: Vec<Option<CommitRead>>)
    ensures
        r@.len() <= 25,
        forall|i: int| 0 <= i < r@.len() ==> read_well_formed(#[trigger] r@[i]),
{
    let mut out: Vec<Option<CommitRead>> = Vec::new();
    let mut walk = match repository_revwalk(repo) {
        Ok(walk) => walk,
        Err(_) => {
            return out;
        },
    };
    match revwalk_push_head(&mut walk) {
        Ok(()) => {},
        Err(_) => {
            return out;
        },
    }
    let mut taken: usize = 0;
    while taken < MAX_COMMITS
        invariant
            taken <= 25,
            out@.len() == taken,
            forall|i: int| 0 <= i < out@.len() ==> read_well_formed(#[trigger] out@[i]),
        decreases 25 - taken,
    {
        let next = revwalk_next(&mut walk);
        let item: Option<CommitRead> = match next {
            None => {
                break;
            },
            Some(Err(_)) => None,
            Some(Ok(oid)) => match find_commit(repo, oid) {
                Err(_) => None,
                Ok(commit) => Some(CommitRead {
                    id: short_oid(commit_id(&commit)),
                    committed_at: micros_of_commit(&commit),
                    summary: commit_summary(&commit),
                    author: commit_author(&commit),
                }),
            },
        };
        let ghost before = out@;
        out.push(item);
        assert(out@ == before.push(item));
        taken += 1;
    }
    out
}

/// `recent_commits`: up to `MAX_COMMITS` commits reachable from HEAD, newest
/// first; entries that cannot be read are skipped. What the walk gives
/// decides; the list is `commits_from` of it.
pub fn recent_commits(repo: &git2::Repository) -> (r: Vec<GitCommit>)
    ensures
        r@.len() <= 25,
        forall|i: int| 0 <= i < r@.len() ==> {
            let c = #[trigger] r@[i];
            &&& c.id@.len() == 8
            &&& lower_hex_text(c.id@)
            &&& c.committed_at % 1_000_000 == 0
        },
{
    let reads = walk_commits(repo);
    let r = commits_from(&reads);
    proof {
        let w = walk_window(reads@);
        assert forall|i: int| 0 <= i < w.len() implies read_well_formed(#[trigger] w[i]) by {
            assert(w[i] == reads@[i]);
        }
        lemma_commits_kept_well_formed(w);
        assert forall|i: int| 0 <= i < r@.len() implies ({
            let c = #[trigger] r@[i];
            &&& c.id@.len() == 8
            &&& lower_hex_text(c.id@)
            &&& c.committed_at % 1_000_000 == 0
        }) by {
            assert(commit_views(r@)[i] == commit_view(r@[i]));
            assert(commits_kept(w)[i] == commit_views(r@)[i]);
        }
    }
    r
}

/// What the Git observation found, with the files whose modification times
/// still count toward the last activity: those read through symbolic links
/// (the repository's `HEAD` and index) and those read as links themselves
/// (the changed working-tree entries).
#[derive(Clone, Debug)]
pub struct GitObservation {
    pub info: GitInfo,
    pub metadata_paths: Vec<String>,
    pub entry_paths: Vec<String>,
}

/// The observation carries the fetch snapshot, and its working-tree state
/// only where it could be read.
pub open spec fn observation_consistent(o: GitObservation, fetch: GitFetchSnapshot) -> bool {
    &&& o.info.fetch_status == fetch.status
    &&& o.info.last_successful_fetch == fetch.last_successful_fetch
    &&& o.info.fetch_error == fetch.error
    &&& (o.info.dirty is Some ==> o.info.is_repository && o.info.error is None)
    &&& (!o.info.is_repository ==> o.info.recent_commits@.len() == 0 && o.metadata_paths@.len() == 0
        && o.entry_paths@.len() == 0)
    &&& o.info.recent_commits@.len() <= 25
}

fn not_observed(info: GitInfo, fetch: &GitFetchSnapshot) -> (r: GitObservation)
    requires
        !info.is_repository,
        info.dirty is None,
        info.recent_commits@.len() == 0,
    ensures
        observation_consistent(r, *fetch),
        r.info == (GitInfo {
            fetch_status: fetch.status,
            last_successful_fetch: fetch.last_successful_fetch,
            fetch_error: fetch.error,
            ..info
        }),
{
    GitObservation { info: with_fetch(info, fetch), metadata_paths: Vec::new(), entry_paths: Vec::new() }
}

/// What was read of the checked-out branch for its label.
pub enum BranchRead {
    Named(String),
    NameUnreadable,
    Detached(Option<String>),
    Unborn,
    Unreadable,
}

/// The branch label: the branch's name, `Detached at` and the short ID of
/// the commit, or `No commits yet` on an unborn branch.
pub open spec fn branch_label(b: BranchRead) -> Option<Seq<char>> {
    match b {
        BranchRead::Named(n) => Some(n@),
        BranchRead::NameUnreadable => None,
        BranchRead::Detached(id) => match id {
            Some(i) => Some("Detached at "@ + i@),
            None => None,
        },
        BranchRead::Unborn => Some("No commits yet"@),
        BranchRead::Unreadable => None,
    }
}

fn branch_label_exec(b: BranchRead) -> (r: Option<String>)
    ensures
        opt_str(r) == branch_label(b),
{
    match b {
        BranchRead::Named(n) => Some(n),
        BranchRead::NameUnreadable => None,
        BranchRead::Detached(id) => match id {
            Some(i) => Some(prefixed("Detached at ", i.as_str())),
            None => None,
        },
        BranchRead::Unborn => Some(String::from_str("No commits yet")),
        BranchRead::Unreadable => None,
    }
}

/// What was read of a repository inside its project directory: the branch,
/// the upstream, the paths of `HEAD` and the index, the working-tree status
/// (the number of changed entries and the full paths of those with UTF-8
/// names, or the error's message), and the walk of recent commits.
pub struct RepositoryRead {
    pub branch: BranchRead,
    pub upstream: UpstreamRead,
    pub metadata_paths: Vec<String>,
    pub changes: Result<(usize, Vec<String>), String>,
    pub commits: Vec<Option<CommitRead>>,
}

/// What was read of a project directory for its Git observation.
pub enum GitRead {
    NotDirectory,
    Unopened(GitErrorKind, String),
    Outside,
    Opened(RepositoryRead),
}

/// No repository state is reported.
pub open spec fn without_repository(i: GitInfo) -> bool {
    &&& !i.is_repository
    &&& i.branch is None
    &&& i.dirty is None
    &&& i.recent_commits@.len() == 0
    &&& i.last_activity is None
    &&& i.upstream is None
    &&& i.ahead is None
    &&& i.behind is None
    &&& i.sync_status == GitSyncStatus::Unknown
    &&& i.sync_message is None
}

/// The observation that what was read gives, with the fetch snapshot.
pub open spec fn observation_matches(o: GitObservation, read: GitRead, fetch: GitFetchSnapshot) -> bool {
    &&& o.info.fetch_status == fetch.status
    &&& o.info.last_successful_fetch == fetch.last_successful_fetch
    &&& o.info.fetch_error == fetch.error
    &&& match read {
        GitRead::NotDirectory => {
            &&& without_repository(o.info)
            &&& opt_str(o.info.error) == Some("The registered project directory is no longer accessible"@)
            &&& o.metadata_paths@.len() == 0 && o.entry_paths@.len() == 0
        },
        GitRead::Unopened(kind, t) => {
            &&& without_repository(o.info)
            &&& opt_str(o.info.error) == (if kind == GitErrorKind::NotFound {
                None
            } else {
                Some("Unable to inspect Git repository: "@ + t@)
            })
            &&& o.metadata_paths@.len() == 0 && o.entry_paths@.len() == 0
        },
        GitRead::Outside => {
            &&& without_repository(o.info)
            &&& opt_str(o.info.error) == Some(
                "Git metadata resolves outside the registered project directory and was not read"@,
            )
            &&& o.metadata_paths@.len() == 0 && o.entry_paths@.len() == 0
        },
        GitRead::Opened(rr) => {
            let u = upstream_model(rr.upstream);
            &&& o.info.is_repository
            &&& opt_str(o.info.branch) == branch_label(rr.branch)
            &&& opt_str(o.info.upstream) == u.upstream
            &&& o.info.ahead == u.ahead
            &&& o.info.behind == u.behind
            &&& o.info.sync_status == u.sync_status
            &&& opt_str(o.info.sync_message) == u.message
            &&& o.metadata_paths@ == rr.metadata_paths@
            &&& match rr.changes {
                Err(t) => {
                    &&& o.info.dirty is None
                    &&& opt_str(o.info.error) == Some("Unable to inspect working tree: "@ + t@)
                    &&& o.info.recent_commits@.len() == 0
                    &&& o.info.last_activity is None
                    &&& o.entry_paths@.len() == 0
                },
                Ok((count, paths)) => {
                    let kept = commits_kept(walk_window(rr.commits@));
                    &&& o.info.dirty == Some(count > 0)
                    &&& o.info.error is None
                    &&& commit_views(o.info.recent_commits@) == kept
                    &&& o.info.last_activity == (if kept.len() > 0 { Some(kept[0].committed_at) } else { None })
                    &&& o.entry_paths@ == paths@
                },
            }
        },
    }
}

/// The Git observation from what was read of the project directory.
pub fn observation_from(read: GitRead, fetch: &GitFetchSnapshot) -> (r: GitObservation)
    ensures
        observation_matches(r, read, *fetch),
        observation_consistent(r, *fetch),
{
    match read {
        GitRead::NotDirectory => not_observed(
            GitInfo::error(String::from_str("The registered project directory is no longer accessible")),
            fetch,
        ),
        GitRead::Unopened(kind, t) => match kind {
            GitErrorKind::NotFound => not_observed(GitInfo::not_repository(), fetch),
            _ => not_observed(GitInfo::error(prefixed("Unable to inspect Git repository: ", t.as_str())), fetch),
        },
        GitRead::Outside => not_observed(
            GitInfo::error(String::from_str(
                "Git metadata resolves outside the registered project directory and was not read",
            )),
            fetch,
        ),
        GitRead::Opened(rr) => {
            let ghost rv = rr;
            let branch = branch_label_exec(rr.branch);
            let upstream = upstream_from(rr.upstream);
            match rr.changes {
                Err(t) => GitObservation {
                    info: GitInfo {
                        is_repository: true,
                        branch,
                        dirty: None,
                        recent_commits: Vec::new(),
                        last_activity: None,
                        upstream: upstream.upstream,
                        ahead: upstream.ahead,
                        behind: upstream.behind,
                        sync_status: upstream.sync_status,
                        sync_message: upstream.message,
                        fetch_status: fetch.status,
                        last_successful_fetch: fetch.last_successful_fetch,
                        fetch_error: fetch.error.clone(),
                        error: Some(prefixed("Unable to inspect working tree: ", t.as_str())),
                    },
                    metadata_paths: rr.metadata_paths,
                    entry_paths: Vec::new(),
                },
                Ok((count, entry_paths)) => {
                    let commits = commits_from(&rr.commits);
                    let last_activity = if commits.len() > 0 {
                        Some(commits[0].committed_at)
                    } else {
                        None
                    };
                    proof {
                        if commits@.len() > 0 {
                            assert(commit_views(commits@)[0] == commit_view(commits@[0]));
                        }
                    }
                    GitObservation {
                        info: GitInfo {
                            is_repository: true,
                            branch,
                            dirty: Some(count > 0),
                            recent_commits: commits,
                            last_activity,
                            upstream: upstream.upstream,
                            ahead: upstream.ahead,
                            behind: upstream.behind,
                            sync_status: upstream.sync_status,
                            sync_message: upstream.message,
                            fetch_status: fetch.status,
                            last_successful_fetch: fetch.last_successful_fetch,
                            fetch_error: fetch.error.clone(),
                            error: None,
                        },
                        metadata_paths: rr.metadata_paths,
                        entry_paths,
                    }
                },
            }
        },
    }
}

/// Reads the branch label's parts through git2.
fn read_branch(repo: &git2::Repository) -> BranchRead {
    match repository_head(repo) {
        Ok(head) => {
            if reference_is_branch(&head) {
                match reference_shorthand(&head) {
                    Ok(name) => BranchRead::Named(name),
                    Err(_) => BranchRead::NameUnreadable,
                }
            } else {
                match reference_target(&head) {
                    Some(oid) => BranchRead::Detached(Some(short_oid(oid))),
                    None => BranchRead::Detached(None),
                }
            }
        },
        Err(error) => match error_kind(&error) {
            GitErrorKind::UnbornBranch => BranchRead::Unborn,
            _ => BranchRead::Unreadable,
        },
    }
}

/// Reads the project directory and its repository through std and git2.
fn read_git(root: &str) -> GitRead {
    if !is_directory(root) {
        return GitRead::NotDirectory;
    }
    let repo = match open_repository(root) {
        Ok(repo) => repo,
        Err(error) => {
            return GitRead::Unopened(error_kind(&error), error_text(&error));
        },
    };
    if !repository_is_within_root(&repo, root) {
        return GitRead::Outside;
    }
    let branch = read_branch(&repo);
    let upstream = read_upstream(&repo);
    let git_dir = git_directory(&repo);
    let mut metadata_paths: Vec<String> = Vec::new();
    metadata_paths.push(join_path(git_dir.as_str(), "HEAD"));
    metadata_paths.push(join_path(git_dir.as_str(), "index"));
    let changes = match changed_entries(&repo) {
        Err(error) => Err(error_text(&error)),
        Ok(entries) => {
            let mut paths: Vec<String> = Vec::new();
            let mut i: usize = 0;
            while i < entries.len()
                invariant
                    i <= entries@.len(),
                decreases entries@.len() - i,
            {
                match &entries[i] {
                    Some(relative) => {
                        paths.push(join_path(root, relative.as_str()));
                    },
                    None => {},
                }
                i += 1;
            }
            Ok((entries.len(), paths))
        },
    };
    let commits = match &changes {
        Ok(_) => walk_commits(&repo),
        Err(_) => Vec::new(),
    };
    GitRead::Opened(RepositoryRead { branch, upstream, metadata_paths, changes, commits })
}

/// `observe_git`: branch, upstream, dirty state and recent commits of the
/// repository at `root`, with the fetch snapshot. A directory that is not a
/// repository is reported as such; problems are reported, never raised.
/// What std and git2 return decides; the observation is `observation_from`
/// of what was read.
pub fn observe_git(root: &str, fetch: &GitFetchSnapshot) -> (r: GitObservation)
    ensures
        observation_consistent(r, *fetch),
{
    observation_from(read_git(root), fetch)
}

/// The latest of a time and further optional times.
pub open spec fn latest_of(base: Option<UnixMicros>, times: Seq<Option<UnixMicros>>) -> Option<UnixMicros>
    decreases times.len(),
{
    if times.len() == 0 {
        base
    } else {
        let prev = latest_of(base, times.drop_last());
        match (prev, times.last()) {
            (Some(a), Some(b)) => Some(if a >= b { a } else { b }),
            (Some(a), None) => Some(a),
            (None, t) => t,
        }
    }
}

/// The observation's last activity, with the modification times read for its
/// files folded in.
pub fn with_activity(info: GitInfo, times: &Vec<Option<UnixMicros>>) -> (r: GitInfo)
    ensures
        r == (GitInfo { last_activity: latest_of(info.last_activity, times@), ..info }),
{
    let mut last = info.last_activity;
    let mut i: usize = 0;
    while i < times.len()
        invariant
            i <= times@.len(),
            last == latest_of(info.last_activity, times@.subrange(0, i as int)),
        decreases times@.len() - i,
    {
        assert(times@.subrange(0, i + 1).drop_last() == times@.subrange(0, i as int));
        last = latest(last, times[i]);
        i += 1;
    }
    assert(times@.subrange(0, times@.len() as int) == times@);
    let mut info = info;
    info.last_activity = last;
    info
}

// ---------------------------------------------------------------------------
// Before a fetch or a pull

/// How opening the repository at a project root went: git2 refused it (the
/// error's kind and message), its Git directory lies outside the root, or it
/// was opened inside the root.
pub enum RepositoryAccess {
    OpenFailed(GitErrorKind, String),
    Outside,
    Inside,
}

/// Opens the repository at `root` through git2 and checks where its Git
/// directory lies; the repository comes back only where it lies inside.
fn open_inside(root: &str) -> (r: (RepositoryAccess, Option<git2::Repository>))
    ensures
        r.0 is Inside <==> r.1 is Some,
{
    match open_repository(root) {
        Err(error) => (RepositoryAccess::OpenFailed(error_kind(&error), error_text(&error)), None),
        Ok(repo) => {
            if repository_is_within_root(&repo, root) {
                (RepositoryAccess::Inside, Some(repo))
            } else {
                (RepositoryAccess::Outside, None)
            }
        },
    }
}

/// Why a fetch must not or need not run, given how the repository opened
/// and, for one opened inside the root, how many remotes it has.
pub open spec fn fetch_refusal(access: RepositoryAccess, remotes: Result<usize, String>) -> Option<(GitFetchStatus, Seq<char>)> {
    match access {
        RepositoryAccess::OpenFailed(_, t) => Some((GitFetchStatus::Failed, "The repository is unavailable: "@ + t@)),
        RepositoryAccess::Outside => Some((GitFetchStatus::Failed, "Git metadata is outside the registered project directory"@)),
        RepositoryAccess::Inside => match remotes {
            Err(t) => Some((GitFetchStatus::Failed, "Unable to inspect Git remotes: "@ + t@)),
            Ok(n) => if n == 0 {
                Some((GitFetchStatus::NoRemote, "No Git remotes are configured."@))
            } else {
                None
            },
        },
    }
}

/// The fetch precheck over what was read: the outcome where the fetch must
/// not or need not run, else `None`.
pub fn fetch_precheck_from(access: &RepositoryAccess, remotes: &Result<usize, String>) -> (r: Option<FetchOutcome>)
    ensures
        match r {
            None => fetch_refusal(*access, *remotes) is None,
            Some(o) => o.error is Some && fetch_refusal(*access, *remotes) == Some((o.status, o.error->Some_0@)),
        },
{
    match access {
        RepositoryAccess::OpenFailed(_, t) => Some(failed(prefixed("The repository is unavailable: ", t.as_str()))),
        RepositoryAccess::Outside => Some(failed(String::from_str("Git metadata is outside the registered project directory"))),
        RepositoryAccess::Inside => match remotes {
            Err(t) => Some(failed(prefixed("Unable to inspect Git remotes: ", t.as_str()))),
            Ok(n) => {
                if *n == 0 {
                    Some(FetchOutcome {
                        status: GitFetchStatus::NoRemote,
                        error: Some(String::from_str("No Git remotes are configured.")),
                    })
                } else {
                    None
                }
            },
        },
    }
}

proof fn lemma_prefix_starts(p: Seq<char>, t: Seq<char>)
    ensures
        starts_with(p + t, p),
{
    assert((p + t).subrange(0, p.len() as int) =~= p);
}

/// The part of `fetch_repository` before Git runs: the outcome where the
/// fetch must not or need not run, else `None`. What git2 returns decides;
/// the outcome is `fetch_precheck_from` of what was read.
pub fn fetch_precheck(root: &str) -> (r: Option<FetchOutcome>)
    ensures
        r matches Some(o) ==> o.error matches Some(m) && (
            (o.status == GitFetchStatus::NoRemote && m@ == "No Git remotes are configured."@)
            || (o.status == GitFetchStatus::Failed && (
                starts_with(m@, "The repository is unavailable: "@)
                || m@ == "Git metadata is outside the registered project directory"@
                || starts_with(m@, "Unable to inspect Git remotes: "@)))),
{
    let (access, repo) = open_inside(root);
    let remotes: Result<usize, String> = match &repo {
        Some(repo) => match remote_count(repo) {
            Ok(n) => Ok(n),
            Err(error) => Err(error_text(&error)),
        },
        None => Ok(0),
    };
    let r = fetch_precheck_from(&access, &remotes);
    proof {
        match access {
            RepositoryAccess::OpenFailed(_, t) => lemma_prefix_starts("The repository is unavailable: "@, t@),
            RepositoryAccess::Inside => match remotes {
                Err(t) => lemma_prefix_starts("Unable to inspect Git remotes: "@, t@),
                _ => {},
            },
            _ => {},
        }
    }
    r
}

/// What was read of HEAD for a pull: unreadable, detached, a branch whose
/// name could not be read, or a branch with or without an upstream branch.
pub enum HeadState {
    Unreadable,
    Detached,
    NameUnreadable,
    Branch(bool),
}

/// Why a pull is refused before Git runs, given how the repository opened,
/// what HEAD is, and the number of changed working-tree entries (or the
/// error's message); `None` where the pull may run.
pub open spec fn pull_refusal(access: RepositoryAccess, head: HeadState, changes: Result<usize, String>) -> Option<Seq<char>> {
    match access {
        RepositoryAccess::OpenFailed(_, t) => Some("The repository is unavailable: "@ + t@),
        RepositoryAccess::Outside => Some("Git metadata is outside the registered project directory."@),
        RepositoryAccess::Inside => match head {
            HeadState::Unreadable => Some("The current Git branch could not be determined."@),
            HeadState::Detached => Some("Pull is unavailable while the repository has a detached HEAD."@),
            HeadState::NameUnreadable => Some("The current Git branch could not be determined."@),
            HeadState::Branch(has_upstream) => if !has_upstream {
                Some("The current branch does not have an upstream branch."@)
            } else {
                match changes {
                    Err(t) => Some("Unable to inspect the working tree: "@ + t@),
                    Ok(n) => if n > 0 {
                        Some("Pull requires a clean working tree. Commit, stash, or discard local changes first."@)
                    } else {
                        None
                    },
                }
            },
        },
    }
}

/// The reasons a pull is refused before Git runs.
pub open spec fn pull_refusal_message(m: Seq<char>) -> bool {
    ||| starts_with(m, "The repository is unavailable: "@)
    ||| m == "Git metadata is outside the registered project directory."@
    ||| m == "The current Git branch could not be determined."@
    ||| m == "Pull is unavailable while the repository has a detached HEAD."@
    ||| m == "The current branch does not have an upstream branch."@
    ||| starts_with(m, "Unable to inspect the working tree: "@)
    ||| m == "Pull requires a clean working tree. Commit, stash, or discard local changes first."@
}

/// The pull precheck over what was read.
pub fn pull_precheck_from(access: &RepositoryAccess, head: &HeadState, changes: &Result<usize, String>) -> (r: Result<(), String>)
    ensures
        match r {
            Ok(()) => pull_refusal(*access, *head, *changes) is None,
            Err(m) => pull_refusal(*access, *head, *changes) == Some(m@),
        },
{
    match access {
        RepositoryAccess::OpenFailed(_, t) => Err(prefixed("The repository is unavailable: ", t.as_str())),
        RepositoryAccess::Outside => Err(String::from_str("Git metadata is outside the registered project directory.")),
        RepositoryAccess::Inside => match head {
            HeadState::Unreadable => Err(String::from_str("The current Git branch could not be determined.")),
            HeadState::Detached => Err(String::from_str("Pull is unavailable while the repository has a detached HEAD.")),
            HeadState::NameUnreadable => Err(String::from_str("The current Git branch could not be determined.")),
            HeadState::Branch(has_upstream) => {
                if !*has_upstream {
                    Err(String::from_str("The current branch does not have an upstream branch."))
                } else {
                    match changes {
                        Err(t) => Err(prefixed("Unable to inspect the working tree: ", t.as_str())),
                        Ok(n) => {
                            if *n > 0 {
                                Err(String::from_str(
                                    "Pull requires a clean working tree. Commit, stash, or discard local changes first.",
                                ))
                            } else {
                                Ok(())
                            }
                        },
                    }
                }
            },
        },
    }
}

/// Reads HEAD for a pull through git2.
fn read_pull_head(repo: &git2::Repository) -> HeadState {
    let head = match repository_head(repo) {
        Ok(head) => head,
        Err(_) => {
            return HeadState::Unreadable;
        },
    };
    if !reference_is_branch(&head) {
        return HeadState::Detached;
    }
    let name = match reference_shorthand(&head) {
        Ok(name) => name,
        Err(_) => {
            return HeadState::NameUnreadable;
        },
    };
    let has_upstream = match find_local_branch(repo, name.as_str()) {
        Ok(branch) => branch_upstream(&branch).is_ok(),
        Err(_) => false,
    };
    HeadState::Branch(has_upstream)
}

/// The part of `pull_repository` before Git runs: why a pull is refused.
/// What git2 returns decides; the answer is `pull_precheck_from` of what was
/// read, so every refusal gives one of the reasons.
pub fn pull_precheck(root: &str) -> (r: Result<(), String>)
    ensures
        r matches Err(m) ==> pull_refusal_message(m@),
{
    let (access, repo) = open_inside(root);
    let (head, changes): (HeadState, Result<usize, String>) = match &repo {
        None => (HeadState::Unreadable, Ok(0)),
        Some(repo) => {
            let head = read_pull_head(repo);
            let changes: Result<usize, String> = match head {
                HeadState::Branch(true) => match changed_entries(repo) {
                    Ok(entries) => Ok(entries.len()),
                    Err(error) => Err(error_text(&error)),
                },
                _ => Ok(0),
            };
            (head, changes)
        },
    };
    let r = pull_precheck_from(&access, &head, &changes);
    proof {
        match access {
            RepositoryAccess::OpenFailed(_, t) => lemma_prefix_starts("The repository is unavailable: "@, t@),
            RepositoryAccess::Inside => match changes {
                Err(t) => lemma_prefix_starts("Unable to inspect the working tree: "@, t@),
                _ => {},
            },
            _ => {},
        }
    }
    r
}

/// Whether a fetch can reach the repository: it opened and its Git
/// directory lies inside the root.
pub fn repository_reachable(access: &RepositoryAccess) -> (r: bool)
    ensures
        r == (*access is Inside),
{
    match access {
        RepositoryAccess::Inside => true,
        _ => false,
    }
}

/// `is_fetchable_repository`: a repository whose Git directory lies inside
/// the root. What git2 and the file system return decides; the answer is
/// `repository_reachable` of how the repository opened.
pub fn is_fetchable_repository(root: &str) -> (r: bool) {
    let (access, _repo) = open_inside(root);
    repository_reachable(&access)
}


// ---------------------------------------------------------------------------
// Reading a project document

/// The most bytes of a document that are shown.
pub const MAX_DOCUMENT_BYTES: usize = 2097152;

/// The first directory entry, from `i` on, whose UTF-8 name is `alias`
/// without regard to ASCII case.
pub open spec fn name_match_from(names: Seq<Option<String>>, alias: Seq<char>, i: int) -> Option<int>
    decreases names.len() - i,
{
    if i < 0 || i >= names.len() {
        None
    } else if names[i] matches Some(n) && eq_ignore_case(n@, alias) {
        Some(i)
    } else {
        name_match_from(names, alias, i + 1)
    }
}

/// The entry a document is read from: the first alias, in order, that some
/// entry's name matches, and the first such entry.
pub open spec fn document_pick_from(names: Seq<Option<String>>, aliases: Seq<Seq<char>>, a: int) -> Option<int>
    decreases aliases.len() - a,
{
    if a < 0 || a >= aliases.len() {
        None
    } else {
        match name_match_from(names, aliases[a], 0) {
            Some(i) => Some(i),
            None => document_pick_from(names, aliases, a + 1),
        }
    }
}

/// Which directory entry holds the document, given the entries' names (`None`
/// where a name is not UTF-8) and the document's aliases in order of
/// preference.
pub fn pick_document(names: &Vec<Option<String>>, aliases: &Vec<String>) -> (r: Option<usize>)
    ensures
        match r {
            Some(i) => i < names@.len() && document_pick_from(names@, crate::models::strs(aliases@), 0) == Some(i as int),
            None => document_pick_from(names@, crate::models::strs(aliases@), 0) is None,
        },
{
    let ghost av = crate::models::strs(aliases@);
    let mut a: usize = 0;
    while a < aliases.len()
        invariant
            a <= aliases@.len(),
            av == crate::models::strs(aliases@),
            document_pick_from(names@, av, a as int) == document_pick_from(names@, av, 0),
        decreases aliases@.len() - a,
    {
        assert(av[a as int] == aliases@[a as int]@);
        let mut i: usize = 0;
        while i < names.len()
            invariant
                i <= names@.len(),
                a < aliases@.len(),
                av == crate::models::strs(aliases@),
                name_match_from(names@, av[a as int], i as int) == name_match_from(names@, av[a as int], 0),
                document_pick_from(names@, av, a as int) == document_pick_from(names@, av, 0),
            decreases names@.len() - i,
        {
            let hit = match &names[i] {
                Some(n) => eq_ignore_ascii_case(&chars_of(n.as_str()), aliases[a].as_str()),
                None => false,
            };
            if hit {
                assert(name_match_from(names@, av[a as int], i as int) == Some(i as int));
                assert(document_pick_from(names@, av, a as int) == Some(i as int));
                return Some(i);
            }
            i += 1;
        }
        a += 1;
    }
    None
}

/// The entry's UTF-8 name is one of the aliases, without regard to ASCII case.
pub open spec fn names_an_alias(name: Option<String>, aliases: Seq<Seq<char>>) -> bool {
    name matches Some(n) && exists|k: int| 0 <= k < aliases.len() && eq_ignore_case(n@, #[trigger] aliases[k])
}

/// The first entry, from `i` on, whose name is one of the aliases.
pub open spec fn first_named_from(names: Seq<Option<String>>, aliases: Seq<Seq<char>>, i: int) -> Option<int>
    decreases names.len() - i,
{
    if i < 0 || i >= names.len() {
        None
    } else if names_an_alias(names[i], aliases) {
        Some(i)
    } else {
        first_named_from(names, aliases, i + 1)
    }
}

/// The first directory entry whose name is one of the aliases (the entries
/// in the order the directory lists them; `None` for a name that is not
/// UTF-8 or an entry that does not qualify).
pub fn first_named_entry(names: &Vec<Option<String>>, aliases: &Vec<String>) -> (r: Option<usize>)
    ensures
        match r {
            Some(i) => i < names@.len() && first_named_from(names@, crate::models::strs(aliases@), 0) == Some(i as int),
            None => first_named_from(names@, crate::models::strs(aliases@), 0) is None,
        },
{
    let ghost av = crate::models::strs(aliases@);
    let mut i: usize = 0;
    while i < names.len()
        invariant
            i <= names@.len(),
            av == crate::models::strs(aliases@),
            first_named_from(names@, av, i as int) == first_named_from(names@, av, 0),
        decreases names@.len() - i,
    {
        match &names[i] {
            Some(n) => {
                let chars = chars_of(n.as_str());
                let mut k: usize = 0;
                while k < aliases.len()
                    invariant
                        k <= aliases@.len(),
                        i < names@.len(),
                        av == crate::models::strs(aliases@),
                        names@[i as int] == Some(*n),
                        chars@ == n@,
                        forall|m: int| 0 <= m < k ==> !eq_ignore_case(n@, #[trigger] av[m]),
                        first_named_from(names@, av, i as int) == first_named_from(names@, av, 0),
                    decreases aliases@.len() - k,
                {
                    assert(av[k as int] == aliases@[k as int]@);
                    if eq_ignore_ascii_case(&chars, aliases[k].as_str()) {
                        assert(names_an_alias(names@[i as int], av));
                        return Some(i);
                    }
                    k += 1;
                }
            },
            None => {},
        }
        i += 1;
    }
    None
}

/// The shown part of a document's bytes (at most `MAX_DOCUMENT_BYTES`) and
/// whether the rest was cut.
pub fn limit_document(bytes: Vec<u8>) -> (r: (Vec<u8>, bool))
    ensures
        r.1 == (bytes@.len() > MAX_DOCUMENT_BYTES),
        r.0@ == (if r.1 { bytes@.subrange(0, MAX_DOCUMENT_BYTES as int) } else { bytes@ }),
{
    let mut bytes = bytes;
    let truncated = bytes.len() > MAX_DOCUMENT_BYTES;
    if truncated {
        bytes.truncate(MAX_DOCUMENT_BYTES);
    }
    (bytes, truncated)
}

/// A registered project as the project list shows it.
#[derive(Clone, Debug)]
pub struct ProjectSummary {
    pub id: u128,
    pub name: String,
    pub path: String,
    pub registered_at: UnixMicros,
    pub last_opened: Option<UnixMicros>,
    pub git: GitInfo,
}

/// `a` was opened more recently than `b`; never-opened projects come last.
pub open spec fn opened_later(a: Option<UnixMicros>, b: Option<UnixMicros>) -> bool {
    match (a, b) {
        (Some(x), Some(y)) => x > y,
        (Some(_), None) => true,
        _ => false,
    }
}

/// The list order: most recently opened first, then by lower-cased name.
pub open spec fn listed_before(a: ProjectSummary, b: ProjectSummary) -> bool {
    ||| opened_later(a.last_opened, b.last_opened)
    ||| a.last_opened == b.last_opened
        && crate::todos::text_lt(crate::text::lower_text(a.name@), crate::text::lower_text(b.name@))
}

/// Position before the first summary that `x` is listed before.
pub open spec fn list_pos_from(sorted: Seq<ProjectSummary>, x: ProjectSummary, i: int) -> int
    decreases sorted.len() - i,
{
    if i < 0 || i >= sorted.len() {
        sorted.len() as int
    } else if listed_before(x, sorted[i]) {
        i
    } else {
        list_pos_from(sorted, x, i + 1)
    }
}

proof fn lemma_list_pos(sorted: Seq<ProjectSummary>, x: ProjectSummary, i: int)
    requires
        0 <= i <= sorted.len(),
    ensures
        i <= list_pos_from(sorted, x, i) <= sorted.len(),
    decreases sorted.len() - i,
{
    if i < sorted.len() && !listed_before(x, sorted[i]) {
        lemma_list_pos(sorted, x, i + 1);
    }
}

/// The summaries in list order; summaries that tie keep their order.
pub open spec fn listed(s: Seq<ProjectSummary>) -> Seq<ProjectSummary>
    decreases s.len(),
{
    if s.len() == 0 {
        s
    } else {
        let sorted = listed(s.drop_last());
        sorted.insert(list_pos_from(sorted, s.last(), 0), s.last())
    }
}

proof fn lemma_listed_len(s: Seq<ProjectSummary>)
    ensures
        listed(s).len() == s.len(),
    decreases s.len(),
{
    if s.len() > 0 {
        lemma_listed_len(s.drop_last());
        lemma_list_pos(listed(s.drop_last()), s.last(), 0);
    }
}

fn listed_before_exec(a: &ProjectSummary, b: &ProjectSummary) -> (r: bool)
    ensures
        r == listed_before(*a, *b),
{
    match (a.last_opened, b.last_opened) {
        (Some(x), Some(y)) => {
            if x != y {
                return x > y;
            }
        },
        (Some(_), None) => {
            return true;
        },
        (None, Some(_)) => {
            return false;
        },
        (None, None) => {},
    }
    let left = crate::text::to_lowercase(&chars_of(a.name.as_str()));
    let right = crate::text::to_lowercase(&chars_of(b.name.as_str()));
    crate::todos::text_lt_exec(&left, &right)
}

/// The project list order: most recently opened first, then by name without
/// regard to case.
pub fn sort_projects(items: Vec<ProjectSummary>) -> (r: Vec<ProjectSummary>)
    ensures
        r@ == listed(items@),
{
    let ghost all = items@;
    let mut rest = items;
    let mut sorted: Vec<ProjectSummary> = Vec::new();
    let ghost mut k: int = 0;
    assert(all.subrange(0, 0) =~= Seq::<ProjectSummary>::empty());
    assert(all.subrange(0, all.len() as int) =~= all);
    while rest.len() > 0
        invariant
            0 <= k <= all.len(),
            rest@ == all.subrange(k, all.len() as int),
            sorted@ == listed(all.subrange(0, k)),
        decreases rest@.len(),
    {
        let x = rest.remove(0);
        let ghost pre = all.subrange(0, k);
        assert(all.subrange(0, k + 1).drop_last() =~= pre);
        assert(all.subrange(0, k + 1).last() == x);
        proof {
            lemma_listed_len(pre);
            lemma_list_pos(sorted@, x, 0);
        }
        let mut p: usize = 0;
        while p < sorted.len() && !listed_before_exec(&x, &sorted[p])
            invariant
                p <= sorted@.len(),
                sorted@ == listed(pre),
                list_pos_from(sorted@, x, p as int) == list_pos_from(sorted@, x, 0),
            decreases sorted@.len() - p,
        {
            p += 1;
        }
        sorted.insert(p, x);
        proof {
            k = k + 1;
            assert(rest@ =~= all.subrange(k, all.len() as int));
        }
    }
    assert(k == all.len());
    sorted
}

} // verus!
