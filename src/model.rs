use vstd::prelude::*;
use crate::version::Version;

verus! {

/// A key and value shown beside a reported version.
#[derive(Debug, Clone)]
pub struct Metadata {
    pub name: String,
    pub value: String,
}

/// The state the upstream gives back after a build status was posted.
#[derive(Debug, Clone)]
pub struct CommitStatusResponce {
    pub status: String,
}

/// One build status recorded on a commit.
#[derive(Debug, Clone)]
pub struct CommitStatus {
    pub id: u64,
    pub sha: String,
    pub status: String,
    pub name: Option<String>,
    pub description: Option<String>,
}

/// The commit metadata the reconciliation reads.
#[derive(Debug, Clone)]
pub struct Commit {
    pub committed_date: String,
}

/// Where a project's repository can be cloned from.
#[derive(Debug, Clone)]
pub struct Project {
    pub http_url_to_repo: String,
    pub ssh_url_to_repo: String,
}

/// The author of a change request.
#[derive(Debug, Clone)]
pub struct Author {
    pub name: String,
}

/// One changed file of a change request.
#[derive(Debug, Clone)]
pub struct Change {
    pub new_path: String,
}

/// The changed files of a change request.
#[derive(Debug, Clone)]
pub struct MergeRequestChanges {
    pub changes: Vec<Change>,
}

/// One file diff of a change request revision.
#[derive(Debug, Clone)]
pub struct Diff {
    pub old_path: String,
    pub new_path: String,
    pub a_mode: String,
    pub b_mode: String,
    pub diff: String,
    pub new_file: bool,
    pub renamed_file: bool,
    pub deleted_file: bool,
}

/// An open change request as the upstream lists it. `sha` is the head commit,
/// absent when the source branch was deleted.
#[derive(Debug, Clone)]
pub struct MergeRequest {
    pub iid: u64,
    pub title: String,
    pub labels: Vec<String>,
    pub sha: Option<String>,
    pub author: Author,
    pub updated_at: String,
    pub source_project_id: u64,
    pub source_branch: String,
    pub web_url: String,
}

/// The resource's configuration, as the orchestrator hands it over.
#[derive(Debug, Clone)]
pub struct Source {
    pub uri: String,
    pub private_token: String,
    pub labels: Option<Vec<String>>,
    pub paths: Option<Vec<String>>,
    pub skip_draft: Option<bool>,
    pub target_branch: Option<String>,
    /// Age limit on a request's last modification, in days (90 when absent).
    pub max_age_days: Option<u32>,
    /// Window around the current version, in days (the age limit when absent).
    pub commit_date_window_days: Option<u32>,
    /// Switches resurrection off.
    pub disable_resurrection: Option<bool>,
}

/// What one check invocation reads: the current version, absent on a first
/// run, and the configuration.
#[derive(Debug, Clone)]
pub struct ResourceInput {
    pub version: Option<Version>,
    pub source: Source,
}

/// The paths that a list of diffs changes (their new paths).
pub fn changed_paths(diffs: &Vec<Diff>) -> (r: Vec<String>)
    ensures
        r@.len() == diffs@.len(),
        forall|i: int| 0 <= i < diffs@.len() ==> #[trigger] r@[i] == diffs@[i].new_path,
{
    let mut r: Vec<String> = Vec::new();
    let mut i: usize = 0;
    while i < diffs.len()
        invariant
            i <= diffs@.len(),
            r@.len() == i,
            forall|k: int| 0 <= k < i ==> #[trigger] r@[k] == diffs@[k].new_path,
        decreases diffs@.len() - i,
    {
        r.push(diffs[i].new_path.clone());
        i = i + 1;
    }
    r
}

} // verus!
