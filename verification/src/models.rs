//! The response models of the API.

use vstd::prelude::*;

verus! {

/// An instant, as seconds since the Unix epoch and the nanoseconds within
/// that second; instants are ordered by seconds, then nanoseconds.
#[derive(Debug, Clone, Copy, PartialEq, Eq, Structural)]
pub struct Timestamp {
    pub secs: i64,
    pub nanos: u32,
}

/// One programming language of a repository, with its size in bytes.
#[derive(Debug, Clone)]
pub struct Language {
    pub size: usize,
    pub name: String,
    pub color: Option<String>,
}

/// One commit as the API reports it.
#[derive(Debug, Clone)]
pub struct CommitItem {
    pub repo: String,
    pub additions: usize,
    pub deletions: usize,
    pub commit_url: String,
    pub committed_date: Timestamp,
    pub oid: String,
    pub message_headline: String,
    pub message_body: String,
}

/// Totals over a user's recent commits.
#[derive(Debug, Clone)]
pub struct CommitsListStats {
    pub total_additions: usize,
    pub total_deletions: usize,
    pub total_commits: usize,
}

/// The answer of the commits endpoints.
#[derive(Debug, Clone)]
pub struct CommitsListResponse {
    pub commits: Vec<CommitItem>,
    pub languages: Vec<Language>,
    pub stats: CommitsListStats,
}

/// The answer of the streak endpoint.
#[derive(Debug, Clone)]
pub struct StreakInfo {
    pub current_streak: usize,
    pub highest_streak: usize,
    pub active: bool,
}

/// The user a request is for and the token used to ask GitHub about them.
#[derive(Debug, Clone)]
pub struct ResolvedAuth {
    pub username: String,
    pub token: String,
}

/// The validated query parameters of a request.
#[derive(Debug, Clone)]
pub struct QueryParams {
    pub username: String,
    pub limit: usize,
    pub history_limit: usize,
}

/// Orders instants: `a` is strictly earlier than `b`.
pub open spec fn timestamp_before(a: Timestamp, b: Timestamp) -> bool {
    a.secs < b.secs || (a.secs == b.secs && a.nanos < b.nanos)
}

/// A copy of an optional string.
pub fn clone_opt_string(s: &Option<String>) -> (r: Option<String>)
    ensures
        r == *s,
{
    match s {
        Some(t) => Some(t.clone()),
        None => None,
    }
}

impl Language {
    /// A field-by-field copy.
    pub fn duplicate(&self) -> (r: Language)
        ensures
            r == *self,
    {
        Language { size: self.size, name: self.name.clone(), color: clone_opt_string(&self.color) }
    }
}

impl CommitItem {
    /// A field-by-field copy.
    pub fn duplicate(&self) -> (r: CommitItem)
        ensures
            r == *self,
    {
        CommitItem {
            repo: self.repo.clone(),
            additions: self.additions,
            deletions: self.deletions,
            commit_url: self.commit_url.clone(),
            committed_date: self.committed_date,
            oid: self.oid.clone(),
            message_headline: self.message_headline.clone(),
            message_body: self.message_body.clone(),
        }
    }
}

} // verus!
