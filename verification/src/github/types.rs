//! The shapes of GitHub's GraphQL answers, as far as the API reads them.

use vstd::prelude::*;
use crate::models::Timestamp;

verus! {

#[derive(Debug, Clone)]
pub struct GitLanguageNode {
    pub name: String,
    pub color: Option<String>,
}

#[derive(Debug, Clone)]
pub struct GitLanguageEdge {
    pub size: usize,
    pub node: GitLanguageNode,
}

#[derive(Debug, Clone)]
pub struct GitLanguages {
    pub edges: Option<Vec<GitLanguageEdge>>,
}

#[derive(Debug, Clone)]
pub struct AuthorUser {
    pub login: String,
}

#[derive(Debug, Clone)]
pub struct CommitAuthor {
    pub user: Option<AuthorUser>,
}

#[derive(Debug, Clone)]
pub struct GqlCommit {
    pub abbreviated_oid: String,
    pub additions: usize,
    pub deletions: usize,
    pub commit_url: String,
    pub committed_date: Timestamp,
    pub message_headline: String,
    pub message_body: String,
    pub author: Option<CommitAuthor>,
}

#[derive(Debug, Clone)]
pub struct GqlCommitEdge {
    pub node: GqlCommit,
}

#[derive(Debug, Clone)]
pub struct GqlHistory {
    pub edges: Option<Vec<GqlCommitEdge>>,
}

#[derive(Debug, Clone)]
pub struct GqlTargetCommit {
    pub history: GqlHistory,
}

#[derive(Debug, Clone)]
pub struct DefaultBranchRef {
    pub target: Option<GqlTargetCommit>,
}

#[derive(Debug, Clone)]
pub struct RepositoryNode {
    pub name_with_owner: String,
    pub languages: Option<GitLanguages>,
    pub default_branch_ref: Option<DefaultBranchRef>,
}

#[derive(Debug, Clone)]
pub struct RepositoriesConnection {
    pub nodes: Option<Vec<RepositoryNode>>,
}

#[derive(Debug, Clone)]
pub struct UserRepos {
    pub repositories: RepositoriesConnection,
}

#[derive(Debug, Clone)]
pub struct ReposResponseData {
    pub user: Option<UserRepos>,
}

#[derive(Debug, Clone)]
pub struct GqlCost {
    pub actual_cost: u64,
}

#[derive(Debug, Clone)]
pub struct GqlExtensions {
    pub cost: GqlCost,
}

/// One entry of a GraphQL `errors` list: its `message`, where that is a string.
#[derive(Debug, Clone)]
pub struct GqlErrorEntry {
    pub message: Option<String>,
}

#[derive(Debug, Clone)]
pub struct GraphQLResponse<T> {
    pub data: Option<T>,
    pub errors: Option<Vec<GqlErrorEntry>>,
    pub extensions: Option<GqlExtensions>,
}

#[derive(Debug, Clone)]
pub struct ContributionDay {
    pub contribution_count: usize,
    pub date: String,
}

#[derive(Debug, Clone)]
pub struct ContributionWeek {
    pub contribution_days: Vec<ContributionDay>,
}

#[derive(Debug, Clone)]
pub struct ContributionCalendar {
    pub weeks: Vec<ContributionWeek>,
}

#[derive(Debug, Clone)]
pub struct ContributionsCollection {
    pub contribution_calendar: ContributionCalendar,
}

#[derive(Debug, Clone)]
pub struct StreakUserData {
    pub user: StreakUser,
}

#[derive(Debug, Clone)]
pub struct StreakUser {
    pub contributions_collection: ContributionsCollection,
}

impl ContributionDay {
    /// A field-by-field copy.
    pub fn duplicate(&self) -> (r: ContributionDay)
        ensures
            r == *self,
    {
        ContributionDay { contribution_count: self.contribution_count, date: self.date.clone() }
    }
}

} // verus!
