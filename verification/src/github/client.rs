//! The decisions around a GitHub GraphQL request: the request's variables,
//! what to do with each HTTP answer (retry after a pause, fail, or read the
//! body), and what a GraphQL answer yields.

use vstd::prelude::*;
use crate::decimal::{decimal_text, parse_u64, parsed_u64, u64_text};
use crate::error::{AppError, join2};
use crate::github::types::{GqlErrorEntry, GraphQLResponse};
use crate::text::{equal, utf8_lossy, utf8_lossy_text};

verus! {

/// GitHub's GraphQL endpoint.
pub const GITHUB_GRAPHQL_URL: &'static str = "https://api.github.com/graphql";

/// How long one request may take, in seconds.
pub const DEFAULT_TIMEOUT_SECS: u64 = 15;

/// The longest a request may be given, in seconds.
pub const MAX_TIMEOUT_SECS: u64 = 30;

/// The time a request is given: the requested one, at most 30 seconds, or 15
/// seconds where none is requested.
pub fn request_timeout_secs(requested: Option<u64>) -> (r: u64)
    ensures
        r == match requested {
            Some(t) => if t <= MAX_TIMEOUT_SECS {
                t
            } else {
                MAX_TIMEOUT_SECS
            },
            None => DEFAULT_TIMEOUT_SECS,
        },
{
    match requested {
        Some(t) => if t <= MAX_TIMEOUT_SECS {
            t
        } else {
            MAX_TIMEOUT_SECS
        },
        None => DEFAULT_TIMEOUT_SECS,
    }
}

/// The error of a request that took longer than `secs` seconds.
pub fn timeout_error(secs: u64) -> (r: AppError)
    ensures
        r matches AppError::Timeout(m) && m@ == "GitHub API request timed out after "@ + decimal_text(
            secs as nat,
        ) + " seconds"@,
{
    let n = u64_text(secs);
    let mut m = join2("GitHub API request timed out after ", n.as_str());
    m.append(" seconds");
    AppError::Timeout(m)
}

/// How often a rate-limited request is tried again.
pub const MAX_RETRIES: u32 = 5;

/// The GraphQL query of the commits endpoints.
pub const COMMITS_QUERY: &'static str = r#"
    query($username: String!, $firstRepos: Int!, $firstCommits: Int!, $firstLanguages: Int!) {
      user(login: $username) {
        repositories(first: $firstRepos, privacy: PUBLIC, orderBy: {field: UPDATED_AT, direction: DESC}) {
          nodes {
            nameWithOwner
            languages(first: $firstLanguages) {
              edges {
                size
                node { name color }
              }
            }
            defaultBranchRef {
              target {
                ... on Commit {
                  history(first: $firstCommits) {
                    edges {
                      node {
                        abbreviatedOid
                        additions
                        deletions
                        commitUrl
                        committedDate
                        messageHeadline
                        messageBody
                        author { user { login } }
                      }
                    }
                  }
                }
              }
            }
          }
        }
      }
    }
    "#;

/// The GraphQL query of the streak endpoint.
pub const STREAK_QUERY: &'static str = r#"
    query($username: String!) {
      user(login: $username) {
        contributionsCollection {
          contributionCalendar {
            weeks {
              contributionDays {
                contributionCount
                date
              }
            }
          }
        }
      }
    }
    "#;

/// An HTTP answer: status, the headers kept (in the order they were
/// recorded) and the body.
pub struct HttpResponse {
    pub status: u16,
    pub headers: Vec<(String, String)>,
    pub body: Vec<u8>,
}

/// The variables of the commits query.
pub struct CommitsQueryVariables {
    pub first_repos: usize,
    pub first_commits: usize,
    pub first_languages: usize,
}

/// What to do with an HTTP answer.
pub enum RetryDecision {
    /// Wait `wait_secs` seconds and send the request again, as retry number
    /// `next_retry_count`.
    Retry { wait_secs: u64, next_retry_count: u32 },
    /// Give up with this error.
    Fail(AppError),
    /// The answer is good: read its body.
    Accept,
}

/// The commits query asks for `limit` repositories, but at least 10 and at
/// most 50; for `history_limit` commits, but at least one; and for three
/// languages.
pub fn commits_query_variables(limit: usize, history_limit: usize) -> (r: CommitsQueryVariables)
    ensures
        r.first_repos == (if limit < 10 {
            10
        } else if limit > 50 {
            50
        } else {
            limit
        }),
        r.first_commits == (if history_limit < 1 {
            1
        } else {
            history_limit
        }),
        r.first_languages == 3,
{
    let repos = if limit < 10 {
        10
    } else if limit > 50 {
        50
    } else {
        limit
    };
    let commits = if history_limit < 1 {
        1
    } else {
        history_limit
    };
    CommitsQueryVariables { first_repos: repos, first_commits: commits, first_languages: 3 }
}

/// The value recorded last for header `key`, as a map fed the headers in
/// order would hold it.
pub open spec fn header_lookup(headers: Seq<(String, String)>, key: Seq<char>) -> Option<Seq<char>>
    decreases headers.len(),
{
    if headers.len() == 0 {
        None
    } else if headers.last().0@ == key {
        Some(headers.last().1@)
    } else {
        header_lookup(headers.drop_last(), key)
    }
}

/// Looks up a header (see `header_lookup`).
pub fn header_value(headers: &Vec<(String, String)>, key: &str) -> (r: Option<String>)
    ensures
        r.deep_view() == header_lookup(headers@, key@),
{
    let mut i: usize = headers.len();
    assert(headers@.take(i as int) =~= headers@);
    while i > 0
        invariant
            i <= headers@.len(),
            header_lookup(headers@, key@) == header_lookup(headers@.take(i as int), key@),
        decreases i,
    {
        proof {
            assert(headers@.take(i as int).drop_last() =~= headers@.take(i - 1));
            assert(headers@.take(i as int).last() == headers@[i - 1]);
        }
        if equal(headers[i - 1].0.as_str(), key) {
            return Some(headers[i - 1].1.clone());
        }
        i = i - 1;
    }
    None
}

/// The answer says GitHub's rate limit was hit: status 429, or status 403
/// with no requests remaining.
pub open spec fn rate_limited(status: u16, headers: Seq<(String, String)>) -> bool {
    status == 429 || (status == 403 && header_lookup(headers, "X-RateLimit-Remaining"@) == Some(
        "0"@,
    ))
}

/// The pause before retry number `n + 1`: 2^n seconds.
pub open spec fn backoff_secs(n: nat) -> nat
    decreases n,
{
    if n == 0 {
        1
    } else {
        2 * backoff_secs((n - 1) as nat)
    }
}

/// The seconds to wait that a rate-limited answer gives in `Retry-After`, or
/// 60 where it gives none that reads as a number.
pub open spec fn retry_after_secs(headers: Seq<(String, String)>) -> u64 {
    match header_lookup(headers, "Retry-After"@) {
        Some(v) => match parsed_u64(v) {
            Some(n) => n,
            None => 60,
        },
        None => 60,
    }
}

/// The error for an answer with a status other than 200 that is not rate
/// limiting: 401 and 403 are authorization failures, 400 a bad request, and
/// anything else a GitHub error; each quotes the body.
pub open spec fn status_failure(e: AppError, status: u16, body: Seq<u8>) -> bool {
    let text = utf8_lossy_text(body);
    if status == 401 || status == 403 {
        e matches AppError::Unauthorized(m) && m@ == "GitHub API unauthorized: "@ + text
    } else if status == 400 {
        e matches AppError::BadRequest(m) && m@ == "GitHub API bad request: "@ + text
    } else {
        e matches AppError::GitHubError(m) && m@ == "GitHub API status "@ + decimal_text(
            status as nat,
        ) + ": "@ + text
    }
}

/// What to do with an HTTP answer after `retry_count` retries: when rate
/// limited, wait 2^retry_count seconds and retry, unless five retries were
/// made, then fail as rate limited; fail on any other status but 200; read
/// the body on 200.
pub fn decide_response(resp: &HttpResponse, retry_count: u32) -> (r: RetryDecision)
    ensures
        rate_limited(resp.status, resp.headers@) && retry_count < MAX_RETRIES ==> r
            == (RetryDecision::Retry {
            wait_secs: backoff_secs(retry_count as nat) as u64,
            next_retry_count: (retry_count + 1) as u32,
        }),
        rate_limited(resp.status, resp.headers@) && retry_count >= MAX_RETRIES ==> r
            == RetryDecision::Fail(AppError::RateLimited(retry_after_secs(resp.headers@))),
        !rate_limited(resp.status, resp.headers@) && resp.status != 200 ==> (r matches RetryDecision::Fail(e)
            && status_failure(e, resp.status, resp.body@)),
        !rate_limited(resp.status, resp.headers@) && resp.status == 200 ==> r
            == RetryDecision::Accept,
{
    let remaining = header_value(&resp.headers, "X-RateLimit-Remaining");
    let out_of_requests = match &remaining {
        Some(v) => equal(v.as_str(), "0"),
        None => false,
    };
    let limited = resp.status == 429 || (resp.status == 403 && out_of_requests);
    if limited {
        if retry_count >= MAX_RETRIES {
            let retry_after = match header_value(&resp.headers, "Retry-After") {
                Some(v) => match parse_u64(v.as_str()) {
                    Some(n) => n,
                    None => 60,
                },
                None => 60,
            };
            return RetryDecision::Fail(AppError::RateLimited(retry_after));
        }
        let mut wait: u64 = 1;
        let mut k: u32 = 0;
        while k < retry_count
            invariant
                k <= retry_count < MAX_RETRIES,
                wait == backoff_secs(k as nat),
                wait <= 16,
            decreases retry_count - k,
        {
            proof {
                lemma_retry_schedule();
                assert(k == 0 || k == 1 || k == 2 || k == 3);
            }
            wait = wait * 2;
            k = k + 1;
        }
        return RetryDecision::Retry { wait_secs: wait, next_retry_count: retry_count + 1 };
    }
    if resp.status != 200 {
        let text = utf8_lossy(resp.body.as_slice());
        if resp.status == 401 || resp.status == 403 {
            return RetryDecision::Fail(
                AppError::Unauthorized(join2("GitHub API unauthorized: ", text.as_str())),
            );
        } else if resp.status == 400 {
            return RetryDecision::Fail(
                AppError::BadRequest(join2("GitHub API bad request: ", text.as_str())),
            );
        } else {
            let code = u64_text(resp.status as u64);
            let mut msg = join2("GitHub API status ", code.as_str());
            msg.append(": ");
            msg.append(text.as_str());
            return RetryDecision::Fail(AppError::GitHubError(msg));
        }
    }
    RetryDecision::Accept
}

/// The message of a GraphQL error entry, or a stand-in where it has none.
pub open spec fn error_entry_message(e: GqlErrorEntry) -> Seq<char> {
    match e.message {
        Some(m) => m@,
        None => "Unknown GraphQL error"@,
    }
}

/// The query cost GitHub reports, or 0.
pub open spec fn reported_cost<T>(resp: GraphQLResponse<T>) -> u64 {
    match resp.extensions {
        Some(e) => e.cost.actual_cost,
        None => 0,
    }
}

/// What a GraphQL answer yields: the first reported error, if any, as a
/// GitHub error; otherwise its data with the query cost; an internal error
/// where there is no data.
pub fn graphql_outcome<T>(resp: GraphQLResponse<T>) -> (r: Result<(T, u64), AppError>)
    ensures
        match resp.errors {
            Some(errs) if errs@.len() > 0 => r matches Err(AppError::GitHubError(m)) && m@
                == error_entry_message(errs@[0]),
            _ => match resp.data {
                Some(d) => r == Ok::<(T, u64), AppError>((d, reported_cost(resp))),
                None => r matches Err(AppError::Internal(m)) && m@ == "No data in GraphQL response"@,
            },
        },
{
    let cost = match &resp.extensions {
        Some(e) => e.cost.actual_cost,
        None => 0,
    };
    match &resp.errors {
        Some(errs) => {
            if errs.len() > 0 {
                let msg = match &errs[0].message {
                    Some(m) => m.clone(),
                    None => String::from_str("Unknown GraphQL error"),
                };
                return Err(AppError::GitHubError(msg));
            }
        },
        None => {},
    }
    match resp.data {
        Some(d) => Ok((d, cost)),
        None => Err(AppError::Internal(String::from_str("No data in GraphQL response"))),
    }
}

/// Rate-limited requests are retried at most five times, after pauses of 1,
/// 2, 4, 8 and 16 seconds: 31 seconds in all.
pub proof fn lemma_retry_schedule()
    ensures
        backoff_secs(0) == 1,
        backoff_secs(1) == 2,
        backoff_secs(2) == 4,
        backoff_secs(3) == 8,
        backoff_secs(4) == 16,
        backoff_secs(0) + backoff_secs(1) + backoff_secs(2) + backoff_secs(3) + backoff_secs(4) == 31,
{
    reveal_with_fuel(backoff_secs, 5);
}

} // verus!
