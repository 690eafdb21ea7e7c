use iceberg::cache::{
    cache_metadata_value, cache_needs_refresh, cache_object_key, cache_stamp_now, last_fetched_from_metadata,
};
use iceberg::config::{get_config, parse_and_validate_query_params, resolve_auth, validate_query_pairs, AppConfig};
use iceberg::decimal::{i64_text, parse_i64, parse_u64, parse_usize, u64_text};
use iceberg::error::AppError;
use iceberg::github::client::{
    commits_query_variables, decide_response, graphql_outcome, request_timeout_secs, timeout_error, HttpResponse,
    RetryDecision,
};
use iceberg::github::commits::{build_commits_list, check_commits_list_fits};
use iceberg::github::streak::{
    clock_at_timestamp, current_streak_with_dates, read_dates, streak_info_at, streak_info_from_calendar,
};
use iceberg::github::types::{
    AuthorUser, CommitAuthor, ContributionCalendar, ContributionDay, DefaultBranchRef, GitLanguageEdge,
    GitLanguageNode, GitLanguages, GqlCommit, GqlCommitEdge, GqlCost, GqlErrorEntry, GqlExtensions,
    GqlHistory, GqlTargetCommit, GraphQLResponse, RepositoriesConnection, RepositoryNode,
    ReposResponseData, UserRepos,
};
use iceberg::github::languages::redistribute_languages;
use iceberg::models::{Language, Timestamp};
use iceberg::response::{
    cors_headers, error_headers, pipeline_cache_key, success_headers, v1_commits_endpoint,
    plain_endpoint, prepare_request, warm_cache_key, warm_cache_url, ResponseBuilder,
};
use iceberg::text::{contains, eq_ignore_ascii_case, split, trim};

fn pairs(list: &[(&str, &str)]) -> Vec<(String, String)> {
    list.iter().map(|(k, v)| (k.to_string(), v.to_string())).collect()
}

fn response(status: u16, headers: &[(&str, &str)], body: &str) -> HttpResponse {
    HttpResponse { status, headers: pairs(headers), body: body.as_bytes().to_vec() }
}

fn validation(r: Result<iceberg::models::QueryParams, AppError>) -> (String, String) {
    match r {
        Err(AppError::ValidationError(f, m)) => (f, m),
        other => panic!("expected a validation error, got {:?}", other),
    }
}

// --- decimal ---

#[test]
fn decimal_rendering() {
    assert_eq!(u64_text(0), "0");
    assert_eq!(u64_text(1234567890), "1234567890");
    assert_eq!(u64_text(u64::MAX), "18446744073709551615");
    assert_eq!(i64_text(-42), "-42");
    assert_eq!(i64_text(i64::MIN), "-9223372036854775808");
}

#[test]
fn decimal_parsing_like_std() {
    for s in ["", "+", "-", "12a", "+-1", " 1", "1.0", "18446744073709551616"] {
        assert_eq!(parse_u64(s), s.parse::<u64>().ok(), "u64 {:?}", s);
    }
    for s in ["0", "+7", "007", "18446744073709551615"] {
        assert_eq!(parse_u64(s), s.parse::<u64>().ok(), "u64 {:?}", s);
    }
    for s in ["-5", "+5", "5", "-0", "", "-", "-9223372036854775808", "9223372036854775808", "-9223372036854775809"] {
        assert_eq!(parse_i64(s), s.parse::<i64>().ok(), "i64 {:?}", s);
    }
    assert_eq!(parse_usize("-5"), None);
    assert_eq!(parse_usize("20"), Some(20));
}

// --- text ---

#[test]
fn text_helpers() {
    assert_eq!(trim("  a b \t\n"), "a b");
    assert_eq!(trim("\u{3000}x\u{a0}"), "x");
    assert_eq!(trim("   "), "");
    assert!(contains("Token required here", "required"));
    assert!(!contains("requ", "required"));
    assert!(contains("abc", ""));
    assert_eq!(split(",a,,b", ','), vec!["", "a", "", "b"]);
    assert_eq!(split("", ','), vec![""]);
    assert!(eq_ignore_ascii_case("PenQguin", "penqGUIN"));
    assert!(!eq_ignore_ascii_case("penq", "penqguin"));
}

// --- errors ---

#[test]
fn error_parts_per_variant() {
    let (status, body) = AppError::Unauthorized("GitHub Personal Access Token required for non-whitelisted users".into()).to_error_parts();
    assert_eq!(status, 401);
    assert_eq!(body.error_code, "UNAUTHORIZED");
    assert_eq!(body.usage.as_deref(), Some("Add header: Authorization: Bearer YOUR_GITHUB_PAT"));
    assert!(body.how_to_create.is_some());

    let (status, body) = AppError::Unauthorized("Invalid GitHub Personal Access Token".into()).to_error_parts();
    assert_eq!(status, 401);
    assert_eq!(body.error, "Invalid GitHub Personal Access Token");
    assert!(body.usage.is_none());

    let (status, body) = AppError::BadRequest("missing username".into()).to_error_parts();
    assert_eq!(status, 400);
    assert_eq!(body.error, "username parameter is required");

    let (status, body) = AppError::GitHubError("boom".into()).to_error_parts();
    assert_eq!((status, body.error.as_str()), (500, "GraphQL query error: boom"));

    let (status, body) = AppError::RateLimited(60).to_error_parts();
    assert_eq!((status, body.retry_after), (429, Some(60)));
    assert_eq!(body.error, "GitHub API rate limit exceeded");

    let (status, body) = AppError::Timeout("slow".into()).to_error_parts();
    assert_eq!((status, body.error.as_str()), (504, "Request timed out: slow"));

    let (status, body) = AppError::ValidationError("limit".into(), "must be a number".into()).to_error_parts();
    assert_eq!(status, 400);
    assert_eq!(body.error, "Validation failed for field 'limit': must be a number");
    assert_eq!(body.error_code, "VALIDATION_ERROR");
}

#[test]
fn out_of_range_limits_name_the_parameter() {
    let (status, body) =
        AppError::ValidationError("limit".into(), "must be between 1 and 50".into()).to_error_parts();
    assert_eq!(status, 400);
    assert_eq!(body.error, "limit parameter must be between 1 and 50");
    assert_eq!(body.error_code, "VALIDATION_ERROR");
    let (status, body) =
        AppError::ValidationError("history_limit".into(), "must be between 1 and 20".into()).to_error_parts();
    assert_eq!(status, 400);
    assert_eq!(body.error, "history_limit parameter must be between 1 and 20");
    let err = parse_and_validate_query_params("https://x.example/v2?username=a&limit=51").unwrap_err();
    assert_eq!(err.to_error_parts().1.error, "limit parameter must be between 1 and 50");
    let err = parse_and_validate_query_params("https://x.example/v2?username=a&limit=0").unwrap_err();
    assert_eq!(err.to_error_parts().1.error, "limit parameter must be between 1 and 50");
}

#[test]
fn error_display_and_codes() {
    assert_eq!(AppError::RateLimited(7).to_display_string(), "Rate Limited: retry after 7s");
    assert_eq!(
        AppError::ValidationError("a".into(), "b".into()).to_display_string(),
        "Validation Error (a): b"
    );
    assert_eq!(AppError::Internal("x".into()).error_code(), "INTERNAL_ERROR");
    assert_eq!(AppError::Timeout("x".into()).error_code(), "TIMEOUT");
}

// --- configuration and authentication ---

#[test]
fn config_needs_token_and_reads_whitelist() {
    match get_config(None, None) {
        Err(AppError::Internal(m)) => assert_eq!(m, "System GITHUB_TOKEN is not configured"),
        _ => panic!("expected an internal error"),
    }
    let config = get_config(Some("tok".into()), Some(" Alice , BOB,, ".into())).ok().unwrap();
    assert_eq!(config.github_token, "tok");
    assert_eq!(config.whitelist, vec!["alice", "bob"]);
    let config = get_config(Some("tok".into()), None).ok().unwrap();
    assert_eq!(config.whitelist, vec!["penqguin"]);
}

#[test]
fn query_validation_edges() {
    let ok = validate_query_pairs(&pairs(&[("username", "  bob  ")])).unwrap();
    assert_eq!((ok.username.as_str(), ok.limit, ok.history_limit), ("bob", 10, 5));
    let ok = validate_query_pairs(&pairs(&[("username", "a"), ("limit", "50"), ("history_limit", "20")])).unwrap();
    assert_eq!((ok.limit, ok.history_limit), (50, 20));
    let ok = validate_query_pairs(&pairs(&[("username", "a"), ("username", "b")])).unwrap();
    assert_eq!(ok.username, "b");

    assert_eq!(validation(validate_query_pairs(&pairs(&[]))), ("username".into(), "is required".into()));
    assert_eq!(validation(validate_query_pairs(&pairs(&[("username", "  ")]))), ("username".into(), "is required".into()));
    assert_eq!(
        validation(validate_query_pairs(&pairs(&[("username", "a b")]))),
        ("username".into(), "contains invalid characters".into())
    );
    assert_eq!(
        validation(validate_query_pairs(&pairs(&[("username", "a"), ("limit", "-5")]))),
        ("limit".into(), "must be a number".into())
    );
    assert_eq!(
        validation(validate_query_pairs(&pairs(&[("username", "a"), ("limit", "0")]))),
        ("limit".into(), "must be between 1 and 50".into())
    );
    assert_eq!(
        validation(validate_query_pairs(&pairs(&[("username", "a"), ("limit", "51")]))),
        ("limit".into(), "must be between 1 and 50".into())
    );
    assert_eq!(
        validation(validate_query_pairs(&pairs(&[("username", "a"), ("history_limit", "21")]))),
        ("history_limit".into(), "must be between 1 and 20".into())
    );
    assert_eq!(
        validation(validate_query_pairs(&pairs(&[("username", "a"), ("history_limit", "x")]))),
        ("history_limit".into(), "must be a number".into())
    );
}

#[test]
fn query_pairs_are_decoded_from_the_url() {
    let p = parse_and_validate_query_params("https://x.example/v2?username=a%2Db&limit=3").unwrap();
    assert_eq!((p.username.as_str(), p.limit), ("a-b", 3));
    assert!(parse_and_validate_query_params("not a url").is_err());
}

#[test]
fn auth_resolution() {
    let config = AppConfig { github_token: "system".into(), whitelist: vec!["penqguin".into()] };
    let a = resolve_auth(&config, "PenQguin", None).unwrap();
    assert_eq!((a.username.as_str(), a.token.as_str()), ("PenQguin", "system"));
    let a = resolve_auth(&config, "other", Some("Bearer  abc ")).unwrap();
    assert_eq!(a.token, "abc");
    let a = resolve_auth(&config, "other", Some("xyz")).unwrap();
    assert_eq!(a.token, "xyz");
    match resolve_auth(&config, "other", None) {
        Err(AppError::Unauthorized(m)) => assert!(m.contains("required")),
        _ => panic!("expected unauthorized"),
    }
    match resolve_auth(&config, "other", Some("Bearer   ")) {
        Err(AppError::Unauthorized(m)) => assert_eq!(m, "Invalid GitHub Personal Access Token"),
        _ => panic!("expected unauthorized"),
    }
}

// --- GitHub request decisions ---

#[test]
fn retries_back_off_then_give_up() {
    let limited = response(429, &[], "");
    for (count, wait) in [(0u32, 1u64), (1, 2), (2, 4), (3, 8), (4, 16)] {
        match decide_response(&limited, count) {
            RetryDecision::Retry { wait_secs, next_retry_count } => {
                assert_eq!((wait_secs, next_retry_count), (wait, count + 1))
            }
            _ => panic!("expected a retry"),
        }
    }
    match decide_response(&limited, 5) {
        RetryDecision::Fail(AppError::RateLimited(s)) => assert_eq!(s, 60),
        _ => panic!("expected rate limiting"),
    }
    let told = response(403, &[("X-RateLimit-Remaining", "0"), ("Retry-After", "30")], "");
    match decide_response(&told, 5) {
        RetryDecision::Fail(AppError::RateLimited(s)) => assert_eq!(s, 30),
        _ => panic!("expected rate limiting"),
    }
}

#[test]
fn failing_statuses() {
    match decide_response(&response(401, &[], r#"{"message":"Bad credentials"}"#), 0) {
        RetryDecision::Fail(AppError::Unauthorized(m)) => {
            assert_eq!(m, r#"GitHub API unauthorized: {"message":"Bad credentials"}"#)
        }
        _ => panic!("expected unauthorized"),
    }
    match decide_response(&response(403, &[("X-RateLimit-Remaining", "4900")], "no"), 0) {
        RetryDecision::Fail(AppError::Unauthorized(m)) => assert_eq!(m, "GitHub API unauthorized: no"),
        _ => panic!("expected unauthorized"),
    }
    match decide_response(&response(400, &[], "bad"), 0) {
        RetryDecision::Fail(AppError::BadRequest(m)) => assert_eq!(m, "GitHub API bad request: bad"),
        _ => panic!("expected a bad request"),
    }
    match decide_response(&HttpResponse { status: 502, headers: vec![], body: vec![0xff, b'x'] }, 0) {
        RetryDecision::Fail(AppError::GitHubError(m)) => assert_eq!(m, "GitHub API status 502: \u{fffd}x"),
        _ => panic!("expected a GitHub error"),
    }
    assert!(matches!(decide_response(&response(200, &[], "{}"), 3), RetryDecision::Accept));
}

#[test]
fn graphql_answers() {
    let with_error: GraphQLResponse<u8> = GraphQLResponse {
        data: None,
        errors: Some(vec![GqlErrorEntry { message: Some("Not Found".into()) }]),
        extensions: None,
    };
    match graphql_outcome(with_error) {
        Err(AppError::GitHubError(m)) => assert!(m.contains("Not Found")),
        _ => panic!("expected GitHubError"),
    }
    let anonymous: GraphQLResponse<u8> =
        GraphQLResponse { data: Some(1), errors: Some(vec![GqlErrorEntry { message: None }]), extensions: None };
    match graphql_outcome(anonymous) {
        Err(AppError::GitHubError(m)) => assert_eq!(m, "Unknown GraphQL error"),
        _ => panic!("expected GitHubError"),
    }
    let empty: GraphQLResponse<u8> = GraphQLResponse { data: None, errors: Some(vec![]), extensions: None };
    match graphql_outcome(empty) {
        Err(AppError::Internal(m)) => assert_eq!(m, "No data in GraphQL response"),
        _ => panic!("expected an internal error"),
    }
    let good: GraphQLResponse<u8> = GraphQLResponse {
        data: Some(9),
        errors: None,
        extensions: Some(GqlExtensions { cost: GqlCost { actual_cost: 3 } }),
    };
    assert_eq!(graphql_outcome(good).ok(), Some((9, 3)));
}

#[test]
fn query_variables_are_clamped() {
    let v = commits_query_variables(5, 0);
    assert_eq!((v.first_repos, v.first_commits, v.first_languages), (10, 1, 3));
    let v = commits_query_variables(20, 7);
    assert_eq!((v.first_repos, v.first_commits), (20, 7));
    let v = commits_query_variables(99, 7);
    assert_eq!(v.first_repos, 50);
}

// --- commits ---

fn gql_commit(login: &str, secs: i64, additions: usize, oid: &str) -> GqlCommitEdge {
    GqlCommitEdge {
        node: GqlCommit {
            abbreviated_oid: oid.into(),
            additions,
            deletions: 1,
            commit_url: format!("https://github.com/c/{}", oid),
            committed_date: Timestamp { secs, nanos: 0 },
            message_headline: oid.into(),
            message_body: String::new(),
            author: Some(CommitAuthor { user: Some(AuthorUser { login: login.into() }) }),
        },
    }
}

fn repo(name: &str, langs: &[(&str, usize)], commits: Vec<GqlCommitEdge>) -> RepositoryNode {
    RepositoryNode {
        name_with_owner: name.into(),
        languages: Some(GitLanguages {
            edges: Some(
                langs
                    .iter()
                    .map(|(n, s)| GitLanguageEdge { size: *s, node: GitLanguageNode { name: n.to_string(), color: None } })
                    .collect(),
            ),
        }),
        default_branch_ref: Some(DefaultBranchRef {
            target: Some(GqlTargetCommit { history: GqlHistory { edges: Some(commits) } }),
        }),
    }
}

fn data(repos: Vec<RepositoryNode>) -> ReposResponseData {
    ReposResponseData { user: Some(UserRepos { repositories: RepositoriesConnection { nodes: Some(repos) } }) }
}

#[test]
fn commits_list_empty() {
    let d = ReposResponseData { user: None };
    assert!(check_commits_list_fits(&d, "someone", 5));
    let r = build_commits_list(&d, "someone", 10, 5);
    assert!(r.commits.is_empty());
    assert!(r.languages.is_empty());
    assert_eq!((r.stats.total_additions, r.stats.total_deletions, r.stats.total_commits), (0, 0, 0));
}

#[test]
fn commits_list_sorted_limited_and_summed() {
    let d = data(vec![
        repo("me/a", &[("Rust", 100), ("C", 20)], vec![gql_commit("Me", 10, 5, "a1"), gql_commit("other", 50, 100, "a2"), gql_commit("me", 30, 7, "a3")]),
        repo("me/b", &[("Rust", 10), ("Go", 30)], vec![gql_commit("me", 30, 1, "b1"), gql_commit("me", 40, 2, "b2")]),
    ]);
    assert!(check_commits_list_fits(&d, "me", 3));
    let r = build_commits_list(&d, "me", 2, 3);
    let oids: Vec<&str> = r.commits.iter().map(|c| c.oid.as_str()).collect();
    // newest first; the two commits at time 30 keep the order they were found in
    assert_eq!(oids, vec!["b2", "a3"]);
    assert_eq!(r.stats.total_commits, 4);
    // totals over the three newest: b2, a3, b1
    assert_eq!(r.stats.total_additions, 2 + 7 + 1);
    assert_eq!(r.stats.total_deletions, 3);
    // languages of me/b then me/a merged: Rust 110, Go 30, C 20; Rust holds 68%, so no spreading
    let langs: Vec<(&str, usize)> = r.languages.iter().map(|l| (l.name.as_str(), l.size)).collect();
    assert_eq!(langs, vec![("Rust", 110), ("Go", 30), ("C", 20)]);
    // sizes are conserved: 10 + 30 (me/b) + 100 + 20 (me/a)
    assert_eq!(r.languages.iter().map(|l| l.size).sum::<usize>(), 160);
}

#[test]
fn commits_list_leaves_out_excluded_repos() {
    let d = data(vec![
        repo("penqguin/penqguin", &[("Markdown", 10)], vec![gql_commit("penqguin", 99, 1, "p1")]),
        repo("penqguin/app", &[("Rust", 10)], vec![gql_commit("penqguin", 5, 1, "p2")]),
    ]);
    let r = build_commits_list(&d, "PENQGUIN", 0, 0);
    let oids: Vec<&str> = r.commits.iter().map(|c| c.oid.as_str()).collect();
    assert_eq!(oids, vec!["p2"]);
    assert_eq!(r.languages.len(), 1);
    assert_eq!(r.languages[0].name, "Rust");
}

#[test]
fn redistribution_spreads_over_three_or_more() {
    let mut langs = vec![
        Language { size: 1000, name: "A".into(), color: None },
        Language { size: 10, name: "B".into(), color: None },
        Language { size: 5, name: "C".into(), color: None },
        Language { size: 5, name: "D".into(), color: None },
    ];
    redistribute_languages(&mut langs);
    // 400 moves: 200 to B, the other 200 split 100/100 over C and D
    let sizes: Vec<usize> = langs.iter().map(|l| l.size).collect();
    assert_eq!(sizes, vec![600, 210, 105, 105]);
    assert_eq!(sizes.iter().sum::<usize>(), 1020);
    let mut odd = vec![
        Language { size: 96, name: "A".into(), color: None },
        Language { size: 1, name: "B".into(), color: None },
        Language { size: 1, name: "C".into(), color: None },
        Language { size: 1, name: "D".into(), color: None },
    ];
    redistribute_languages(&mut odd);
    // 38 moves: 19 to B, 19 over C and D as 10 and 9
    let sizes: Vec<usize> = odd.iter().map(|l| l.size).collect();
    assert_eq!(sizes, vec![58, 20, 11, 10]);
}

// --- streaks ---

#[test]
fn streak_on_a_fixed_clock() {
    // 2024-03-02T12:00:00Z
    let clock = clock_at_timestamp(1709380800).unwrap();
    assert_eq!(clock.today, "2024-03-02");
    assert_eq!(clock.yesterday, "2024-03-01");
    assert_eq!(clock.today_date, (2024, 3, 2));
    let days = vec![
        ContributionDay { contribution_count: 1, date: "2024-02-28".into() },
        ContributionDay { contribution_count: 2, date: "2024-02-29".into() },
        ContributionDay { contribution_count: 3, date: "2024-03-01".into() },
        ContributionDay { contribution_count: 0, date: "2024-03-02".into() },
        ContributionDay { contribution_count: 9, date: "2024-03-03".into() },
        ContributionDay { contribution_count: 9, date: "not a date".into() },
    ];
    let dates = read_dates(&days);
    assert_eq!(dates[1], Some((2024, 2, 29)));
    assert_eq!(dates[5], None);
    let n = current_streak_with_dates(&days, &dates, &clock.today, &clock.yesterday, clock.today_date);
    assert_eq!(n, 3);
}

#[test]
fn current_streak_within_highest_on_orderly_calendar() {
    let clock = clock_at_timestamp(1709380800).unwrap();
    let days = vec![
        ContributionDay { contribution_count: 4, date: "2024-02-25".into() },
        ContributionDay { contribution_count: 4, date: "2024-02-26".into() },
        ContributionDay { contribution_count: 4, date: "2024-02-27".into() },
        ContributionDay { contribution_count: 4, date: "2024-02-28".into() },
        ContributionDay { contribution_count: 0, date: "2024-02-29".into() },
        ContributionDay { contribution_count: 1, date: "2024-03-01".into() },
        ContributionDay { contribution_count: 1, date: "2024-03-02".into() },
    ];
    let dates = read_dates(&days);
    let current = current_streak_with_dates(&days, &dates, &clock.today, &clock.yesterday, clock.today_date);
    let highest = iceberg::github::streak::calculate_highest_streak(&days);
    assert_eq!((current, highest), (2, 4));
    assert!(current <= highest);
}

#[test]
fn streak_figures_share_one_clock() {
    let clock = clock_at_timestamp(1709380800).unwrap();
    let days = vec![
        ContributionDay { contribution_count: 4, date: "2024-02-25".into() },
        ContributionDay { contribution_count: 4, date: "2024-02-26".into() },
        ContributionDay { contribution_count: 0, date: "2024-02-27".into() },
        ContributionDay { contribution_count: 2, date: "2024-02-28".into() },
        ContributionDay { contribution_count: 2, date: "2024-02-29".into() },
        ContributionDay { contribution_count: 1, date: "2024-03-01".into() },
        ContributionDay { contribution_count: 0, date: "2024-03-02".into() },
    ];
    let info = streak_info_at(&days, &clock);
    assert_eq!((info.current_streak, info.highest_streak, info.active), (3, 3, true));

    let stale = vec![
        ContributionDay { contribution_count: 5, date: "2024-02-20".into() },
        ContributionDay { contribution_count: 0, date: "2024-03-01".into() },
        ContributionDay { contribution_count: 0, date: "2024-03-02".into() },
    ];
    let info = streak_info_at(&stale, &clock);
    assert_eq!((info.current_streak, info.highest_streak, info.active), (0, 1, false));
}

#[test]
fn streak_info_of_empty_calendar() {
    let info = streak_info_from_calendar(&ContributionCalendar { weeks: vec![] });
    assert_eq!((info.current_streak, info.highest_streak, info.active), (0, 0, false));
}

// --- cache ---

#[test]
fn cache_keys_and_freshness() {
    assert_eq!(cache_object_key("PenQguin", "streak"), "penqguin:streak");
    let stored = cache_metadata_value(1_700_000_000);
    assert_eq!(stored, "1700000000");
    assert_eq!(last_fetched_from_metadata(Some(&stored)), 1_700_000_000);
    assert!(!cache_needs_refresh(Some(&stored), 1_700_000_000 + 3599));
    assert!(cache_needs_refresh(Some(&stored), 1_700_000_000 + 3600));
    assert_eq!(last_fetched_from_metadata(Some("junk")), 0);
    assert_eq!(last_fetched_from_metadata(Some("9223372036854775807")), 0);
    assert!(cache_needs_refresh(None, 3600));
    assert!(!cache_needs_refresh(None, 3599));
}

// --- responses ---

#[test]
fn response_headers() {
    let cors = cors_headers();
    assert_eq!(cors.len(), 4);
    assert_eq!(cors[3], ("Access-Control-Max-Age".to_string(), "86400".to_string()));
    let h = error_headers(&AppError::RateLimited(12));
    assert_eq!(h, vec![("X-Error-Code".to_string(), "RATE_LIMITED".to_string()), ("X-Retry-After".to_string(), "12".to_string())]);
    let h = error_headers(&AppError::Internal("x".into()));
    assert_eq!(h, vec![("X-Error-Code".to_string(), "INTERNAL_ERROR".to_string())]);
    let h = success_headers(7, 300);
    assert_eq!(h, vec![("X-Query-Cost".to_string(), "7".to_string()), ("Cache-Control".to_string(), "s-maxage=300".to_string())]);
    assert_eq!(pipeline_cache_key("https://a/b?username=x", "x"), "https://a/b?username=x:user=x");
    assert_eq!(warm_cache_url("me"), "https://iceberg.penqguin.com/v2/commits/latest?username=me");
    assert_eq!(
        warm_cache_key("me"),
        "https://iceberg.penqguin.com/v2/commits/latest?username=me:user=me"
    );
    assert_eq!(
        warm_cache_key("me"),
        pipeline_cache_key(&warm_cache_url("me"), "me")
    );
    let v1 = v1_commits_endpoint();
    assert_eq!(v1.cache.ttl_secs, 300);
    assert_eq!(v1.param_override.map(|o| (o.limit, o.history_limit)), Some((5, 5)));
}

#[test]
fn test_response_carries_the_data() {
    let data = serde_json::Value::Array(vec![
        serde_json::Value::Bool(true),
        serde_json::Value::String("x".into()),
    ]);
    let tr = ResponseBuilder::new().with_status(201).into_test_response(&data);
    assert_eq!(tr.status, 201);
    assert_eq!(tr.body_json(), Some(&data));
    assert_eq!(tr.headers.len(), 4);
}

#[test]
fn request_preparation_order() {
    let config = AppConfig { github_token: "system".into(), whitelist: vec!["penqguin".into()] };
    let v1 = v1_commits_endpoint();
    let url = "https://x.example/commits/latest?username=PenQguin&limit=9";
    let (ctx, key) = prepare_request(&config, url, &v1, Ok(None)).ok().unwrap();
    assert_eq!((ctx.auth.username.as_str(), ctx.auth.token.as_str()), ("PenQguin", "system"));
    assert_eq!((ctx.params.limit, ctx.params.history_limit), (5, 5));
    assert_eq!(key, format!("{}:user=PenQguin", url));

    let plain = plain_endpoint();
    let url = "https://x.example/v2/commits/latest?username=other&limit=9";
    let (ctx, key) = prepare_request(&config, url, &plain, Ok(Some("Bearer abc".into()))).ok().unwrap();
    assert_eq!((ctx.auth.token.as_str(), ctx.params.limit, ctx.params.history_limit), ("abc", 9, 5));
    assert_eq!(key, format!("{}:user=other", url));

    match prepare_request(&config, url, &plain, Ok(None)) {
        Err(AppError::Unauthorized(m)) => assert!(m.contains("required")),
        _ => panic!("expected unauthorized"),
    }
    match prepare_request(&config, url, &plain, Err(AppError::Internal("header".into()))) {
        Err(AppError::Internal(m)) => assert_eq!(m, "header"),
        _ => panic!("expected the header error"),
    }
    // An invalid parameter is reported before any header trouble.
    let bad = "https://x.example/v2/commits/latest?username=other&limit=0";
    match prepare_request(&config, bad, &plain, Err(AppError::Internal("header".into()))) {
        Err(AppError::ValidationError(f, m)) => assert_eq!((f.as_str(), m.as_str()), ("limit", "must be between 1 and 50")),
        _ => panic!("expected a validation error"),
    }
}

#[test]
fn request_timeouts() {
    assert_eq!(request_timeout_secs(None), 15);
    assert_eq!(request_timeout_secs(Some(20)), 20);
    assert_eq!(request_timeout_secs(Some(30)), 30);
    assert_eq!(request_timeout_secs(Some(31)), 30);
    match timeout_error(15) {
        AppError::Timeout(m) => assert_eq!(m, "GitHub API request timed out after 15 seconds"),
        _ => panic!("expected a timeout"),
    }
    let (status, body) = timeout_error(15).to_error_parts();
    assert_eq!(status, 504);
    assert_eq!(body.error, "Request timed out: GitHub API request timed out after 15 seconds");
}

#[test]
fn stored_stamp_reads_back() {
    let (t, stamp) = cache_stamp_now();
    assert!(t > 1_600_000_000);
    assert_eq!(stamp, t.to_string());
    assert_eq!(last_fetched_from_metadata(Some(&stamp)), t);
    assert!(!cache_needs_refresh(Some(&stamp), t + 3599));
    assert!(cache_needs_refresh(Some(&stamp), t + 3600));
}

#[test]
fn well_dated_calendar_streaks() {
    let clock = clock_at_timestamp(1709380800).unwrap();
    let days = vec![
        ContributionDay { contribution_count: 0, date: "0999-12-31".into() },
        ContributionDay { contribution_count: 1, date: "2024-02-29".into() },
        ContributionDay { contribution_count: 1, date: "2024-03-01".into() },
        ContributionDay { contribution_count: 3, date: "2024-03-02".into() },
    ];
    let dates = read_dates(&days);
    assert_eq!(dates, vec![Some((999, 12, 31)), Some((2024, 2, 29)), Some((2024, 3, 1)), Some((2024, 3, 2))]);
    let info = streak_info_at(&days, &clock);
    assert_eq!((info.current_streak, info.highest_streak, info.active), (3, 3, true));
}
