use chrono::Utc;
use iceberg::github::domain::{flatten_contribution_days, get_excluded_repos, matches_author, parse_languages};
use iceberg::github::languages::redistribute_languages;
use iceberg::github::streak::{calculate_current_streak, calculate_highest_streak, is_active};
use iceberg::github::types::{
    AuthorUser, CommitAuthor, ContributionCalendar, ContributionDay, ContributionWeek, GitLanguageEdge,
    GitLanguageNode, GitLanguages, GqlCommit,
};
use iceberg::models::{Language, Timestamp};

fn today() -> String {
    Utc::now().format("%Y-%m-%d").to_string()
}

fn day(days_ago: i64) -> String {
    (Utc::now() - chrono::Duration::days(days_ago)).format("%Y-%m-%d").to_string()
}

fn now_stamp() -> Timestamp {
    let now = Utc::now();
    Timestamp { secs: now.timestamp(), nanos: now.timestamp_subsec_nanos() }
}

fn cday(count: usize, date: String) -> ContributionDay {
    ContributionDay { contribution_count: count, date }
}

fn commit_by(author: Option<CommitAuthor>) -> GqlCommit {
    GqlCommit {
        abbreviated_oid: "abc".into(),
        additions: 1,
        deletions: 0,
        commit_url: "url".into(),
        committed_date: now_stamp(),
        message_headline: "h".into(),
        message_body: "b".into(),
        author,
    }
}

#[test]
fn github_streak_empty() {
    assert_eq!(calculate_current_streak(&[]), 0);
}

#[test]
fn github_streak_no_recent_contribution() {
    let days = vec![cday(5, "2023-06-01".to_string())];
    assert_eq!(calculate_current_streak(&days), 0);
}

#[test]
fn github_streak_single_today() {
    let days = vec![cday(0, day(5)), cday(0, day(2)), cday(0, day(1)), cday(3, today())];
    assert_eq!(calculate_current_streak(&days), 1);
}

#[test]
fn github_streak_consecutive_days() {
    let days = vec![cday(0, day(5)), cday(3, day(2)), cday(1, day(1)), cday(5, today())];
    assert_eq!(calculate_current_streak(&days), 3);
}

#[test]
fn github_streak_breaks_at_gap() {
    let days = vec![cday(3, day(4)), cday(0, day(3)), cday(1, day(2)), cday(5, day(1)), cday(2, today())];
    assert_eq!(calculate_current_streak(&days), 3);
}

#[test]
fn github_streak_skips_today_when_zero() {
    let days = vec![cday(3, day(3)), cday(1, day(2)), cday(5, day(1)), cday(0, today())];
    assert_eq!(calculate_current_streak(&days), 3);
}

#[test]
fn github_streak_today_and_yesterday_both_zero() {
    let days = vec![cday(3, day(3)), cday(1, day(2)), cday(0, day(1)), cday(0, today())];
    assert_eq!(calculate_current_streak(&days), 0);
}

#[test]
fn github_highest_streak_empty() {
    assert_eq!(calculate_highest_streak(&[]), 0);
}

#[test]
fn github_highest_streak_all_contributing() {
    let days = vec![cday(1, "a".into()), cday(2, "b".into()), cday(3, "c".into())];
    assert_eq!(calculate_highest_streak(&days), 3);
}

#[test]
fn github_highest_streak_with_gaps() {
    let days = vec![cday(1, "a".into()), cday(1, "b".into()), cday(0, "c".into()), cday(5, "d".into())];
    assert_eq!(calculate_highest_streak(&days), 2);
}

#[test]
fn github_highest_streak_picks_longest() {
    let days = vec![
        cday(1, "a".into()),
        cday(0, "b".into()),
        cday(1, "c".into()),
        cday(1, "d".into()),
        cday(1, "e".into()),
    ];
    assert_eq!(calculate_highest_streak(&days), 3);
}

#[test]
fn github_active_today() {
    let days = vec![cday(0, day(1)), cday(5, today())];
    assert!(is_active(&days));
}

#[test]
fn github_active_yesterday() {
    let yesterday = (Utc::now() - chrono::Duration::days(1)).format("%Y-%m-%d").to_string();
    let days = vec![cday(5, yesterday), cday(0, today())];
    assert!(is_active(&days));
}

#[test]
fn github_not_active() {
    let days = vec![cday(0, day(2)), cday(0, day(1))];
    assert!(!is_active(&days));
}

#[test]
fn github_active_empty() {
    assert!(!is_active(&[]));
}

#[test]
fn github_redistribute_single_lang_unchanged() {
    let mut langs = vec![Language { size: 100, name: "Rust".into(), color: None }];
    redistribute_languages(&mut langs);
    assert_eq!(langs[0].size, 100);
}

#[test]
fn github_redistribute_below_threshold_unchanged() {
    let mut langs = vec![
        Language { size: 70, name: "Rust".into(), color: None },
        Language { size: 30, name: "JS".into(), color: None },
    ];
    redistribute_languages(&mut langs);
    assert_eq!(langs[0].size, 70);
    assert_eq!(langs[1].size, 30);
}

#[test]
fn github_redistribute_dominant_language_two_only() {
    let mut langs = vec![
        Language { size: 90, name: "Rust".into(), color: None },
        Language { size: 10, name: "JS".into(), color: None },
    ];
    redistribute_languages(&mut langs);
    assert_eq!(langs[0].size, 54);
    assert_eq!(langs[1].size, 46);
}

#[test]
fn github_author_matches_login() {
    let commit = commit_by(Some(CommitAuthor { user: Some(AuthorUser { login: "penqguin".into() }) }));
    assert!(matches_author(&commit, "penqguin"));
}

#[test]
fn github_author_case_insensitive() {
    let commit = commit_by(Some(CommitAuthor { user: Some(AuthorUser { login: "Penqguin".into() }) }));
    assert!(matches_author(&commit, "penqguin"));
}

#[test]
fn github_author_does_not_match() {
    let commit = commit_by(Some(CommitAuthor { user: Some(AuthorUser { login: "other".into() }) }));
    assert!(!matches_author(&commit, "penqguin"));
}

#[test]
fn github_author_no_user_field() {
    let commit = commit_by(Some(CommitAuthor { user: None }));
    assert!(!matches_author(&commit, "penqguin"));
}

#[test]
fn github_author_none() {
    let commit = commit_by(None);
    assert!(!matches_author(&commit, "penqguin"));
}

#[test]
fn github_parse_languages_none() {
    assert!(parse_languages(&None).is_empty());
}

#[test]
fn github_parse_languages_with_edges() {
    let langs = GitLanguages {
        edges: Some(vec![GitLanguageEdge {
            size: 100,
            node: GitLanguageNode { name: "Rust".into(), color: Some("#dea584".into()) },
        }]),
    };
    let result = parse_languages(&Some(langs));
    assert_eq!(result.len(), 1);
    assert_eq!(result[0].name, "Rust");
    assert_eq!(result[0].size, 100);
}

#[test]
fn github_parse_languages_empty_edges() {
    let langs = GitLanguages { edges: Some(vec![]) };
    assert!(parse_languages(&Some(langs)).is_empty());
}

#[test]
fn github_flatten_days_empty_calendar() {
    let cal = ContributionCalendar { weeks: vec![] };
    assert!(flatten_contribution_days(&cal).is_empty());
}

#[test]
fn github_flatten_days_multiple_weeks() {
    let cal = ContributionCalendar {
        weeks: vec![
            ContributionWeek { contribution_days: vec![cday(1, "2024-01-01".into())] },
            ContributionWeek { contribution_days: vec![cday(2, "2024-01-08".into())] },
        ],
    };
    let days = flatten_contribution_days(&cal);
    assert_eq!(days.len(), 2);
    assert_eq!(days[0].date, "2024-01-01");
    assert_eq!(days[1].date, "2024-01-08");
}

#[test]
fn excluded_repos_for_jason() {
    let repos = get_excluded_repos("jasonlovesdoggo");
    assert!(!repos.is_empty());
    assert!(repos.contains(&"jasonlovesdoggo/jasonlovesdoggo"));
}
