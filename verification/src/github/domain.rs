//! Per-repository helpers: which repositories are left out, how languages
//! and commits are read from GitHub's answer, and how a dominant language's
//! share is spread over the others.

use vstd::prelude::*;
use crate::github::types::{ContributionCalendar, ContributionDay, ContributionWeek, GitLanguageEdge, GitLanguages, GqlCommit};
use crate::models::{Language, clone_opt_string};
use crate::text::{ascii_eq_ignore_case, ascii_lower, eq_ignore_ascii_case};

verus! {

/// The repositories left out of a user's statistics: their profile and
/// housekeeping repositories.
pub open spec fn excluded_repo_names(username: Seq<char>) -> Seq<Seq<char>> {
    if ascii_eq_ignore_case(username, "jasonlovesdoggo"@) {
        seq![
            "jasonlovesdoggo/jasonlovesdoggo"@,
            "jasonlovesdoggo/notes"@,
            "jasonlovesdoggo/status"@,
        ]
    } else if ascii_eq_ignore_case(username, "penqguin"@) {
        seq!["penqguin/penqguin"@]
    } else {
        seq![]
    }
}

/// The repositories whose commits and languages are not counted for
/// `username` (compared without regard to ASCII case).
pub fn get_excluded_repos(username: &str) -> (r: Vec<&'static str>)
    ensures
        r@.len() == excluded_repo_names(username@).len(),
        forall|i: int| 0 <= i < r@.len() ==> #[trigger] r@[i]@ == excluded_repo_names(username@)[i],
{
    if eq_ignore_ascii_case(username, "jasonlovesdoggo") {
        let mut v: Vec<&'static str> = Vec::new();
        v.push("jasonlovesdoggo/jasonlovesdoggo");
        v.push("jasonlovesdoggo/notes");
        v.push("jasonlovesdoggo/status");
        v
    } else if eq_ignore_ascii_case(username, "penqguin") {
        let mut v: Vec<&'static str> = Vec::new();
        v.push("penqguin/penqguin");
        v
    } else {
        Vec::new()
    }
}

proof fn lemma_ascii_eq_ignore_case_trans(a: Seq<char>, b: Seq<char>, c: Seq<char>)
    requires
        ascii_eq_ignore_case(a, b),
    ensures
        ascii_eq_ignore_case(a, c) == ascii_eq_ignore_case(b, c),
{
    if ascii_eq_ignore_case(a, c) {
        assert forall|i: int| 0 <= i < b.len() implies ascii_lower(#[trigger] b[i]) == ascii_lower(
            c[i],
        ) by {
            assert(ascii_lower(a[i]) == ascii_lower(b[i]));
        }
    }
    if ascii_eq_ignore_case(b, c) {
        assert forall|i: int| 0 <= i < a.len() implies ascii_lower(#[trigger] a[i]) == ascii_lower(
            c[i],
        ) by {
            assert(ascii_lower(a[i]) == ascii_lower(b[i]));
        }
    }
}

/// User names that differ only in the case of ASCII letters have the same
/// excluded repositories and the same commits counted as theirs.
pub proof fn lemma_user_matching_ignores_case(u: Seq<char>, v: Seq<char>, commit: GqlCommit)
    requires
        ascii_eq_ignore_case(u, v),
    ensures
        excluded_repo_names(u) == excluded_repo_names(v),
        authored_by(commit, u) == authored_by(commit, v),
{
    lemma_ascii_eq_ignore_case_trans(u, v, "jasonlovesdoggo"@);
    lemma_ascii_eq_ignore_case_trans(u, v, "penqguin"@);
    match commit.author {
        Some(a) => match a.user {
            Some(user) => {
                assert(ascii_eq_ignore_case(v, u)) by {
                    assert forall|i: int| 0 <= i < v.len() implies ascii_lower(#[trigger] v[i])
                        == ascii_lower(u[i]) by {
                        assert(ascii_lower(u[i]) == ascii_lower(v[i]));
                    }
                }
                lemma_ascii_eq_ignore_case_trans(v, u, user.login@);
                assert(ascii_eq_ignore_case(user.login@, u) == ascii_eq_ignore_case(u, user.login@))
                    by {
                    if ascii_eq_ignore_case(user.login@, u) {
                        assert forall|i: int| 0 <= i < u.len() implies ascii_lower(#[trigger] u[i])
                            == ascii_lower(user.login@[i]) by {
                            assert(ascii_lower(user.login@[i]) == ascii_lower(u[i]));
                        }
                    }
                    if ascii_eq_ignore_case(u, user.login@) {
                        assert forall|i: int| 0 <= i < user.login@.len() implies ascii_lower(
                            #[trigger] user.login@[i],
                        ) == ascii_lower(u[i]) by {
                            assert(ascii_lower(u[i]) == ascii_lower(user.login@[i]));
                        }
                    }
                }
                assert(ascii_eq_ignore_case(user.login@, v) == ascii_eq_ignore_case(v, user.login@))
                    by {
                    if ascii_eq_ignore_case(user.login@, v) {
                        assert forall|i: int| 0 <= i < v.len() implies ascii_lower(#[trigger] v[i])
                            == ascii_lower(user.login@[i]) by {
                            assert(ascii_lower(user.login@[i]) == ascii_lower(v[i]));
                        }
                    }
                    if ascii_eq_ignore_case(v, user.login@) {
                        assert forall|i: int| 0 <= i < user.login@.len() implies ascii_lower(
                            #[trigger] user.login@[i],
                        ) == ascii_lower(v[i]) by {
                            assert(ascii_lower(v[i]) == ascii_lower(user.login@[i]));
                        }
                    }
                }
            },
            None => {},
        },
        None => {},
    }
}

/// The language of one edge of GitHub's language list.
pub open spec fn edge_language(e: GitLanguageEdge) -> Language {
    Language { size: e.size, name: e.node.name, color: e.node.color }
}

/// The languages GitHub lists for a repository, in its order.
pub open spec fn languages_of(languages: Option<GitLanguages>) -> Seq<Language> {
    match languages {
        Some(l) => match l.edges {
            Some(edges) => edges@.map_values(|e: GitLanguageEdge| edge_language(e)),
            None => seq![],
        },
        None => seq![],
    }
}

/// Reads the language list of a repository.
pub fn parse_languages(languages: &Option<GitLanguages>) -> (r: Vec<Language>)
    ensures
        r@ == languages_of(*languages),
{
    let mut out: Vec<Language> = Vec::new();
    match languages {
        Some(l) => match &l.edges {
            Some(edges) => {
                let n = edges.len();
                let mut i: usize = 0;
                while i < n
                    invariant
                        n == edges@.len(),
                        i <= n,
                        out@ =~= edges@.take(i as int).map_values(
                            |e: GitLanguageEdge| edge_language(e),
                        ),
                    decreases n - i,
                {
                    let e = &edges[i];
                    out.push(
                        Language {
                            size: e.size,
                            name: e.node.name.clone(),
                            color: clone_opt_string(&e.node.color),
                        },
                    );
                    i = i + 1;
                }
                assert(edges@.take(n as int) =~= edges@);
            },
            None => {},
        },
        None => {},
    }
    out
}

/// The commit was authored by the GitHub account `username` (compared
/// without regard to ASCII case); commits without a linked account are not.
pub open spec fn authored_by(commit: GqlCommit, username: Seq<char>) -> bool {
    match commit.author {
        Some(a) => match a.user {
            Some(u) => ascii_eq_ignore_case(u.login@, username),
            None => false,
        },
        None => false,
    }
}

/// Whether the commit's author account is `username`.
pub fn matches_author(commit: &GqlCommit, username: &str) -> (r: bool)
    ensures
        r == authored_by(*commit, username@),
{
    match &commit.author {
        Some(a) => match &a.user {
            Some(u) => eq_ignore_ascii_case(u.login.as_str(), username),
            None => false,
        },
        None => false,
    }
}

/// All days of a contribution calendar, week after week.
pub open spec fn calendar_days(weeks: Seq<ContributionWeek>) -> Seq<ContributionDay>
    decreases weeks.len(),
{
    if weeks.len() == 0 {
        seq![]
    } else {
        calendar_days(weeks.drop_last()) + weeks.last().contribution_days@
    }
}

/// The number of days in the weeks before week `i`.
pub open spec fn days_before_week(weeks: Seq<ContributionWeek>, i: int) -> nat
    decreases i,
{
    if i <= 0 {
        0
    } else {
        days_before_week(weeks, i - 1) + weeks[i - 1].contribution_days@.len()
    }
}

proof fn lemma_days_before_week_prefix(weeks: Seq<ContributionWeek>, m: int, i: int)
    requires
        0 <= i <= m <= weeks.len(),
    ensures
        days_before_week(weeks.take(m), i) == days_before_week(weeks, i),
    decreases i,
{
    if i > 0 {
        lemma_days_before_week_prefix(weeks, m, i - 1);
        assert(weeks.take(m)[i - 1] == weeks[i - 1]);
    }
}

/// Flattening keeps every week's days, in their order, one week after
/// another: day `j` of week `i` stands after all days of the earlier weeks,
/// at their count plus `j`, and nothing else is there.
pub proof fn lemma_calendar_days_in_order(weeks: Seq<ContributionWeek>)
    ensures
        calendar_days(weeks).len() == days_before_week(weeks, weeks.len() as int),
        forall|i: int, j: int|
            #![trigger weeks[i].contribution_days@[j]]
            0 <= i < weeks.len() && 0 <= j < weeks[i].contribution_days@.len() ==> calendar_days(
                weeks,
            )[days_before_week(weeks, i) + j] == weeks[i].contribution_days@[j],
        weeks.len() == 1 ==> calendar_days(weeks) == weeks[0].contribution_days@,
    decreases weeks.len(),
{
    if weeks.len() > 0 {
        let n = weeks.len() as int;
        let init = weeks.drop_last();
        lemma_calendar_days_in_order(init);
        assert(init =~= weeks.take(n - 1));
        lemma_days_before_week_prefix(weeks, n - 1, n - 1);
        assert forall|i: int, j: int|
            #![trigger weeks[i].contribution_days@[j]]
            0 <= i < n && 0 <= j < weeks[i].contribution_days@.len() implies calendar_days(
                weeks,
            )[days_before_week(weeks, i) + j] == weeks[i].contribution_days@[j] by {
            if i < n - 1 {
                lemma_days_before_week_prefix(weeks, n - 1, i);
                assert(init[i] == weeks[i]);
                assert(init[i].contribution_days@[j] == weeks[i].contribution_days@[j]);
                lemma_days_before_week_position(init, i, j);
            }
        }
        if n == 1 {
            assert(init.len() == 0);
            assert(calendar_days(weeks) =~= weeks[0].contribution_days@);
        }
    }
}

proof fn lemma_days_before_week_position(weeks: Seq<ContributionWeek>, i: int, j: int)
    requires
        0 <= i < weeks.len(),
        0 <= j < weeks[i].contribution_days@.len(),
    ensures
        days_before_week(weeks, i) + j < days_before_week(weeks, weeks.len() as int),
    decreases weeks.len() - i,
{
    if i + 1 < weeks.len() {
        lemma_days_before_week_mono(weeks, i + 1, weeks.len() as int);
    }
}

proof fn lemma_days_before_week_mono(weeks: Seq<ContributionWeek>, i: int, k: int)
    requires
        0 <= i <= k <= weeks.len(),
    ensures
        days_before_week(weeks, i) <= days_before_week(weeks, k),
    decreases k - i,
{
    if i < k {
        lemma_days_before_week_mono(weeks, i, k - 1);
    }
}

/// The days of a contribution calendar in order.
pub fn flatten_contribution_days(cal: &ContributionCalendar) -> (r: Vec<ContributionDay>)
    ensures
        r@ == calendar_days(cal.weeks@),
        r@.len() == days_before_week(cal.weeks@, cal.weeks@.len() as int),
        forall|i: int, j: int|
            #![trigger cal.weeks@[i].contribution_days@[j]]
            0 <= i < cal.weeks@.len() && 0 <= j < cal.weeks@[i].contribution_days@.len() ==> r@[
                days_before_week(cal.weeks@, i) + j] == cal.weeks@[i].contribution_days@[j],
{
    proof {
        lemma_calendar_days_in_order(cal.weeks@);
    }
    let mut out: Vec<ContributionDay> = Vec::new();
    let nw = cal.weeks.len();
    let mut w: usize = 0;
    while w < nw
        invariant
            nw == cal.weeks@.len(),
            w <= nw,
            out@ == calendar_days(cal.weeks@.take(w as int)),
        decreases nw - w,
    {
        let days = &cal.weeks[w].contribution_days;
        let nd = days.len();
        let ghost before = out@;
        let mut d: usize = 0;
        while d < nd
            invariant
                nd == days@.len(),
                d <= nd,
                out@ == before + days@.take(d as int),
            decreases nd - d,
        {
            out.push(days[d].duplicate());
            d = d + 1;
            assert(out@ =~= before + days@.take(d as int));
        }
        proof {
            assert(days@.take(nd as int) =~= days@);
            assert(cal.weeks@.take(w + 1).drop_last() =~= cal.weeks@.take(w as int));
        }
        w = w + 1;
    }
    assert(cal.weeks@.take(nw as int) =~= cal.weeks@);
    out
}

} // verus!
