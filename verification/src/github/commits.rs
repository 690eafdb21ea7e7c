//! Building the commits endpoint's answer from GitHub's list of repositories:
//! the user's own commits, newest first, with totals over the most recent
//! ones and the languages of the repositories they touched.

use vstd::prelude::*;
use crate::github::domain::{
    authored_by, excluded_repo_names, get_excluded_repos, languages_of, matches_author,
    parse_languages,
};
use crate::github::languages::{
    lemma_redistribution_only_when_dominant, lemma_redistribution_preserves_total, lemma_size_le_total,
    lemma_total_size_append,
    redistribute_languages, redistributed, total_size,
};
use crate::github::types::{GqlCommit, GqlCommitEdge, ReposResponseData, RepositoryNode};
use crate::models::{CommitItem, CommitsListResponse, CommitsListStats, Language, clone_opt_string};
use crate::sorting::{insert_pos, lemma_insert_pos, lemma_insert_pos_at, lemma_sort_desc, sort_desc, sorted_desc};
use crate::text::{contains_name, equal};

verus! {

/// Commits are ordered by their commit time.
pub open spec fn commit_key(c: CommitItem) -> int {
    c.committed_date.secs * 4294967296 + c.committed_date.nanos
}

/// The newest-first order of commits.
pub open spec fn commit_order() -> spec_fn(CommitItem) -> int {
    |c: CommitItem| commit_key(c)
}

/// The largest-first order of languages.
pub open spec fn size_order() -> spec_fn(Language) -> int {
    |l: Language| l.size as int
}

/// The repositories in GitHub's answer, in its order.
pub open spec fn repo_nodes(data: ReposResponseData) -> Seq<RepositoryNode> {
    match data.user {
        Some(u) => match u.repositories.nodes {
            Some(nodes) => nodes@,
            None => seq![],
        },
        None => seq![],
    }
}

/// The commits GitHub lists on a repository's default branch.
pub open spec fn history_edges(r: RepositoryNode) -> Seq<GqlCommitEdge> {
    match r.default_branch_ref {
        Some(b) => match b.target {
            Some(t) => match t.history.edges {
                Some(edges) => edges@,
                None => seq![],
            },
            None => seq![],
        },
        None => seq![],
    }
}

/// A GitHub commit of repository `repo` as the API reports it.
pub open spec fn commit_item(repo: String, c: GqlCommit) -> CommitItem {
    CommitItem {
        repo: repo,
        additions: c.additions,
        deletions: c.deletions,
        commit_url: c.commit_url,
        committed_date: c.committed_date,
        oid: c.abbreviated_oid,
        message_headline: c.message_headline,
        message_body: c.message_body,
    }
}

/// The commits among `edges` authored by `username`, in order.
pub open spec fn authored_commits(repo: String, edges: Seq<GqlCommitEdge>, username: Seq<char>) -> Seq<
    CommitItem,
>
    decreases edges.len(),
{
    if edges.len() == 0 {
        seq![]
    } else {
        let init = authored_commits(repo, edges.drop_last(), username);
        if authored_by(edges.last().node, username) {
            init.push(commit_item(repo, edges.last().node))
        } else {
            init
        }
    }
}

/// The user's commits over all repositories that are not excluded, repository
/// by repository.
pub open spec fn collected_commits(
    repos: Seq<RepositoryNode>,
    excluded: Seq<Seq<char>>,
    username: Seq<char>,
) -> Seq<CommitItem>
    decreases repos.len(),
{
    if repos.len() == 0 {
        seq![]
    } else {
        let init = collected_commits(repos.drop_last(), excluded, username);
        let r = repos.last();
        if excluded.contains(r.name_with_owner@) {
            init
        } else {
            init + authored_commits(r.name_with_owner, history_edges(r), username)
        }
    }
}

/// The languages recorded for the repository named `name`: those of the
/// last repository of that name that is not excluded.
pub open spec fn repo_languages(
    repos: Seq<RepositoryNode>,
    excluded: Seq<Seq<char>>,
    name: Seq<char>,
) -> Seq<Language>
    decreases repos.len(),
{
    if repos.len() == 0 {
        seq![]
    } else {
        let r = repos.last();
        if !excluded.contains(r.name_with_owner@) && r.name_with_owner@ == name {
            languages_of(r.languages)
        } else {
            repo_languages(repos.drop_last(), excluded, name)
        }
    }
}

/// The user's commits, newest first; commits with the same time keep the
/// order in which they were collected.
pub open spec fn sorted_commits(data: ReposResponseData, username: Seq<char>) -> Seq<CommitItem> {
    sort_desc(
        collected_commits(repo_nodes(data), excluded_repo_names(username), username),
        commit_order(),
    )
}

/// How many of the newest commits the totals cover: `history_limit`, at
/// least one, and no more than there are.
pub open spec fn stats_window(history_limit: usize, len: nat) -> nat {
    let h: nat = if history_limit > 1 {
        history_limit as nat
    } else {
        1
    };
    if len < h {
        len
    } else {
        h
    }
}

/// How many commits are listed: `limit` (10 when it is 0), and no more than
/// there are.
pub open spec fn shown_count(limit: usize, len: nat) -> nat {
    let l: nat = if limit > 0 {
        limit as nat
    } else {
        10
    };
    if len < l {
        len
    } else {
        l
    }
}

/// The newest commits over which totals and languages are computed.
pub open spec fn stats_commits(data: ReposResponseData, username: Seq<char>, history_limit: usize) -> Seq<
    CommitItem,
> {
    let s = sorted_commits(data, username);
    s.take(stats_window(history_limit, s.len()) as int)
}

/// Summed additions.
pub open spec fn total_additions(s: Seq<CommitItem>) -> nat
    decreases s.len(),
{
    if s.len() == 0 {
        0
    } else {
        total_additions(s.drop_last()) + s.last().additions as nat
    }
}

/// Summed deletions.
pub open spec fn total_deletions(s: Seq<CommitItem>) -> nat
    decreases s.len(),
{
    if s.len() == 0 {
        0
    } else {
        total_deletions(s.drop_last()) + s.last().deletions as nat
    }
}

/// The repositories of `commits`, each once, in the order of first mention.
pub open spec fn first_seen_repos(commits: Seq<CommitItem>) -> Seq<Seq<char>>
    decreases commits.len(),
{
    if commits.len() == 0 {
        seq![]
    } else {
        let init = first_seen_repos(commits.drop_last());
        if init.contains(commits.last().repo@) {
            init
        } else {
            init.push(commits.last().repo@)
        }
    }
}

/// The languages of the repositories `names`, one repository after another.
pub open spec fn language_entries(
    names: Seq<Seq<char>>,
    repos: Seq<RepositoryNode>,
    excluded: Seq<Seq<char>>,
) -> Seq<Language>
    decreases names.len(),
{
    if names.len() == 0 {
        seq![]
    } else {
        language_entries(names.drop_last(), repos, excluded) + repo_languages(
            repos,
            excluded,
            names.last(),
        )
    }
}

/// The index of the first language named `name`, or -1.
pub open spec fn find_name(acc: Seq<Language>, name: Seq<char>) -> int
    decreases acc.len(),
{
    if acc.len() == 0 {
        -1
    } else if acc[0].name@ == name {
        0
    } else {
        let k = find_name(acc.drop_first(), name);
        if k < 0 {
            -1
        } else {
            k + 1
        }
    }
}

/// Languages merged by name: the first entry of a name fixes its place and
/// color, and the sizes of all entries of that name are summed.
pub open spec fn aggregate_languages(entries: Seq<Language>) -> Seq<Language>
    decreases entries.len(),
{
    if entries.len() == 0 {
        seq![]
    } else {
        let acc = aggregate_languages(entries.drop_last());
        let e = entries.last();
        let i = find_name(acc, e.name@);
        if i >= 0 {
            acc.update(
                i,
                Language { size: (acc[i].size + e.size) as usize, name: acc[i].name, color: acc[i].color },
            )
        } else {
            acc.push(e)
        }
    }
}

/// The language entries behind the statistics of the newest commits.
pub open spec fn stats_language_entries(
    data: ReposResponseData,
    username: Seq<char>,
    history_limit: usize,
) -> Seq<Language> {
    language_entries(
        first_seen_repos(stats_commits(data, username, history_limit)),
        repo_nodes(data),
        excluded_repo_names(username),
    )
}

/// The languages reported: merged by name, largest first (merged order among
/// equal sizes), then with a dominant language's share spread out.
pub open spec fn language_summary(data: ReposResponseData, username: Seq<char>, history_limit: usize) -> Seq<
    Language,
> {
    redistributed(
        sort_desc(
            aggregate_languages(stats_language_entries(data, username, history_limit)),
            size_order(),
        ),
    )
}

/// Sums in the answer fit in `usize`: the additions and deletions of the
/// newest commits, and the sizes of their languages.
pub open spec fn commits_list_fits(data: ReposResponseData, username: Seq<char>, history_limit: usize) -> bool {
    let s = stats_commits(data, username, history_limit);
    &&& total_additions(s) <= usize::MAX
    &&& total_deletions(s) <= usize::MAX
    &&& total_size(stats_language_entries(data, username, history_limit)) <= usize::MAX
}


fn make_commit_item(repo: &String, c: &GqlCommit) -> (r: CommitItem)
    ensures
        r == commit_item(*repo, *c),
{
    CommitItem {
        repo: repo.clone(),
        additions: c.additions,
        deletions: c.deletions,
        commit_url: c.commit_url.clone(),
        committed_date: c.committed_date,
        oid: c.abbreviated_oid.clone(),
        message_headline: c.message_headline.clone(),
        message_body: c.message_body.clone(),
    }
}

fn push_authored_commits(out: &mut Vec<CommitItem>, repo: &RepositoryNode, username: &str)
    ensures
        final(out)@ == old(out)@ + authored_commits(repo.name_with_owner, history_edges(*repo), username@),
{
    let ghost start = out@;
    let ghost edges_v = history_edges(*repo);
    let empty: Vec<GqlCommitEdge> = Vec::new();
    let edges: &Vec<GqlCommitEdge> = match &repo.default_branch_ref {
        Some(b) => match &b.target {
            Some(t) => match &t.history.edges {
                Some(e) => e,
                None => &empty,
            },
            None => &empty,
        },
        None => &empty,
    };
    assert(edges@ == edges_v);
    let n = edges.len();
    let mut i: usize = 0;
    while i < n
        invariant
            n == edges@.len(),
            i <= n,
            out@ == start + authored_commits(repo.name_with_owner, edges@.take(i as int), username@),
        decreases n - i,
    {
        proof {
            assert(edges@.take(i + 1).drop_last() =~= edges@.take(i as int));
        }
        if matches_author(&edges[i].node, username) {
            out.push(make_commit_item(&repo.name_with_owner, &edges[i].node));
            assert(out@ =~= start + authored_commits(
                repo.name_with_owner,
                edges@.take(i + 1),
                username@,
            ));
        }
        i = i + 1;
    }
    assert(edges@.take(n as int) =~= edges@);
}

/// The user's commits in the repositories that are not excluded, in the
/// order GitHub lists repositories and commits.
pub fn collect_commits(repos: &Vec<RepositoryNode>, excluded: &Vec<&str>, username: &str) -> (r: Vec<
    CommitItem,
>)
    ensures
        r@ == collected_commits(repos@, excluded@.map_values(|s: &str| s@), username@),
{
    let ghost ex = excluded@.map_values(|s: &str| s@);
    let mut out: Vec<CommitItem> = Vec::new();
    let n = repos.len();
    let mut i: usize = 0;
    while i < n
        invariant
            n == repos@.len(),
            i <= n,
            ex == excluded@.map_values(|s: &str| s@),
            out@ == collected_commits(repos@.take(i as int), ex, username@),
        decreases n - i,
    {
        proof {
            assert(repos@.take(i + 1).drop_last() =~= repos@.take(i as int));
            assert(repos@.take(i + 1).last() == repos@[i as int]);
        }
        let repo = &repos[i];
        if !contains_name(excluded, repo.name_with_owner.as_str()) {
            push_authored_commits(&mut out, repo, username);
        }
        i = i + 1;
    }
    assert(repos@.take(n as int) =~= repos@);
    out
}

fn commit_before(a: &CommitItem, b: &CommitItem) -> (r: bool)
    ensures
        r == (commit_key(*a) < commit_key(*b)),
{
    let sa = a.committed_date.secs;
    let sb = b.committed_date.secs;
    let na = a.committed_date.nanos;
    let nb = b.committed_date.nanos;
    proof {
        assert(sa < sb ==> sa * 4294967296 + na < sb * 4294967296 + nb) by (nonlinear_arith)
            requires
                0 <= na < 4294967296,
                0 <= nb < 4294967296,
        ;
        assert(sa > sb ==> sa * 4294967296 + na > sb * 4294967296 + nb) by (nonlinear_arith)
            requires
                0 <= na < 4294967296,
                0 <= nb < 4294967296,
        ;
    }
    sa < sb || (sa == sb && na < nb)
}

/// The commits stably sorted newest first.
pub fn sort_commits(v: &Vec<CommitItem>) -> (r: Vec<CommitItem>)
    ensures
        r@ == sort_desc(v@, commit_order()),
{
    let mut out: Vec<CommitItem> = Vec::new();
    let n = v.len();
    let mut i: usize = 0;
    while i < n
        invariant
            n == v@.len(),
            i <= n,
            out@ == sort_desc(v@.take(i as int), commit_order()),
        decreases n - i,
    {
        let x = &v[i];
        let m = out.len();
        let mut p: usize = 0;
        while p < m && !commit_before(&out[p], x)
            invariant
                m == out@.len(),
                p <= m,
                forall|k: int| 0 <= k < p ==> !(commit_key(#[trigger] out@[k]) < commit_key(*x)),
            decreases m - p,
        {
            p = p + 1;
        }
        proof {
            let key = commit_order();
            assert(forall|k: int| 0 <= k < p ==> !(key(#[trigger] out@[k]) < key(*x)));
            lemma_insert_pos_at(out@, *x, key, p as int);
            assert(v@.take(i + 1).drop_last() =~= v@.take(i as int));
            assert(v@.take(i + 1).last() == *x);
        }
        out.insert(p, x.duplicate());
        i = i + 1;
    }
    assert(v@.take(n as int) =~= v@);
    out
}


/// The languages recorded for the repository `name` (see `repo_languages`).
pub fn languages_for_repo(repos: &Vec<RepositoryNode>, excluded: &Vec<&str>, name: &str) -> (r: Vec<
    Language,
>)
    ensures
        r@ == repo_languages(repos@, excluded@.map_values(|s: &str| s@), name@),
{
    let ghost ex = excluded@.map_values(|s: &str| s@);
    let mut i: usize = repos.len();
    assert(repos@.take(i as int) =~= repos@);
    while i > 0
        invariant
            i <= repos@.len(),
            ex == excluded@.map_values(|s: &str| s@),
            repo_languages(repos@, ex, name@) == repo_languages(repos@.take(i as int), ex, name@),
        decreases i,
    {
        let repo = &repos[i - 1];
        proof {
            assert(repos@.take(i as int).drop_last() =~= repos@.take(i - 1));
            assert(repos@.take(i as int).last() == repos@[i - 1]);
        }
        if !contains_name(excluded, repo.name_with_owner.as_str()) && equal(
            repo.name_with_owner.as_str(),
            name,
        ) {
            return parse_languages(&repo.languages);
        }
        i = i - 1;
    }
    Vec::new()
}

proof fn lemma_first_seen_contains(commits: Seq<CommitItem>, name: Seq<char>)
    ensures
        first_seen_repos(commits).contains(name) <==> exists|k: int|
            0 <= k < commits.len() && (#[trigger] commits[k]).repo@ == name,
    decreases commits.len(),
{
    if commits.len() > 0 {
        let init = commits.drop_last();
        lemma_first_seen_contains(init, name);
        let f = first_seen_repos(init);
        if f.contains(commits.last().repo@) {
        } else {
            if f.push(commits.last().repo@).contains(name) {
                let j = choose|j: int| 0 <= j < f.push(commits.last().repo@).len() && f.push(commits.last().repo@)[j] == name;
                if j < f.len() {
                    assert(f[j] == name);
                }
            }
            if f.contains(name) {
                let j = choose|j: int| 0 <= j < f.len() && f[j] == name;
                assert(f.push(commits.last().repo@)[j] == name);
            }
            if name == commits.last().repo@ {
                assert(f.push(commits.last().repo@)[f.len() as int] == name);
            }
        }
        assert forall|k: int| 0 <= k < init.len() implies #[trigger] init[k] == commits[k] by {}
        if exists|k: int| 0 <= k < commits.len() && (#[trigger] commits[k]).repo@ == name {
            let k = choose|k: int| 0 <= k < commits.len() && (#[trigger] commits[k]).repo@ == name;
            if k < init.len() {
                assert(init[k] == commits[k]);
            }
        }
    }
}

/// The languages of the repositories of the first `count` commits, each
/// repository once, in the order of first mention.
pub fn stats_languages(
    commits: &Vec<CommitItem>,
    count: usize,
    repos: &Vec<RepositoryNode>,
    excluded: &Vec<&str>,
) -> (r: Vec<Language>)
    requires
        count <= commits@.len(),
    ensures
        r@ == language_entries(
            first_seen_repos(commits@.take(count as int)),
            repos@,
            excluded@.map_values(|s: &str| s@),
        ),
{
    let ghost ex = excluded@.map_values(|s: &str| s@);
    let mut out: Vec<Language> = Vec::new();
    let mut i: usize = 0;
    while i < count
        invariant
            count <= commits@.len(),
            i <= count,
            ex == excluded@.map_values(|s: &str| s@),
            out@ == language_entries(first_seen_repos(commits@.take(i as int)), repos@, ex),
        decreases count - i,
    {
        let c = &commits[i];
        let ghost prefix = commits@.take(i as int);
        let mut seen = false;
        let mut k: usize = 0;
        while k < i
            invariant
                i < commits@.len(),
                k <= i,
                prefix == commits@.take(i as int),
                seen == exists|q: int| 0 <= q < k && (#[trigger] commits@[q]).repo@ == c.repo@,
            decreases i - k,
        {
            if equal(commits[k].repo.as_str(), c.repo.as_str()) {
                seen = true;
            }
            k = k + 1;
        }
        proof {
            lemma_first_seen_contains(prefix, c.repo@);
            assert forall|q: int| 0 <= q < i implies #[trigger] prefix[q] == commits@[q] by {}
            assert(seen == exists|q: int| 0 <= q < prefix.len() && (#[trigger] prefix[q]).repo@ == c.repo@) by {
                if seen {
                    let q = choose|q: int| 0 <= q < k && (#[trigger] commits@[q]).repo@ == c.repo@;
                    assert(prefix[q] == commits@[q]);
                }
            }
            assert(commits@.take(i + 1).drop_last() =~= prefix);
            assert(commits@.take(i + 1).last() == *c);
        }
        if !seen {
            let langs = languages_for_repo(repos, excluded, c.repo.as_str());
            let mut j: usize = 0;
            let ghost before = out@;
            while j < langs.len()
                invariant
                    j <= langs@.len(),
                    out@ == before + langs@.take(j as int),
                decreases langs@.len() - j,
            {
                out.push(langs[j].duplicate());
                j = j + 1;
                assert(out@ =~= before + langs@.take(j as int));
            }
            proof {
                assert(langs@.take(langs@.len() as int) =~= langs@);
                let f = first_seen_repos(prefix);
                assert(first_seen_repos(commits@.take(i + 1)) == f.push(c.repo@));
                assert(f.push(c.repo@).drop_last() =~= f);
            }
        }
        i = i + 1;
    }
    out
}


proof fn lemma_total_size_update(s: Seq<Language>, i: int, x: Language)
    requires
        0 <= i < s.len(),
    ensures
        total_size(s.update(i, x)) + s[i].size == total_size(s) + x.size,
    decreases s.len(),
{
    if i < s.len() - 1 {
        assert(s.update(i, x).drop_last() =~= s.drop_last().update(i, x));
        lemma_total_size_update(s.drop_last(), i, x);
    } else {
        assert(s.update(i, x).drop_last() =~= s.drop_last());
    }
}

proof fn lemma_total_size_insert(s: Seq<Language>, i: int, x: Language)
    requires
        0 <= i <= s.len(),
    ensures
        total_size(s.insert(i, x)) == total_size(s) + x.size,
{
    assert(s.insert(i, x) =~= s.take(i) + (seq![x] + s.skip(i)));
    assert(s =~= s.take(i) + s.skip(i));
    lemma_total_size_append(s.take(i), seq![x] + s.skip(i));
    lemma_total_size_append(seq![x], s.skip(i));
    lemma_total_size_append(s.take(i), s.skip(i));
    assert(seq![x].drop_last() =~= Seq::<Language>::empty());
    reveal_with_fuel(total_size, 2);
    assert(total_size(seq![x]) == x.size);
}

/// Sorting languages keeps their total size.
pub proof fn lemma_sort_keeps_total(s: Seq<Language>, key: spec_fn(Language) -> int)
    ensures
        total_size(sort_desc(s, key)) == total_size(s),
    decreases s.len(),
{
    if s.len() > 0 {
        let t = sort_desc(s.drop_last(), key);
        lemma_sort_keeps_total(s.drop_last(), key);
        lemma_sort_desc(s.drop_last(), key);
        lemma_insert_pos(t, s.last(), key);
        lemma_total_size_insert(t, insert_pos(t, s.last(), key) as int, s.last());
    }
}

proof fn lemma_find_name(acc: Seq<Language>, name: Seq<char>)
    ensures
        -1 <= find_name(acc, name) < acc.len(),
        find_name(acc, name) >= 0 ==> acc[find_name(acc, name)].name@ == name,
        find_name(acc, name) < 0 ==> forall|k: int| 0 <= k < acc.len() ==> (#[trigger] acc[k]).name@ != name,
    decreases acc.len(),
{
    if acc.len() > 0 && acc[0].name@ != name {
        lemma_find_name(acc.drop_first(), name);
        if find_name(acc, name) < 0 {
            assert forall|k: int| 0 <= k < acc.len() implies (#[trigger] acc[k]).name@ != name by {
                if k > 0 {
                    assert(acc[k] == acc.drop_first()[k - 1]);
                }
            }
        }
    }
}

proof fn lemma_find_name_at(acc: Seq<Language>, name: Seq<char>, p: int)
    requires
        0 <= p <= acc.len(),
        forall|k: int| 0 <= k < p ==> (#[trigger] acc[k]).name@ != name,
        p < acc.len() ==> acc[p].name@ == name,
    ensures
        find_name(acc, name) == (if p < acc.len() {
            p
        } else {
            -1
        }),
    decreases p,
{
    if p > 0 {
        let t = acc.drop_first();
        assert forall|k: int| 0 <= k < p - 1 implies (#[trigger] t[k]).name@ != name by {
            assert(t[k] == acc[k + 1]);
        }
        if p < acc.len() {
            assert(t[p - 1] == acc[p]);
        }
        assert(acc[0].name@ != name);
        lemma_find_name_at(t, name, p - 1);
    } else if acc.len() == 0 {
    }
}

/// Merging keeps the total size.
pub proof fn lemma_aggregate_total(entries: Seq<Language>)
    requires
        total_size(entries) <= usize::MAX,
    ensures
        total_size(aggregate_languages(entries)) == total_size(entries),
    decreases entries.len(),
{
    if entries.len() > 0 {
        let init = entries.drop_last();
        let e = entries.last();
        assert(total_size(init) <= total_size(entries));
        lemma_aggregate_total(init);
        let acc = aggregate_languages(init);
        lemma_find_name(acc, e.name@);
        let i = find_name(acc, e.name@);
        if i >= 0 {
            lemma_size_le_total(acc, i);
            let x = Language { size: (acc[i].size + e.size) as usize, name: acc[i].name, color: acc[i].color };
            lemma_total_size_update(acc, i, x);
        } else {
            assert(acc.push(e).drop_last() =~= acc);
        }
    }
}

/// Merging leaves one language per name: the merged names are distinct,
/// every entry's name is among them, and each of them is some entry's name.
#[verifier::spinoff_prover]
pub proof fn lemma_aggregate_names_distinct(entries: Seq<Language>)
    ensures
        forall|i: int, j: int|
            0 <= i < j < aggregate_languages(entries).len() ==> (#[trigger] aggregate_languages(
                entries,
            )[i]).name@ != (#[trigger] aggregate_languages(entries)[j]).name@,
        forall|k: int|
            0 <= k < entries.len() ==> exists|i: int|
                0 <= i < aggregate_languages(entries).len() && (#[trigger] aggregate_languages(
                    entries,
                )[i]).name@ == (#[trigger] entries[k]).name@,
        forall|i: int|
            0 <= i < aggregate_languages(entries).len() ==> exists|k: int|
                0 <= k < entries.len() && (#[trigger] entries[k]).name@ == (
                #[trigger] aggregate_languages(entries)[i]).name@,
    decreases entries.len(),
{
    if entries.len() > 0 {
        let init = entries.drop_last();
        let e = entries.last();
        lemma_aggregate_names_distinct(init);
        let acc = aggregate_languages(init);
        let agg = aggregate_languages(entries);
        lemma_find_name(acc, e.name@);
        let p = find_name(acc, e.name@);
        assert(agg.len() >= acc.len());
        assert forall|i: int| 0 <= i < acc.len() implies (#[trigger] agg[i]).name@ == acc[i].name@ by {
        }
        if p < 0 {
            assert(agg[acc.len() as int] == e);
        }
        assert forall|i: int, j: int| 0 <= i < j < agg.len() implies (#[trigger] agg[i]).name@
            != (#[trigger] agg[j]).name@ by {
            if j < acc.len() {
                assert(acc[i].name@ != acc[j].name@);
            } else {
                assert(agg[j] == e);
                assert(acc[i].name@ != e.name@);
            }
        }
        assert forall|k: int| 0 <= k < entries.len() implies exists|i: int|
            0 <= i < agg.len() && (#[trigger] agg[i]).name@ == (#[trigger] entries[k]).name@ by {
            if k < entries.len() - 1 {
                assert(entries[k] == init[k]);
                let i = choose|i: int| 0 <= i < acc.len() && (#[trigger] acc[i]).name@ == init[k].name@;
                assert(agg[i].name@ == acc[i].name@);
            } else if p >= 0 {
                assert(agg[p].name@ == acc[p].name@);
            } else {
                assert(agg[acc.len() as int].name@ == e.name@);
            }
        }
        assert forall|i: int| 0 <= i < agg.len() implies exists|k: int|
            0 <= k < entries.len() && (#[trigger] entries[k]).name@ == (#[trigger] agg[i]).name@ by {
            if i < acc.len() {
                let k = choose|k: int| 0 <= k < init.len() && (#[trigger] init[k]).name@ == acc[i].name@;
                assert(entries[k] == init[k]);
            } else {
                assert(entries[entries.len() - 1] == e);
            }
        }
    }
}

/// Merges languages of the same name (see `aggregate_languages`).
pub fn aggregate(entries: &Vec<Language>) -> (r: Vec<Language>)
    requires
        total_size(entries@) <= usize::MAX,
    ensures
        r@ == aggregate_languages(entries@),
{
    let mut acc: Vec<Language> = Vec::new();
    let n = entries.len();
    let mut i: usize = 0;
    while i < n
        invariant
            n == entries@.len(),
            i <= n,
            total_size(entries@) <= usize::MAX,
            acc@ == aggregate_languages(entries@.take(i as int)),
        decreases n - i,
    {
        let e = &entries[i];
        proof {
            assert(entries@.take(i + 1).drop_last() =~= entries@.take(i as int));
            assert(entries@.take(i + 1).last() == *e);
            assert(entries@.take(i + 1) + entries@.skip(i + 1) =~= entries@);
            lemma_total_size_append(entries@.take(i + 1), entries@.skip(i + 1));
            lemma_aggregate_total(entries@.take(i as int));
        }
        let m = acc.len();
        let mut p: usize = 0;
        while p < m && !equal(acc[p].name.as_str(), e.name.as_str())
            invariant
                m == acc@.len(),
                p <= m,
                forall|k: int| 0 <= k < p ==> (#[trigger] acc@[k]).name@ != e.name@,
            decreases m - p,
        {
            p = p + 1;
        }
        proof {
            lemma_find_name_at(acc@, e.name@, p as int);
        }
        if p < m {
            proof {
                lemma_size_le_total(acc@, p as int);
            }
            let merged = Language {
                size: acc[p].size + e.size,
                name: acc[p].name.clone(),
                color: clone_opt_string(&acc[p].color),
            };
            acc.set(p, merged);
        } else {
            acc.push(e.duplicate());
        }
        i = i + 1;
    }
    assert(entries@.take(n as int) =~= entries@);
    acc
}

/// The languages stably sorted largest first.
pub fn sort_languages(v: &Vec<Language>) -> (r: Vec<Language>)
    ensures
        r@ == sort_desc(v@, size_order()),
{
    let mut out: Vec<Language> = Vec::new();
    let n = v.len();
    let mut i: usize = 0;
    while i < n
        invariant
            n == v@.len(),
            i <= n,
            out@ == sort_desc(v@.take(i as int), size_order()),
        decreases n - i,
    {
        let x = &v[i];
        let m = out.len();
        let mut p: usize = 0;
        while p < m && !(out[p].size < x.size)
            invariant
                m == out@.len(),
                p <= m,
                forall|k: int| 0 <= k < p ==> !((#[trigger] out@[k]).size < x.size),
            decreases m - p,
        {
            p = p + 1;
        }
        proof {
            let key = size_order();
            assert(forall|k: int| 0 <= k < p ==> !(key(#[trigger] out@[k]) < key(*x)));
            lemma_insert_pos_at(out@, *x, key, p as int);
            assert(v@.take(i + 1).drop_last() =~= v@.take(i as int));
            assert(v@.take(i + 1).last() == *x);
        }
        out.insert(p, x.duplicate());
        i = i + 1;
    }
    assert(v@.take(n as int) =~= v@);
    out
}


proof fn lemma_totals_prefix(s: Seq<CommitItem>, k: int)
    requires
        0 <= k <= s.len(),
    ensures
        total_additions(s.take(k)) <= total_additions(s),
        total_deletions(s.take(k)) <= total_deletions(s),
    decreases s.len() - k,
{
    if k < s.len() {
        lemma_totals_prefix(s.drop_last(), k);
        assert(s.drop_last().take(k) =~= s.take(k));
    } else {
        assert(s.take(k) =~= s);
    }
}

fn take_commits(v: &Vec<CommitItem>, k: usize) -> (r: Vec<CommitItem>)
    requires
        k <= v@.len(),
    ensures
        r@ == v@.take(k as int),
{
    let mut out: Vec<CommitItem> = Vec::new();
    let mut i: usize = 0;
    while i < k
        invariant
            k <= v@.len(),
            i <= k,
            out@ == v@.take(i as int),
        decreases k - i,
    {
        out.push(v[i].duplicate());
        i = i + 1;
        assert(out@ =~= v@.take(i as int));
    }
    out
}

/// Builds the commits endpoint's answer from GitHub's list of repositories:
/// the user's commits in repositories that are not excluded, newest first
/// and cut to `limit` (10 when 0); totals over the `history_limit` newest
/// (at least one); the languages of the repositories of those newest
/// commits, merged by name, largest first and with a dominant language's
/// share spread out; and the number of the user's commits found.
pub fn build_commits_list(
    data: &ReposResponseData,
    username: &str,
    limit: usize,
    history_limit: usize,
) -> (r: CommitsListResponse)
    requires
        commits_list_fits(*data, username@, history_limit),
    ensures
        r.commits@ == sorted_commits(*data, username@).take(
            shown_count(limit, sorted_commits(*data, username@).len()) as int,
        ),
        r.languages@ == language_summary(*data, username@, history_limit),
        r.stats.total_additions == total_additions(stats_commits(*data, username@, history_limit)),
        r.stats.total_deletions == total_deletions(stats_commits(*data, username@, history_limit)),
        r.stats.total_commits == sorted_commits(*data, username@).len(),
{
    let empty: Vec<RepositoryNode> = Vec::new();
    let repos: &Vec<RepositoryNode> = match &data.user {
        Some(u) => match &u.repositories.nodes {
            Some(nodes) => nodes,
            None => &empty,
        },
        None => &empty,
    };
    assert(repos@ == repo_nodes(*data));
    let excluded = get_excluded_repos(username);
    assert(excluded@.map_values(|s: &str| s@) =~= excluded_repo_names(username@));
    let collected = collect_commits(repos, &excluded, username);
    let sorted = sort_commits(&collected);
    proof {
        lemma_sort_desc(collected@, commit_order());
    }
    let n = sorted.len();
    let h: usize = if history_limit > 1 {
        history_limit
    } else {
        1
    };
    let count: usize = if n < h {
        n
    } else {
        h
    };
    let ghost stats = sorted@.take(count as int);
    assert(stats == stats_commits(*data, username@, history_limit));
    let mut additions: usize = 0;
    let mut deletions: usize = 0;
    let mut i: usize = 0;
    while i < count
        invariant
            count <= sorted@.len(),
            i <= count,
            stats == sorted@.take(count as int),
            total_additions(stats) <= usize::MAX,
            total_deletions(stats) <= usize::MAX,
            additions == total_additions(stats.take(i as int)),
            deletions == total_deletions(stats.take(i as int)),
        decreases count - i,
    {
        proof {
            assert(stats.take(i + 1).drop_last() =~= stats.take(i as int));
            assert(stats.take(i + 1).last() == sorted@[i as int]);
            lemma_totals_prefix(stats, i + 1);
        }
        additions = additions + sorted[i].additions;
        deletions = deletions + sorted[i].deletions;
        i = i + 1;
    }
    assert(stats.take(count as int) =~= stats);
    let entries = stats_languages(&sorted, count, repos, &excluded);
    let merged = aggregate(&entries);
    proof {
        lemma_aggregate_total(entries@);
    }
    let mut languages = sort_languages(&merged);
    proof {
        lemma_sort_keeps_total(merged@, size_order());
    }
    redistribute_languages(&mut languages);
    let shown: usize = if limit > 0 {
        limit
    } else {
        10
    };
    let commits = take_commits(&sorted, if n < shown {
        n
    } else {
        shown
    });
    CommitsListResponse {
        commits: commits,
        languages: languages,
        stats: CommitsListStats {
            total_additions: additions,
            total_deletions: deletions,
            total_commits: n,
        },
    }
}


/// The listed commits are the newest first, no more than `limit` (10 when
/// 0) of them, and the collected commits are all sorted in, none lost or
/// added.
pub proof fn lemma_commits_newest_first(data: ReposResponseData, username: Seq<char>, limit: usize)
    ensures
        sorted_desc(sorted_commits(data, username), commit_order()),
        sorted_commits(data, username).to_multiset() == collected_commits(
            repo_nodes(data),
            excluded_repo_names(username),
            username,
        ).to_multiset(),
        shown_count(limit, sorted_commits(data, username).len()) <= (if limit > 0 {
            limit as nat
        } else {
            10
        }),
        shown_count(limit, sorted_commits(data, username).len()) <= sorted_commits(
            data,
            username,
        ).len(),
{
    lemma_sort_desc(
        collected_commits(repo_nodes(data), excluded_repo_names(username), username),
        commit_order(),
    );
}

/// Merging, ordering and redistributing the languages neither creates nor
/// loses size: the reported languages add up to the sizes of the
/// repositories behind the newest commits.
pub proof fn lemma_language_summary_keeps_total(
    data: ReposResponseData,
    username: Seq<char>,
    history_limit: usize,
)
    requires
        total_size(stats_language_entries(data, username, history_limit)) <= usize::MAX,
    ensures
        total_size(language_summary(data, username, history_limit)) == total_size(
            stats_language_entries(data, username, history_limit),
        ),
{
    let entries = stats_language_entries(data, username, history_limit);
    lemma_aggregate_total(entries);
    lemma_sort_keeps_total(aggregate_languages(entries), size_order());
    lemma_redistribution_preserves_total(sort_desc(aggregate_languages(entries), size_order()));
}

/// The `history_limit` newest of the user's commits (at least one, at most
/// all of them).
pub open spec fn newest_commits(data: ReposResponseData, username: Seq<char>, history_limit: usize) -> Seq<
    CommitItem,
> {
    sorted_commits(data, username).take(
        stats_window(history_limit, sorted_commits(data, username).len()) as int,
    )
}

/// The languages GitHub lists for the user's repository named `repo`.
pub open spec fn languages_of_repo(data: ReposResponseData, username: Seq<char>, repo: Seq<char>) -> Seq<
    Language,
> {
    repo_languages(repo_nodes(data), excluded_repo_names(username), repo)
}

/// The totals cover exactly the `history_limit` newest commits: at least
/// one, never more than there are, and the first ones of the newest-first
/// list.
pub proof fn lemma_totals_over_newest(data: ReposResponseData, username: Seq<char>, history_limit: usize)
    ensures
        stats_commits(data, username, history_limit) == newest_commits(data, username, history_limit),
        newest_commits(data, username, history_limit).len() == if sorted_commits(data, username).len()
            <= history_limit || sorted_commits(data, username).len() <= 1 {
            sorted_commits(data, username).len() as int
        } else if history_limit == 0 {
            1
        } else {
            history_limit as int
        },
        forall|k: int|
            0 <= k < newest_commits(data, username, history_limit).len() ==> #[trigger] newest_commits(
                data,
                username,
                history_limit,
            )[k] == sorted_commits(data, username)[k],
{
}

proof fn lemma_first_seen_repos(cs: Seq<CommitItem>)
    ensures
        forall|i: int|
            0 <= i < first_seen_repos(cs).len() ==> exists|c: int|
                0 <= c < cs.len() && #[trigger] first_seen_repos(cs)[i] == (#[trigger] cs[c]).repo@,
        forall|c: int|
            0 <= c < cs.len() ==> #[trigger] first_seen_repos(cs).contains((#[trigger] cs[c]).repo@),
    decreases cs.len(),
{
    if cs.len() > 0 {
        let init = cs.drop_last();
        lemma_first_seen_repos(init);
        let f = first_seen_repos(cs);
        let fi = first_seen_repos(init);
        assert forall|i: int| 0 <= i < f.len() implies exists|c: int|
            0 <= c < cs.len() && #[trigger] f[i] == (#[trigger] cs[c]).repo@ by {
            if i < fi.len() {
                assert(f[i] == fi[i]);
                let c = choose|c: int| 0 <= c < init.len() && #[trigger] fi[i] == (#[trigger] init[c]).repo@;
                assert(cs[c] == init[c]);
            } else {
                assert(f[i] == cs[cs.len() - 1].repo@);
            }
        }
        assert forall|c: int| 0 <= c < cs.len() implies #[trigger] f.contains((#[trigger] cs[c]).repo@) by {
            if c < cs.len() - 1 {
                assert(cs[c] == init[c]);
                assert(fi.contains(init[c].repo@));
                let i = choose|i: int| 0 <= i < fi.len() && fi[i] == init[c].repo@;
                assert(f[i] == fi[i]);
            } else {
                if !fi.contains(cs[c].repo@) {
                    assert(f[fi.len() as int] == cs[c].repo@);
                }
            }
        }
    }
}

/// `x` is one of the languages of the repositories `names`.
pub open spec fn language_of_names(
    names: Seq<Seq<char>>,
    repos: Seq<RepositoryNode>,
    excluded: Seq<Seq<char>>,
    x: Language,
) -> bool {
    exists|i: int, j: int|
        0 <= i < names.len() && 0 <= j < repo_languages(repos, excluded, names[i]).len() && x
            == #[trigger] repo_languages(repos, excluded, names[i])[j]
}

#[verifier::spinoff_prover]
proof fn lemma_entries_from_names(names: Seq<Seq<char>>, repos: Seq<RepositoryNode>, excluded: Seq<Seq<char>>)
    ensures
        forall|k: int|
            0 <= k < language_entries(names, repos, excluded).len() ==> language_of_names(
                names,
                repos,
                excluded,
                #[trigger] language_entries(names, repos, excluded)[k],
            ),
    decreases names.len(),
{
    if names.len() > 0 {
        let init = names.drop_last();
        lemma_entries_from_names(init, repos, excluded);
        let e = language_entries(names, repos, excluded);
        let ei = language_entries(init, repos, excluded);
        let n = names.len() - 1;
        let last = repo_languages(repos, excluded, names[n]);
        assert(names[n] == names.last());
        assert(e == ei + last);
        assert forall|k: int| 0 <= k < e.len() implies language_of_names(names, repos, excluded, #[trigger] e[k]) by {
            if k < ei.len() {
                assert(e[k] == ei[k]);
                assert(language_of_names(init, repos, excluded, ei[k]));
                let (i, j) = choose|i: int, j: int|
                    0 <= i < init.len() && 0 <= j < repo_languages(repos, excluded, init[i]).len()
                        && ei[k] == #[trigger] repo_languages(repos, excluded, init[i])[j];
                assert(init[i] == names[i]);
                assert(e[k] == repo_languages(repos, excluded, names[i])[j]);
            } else {
                assert(e[k] == repo_languages(repos, excluded, names[n])[k - ei.len()]);
            }
        }
    }
}

#[verifier::spinoff_prover]
proof fn lemma_names_in_entries(names: Seq<Seq<char>>, repos: Seq<RepositoryNode>, excluded: Seq<Seq<char>>)
    ensures
        forall|i: int, j: int|
            0 <= i < names.len() && 0 <= j < repo_languages(repos, excluded, names[i]).len()
                ==> language_entries(names, repos, excluded).contains(
                #[trigger] repo_languages(repos, excluded, names[i])[j],
            ),
    decreases names.len(),
{
    if names.len() > 0 {
        let init = names.drop_last();
        lemma_names_in_entries(init, repos, excluded);
        let e = language_entries(names, repos, excluded);
        let ei = language_entries(init, repos, excluded);
        let n = names.len() - 1;
        let last = repo_languages(repos, excluded, names[n]);
        assert(names[n] == names.last());
        assert(e == ei + last);
        assert forall|i: int, j: int|
            0 <= i < names.len() && 0 <= j < repo_languages(repos, excluded, names[i]).len()
                implies e.contains(#[trigger] repo_languages(repos, excluded, names[i])[j]) by {
            if i < n {
                assert(init[i] == names[i]);
                assert(ei.contains(repo_languages(repos, excluded, init[i])[j]));
                let k = choose|k: int| 0 <= k < ei.len() && ei[k] == repo_languages(repos, excluded, init[i])[j];
                assert(e[k] == ei[k]);
            } else {
                assert(e[ei.len() + j] == last[j]);
            }
        }
    }
}

/// The reported languages are exactly the languages of the repositories of
/// the `history_limit` newest commits, by name: each reported language is
/// one of them, and each of them is reported. A repository none of whose
/// commits is among the newest contributes nothing.
pub proof fn lemma_languages_come_from_newest_commits(
    data: ReposResponseData,
    username: Seq<char>,
    history_limit: usize,
)
    ensures
        forall|i: int|
            0 <= i < language_summary(data, username, history_limit).len() ==> exists|c: int, j: int|
                0 <= c < newest_commits(data, username, history_limit).len() && 0 <= j
                    < languages_of_repo(
                    data,
                    username,
                    newest_commits(data, username, history_limit)[c].repo@,
                ).len() && (#[trigger] language_summary(data, username, history_limit)[i]).name@
                    == (#[trigger] languages_of_repo(
                    data,
                    username,
                    newest_commits(data, username, history_limit)[c].repo@,
                )[j]).name@,
        forall|c: int, j: int|
            0 <= c < newest_commits(data, username, history_limit).len() && 0 <= j
                < languages_of_repo(
                data,
                username,
                newest_commits(data, username, history_limit)[c].repo@,
            ).len() ==> exists|i: int|
                0 <= i < language_summary(data, username, history_limit).len() && (
                #[trigger] language_summary(data, username, history_limit)[i]).name@ == (
                #[trigger] languages_of_repo(
                    data,
                    username,
                    newest_commits(data, username, history_limit)[c].repo@,
                )[j]).name@,
{
    assert forall|i: int| 0 <= i < language_summary(data, username, history_limit).len() implies exists|c: int, j: int|
        0 <= c < newest_commits(data, username, history_limit).len() && 0 <= j < languages_of_repo(
            data,
            username,
            newest_commits(data, username, history_limit)[c].repo@,
        ).len() && (#[trigger] language_summary(data, username, history_limit)[i]).name@ == (
        #[trigger] languages_of_repo(
            data,
            username,
            newest_commits(data, username, history_limit)[c].repo@,
        )[j]).name@ by {
        let (c, j) = lemma_summary_language_source(data, username, history_limit, i);
    }
    assert forall|c: int, j: int|
        0 <= c < newest_commits(data, username, history_limit).len() && 0 <= j < languages_of_repo(
            data,
            username,
            newest_commits(data, username, history_limit)[c].repo@,
        ).len() implies exists|i: int|
        0 <= i < language_summary(data, username, history_limit).len() && (
        #[trigger] language_summary(data, username, history_limit)[i]).name@ == (
        #[trigger] languages_of_repo(
            data,
            username,
            newest_commits(data, username, history_limit)[c].repo@,
        )[j]).name@ by {
        let i = lemma_newest_language_reported(data, username, history_limit, c, j);
    }
}

proof fn lemma_summary_language_source(
    data: ReposResponseData,
    username: Seq<char>,
    history_limit: usize,
    i: int,
) -> (cj: (int, int))
    requires
        0 <= i < language_summary(data, username, history_limit).len(),
    ensures
        0 <= cj.0 < newest_commits(data, username, history_limit).len(),
        0 <= cj.1 < languages_of_repo(
            data,
            username,
            newest_commits(data, username, history_limit)[cj.0].repo@,
        ).len(),
        language_summary(data, username, history_limit)[i].name@ == languages_of_repo(
            data,
            username,
            newest_commits(data, username, history_limit)[cj.0].repo@,
        )[cj.1].name@,
{
    let w = newest_commits(data, username, history_limit);
    let repos = repo_nodes(data);
    let ex = excluded_repo_names(username);
    let names = first_seen_repos(w);
    let entries = language_entries(names, repos, ex);
    let agg = aggregate_languages(entries);
    let sorted = sort_desc(agg, size_order());
    let summary = language_summary(data, username, history_limit);
    assert(summary == redistributed(sorted));
    assert(summary[i].name == sorted[i].name) by {
        lemma_redistribution_only_when_dominant(sorted);
    }
    let x = sorted[i];
    assert(agg.contains(x)) by {
        broadcast use vstd::seq_lib::to_multiset_contains;

        lemma_sort_desc(agg, size_order());
        assert(sorted.contains(x));
        assert(sorted.to_multiset().count(x) > 0);
    }
    let p = choose|p: int| 0 <= p < agg.len() && agg[p] == x;
    assert(exists|k: int| 0 <= k < entries.len() && (#[trigger] entries[k]).name@ == agg[p].name@) by {
        lemma_aggregate_names_distinct(entries);
        assert(exists|k: int| 0 <= k < entries.len() && (#[trigger] entries[k]).name@ == (#[trigger] agg[p]).name@);
    }
    let k = choose|k: int| 0 <= k < entries.len() && (#[trigger] entries[k]).name@ == agg[p].name@;
    assert(language_of_names(names, repos, ex, entries[k])) by {
        lemma_entries_from_names(names, repos, ex);
    }
    let (a, j) = choose|a: int, j: int|
        0 <= a < names.len() && 0 <= j < repo_languages(repos, ex, names[a]).len() && entries[k]
            == #[trigger] repo_languages(repos, ex, names[a])[j];
    assert(exists|c: int| 0 <= c < w.len() && names[a] == (#[trigger] w[c]).repo@) by {
        lemma_first_seen_repos(w);
        assert(exists|c: int| 0 <= c < w.len() && #[trigger] names[a] == (#[trigger] w[c]).repo@);
    }
    let c = choose|c: int| 0 <= c < w.len() && names[a] == (#[trigger] w[c]).repo@;
    (c, j)
}

proof fn lemma_newest_language_reported(
    data: ReposResponseData,
    username: Seq<char>,
    history_limit: usize,
    c: int,
    j: int,
) -> (i: int)
    requires
        0 <= c < newest_commits(data, username, history_limit).len(),
        0 <= j < languages_of_repo(
            data,
            username,
            newest_commits(data, username, history_limit)[c].repo@,
        ).len(),
    ensures
        0 <= i < language_summary(data, username, history_limit).len(),
        language_summary(data, username, history_limit)[i].name@ == languages_of_repo(
            data,
            username,
            newest_commits(data, username, history_limit)[c].repo@,
        )[j].name@,
{
    let w = newest_commits(data, username, history_limit);
    let repos = repo_nodes(data);
    let ex = excluded_repo_names(username);
    let names = first_seen_repos(w);
    let entries = language_entries(names, repos, ex);
    let agg = aggregate_languages(entries);
    let sorted = sort_desc(agg, size_order());
    let summary = language_summary(data, username, history_limit);
    assert(summary == redistributed(sorted));
    assert(names.contains(w[c].repo@)) by {
        lemma_first_seen_repos(w);
    }
    let a = choose|a: int| 0 <= a < names.len() && names[a] == w[c].repo@;
    assert(entries.contains(repo_languages(repos, ex, names[a])[j])) by {
        lemma_names_in_entries(names, repos, ex);
    }
    let k = choose|k: int| 0 <= k < entries.len() && entries[k] == repo_languages(repos, ex, names[a])[j];
    assert(exists|p: int| 0 <= p < agg.len() && (#[trigger] agg[p]).name@ == entries[k].name@) by {
        lemma_aggregate_names_distinct(entries);
        assert(exists|p: int| 0 <= p < agg.len() && (#[trigger] agg[p]).name@ == (#[trigger] entries[k]).name@);
    }
    let p = choose|p: int| 0 <= p < agg.len() && (#[trigger] agg[p]).name@ == entries[k].name@;
    assert(sorted.contains(agg[p])) by {
        broadcast use vstd::seq_lib::to_multiset_contains;

        lemma_sort_desc(agg, size_order());
        assert(agg.contains(agg[p]));
        assert(agg.to_multiset().count(agg[p]) > 0);
    }
    let i = choose|i: int| 0 <= i < sorted.len() && sorted[i] == agg[p];
    assert(summary[i].name == sorted[i].name && summary.len() == sorted.len()) by {
        lemma_redistribution_only_when_dominant(sorted);
    }
    i
}

/// Whether the sums of an answer fit in `usize` (see `commits_list_fits`),
/// so that `build_commits_list` may be called.
pub fn check_commits_list_fits(data: &ReposResponseData, username: &str, history_limit: usize) -> (r:
    bool)
    ensures
        r == commits_list_fits(*data, username@, history_limit),
{
    let empty: Vec<RepositoryNode> = Vec::new();
    let repos: &Vec<RepositoryNode> = match &data.user {
        Some(u) => match &u.repositories.nodes {
            Some(nodes) => nodes,
            None => &empty,
        },
        None => &empty,
    };
    assert(repos@ == repo_nodes(*data));
    let excluded = get_excluded_repos(username);
    assert(excluded@.map_values(|s: &str| s@) =~= excluded_repo_names(username@));
    let collected = collect_commits(repos, &excluded, username);
    let sorted = sort_commits(&collected);
    let n = sorted.len();
    let h: usize = if history_limit > 1 {
        history_limit
    } else {
        1
    };
    let count: usize = if n < h {
        n
    } else {
        h
    };
    let ghost stats = sorted@.take(count as int);
    assert(stats == stats_commits(*data, username@, history_limit));
    let mut additions: u128 = 0;
    let mut deletions: u128 = 0;
    let mut i: usize = 0;
    while i < count
        invariant
            count <= sorted@.len(),
            i <= count,
            stats == sorted@.take(count as int),
            stats == stats_commits(*data, username@, history_limit),
            additions == total_additions(stats.take(i as int)),
            deletions == total_deletions(stats.take(i as int)),
            additions <= usize::MAX,
            deletions <= usize::MAX,
        decreases count - i,
    {
        proof {
            assert(stats.take(i + 1).drop_last() =~= stats.take(i as int));
            assert(stats.take(i + 1).last() == sorted@[i as int]);
        }
        additions = additions + sorted[i].additions as u128;
        deletions = deletions + sorted[i].deletions as u128;
        if additions > usize::MAX as u128 || deletions > usize::MAX as u128 {
            proof {
                lemma_totals_prefix(stats, i + 1);
            }
            return false;
        }
        i = i + 1;
    }
    assert(stats.take(count as int) =~= stats);
    let entries = stats_languages(&sorted, count, repos, &excluded);
    assert(entries@ == stats_language_entries(*data, username@, history_limit));
    let mut total: u128 = 0;
    let m = entries.len();
    let mut k: usize = 0;
    while k < m
        invariant
            m == entries@.len(),
            entries@ == stats_language_entries(*data, username@, history_limit),
            k <= m,
            total == total_size(entries@.take(k as int)),
            total <= usize::MAX,
        decreases m - k,
    {
        proof {
            assert(entries@.take(k + 1).drop_last() =~= entries@.take(k as int));
        }
        total = total + entries[k].size as u128;
        if total > usize::MAX as u128 {
            proof {
                assert(entries@.take(k + 1) + entries@.skip(k + 1) =~= entries@);
                lemma_total_size_append(entries@.take(k + 1), entries@.skip(k + 1));
                assert(total_size(entries@) > usize::MAX);
            }
            return false;
        }
        k = k + 1;
    }
    assert(entries@.take(m as int) =~= entries@);
    true
}

} // verus!
