//! Configuration, query-parameter validation and authentication.

use vstd::prelude::*;
use crate::decimal::{parse_usize, parsed_usize};
use crate::error::{AppError, token_required_text};
use crate::models::{QueryParams, ResolvedAuth};
use crate::text::{
    equal, split, split_text, starts_with, starts_with_text, to_lowercase, trim, trim_text,
    unicode_lowercase,
};

verus! {

/// The users served with the system token when no list is configured.
pub const DEFAULT_WHITELIST: &'static str = "penqguin";

/// The system token and the users it is used for.
pub struct AppConfig {
    pub github_token: String,
    pub whitelist: Vec<String>,
}

/// The entries of a comma-separated whitelist: each piece trimmed and
/// lower-cased, empty ones left out.
pub open spec fn whitelist_entries(pieces: Seq<Seq<char>>) -> Seq<Seq<char>>
    decreases pieces.len(),
{
    if pieces.len() == 0 {
        seq![]
    } else {
        let init = whitelist_entries(pieces.drop_last());
        let e = unicode_lowercase(trim_text(pieces.last()));
        if e.len() == 0 {
            init
        } else {
            init.push(e)
        }
    }
}

/// Reads a comma-separated whitelist.
pub fn parse_whitelist(text: &str) -> (r: Vec<String>)
    ensures
        r@.map_values(|s: String| s@) == whitelist_entries(split_text(text@, ',')),
{
    let pieces = split(text, ',');
    let ghost views = pieces@.map_values(|s: String| s@);
    assert(views =~= split_text(text@, ','));
    let mut out: Vec<String> = Vec::new();
    let n = pieces.len();
    let mut i: usize = 0;
    while i < n
        invariant
            n == pieces@.len(),
            views == pieces@.map_values(|s: String| s@),
            i <= n,
            out@.map_values(|s: String| s@) == whitelist_entries(views.take(i as int)),
        decreases n - i,
    {
        let e = to_lowercase(trim(pieces[i].as_str()));
        proof {
            assert(views.take(i + 1).drop_last() =~= views.take(i as int));
            assert(views.take(i + 1).last() == pieces@[i as int]@);
        }
        if e.unicode_len() > 0 {
            let ghost before = out@;
            out.push(e);
            assert(out@.map_values(|s: String| s@) =~= before.map_values(|s: String| s@).push(e@));
        }
        i = i + 1;
    }
    assert(views.take(n as int) =~= views);
    out
}

/// The configuration from the `GITHUB_TOKEN` and `WHITELIST` settings: an
/// internal error without a token; the default whitelist without a list.
pub fn get_config(github_token: Option<String>, whitelist: Option<String>) -> (r: Result<
    AppConfig,
    AppError,
>)
    ensures
        github_token.is_none() ==> (r matches Err(AppError::Internal(m)) && m@
            == "System GITHUB_TOKEN is not configured"@),
        github_token matches Some(t) ==> (r matches Ok(c) && c.github_token@ == t@
            && c.whitelist@.map_values(|s: String| s@) == whitelist_entries(
            split_text(
                match whitelist {
                    Some(w) => w@,
                    None => DEFAULT_WHITELIST@,
                },
                ',',
            ),
        )),
{
    let token = match github_token {
        Some(t) => t,
        None => {
            return Err(AppError::Internal(String::from_str("System GITHUB_TOKEN is not configured")));
        },
    };
    let list = match &whitelist {
        Some(w) => parse_whitelist(w.as_str()),
        None => parse_whitelist(DEFAULT_WHITELIST),
    };
    Ok(AppConfig { github_token: token, whitelist: list })
}

/// What `url::Url::parse` and `Url::query_pairs` give for a URL: its query
/// decoded into (name, value) pairs, in order; nothing where the text is not
/// a URL.
pub uninterp spec fn url_query_pairs(url: Seq<char>) -> Option<Seq<(Seq<char>, Seq<char>)>>;

/// `url::Url::parse` and then `Url::query_pairs`, taken as owned strings.
/// The contract names the result: the same URL always gives the same pairs.
#[verifier::external_body]
pub fn query_pairs_of(url: &str) -> (r: Option<Vec<(String, String)>>)
    ensures
        match r {
            Some(v) => url_query_pairs(url@) == Some(
                v@.map_values(|p: (String, String)| (p.0@, p.1@)),
            ),
            None => url_query_pairs(url@).is_none(),
        },
{
    match url::Url::parse(url) {
        Ok(u) => Some(u.query_pairs().into_owned().collect()),
        Err(_) => None,
    }
}

/// A character allowed in a GitHub user name: an ASCII letter or digit, or `-`.
pub open spec fn is_username_char(c: char) -> bool {
    ('a' <= c && c <= 'z') || ('A' <= c && c <= 'Z') || ('0' <= c && c <= '9') || c == '-'
}

/// The text matches `^[a-zA-Z0-9\-]+$`.
pub open spec fn username_pattern(s: Seq<char>) -> bool {
    s.len() > 0 && forall|i: int| 0 <= i < s.len() ==> is_username_char(#[trigger] s[i])
}

/// `regex::Regex::new(r"^[a-zA-Z0-9\-]+$")` and `Regex::is_match`. The
/// contract claims what the pattern means by the crate's documentation: one
/// or more characters, each an ASCII letter, digit or `-`, from the start of
/// the text to its end.
#[verifier::external_body]
pub fn matches_username_pattern(s: &str) -> (r: bool)
    ensures
        r == username_pattern(s@),
{
    match regex::Regex::new(r"^[a-zA-Z0-9\-]+$") {
        Ok(re) => re.is_match(s),
        Err(_) => false,
    }
}

/// The value given last for parameter `key`, as a map built from the pairs
/// in order would hold it.
pub open spec fn query_lookup(pairs: Seq<(Seq<char>, Seq<char>)>, key: Seq<char>) -> Option<
    Seq<char>,
>
    decreases pairs.len(),
{
    if pairs.len() == 0 {
        None
    } else if pairs.last().0 == key {
        Some(pairs.last().1)
    } else {
        query_lookup(pairs.drop_last(), key)
    }
}

/// Largest `limit` accepted.
pub const MAX_LIMIT: usize = 50;

/// Largest `history_limit` accepted.
pub const MAX_HISTORY_LIMIT: usize = 20;

/// The parameters a query asks for, or the field and reason of the first
/// validation failure: `username` is required, trimmed, and must match
/// `^[a-zA-Z0-9\-]+$`; `limit` (default 10) must be a number from 1 to 50;
/// `history_limit` (default 5) a number from 1 to 20.
pub open spec fn validated_params(pairs: Seq<(Seq<char>, Seq<char>)>) -> Result<
    (Seq<char>, usize, usize),
    (Seq<char>, Seq<char>),
> {
    let raw = query_lookup(pairs, "username"@);
    let username = match raw {
        Some(u) => trim_text(u),
        None => seq![],
    };
    if username.len() == 0 {
        Err(("username"@, "is required"@))
    } else if !username_pattern(username) {
        Err(("username"@, "contains invalid characters"@))
    } else {
        let limit = match query_lookup(pairs, "limit"@) {
            Some(v) => parsed_usize(v),
            None => Some(10usize),
        };
        match limit {
            None => Err(("limit"@, "must be a number"@)),
            Some(l) => if l == 0 || l > MAX_LIMIT {
                Err(("limit"@, "must be between 1 and 50"@))
            } else {
                let history = match query_lookup(pairs, "history_limit"@) {
                    Some(v) => parsed_usize(v),
                    None => Some(5usize),
                };
                match history {
                    None => Err(("history_limit"@, "must be a number"@)),
                    Some(h) => if h == 0 || h > MAX_HISTORY_LIMIT {
                        Err(("history_limit"@, "must be between 1 and 20"@))
                    } else {
                        Ok((username, l, h))
                    },
                }
            },
        }
    }
}

/// Validated parameters keep to their bounds: a non-empty user name of ASCII
/// letters, digits and `-`, a `limit` from 1 to 50 and a `history_limit`
/// from 1 to 20.
pub proof fn lemma_validated_params_in_bounds(pairs: Seq<(Seq<char>, Seq<char>)>)
    ensures
        validated_params(pairs) matches Ok((u, l, h)) ==> username_pattern(u) && 1 <= l <= 50 && 1
            <= h <= 20,
{
}

fn lookup_pair<'a>(pairs: &'a Vec<(String, String)>, key: &str) -> (r: Option<&'a String>)
    ensures
        match r {
            Some(v) => query_lookup(pairs@.map_values(|p: (String, String)| (p.0@, p.1@)), key@)
                == Some(v@),
            None => query_lookup(pairs@.map_values(|p: (String, String)| (p.0@, p.1@)), key@).is_none(),
        },
{
    let ghost views = pairs@.map_values(|p: (String, String)| (p.0@, p.1@));
    let mut i: usize = pairs.len();
    assert(views.take(i as int) =~= views);
    while i > 0
        invariant
            i <= pairs@.len(),
            views == pairs@.map_values(|p: (String, String)| (p.0@, p.1@)),
            query_lookup(views, key@) == query_lookup(views.take(i as int), key@),
        decreases i,
    {
        proof {
            assert(views.take(i as int).drop_last() =~= views.take(i - 1));
            assert(views.take(i as int).last() == views[i - 1]);
        }
        if equal(pairs[i - 1].0.as_str(), key) {
            return Some(&pairs[i - 1].1);
        }
        i = i - 1;
    }
    None
}

fn validation_error(field: &str, reason: &str) -> (r: AppError)
    ensures
        r matches AppError::ValidationError(f, m) && f@ == field@ && m@ == reason@,
{
    AppError::ValidationError(String::from_str(field), String::from_str(reason))
}

/// Validates decoded query pairs (see `validated_params`).
pub fn validate_query_pairs(pairs: &Vec<(String, String)>) -> (r: Result<QueryParams, AppError>)
    ensures
        match validated_params(pairs@.map_values(|p: (String, String)| (p.0@, p.1@))) {
            Ok((u, l, h)) => r matches Ok(p) && p.username@ == u && p.limit == l && p.history_limit
                == h,
            Err((f, m)) => r matches Err(AppError::ValidationError(ef, em)) && ef@ == f && em@ == m,
        },
{
    proof {
        reveal_strlit("");
    }
    let username = match lookup_pair(pairs, "username") {
        Some(u) => trim(u.as_str()),
        None => "",
    };
    if username.unicode_len() == 0 {
        return Err(validation_error("username", "is required"));
    }
    if !matches_username_pattern(username) {
        return Err(validation_error("username", "contains invalid characters"));
    }
    let limit: usize = match lookup_pair(pairs, "limit") {
        Some(v) => match parse_usize(v.as_str()) {
            Some(l) => l,
            None => {
                return Err(validation_error("limit", "must be a number"));
            },
        },
        None => 10,
    };
    if limit == 0 || limit > MAX_LIMIT {
        return Err(validation_error("limit", "must be between 1 and 50"));
    }
    let history_limit: usize = match lookup_pair(pairs, "history_limit") {
        Some(v) => match parse_usize(v.as_str()) {
            Some(h) => h,
            None => {
                return Err(validation_error("history_limit", "must be a number"));
            },
        },
        None => 5,
    };
    if history_limit == 0 || history_limit > MAX_HISTORY_LIMIT {
        return Err(validation_error("history_limit", "must be between 1 and 20"));
    }
    Ok(QueryParams { username: String::from_str(username), limit, history_limit })
}

/// The parameters of a request URL, validated (see `validated_params`); a
/// text that is not a URL counts as one without parameters.
pub fn parse_and_validate_query_params(url: &str) -> (r: Result<QueryParams, AppError>)
    ensures
        match validated_params(
            match url_query_pairs(url@) {
                Some(p) => p,
                None => seq![],
            },
        ) {
            Ok((u, l, h)) => r matches Ok(p) && p.username@ == u && p.limit == l && p.history_limit
                == h,
            Err((f, m)) => r matches Err(AppError::ValidationError(ef, em)) && ef@ == f && em@ == m,
        },
{
    match query_pairs_of(url) {
        Some(pairs) => validate_query_pairs(&pairs),
        None => {
            let none: Vec<(String, String)> = Vec::new();
            assert(none@.map_values(|p: (String, String)| (p.0@, p.1@)) =~= seq![]);
            validate_query_pairs(&none)
        },
    }
}

/// Who a request is served as, and with which token: whitelisted users (by
/// lower-cased name) get the system token; others must send a token in the
/// `Authorization` header, with or without a `Bearer ` prefix.
pub open spec fn auth_token(
    github_token: Seq<char>,
    whitelist: Seq<Seq<char>>,
    username: Seq<char>,
    authorization: Option<Seq<char>>,
) -> Result<Seq<char>, Seq<char>> {
    if whitelist.contains(unicode_lowercase(username)) {
        Ok(github_token)
    } else {
        match authorization {
            None => Err(token_required_text()),
            Some(h) => {
                let t = trim_text(
                    if starts_with_text(h, "Bearer "@) {
                        h.skip(7)
                    } else {
                        h
                    },
                );
                if t.len() == 0 {
                    Err("Invalid GitHub Personal Access Token"@)
                } else {
                    Ok(t)
                }
            },
        }
    }
}

/// A user whose lower-cased name is whitelisted is always served with the
/// system token, whatever `Authorization` header comes with the request (or
/// none); anyone else sending no header is refused.
pub proof fn lemma_whitelisted_users_get_system_token(
    github_token: Seq<char>,
    whitelist: Seq<Seq<char>>,
    username: Seq<char>,
    authorization: Option<Seq<char>>,
    other: Option<Seq<char>>,
)
    ensures
        whitelist.contains(unicode_lowercase(username)) ==> auth_token(
            github_token,
            whitelist,
            username,
            authorization,
        ) == Ok::<Seq<char>, Seq<char>>(github_token),
        whitelist.contains(unicode_lowercase(username)) ==> auth_token(
            github_token,
            whitelist,
            username,
            authorization,
        ) == auth_token(github_token, whitelist, username, other),
        !whitelist.contains(unicode_lowercase(username)) ==> auth_token(
            github_token,
            whitelist,
            username,
            None,
        ) is Err,
{
}

/// For a user who is not whitelisted, a `Bearer ` prefix on the header
/// makes no difference, and a token that is granted is never empty.
pub proof fn lemma_bearer_prefix_is_optional(
    github_token: Seq<char>,
    whitelist: Seq<Seq<char>>,
    username: Seq<char>,
    token: Seq<char>,
)
    ensures
        !whitelist.contains(unicode_lowercase(username)) && !starts_with_text(token, "Bearer "@)
            ==> auth_token(github_token, whitelist, username, Some("Bearer "@ + token)) == auth_token(
            github_token,
            whitelist,
            username,
            Some(token),
        ),
        !whitelist.contains(unicode_lowercase(username)) ==> (auth_token(
            github_token,
            whitelist,
            username,
            Some(token),
        ) matches Ok(t) ==> t.len() > 0),
{
    let h = "Bearer "@ + token;
    reveal_strlit("Bearer ");
    assert(h.subrange(0, 7) =~= "Bearer "@);
    assert(h.skip(7) =~= token);
}

fn whitelist_contains(whitelist: &Vec<String>, name: &str) -> (r: bool)
    ensures
        r == whitelist@.map_values(|s: String| s@).contains(name@),
{
    let ghost views = whitelist@.map_values(|s: String| s@);
    let n = whitelist.len();
    let mut i: usize = 0;
    while i < n
        invariant
            n == whitelist@.len(),
            views == whitelist@.map_values(|s: String| s@),
            i <= n,
            forall|k: int| 0 <= k < i ==> #[trigger] views[k] != name@,
        decreases n - i,
    {
        if equal(whitelist[i].as_str(), name) {
            assert(views[i as int] == name@);
            return true;
        }
        i = i + 1;
    }
    false
}

/// Resolves the token for `username` (see `auth_token`); a missing or empty
/// token is unauthorized.
pub fn resolve_auth(config: &AppConfig, username: &str, authorization: Option<&str>) -> (r: Result<
    ResolvedAuth,
    AppError,
>)
    ensures
        match auth_token(
            config.github_token@,
            config.whitelist@.map_values(|s: String| s@),
            username@,
            match authorization {
                Some(h) => Some(h@),
                None => None,
            },
        ) {
            Ok(t) => r matches Ok(a) && a.username@ == username@ && a.token@ == t,
            Err(m) => r matches Err(AppError::Unauthorized(e)) && e@ == m,
        },
        config.whitelist@.map_values(|s: String| s@).contains(unicode_lowercase(username@))
            ==> (r matches Ok(a) && a.username@ == username@ && a.token@ == config.github_token@),
        !config.whitelist@.map_values(|s: String| s@).contains(unicode_lowercase(username@))
            && authorization is None ==> r is Err,
{
    let lowered = to_lowercase(username);
    if whitelist_contains(&config.whitelist, lowered.as_str()) {
        return Ok(
            ResolvedAuth { username: String::from_str(username), token: config.github_token.clone() },
        );
    }
    let header = match authorization {
        Some(h) => h,
        None => {
            return Err(
                AppError::Unauthorized(
                    String::from_str(
                        "GitHub Personal Access Token required for non-whitelisted users",
                    ),
                ),
            );
        },
    };
    proof {
        reveal_strlit("Bearer ");
    }
    let raw = if starts_with(header, "Bearer ") {
        header.substring_char(7, header.unicode_len())
    } else {
        header
    };
    proof {
        if starts_with_text(header@, "Bearer "@) {
            assert(header@.subrange(7, header@.len() as int) =~= header@.skip(7));
        }
    }
    let token = trim(raw);
    if token.unicode_len() == 0 {
        return Err(AppError::Unauthorized(String::from_str("Invalid GitHub Personal Access Token")));
    }
    Ok(ResolvedAuth { username: String::from_str(username), token: String::from_str(token) })
}

} // verus!
