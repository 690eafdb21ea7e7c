//! Response headers, the response builder, and the request pipeline's
//! configuration.

use vstd::prelude::*;
use crate::decimal::{decimal_text, u64_text};
use crate::error::{AppError, error_code_text, join2};
use crate::config::{
    auth_token, parse_and_validate_query_params, resolve_auth, url_query_pairs, validated_params,
    AppConfig,
};
use crate::models::QueryParams;
use crate::text::{ascii_eq_ignore_case, eq_ignore_ascii_case};

verus! {

#[verifier::external_type_specification]
#[verifier::external_body]
pub struct ExJsonValue(serde_json::Value);

/// A header as (name, value) views.
pub open spec fn header_view(h: (String, String)) -> (Seq<char>, Seq<char>) {
    (h.0@, h.1@)
}

/// The headers of a list as views.
pub open spec fn headers_view(hs: Seq<(String, String)>) -> Seq<(Seq<char>, Seq<char>)> {
    hs.map_values(|h: (String, String)| header_view(h))
}

/// The CORS headers every response carries.
pub open spec fn cors_header_list() -> Seq<(Seq<char>, Seq<char>)> {
    seq![
        ("Access-Control-Allow-Origin"@, "*"@),
        ("Access-Control-Allow-Methods"@, "GET, OPTIONS"@),
        ("Access-Control-Allow-Headers"@, "Authorization, Content-Type"@),
        ("Access-Control-Max-Age"@, "86400"@),
    ]
}

fn header(name: &str, value: &str) -> (r: (String, String))
    ensures
        header_view(r) == (name@, value@),
{
    (String::from_str(name), String::from_str(value))
}

/// The CORS headers every response carries (the request id is added apart).
pub fn cors_headers() -> (r: Vec<(String, String)>)
    ensures
        headers_view(r@) == cors_header_list(),
{
    let mut v: Vec<(String, String)> = Vec::new();
    v.push(header("Access-Control-Allow-Origin", "*"));
    v.push(header("Access-Control-Allow-Methods", "GET, OPTIONS"));
    v.push(header("Access-Control-Allow-Headers", "Authorization, Content-Type"));
    v.push(header("Access-Control-Max-Age", "86400"));
    assert(headers_view(v@) =~= cors_header_list());
    v
}

/// The extra headers of an error response: its code, and for rate limiting
/// the seconds to wait.
pub open spec fn error_header_list(e: AppError) -> Seq<(Seq<char>, Seq<char>)> {
    match e {
        AppError::RateLimited(secs) => seq![
            ("X-Error-Code"@, error_code_text(e)),
            ("X-Retry-After"@, decimal_text(secs as nat)),
        ],
        _ => seq![("X-Error-Code"@, error_code_text(e))],
    }
}

/// The extra headers of an error response.
pub fn error_headers(err: &AppError) -> (r: Vec<(String, String)>)
    ensures
        headers_view(r@) == error_header_list(*err),
{
    let mut v: Vec<(String, String)> = Vec::new();
    v.push(header("X-Error-Code", err.error_code()));
    match err {
        AppError::RateLimited(secs) => {
            let n = u64_text(*secs);
            v.push(header("X-Retry-After", n.as_str()));
        },
        _ => {},
    }
    assert(headers_view(v@) =~= error_header_list(*err));
    v
}

/// The headers of a fresh answer: its GraphQL query cost and how long shared
/// caches may keep it.
pub open spec fn success_header_list(query_cost: u64, ttl_secs: u64) -> Seq<(Seq<char>, Seq<char>)> {
    seq![
        ("X-Query-Cost"@, decimal_text(query_cost as nat)),
        ("Cache-Control"@, "s-maxage="@ + decimal_text(ttl_secs as nat)),
    ]
}

/// The headers of a fresh answer.
pub fn success_headers(query_cost: u64, ttl_secs: u64) -> (r: Vec<(String, String)>)
    ensures
        headers_view(r@) == success_header_list(query_cost, ttl_secs),
{
    let mut v: Vec<(String, String)> = Vec::new();
    let cost = u64_text(query_cost);
    v.push(header("X-Query-Cost", cost.as_str()));
    let ttl = u64_text(ttl_secs);
    let control = join2("s-maxage=", ttl.as_str());
    v.push(header("Cache-Control", control.as_str()));
    assert(headers_view(v@) =~= success_header_list(query_cost, ttl_secs));
    v
}

/// Status and extra headers of a response about to be built.
pub struct ResponseBuilder {
    pub status: u16,
    pub extra_headers: Vec<(String, String)>,
}

impl ResponseBuilder {
    /// A 200 response with no extra headers.
    pub fn new() -> (r: Self)
        ensures
            r.status == 200,
            r.extra_headers@.len() == 0,
    {
        ResponseBuilder { status: 200, extra_headers: Vec::new() }
    }

    /// The same builder with another status.
    pub fn with_status(self, status: u16) -> (r: Self)
        ensures
            r.status == status,
            r.extra_headers@ == self.extra_headers@,
    {
        ResponseBuilder { status: status, extra_headers: self.extra_headers }
    }

    /// The same builder with one more header.
    pub fn with_header(self, key: &str, value: &str) -> (r: Self)
        ensures
            r.status == self.status,
            headers_view(r.extra_headers@) == headers_view(self.extra_headers@).push((key@, value@)),
    {
        let mut headers = self.extra_headers;
        let ghost before = headers@;
        headers.push(header(key, value));
        assert(headers_view(headers@) =~= headers_view(before).push((key@, value@)));
        ResponseBuilder { status: self.status, extra_headers: headers }
    }

    /// A response for tests: the status, the CORS headers and then the extra
    /// headers, and the data as body.
    pub fn into_test_response(self, data: &serde_json::Value) -> (r: TestResponse)
        ensures
            r.status == self.status,
            headers_view(r.headers@) == cors_header_list() + headers_view(self.extra_headers@),
            r.body == Some(*data),
    {
        let mut headers = cors_headers();
        let ghost first = headers@;
        let extra = self.extra_headers;
        let n = extra.len();
        let mut i: usize = 0;
        while i < n
            invariant
                n == extra@.len(),
                i <= n,
                headers_view(first) == cors_header_list(),
                headers_view(headers@) == headers_view(first) + headers_view(extra@.take(i as int)),
            decreases n - i,
        {
            let ghost before = headers@;
            headers.push((extra[i].0.clone(), extra[i].1.clone()));
            proof {
                assert(extra@.take(i + 1) =~= extra@.take(i as int).push(extra@[i as int]));
                assert(headers_view(headers@) =~= headers_view(before).push(header_view(extra@[i as int])));
                assert(headers_view(extra@.take(i + 1)) =~= headers_view(extra@.take(i as int)).push(
                    header_view(extra@[i as int]),
                ));
            }
            i = i + 1;
        }
        assert(extra@.take(n as int) =~= extra@);
        TestResponse { status: self.status, headers: headers, body: json_copy(data) }
    }
}

/// `serde_json::to_value` applied to a JSON value, as an `Option`. The
/// `Serialize` impl of `Value` hands each variant to the value serializer,
/// which builds the same variant again from the same parts, so the call
/// succeeds and gives back an equal value; that is what is claimed here.
#[verifier::external_body]
fn json_copy(v: &serde_json::Value) -> (r: Option<serde_json::Value>)
    ensures
        r == Some(*v),
{
    serde_json::to_value(v).ok()
}

/// A response as tests inspect it.
pub struct TestResponse {
    pub status: u16,
    pub headers: Vec<(String, String)>,
    pub body: Option<serde_json::Value>,
}

/// The value of the first header whose name matches `key` without regard
/// to ASCII case.
pub open spec fn first_header_value(headers: Seq<(Seq<char>, Seq<char>)>, key: Seq<char>) -> Option<
    Seq<char>,
>
    decreases headers.len(),
{
    if headers.len() == 0 {
        None
    } else if ascii_eq_ignore_case(headers[0].0, key) {
        Some(headers[0].1)
    } else {
        first_header_value(headers.drop_first(), key)
    }
}

impl TestResponse {
    /// The value of header `key` (see `first_header_value`).
    pub fn header_value(&self, key: &str) -> (r: Option<&str>)
        ensures
            match r {
                Some(v) => first_header_value(headers_view(self.headers@), key@) == Some(v@),
                None => first_header_value(headers_view(self.headers@), key@).is_none(),
            },
    {
        let ghost views = headers_view(self.headers@);
        let n = self.headers.len();
        let mut i: usize = 0;
        assert(views.skip(0) =~= views);
        while i < n
            invariant
                n == self.headers@.len(),
                views == headers_view(self.headers@),
                i <= n,
                first_header_value(views, key@) == first_header_value(views.skip(i as int), key@),
            decreases n - i,
        {
            proof {
                assert(views.skip(i as int).drop_first() =~= views.skip(i + 1));
                assert(views.skip(i as int)[0] == header_view(self.headers@[i as int]));
            }
            if eq_ignore_ascii_case(self.headers[i].0.as_str(), key) {
                return Some(self.headers[i].1.as_str());
            }
            i = i + 1;
        }
        None
    }

    /// The body, where there is one.
    pub fn body_json(&self) -> (r: Option<&serde_json::Value>)
        ensures
            match r {
                Some(b) => self.body == Some(*b),
                None => self.body.is_none(),
            },
    {
        match &self.body {
            Some(b) => Some(b),
            None => None,
        }
    }
}

/// How long answers may be kept in shared caches.
pub struct CachePolicy {
    pub ttl_secs: u64,
}

/// Fixed limits that an endpoint puts in place of the requested ones.
#[derive(Clone, Copy)]
pub struct ParamOverride {
    pub limit: usize,
    pub history_limit: usize,
}

/// How an endpoint runs through the pipeline.
pub struct EndpointConfig {
    pub cache: CachePolicy,
    pub param_override: Option<ParamOverride>,
}

/// What an endpoint's handler gets.
pub struct RequestContext {
    pub auth: crate::models::ResolvedAuth,
    pub params: QueryParams,
}

impl EndpointConfig {
    /// Puts the endpoint's fixed limits, if it has any, into `params`.
    pub fn apply_param_override(&self, params: &mut QueryParams)
        ensures
            final(params).username == old(params).username,
            match self.param_override {
                Some(o) => final(params).limit == o.limit && final(params).history_limit
                    == o.history_limit,
                None => final(params).limit == old(params).limit && final(params).history_limit
                    == old(params).history_limit,
            },
    {
        match self.param_override {
            Some(o) => {
                params.limit = o.limit;
                params.history_limit = o.history_limit;
            },
            None => {},
        }
    }
}

/// `/commits/latest`: five commits and five for the totals, kept 300 seconds.
pub fn v1_commits_endpoint() -> (r: EndpointConfig)
    ensures
        r.cache.ttl_secs == 300,
        r.param_override == Some(ParamOverride { limit: 5, history_limit: 5 }),
{
    EndpointConfig {
        cache: CachePolicy { ttl_secs: 300 },
        param_override: Some(ParamOverride { limit: 5, history_limit: 5 }),
    }
}

/// `/v2/commits/latest` and `/streak`: the requested limits, kept 300 seconds.
pub fn plain_endpoint() -> (r: EndpointConfig)
    ensures
        r.cache.ttl_secs == 300,
        r.param_override.is_none(),
{
    EndpointConfig { cache: CachePolicy { ttl_secs: 300 }, param_override: None }
}

/// The cache key of a request: its URL and the user it is served as.
pub fn pipeline_cache_key(url: &str, username: &str) -> (r: String)
    ensures
        r@ == url@ + ":user="@ + username@,
{
    let mut s = join2(url, ":user=");
    s.append(username);
    s
}

/// The query pairs of a request URL; a text that is not a URL has none.
pub open spec fn request_pairs(url: Seq<char>) -> Seq<(Seq<char>, Seq<char>)> {
    match url_query_pairs(url) {
        Some(p) => p,
        None => seq![],
    }
}

/// The view of an optional header value.
pub open spec fn header_text(h: Option<String>) -> Option<Seq<char>> {
    match h {
        Some(x) => Some(x@),
        None => None,
    }
}

/// The steps of a request before its handler runs, in order: the query
/// parameters are validated, the endpoint's fixed limits put in, the
/// `Authorization` header (as read, or the error of reading it) resolved to a
/// token for the user, and the cache key formed from the URL and the user.
/// The first step that fails gives the error.
pub fn prepare_request(
    config: &AppConfig,
    url: &str,
    endpoint: &EndpointConfig,
    authorization: Result<Option<String>, AppError>,
) -> (r: Result<(RequestContext, String), AppError>)
    ensures
        match validated_params(request_pairs(url@)) {
            Err((f, m)) => r matches Err(AppError::ValidationError(ef, em)) && ef@ == f && em@ == m,
            Ok((u, l, h)) => match authorization {
                Err(e) => r == Err::<(RequestContext, String), AppError>(e),
                Ok(hdr) => match auth_token(
                    config.github_token@,
                    config.whitelist@.map_values(|s: String| s@),
                    u,
                    header_text(hdr),
                ) {
                    Err(m) => r matches Err(AppError::Unauthorized(e)) && e@ == m,
                    Ok(t) => r matches Ok((ctx, key)) && ctx.auth.username@ == u && ctx.auth.token@ == t
                        && ctx.params.username@ == u && ctx.params.limit == (
                    match endpoint.param_override {
                        Some(o) => o.limit,
                        None => l,
                    }) && ctx.params.history_limit == (match endpoint.param_override {
                        Some(o) => o.history_limit,
                        None => h,
                    }) && key@ == url@ + ":user="@ + u,
                },
            },
        },
{
    let mut params = match parse_and_validate_query_params(url) {
        Ok(p) => p,
        Err(e) => return Err(e),
    };
    endpoint.apply_param_override(&mut params);
    let header = match authorization {
        Ok(h) => h,
        Err(e) => return Err(e),
    };
    let header_value: Option<&str> = match &header {
        Some(x) => Some(x.as_str()),
        None => None,
    };
    let auth = match resolve_auth(config, params.username.as_str(), header_value) {
        Ok(a) => a,
        Err(e) => return Err(e),
    };
    let key = pipeline_cache_key(url, auth.username.as_str());
    Ok((RequestContext { auth, params }, key))
}

/// The URL under which the scheduled job warms the cache for a user.
pub fn warm_cache_url(username: &str) -> (r: String)
    ensures
        r@ == "https://iceberg.penqguin.com/v2/commits/latest?username="@ + username@,
{
    join2("https://iceberg.penqguin.com/v2/commits/latest?username=", username)
}

/// The cache key the scheduled job warms for a user: the key that a request
/// to the warm-up URL, served as that user, is stored under.
pub fn warm_cache_key(username: &str) -> (r: String)
    ensures
        r@ == "https://iceberg.penqguin.com/v2/commits/latest?username="@ + username@ + ":user="@
            + username@,
{
    let url = warm_cache_url(username);
    pipeline_cache_key(url.as_str(), username)
}

} // verus!
