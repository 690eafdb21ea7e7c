use iceberg::config::parse_and_validate_query_params;
use iceberg::models::QueryParams;
use iceberg::response::{CachePolicy, EndpointConfig, ParamOverride, ResponseBuilder, TestResponse};

fn check_status(tr: &TestResponse, expected: u16) {
    assert_eq!(tr.status, expected, "expected status {}, got {}", expected, tr.status);
}

fn check_header(tr: &TestResponse, key: &str, expected: &str) {
    assert_eq!(tr.header_value(key), Some(expected), "expected header {} = {}", key, expected);
}

fn json_object(pairs: Vec<(&str, serde_json::Value)>) -> serde_json::Value {
    let mut map = serde_json::Map::new();
    for (k, v) in pairs {
        map.insert(k.to_string(), v);
    }
    serde_json::Value::Object(map)
}

#[test]
fn test_parse_and_validate_query_params_valid() {
    let url = "https://api.example.com/v2/commits/latest?username=test-user&limit=20&history_limit=10";
    let params = parse_and_validate_query_params(url).unwrap();
    assert_eq!(params.username, "test-user");
    assert_eq!(params.limit, 20);
    assert_eq!(params.history_limit, 10);
}

#[test]
fn test_parse_and_validate_query_params_invalid_username() {
    let url = "https://api.example.com/v2/commits/latest?username=test_user";
    let result = parse_and_validate_query_params(url);
    assert!(result.is_err());
}

#[test]
fn test_parse_and_validate_query_params_out_of_bounds() {
    let url = "https://api.example.com/v2/commits/latest?username=test&limit=100";
    let result = parse_and_validate_query_params(url);
    assert!(result.is_err());
}

#[test]
fn test_response_builder_success() {
    let data = json_object(vec![("status", serde_json::Value::String("ok".to_string()))]);
    let tr = ResponseBuilder::new()
        .with_status(200)
        .with_header("X-Custom", "value")
        .into_test_response(&data);

    check_status(&tr, 200);
    check_header(&tr, "Access-Control-Allow-Origin", "*");
    check_header(&tr, "X-Custom", "value");
    assert_eq!(tr.body_json(), Some(&data));
}

#[test]
fn test_response_builder_with_extra_headers() {
    let data = json_object(vec![("key", serde_json::Value::from(42))]);
    let tr = ResponseBuilder::new()
        .with_header("X-Query-Cost", "5")
        .with_header("Cache-Control", "s-maxage=300")
        .into_test_response(&data);

    check_header(&tr, "X-Query-Cost", "5");
    check_header(&tr, "Cache-Control", "s-maxage=300");
    check_header(&tr, "Access-Control-Allow-Origin", "*");
}

#[test]
fn test_endpoint_config_param_override() {
    let mut params = QueryParams { username: "test".into(), limit: 10, history_limit: 10 };

    let endpoint = EndpointConfig {
        cache: CachePolicy { ttl_secs: 300 },
        param_override: Some(ParamOverride { limit: 5, history_limit: 5 }),
    };

    endpoint.apply_param_override(&mut params);

    assert_eq!(params.limit, 5);
    assert_eq!(params.history_limit, 5);
}
