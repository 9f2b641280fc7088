use gateway_core::dispatch::get_query_param;
use gateway_core::rules::CompiledRegex;
use gateway_core::rules::GatewayMatchRule;
use gateway_core::text::parse_host_port;
use gateway_core::text::str_eq;
use gateway_core::text::str_starts_with;

#[test]
fn test_gateway_match_rule() {
    let rule_starts_with = GatewayMatchRule::PathStartsWith("/api".to_string());
    let rule_regex = GatewayMatchRule::PathRegex(CompiledRegex::compile(r"^/user/\d+$").unwrap());

    let path1 = "/api/v1/resource";
    let path2 = "/user/123";

    assert!(rule_starts_with.matches_path(path1));
    assert!(rule_regex.matches_path(path2));
}

#[test]
fn match_rule_rejects_other_paths() {
    let rule_starts_with = GatewayMatchRule::PathStartsWith("/api".to_string());
    let rule_regex = GatewayMatchRule::PathRegex(CompiledRegex::compile(r"^/user/\d+$").unwrap());
    assert!(!rule_starts_with.matches_path("/app/v1"));
    assert!(!rule_regex.matches_path("/user/alice"));
}

#[test]
fn regex_compile_rejects_invalid_pattern() {
    assert!(CompiledRegex::compile("foo(bar").is_none());
    assert!(CompiledRegex::compile("^/admin").is_some());
}

#[test]
fn regex_replace_rewrites_leftmost_match() {
    let re = CompiledRegex::compile("^/admin").unwrap();
    assert_eq!(re.replace("/admin/status", ""), "/status");
    assert!(re.is_match("/admin/status"));
    assert!(!re.is_match("/status"));
}

#[test]
fn rewrite_idempotent_when_result_no_longer_matches() {
    let re = CompiledRegex::compile("^/admin").unwrap();
    let once = re.replace("/admin/status", "");
    assert_eq!(once, "/status");
    // The rewritten path no longer matches, so a second pass is a no-op.
    assert!(!re.is_match(&once));
    // A path whose rewritten form still matches is rewritten further.
    let twice_matching = re.replace("/admin/admin/x", "");
    assert_eq!(twice_matching, "/admin/x");
    assert!(re.is_match(&twice_matching));
    assert_eq!(re.replace(&twice_matching, ""), "/x");
}

#[test]
fn str_helpers_compare_by_characters() {
    assert!(str_eq("abc", "abc"));
    assert!(!str_eq("abc", "abd"));
    assert!(!str_eq("abc", "abcd"));
    assert!(str_starts_with("/api/v1", "/api"));
    assert!(!str_starts_with("/ap", "/api"));
}

#[test]
fn parse_host_port_splits_at_last_colon() {
    let (host, port) = parse_host_port("10.0.0.1:8080").unwrap();
    assert_eq!(host, "10.0.0.1");
    assert_eq!(port, 8080);
    let (host, port) = parse_host_port("192.168.1.10:32100").unwrap();
    assert_eq!(host, "192.168.1.10");
    assert_eq!(port, 32100);
}

#[test]
fn parse_host_port_rejects_malformed_addresses() {
    assert!(parse_host_port("10.0.0.1").is_none());
    assert!(parse_host_port(":8080").is_none());
    assert!(parse_host_port("host:").is_none());
    assert!(parse_host_port("host:12ab").is_none());
    assert!(parse_host_port("host:65536").is_none());
    assert!(parse_host_port("host:65535").is_some());
    assert!(parse_host_port("host:000080").is_some());
}

#[test]
fn query_param_is_percent_decoded() {
    assert_eq!(
        get_query_param("a=b&x-gateway-ext=red%21", "x-gateway-ext"),
        Some("red!".to_string())
    );
    assert_eq!(get_query_param("a=b", "x-gateway-ext"), None);
    // The first binding of a repeated name wins.
    assert_eq!(get_query_param("k=1&k=2", "k"), Some("1".to_string()));
}
