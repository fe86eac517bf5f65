use surt_rs::generate_surt;
use surt_rs::normalize_surt;
use surt_rs::normalize_url;
use surt_rs::ParsedUrl;
use surt_rs::SurtError;

#[test]
fn test_generate_surt_with_valid_url() {
    let url = "http://example.com/path?query=value#fragment";
    let expected = "com,example)/path?query=value#fragment";
    assert_eq!(generate_surt(url).unwrap(), expected);
}

#[test]
fn test_generate_surt_with_url_without_scheme() {
    let url = "example.com";
    assert!(generate_surt(url).is_err());
}

#[test]
fn test_generate_surt_with_relative_url() {
    let url = "/path";
    assert!(generate_surt(url).is_err());
}

#[test]
fn test_generate_surt_with_url_without_host() {
    let url = "http://";
    assert!(generate_surt(url).is_err());
}

#[test]
fn test_generate_surt_with_url_with_port() {
    let url = "http://example.com:8080";
    let expected = "com,example:8080)/";
    assert_eq!(generate_surt(url).unwrap(), expected);
}

#[test]
fn test_generate_surt_with_url_with_query() {
    let url = "http://example.com?query=value";
    let expected = "com,example)/?query=value";
    assert_eq!(generate_surt(url).unwrap(), expected);
}

#[test]
fn test_generate_surt_with_url_with_query_and_trailing_slash_after_path() {
    let url = "http://example.com/foo/bar/?query=value";
    let expected = "com,example)/foo/bar?query=value";
    assert_eq!(generate_surt(url).unwrap(), expected);
}

#[test]
fn test_generate_surt_with_url_with_fragment() {
    let url = "http://example.com#fragment";
    let expected = "com,example)/#fragment";
    assert_eq!(generate_surt(url).unwrap(), expected);
}

#[test]
fn test_generate_surt_with_url_with_uppercase() {
    let url = "http://EXAMPLE.COM/PATH?QUERY=VALUE#FRAGMENT";
    let expected = "com,example)/path?query=value#fragment";
    assert_eq!(generate_surt(url).unwrap(), expected);
}

#[test]
fn test_generate_surt_with_url_with_space() {
    let url = "http://example.com/path with space";
    let expected = "com,example)/path%20with%20space";
    assert_eq!(generate_surt(url).unwrap(), expected);
}

#[test]
fn test_generate_surt_with_url_with_trailing_slash() {
    let url = "http://example.com/";
    let expected = "com,example)/";
    assert_eq!(generate_surt(url).unwrap(), expected);
}

#[test]
fn test_generate_surt_with_url_with_trailing_slash_after_path() {
    let url = "http://example.com/foo/bar/";
    let expected = "com,example)/foo/bar";
    assert_eq!(generate_surt(url).unwrap(), expected);
}

#[test]
fn test_generate_surt_with_url_with_www_subdomain() {
    let url = "http://www.example.com";
    let expected = "com,example)/";
    assert_eq!(generate_surt(url).unwrap(), expected);
}

#[test]
fn test_generate_surt_with_ftp_url() {
    let url = "ftp://www.example.com";
    assert!(generate_surt(url).is_err());
}

#[test]
fn test_normalize_url_with_www_subdomain_and_https() {
    let url = "https://www.example.com";
    let expected = "https://example.com/";
    assert_eq!(normalize_url(url).unwrap(), expected);
}

#[test]
fn test_normalize_surt_root_with_trailing_slash() {
    let url = "com,example)/";
    let expected = "com,example)/";
    assert_eq!(normalize_surt(url), expected);
}

#[test]
fn test_normalize_surt_with_trailing_slash() {
    let url = "com,example)/foo/bar/";
    let expected = "com,example)/foo/bar";
    assert_eq!(normalize_surt(url), expected);
}

#[test]
fn test_generate_surt_is_repeatable() {
    let url = "http://www.example.com/a/b/?z=1&a=2#Frag";
    let first = generate_surt(url);
    let second = generate_surt(url);
    assert_eq!(first, second);
    assert_eq!(first.unwrap(), "com,example)/a/b?a=2&z=1#frag");
}

#[test]
fn test_generate_surt_query_order_independent() {
    let a = generate_surt("http://example.com/p?b=2&a=1&c=3").unwrap();
    let b = generate_surt("http://example.com/p?c=3&a=1&b=2").unwrap();
    let c = generate_surt("http://example.com/p?a=1&b=2&c=3").unwrap();
    assert_eq!(a, "com,example)/p?a=1&b=2&c=3");
    assert_eq!(a, b);
    assert_eq!(a, c);
}

#[test]
fn test_generate_surt_strips_sid() {
    let url = "http://example.com/?sid=0123456789abcdef&a=1";
    let expected = "com,example)/?a=1";
    assert_eq!(generate_surt(url).unwrap(), expected);
}

#[test]
fn test_generate_surt_strips_jsessionid() {
    let url = "http://example.com/p?jsessionid=abcdefgh$9&x=2";
    let expected = "com,example)/p?x=2";
    assert_eq!(generate_surt(url).unwrap(), expected);
}

#[test]
fn test_generate_surt_strips_phpsessid() {
    let url = "http://example.com/?phpsessid=0123456789abcdef";
    let expected = "com,example)/";
    assert_eq!(generate_surt(url).unwrap(), expected);
}

#[test]
fn test_generate_surt_strips_aspsessionid() {
    let url = "http://example.com/?aspsessionidabcdefgh=0123456789abcdef&x=1";
    let expected = "com,example)/?x=1";
    assert_eq!(generate_surt(url).unwrap(), expected);
}

#[test]
fn test_generate_surt_strips_cfid_cftoken_pair() {
    let url = "http://example.com/?cfid=123&cftoken=ab-9";
    let expected = "com,example)/";
    assert_eq!(generate_surt(url).unwrap(), expected);
}

#[test]
fn test_generate_surt_keeps_short_session_value() {
    let url = "http://example.com/?sid=abc";
    let expected = "com,example)/?sid=abc";
    assert_eq!(generate_surt(url).unwrap(), expected);
}

#[test]
fn test_generate_surt_keeps_bare_www_host() {
    let url = "http://www.com/x";
    let expected = "com,www)/x";
    assert_eq!(generate_surt(url).unwrap(), expected);
}

#[test]
fn test_generate_surt_strips_wwwish_label() {
    let url = "http://www2.example.com/x";
    let expected = "com,example)/x";
    assert_eq!(generate_surt(url).unwrap(), expected);
}

#[test]
fn test_generate_surt_percent_decodes_in_cleanup() {
    let url = "http://example.com/%41bc";
    let expected = "com,example)/Abc";
    assert_eq!(generate_surt(url).unwrap(), expected);
}

#[test]
fn test_normalize_surt_decodes_escapes() {
    assert_eq!(normalize_surt("a%2Fb"), "a/b");
}

#[test]
fn test_normalize_surt_reencodes_spaces() {
    assert_eq!(normalize_surt("com,example)/a%20b"), "com,example)/a%20b");
}

#[test]
fn test_generate_surt_malformed_error_kind() {
    assert_eq!(generate_surt("notaurl"), Err(SurtError::MalformedUrl));
}

#[test]
fn test_generate_surt_unsupported_scheme_error_kind() {
    assert_eq!(
        generate_surt("ftp://example.com/x"),
        Err(SurtError::UnsupportedScheme)
    );
}

#[test]
fn test_encode_surt_missing_host_error_kind() {
    let parsed = ParsedUrl {
        scheme: String::from("http"),
        host: None,
        port: None,
        path: String::from("/x"),
        query: None,
        fragment: None,
    };
    assert_eq!(surt_rs::encode_surt(&parsed), Err(SurtError::MissingHost));
}

#[test]
fn test_encode_surt_standalone() {
    let parsed = ParsedUrl {
        scheme: String::from("https"),
        host: Some(String::from("Example.ORG")),
        port: Some(8443),
        path: String::from(""),
        query: Some(String::from("K=V")),
        fragment: None,
    };
    assert_eq!(
        surt_rs::encode_surt(&parsed).unwrap(),
        "org,example:8443)/?k=v"
    );
}

#[test]
fn test_normalize_url_sorts_and_lowercases_query() {
    let url = "http://example.com/p?B=2&a=1";
    let expected = "http://example.com/p?b=2&a=1";
    assert_eq!(normalize_url(url).unwrap(), expected);
}

#[test]
fn test_normalize_url_rejects_garbage() {
    assert_eq!(normalize_url("::not::"), Err(SurtError::MalformedUrl));
}
