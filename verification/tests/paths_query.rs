use webmachine::context::Request;
use webmachine::dispatcher::Dispatcher;
use webmachine::headers::{parse_header_values, HeaderValue};
use webmachine::paths::{join_paths, sanitise_path, update_paths_for_resource};
use webmachine::query::parse_query;
use webmachine::resource::Resource;

fn h(s: &str) -> HeaderValue {
    HeaderValue::parse_string(s)
}

fn svec(items: &[&str]) -> Vec<String> {
    items.iter().map(|s| s.to_string()).collect()
}

fn request_at(path: &str) -> Request {
    Request {
        request_path: path.to_string(),
        ..Request::default()
    }
}

#[test]
fn path_matcher_test() {
    let dispatcher = Dispatcher {
        routes: vec![
            ("/".to_string(), Resource::default()),
            ("/path1".to_string(), Resource::default()),
            ("/path2".to_string(), Resource::default()),
            ("/path1/path3".to_string(), Resource::default()),
        ],
    };
    assert_eq!(
        dispatcher.match_paths(&request_at("/path1")),
        svec(&["/", "/path1"])
    );
    assert_eq!(
        dispatcher.match_paths(&request_at("/path1/")),
        svec(&["/", "/path1"])
    );
    assert_eq!(
        dispatcher.match_paths(&request_at("/path1/path3")),
        svec(&["/", "/path1", "/path1/path3"])
    );
    assert_eq!(
        dispatcher.match_paths(&request_at("/path1/path3/path4")),
        svec(&["/", "/path1", "/path1/path3"])
    );
    assert_eq!(
        dispatcher.match_paths(&request_at("/path1/other")),
        svec(&["/", "/path1"])
    );
    assert_eq!(dispatcher.match_paths(&request_at("/path12")), svec(&["/"]));
    assert_eq!(dispatcher.match_paths(&request_at("/")), svec(&["/"]));
}

#[test]
fn sanitise_path_test() {
    assert!(sanitise_path("/").is_empty());
    assert!(sanitise_path("//").is_empty());
    assert_eq!(sanitise_path("/a/b/c"), svec(&["a", "b", "c"]));
    assert_eq!(sanitise_path("/a/b/c/"), svec(&["a", "b", "c"]));
    assert_eq!(sanitise_path("/a//b/c"), svec(&["a", "b", "c"]));
}

#[test]
fn update_paths_for_resource_test_with_root() {
    let mut request = Request::default();
    update_paths_for_resource(&mut request, "/");
    assert_eq!(request.request_path, "/".to_string());
    assert_eq!(request.base_path, "/".to_string());
}

#[test]
fn update_paths_for_resource_test_with_subpath() {
    let mut request = request_at("/subpath");
    update_paths_for_resource(&mut request, "/");
    assert_eq!(request.request_path, "/subpath".to_string());
    assert_eq!(request.base_path, "/".to_string());
}

#[test]
fn update_paths_for_resource_on_path() {
    let mut request = request_at("/path");
    update_paths_for_resource(&mut request, "/path");
    assert_eq!(request.request_path, "/".to_string());
    assert_eq!(request.base_path, "/path".to_string());
}

#[test]
fn update_paths_for_resource_on_path_with_subpath() {
    let mut request = request_at("/path/path2");
    update_paths_for_resource(&mut request, "/path");
    assert_eq!(request.request_path, "/path2".to_string());
    assert_eq!(request.base_path, "/path".to_string());
}

#[test]
fn join_paths_test() {
    assert_eq!(join_paths(&Vec::new(), &Vec::new()), "/".to_string());
    assert_eq!(join_paths(&svec(&[""]), &Vec::new()), "/".to_string());
    assert_eq!(join_paths(&Vec::new(), &svec(&[""])), "/".to_string());
    assert_eq!(
        join_paths(&svec(&["a", "b", "c"]), &Vec::new()),
        "/a/b/c".to_string()
    );
    assert_eq!(
        join_paths(&svec(&["a", "b", ""]), &Vec::new()),
        "/a/b".to_string()
    );
    assert_eq!(
        join_paths(&Vec::new(), &svec(&["a", "b", "c"])),
        "/a/b/c".to_string()
    );
    assert_eq!(
        join_paths(&svec(&["a", "b", "c"]), &svec(&["d", "e", "f"])),
        "/a/b/c/d/e/f".to_string()
    );
}

#[test]
fn parse_header_test() {
    assert!(parse_header_values("").is_empty());
    let single = parse_header_values("HEADER A");
    assert_eq!(single.len(), 1);
    assert_eq!(single[0].value, "HEADER A".to_string());
    let double = parse_header_values("HEADER A, header B");
    assert_eq!(double.len(), 2);
    assert_eq!(double[0].value, "HEADER A".to_string());
    assert_eq!(double[1].value, "header B".to_string());
    assert_eq!(
        parse_header_values("text/plain;  q=0.5,   text/html,text/x-dvi; q=0.8, text/x-c"),
        vec![
            HeaderValue {
                value: "text/plain".to_string(),
                params: vec![("q".to_string(), "0.5".to_string())],
                quote: false
            },
            HeaderValue {
                value: "text/html".to_string(),
                params: Vec::new(),
                quote: false
            },
            HeaderValue {
                value: "text/x-dvi".to_string(),
                params: vec![("q".to_string(), "0.8".to_string())],
                quote: false
            },
            HeaderValue {
                value: "text/x-c".to_string(),
                params: Vec::new(),
                quote: false
            },
        ]
    );
}

#[test]
fn request_does_not_have_header_test() {
    let request = Request::default();
    assert!(!request.has_header("Vary"));
    assert!(!request.has_header_value("Vary", "*"));
}

#[test]
fn request_with_empty_header_test() {
    let request = Request {
        headers: vec![("HeaderA".to_string(), Vec::new())],
        ..Request::default()
    };
    assert!(request.has_header("HeaderA"));
    assert!(!request.has_header_value("HeaderA", "*"));
}

#[test]
fn request_with_header_single_value_test() {
    let request = Request {
        headers: vec![("HeaderA".to_string(), vec![h("*")])],
        ..Request::default()
    };
    assert!(request.has_header("HeaderA"));
    assert!(request.has_header_value("HeaderA", "*"));
    assert!(!request.has_header_value("HeaderA", "other"));
}

#[test]
fn request_with_header_multiple_value_test() {
    let request = Request {
        headers: vec![("HeaderA".to_string(), vec![h("*"), h("other")])],
        ..Request::default()
    };
    assert!(request.has_header("HeaderA"));
    assert!(request.has_header_value("HeaderA", "*"));
    assert!(request.has_header_value("HeaderA", "other"));
    assert!(!request.has_header_value("HeaderA", "other2"));
}

#[test]
fn parse_query_string_test() {
    let query = "a=b&c=d";
    assert_eq!(
        parse_query(query),
        vec![
            ("a".to_string(), svec(&["b"])),
            ("c".to_string(), svec(&["d"]))
        ]
    );
}

#[test]
fn parse_query_string_handles_empty_string() {
    assert!(parse_query("").is_empty());
}

#[test]
fn parse_query_string_handles_missing_values() {
    assert_eq!(
        parse_query("a=&c=d"),
        vec![
            ("a".to_string(), svec(&[""])),
            ("c".to_string(), svec(&["d"]))
        ]
    );
}

#[test]
fn parse_query_string_handles_equals_in_values() {
    assert_eq!(
        parse_query("a=b&c=d=e=f"),
        vec![
            ("a".to_string(), svec(&["b"])),
            ("c".to_string(), svec(&["d=e=f"]))
        ]
    );
}

#[test]
fn parse_query_string_decodes_values() {
    assert_eq!(
        parse_query("a=a%20b%20c"),
        vec![("a".to_string(), svec(&["a b c"]))]
    );
}

#[test]
fn parse_query_string_accumulates_repeated_keys() {
    assert_eq!(
        parse_query("a=1&b=2&a=3"),
        vec![
            ("a".to_string(), svec(&["1", "3"])),
            ("b".to_string(), svec(&["2"]))
        ]
    );
}

#[test]
fn decode_query_plus_and_broken_escapes() {
    assert_eq!(
        webmachine::query::decode_query("a+b%2"),
        "a b%2".to_string()
    );
    assert_eq!(webmachine::query::decode_query("%zz"), "%zz".to_string());
    assert_eq!(webmachine::query::decode_query("%41"), "A".to_string());
}

#[test]
fn header_value_parse_and_format_round_trip() {
    let parsed = h("text/plain;  q=0.5");
    assert_eq!(parsed.to_string(), "text/plain;q=0.5".to_string());
    let quoted = h("\"abc\"");
    assert_eq!(quoted.value, "abc".to_string());
    assert!(quoted.quote);
    assert_eq!(quoted.to_string(), "\"abc\"".to_string());
}

#[test]
fn weak_etag_test() {
    assert_eq!(
        h("W/\"1234\"").weak_etag(),
        Some("1234".to_string())
    );
    assert_eq!(h("\"1234\"").weak_etag(), None);
    assert_eq!(h("W/1234").weak_etag(), None);
}
