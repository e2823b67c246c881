use webmachine::context::{Context, Request, Response};
use webmachine::dates::{format_rfc2822, parse_rfc2822, Timestamp};
use webmachine::finalize::finalise_response;
use webmachine::headers::HeaderValue;
use webmachine::machine::execute_state_machine;
use webmachine::resource::Resource;

fn h(s: &str) -> HeaderValue {
    HeaderValue::parse_string(s)
}

fn svec(items: &[&str]) -> Vec<String> {
    items.iter().map(|s| s.to_string()).collect()
}

fn get<'a>(response: &'a Response, name: &str) -> Option<&'a Vec<HeaderValue>> {
    response
        .headers
        .iter()
        .find(|(k, _)| k == name)
        .map(|(_, v)| v)
}

#[test]
fn default_resource_get_root_returns_200_json_latin1() {
    let mut context = Context::default();
    let resource = Resource::default();
    execute_state_machine(&mut context, &resource);
    finalise_response(&mut context, &resource);
    assert_eq!(context.response.status, 200);
    assert_eq!(
        get(&context.response, "Content-Type").unwrap().clone(),
        vec![h("application/json;charset=ISO-8859-1")]
    );
    assert_eq!(context.response.body, None);
}

#[test]
fn default_resource_run_is_repeatable() {
    let resource = Resource::default();
    let mut first = Context::default();
    execute_state_machine(&mut first, &resource);
    finalise_response(&mut first, &resource);
    let mut second = Context::default();
    execute_state_machine(&mut second, &resource);
    finalise_response(&mut second, &resource);
    assert_eq!(first.response, second.response);
}

#[test]
fn trace_on_default_resource_returns_405_with_allow() {
    let mut context = Context {
        request: Request {
            method: "TRACE".to_string(),
            ..Request::default()
        },
        ..Context::default()
    };
    let resource = Resource::default();
    execute_state_machine(&mut context, &resource);
    assert_eq!(context.response.status, 405);
    assert_eq!(
        get(&context.response, "Allow").unwrap().clone(),
        vec![
            HeaderValue::basic("OPTIONS"),
            HeaderValue::basic("GET"),
            HeaderValue::basic("HEAD")
        ]
    );
}

#[test]
fn if_none_match_on_matching_etag_returns_304() {
    let mut context = Context {
        request: Request {
            headers: vec![("If-None-Match".to_string(), vec![h("\"abc\"")])],
            ..Request::default()
        },
        ..Context::default()
    };
    let resource = Resource {
        generate_etag: Some("abc".to_string()),
        ..Resource::default()
    };
    execute_state_machine(&mut context, &resource);
    assert_eq!(context.response.status, 304);
}

#[test]
fn etag_weak_form_in_if_match_passes_the_conditional() {
    let mut context = Context {
        request: Request {
            headers: vec![("If-Match".to_string(), vec![h("W/\"abc\"")])],
            ..Request::default()
        },
        ..Context::default()
    };
    let resource = Resource {
        generate_etag: Some("abc".to_string()),
        ..Resource::default()
    };
    execute_state_machine(&mut context, &resource);
    assert_eq!(context.response.status, 200);
}

#[test]
fn etag_strong_form_in_if_match_passes_the_conditional() {
    let mut context = Context {
        request: Request {
            headers: vec![("If-Match".to_string(), vec![h("\"abc\"")])],
            ..Request::default()
        },
        ..Context::default()
    };
    let resource = Resource {
        generate_etag: Some("abc".to_string()),
        ..Resource::default()
    };
    execute_state_machine(&mut context, &resource);
    assert_eq!(context.response.status, 200);
}

#[test]
fn vary_lists_each_axis_with_a_real_choice() {
    let mut context = Context::default();
    let resource = Resource {
        languages_provided: svec(&["en", "da"]),
        charsets_provided: svec(&["UTF-8", "US-ASCII"]),
        ..Resource::default()
    };
    execute_state_machine(&mut context, &resource);
    finalise_response(&mut context, &resource);
    assert_eq!(
        get(&context.response, "Vary").unwrap().clone(),
        vec![
            HeaderValue::basic("Accept-Language"),
            HeaderValue::basic("Accept-Charset")
        ]
    );
}

#[test]
fn vary_absent_when_only_one_axis_varies() {
    let mut context = Context::default();
    let resource = Resource {
        languages_provided: svec(&["en", "da"]),
        ..Resource::default()
    };
    execute_state_machine(&mut context, &resource);
    finalise_response(&mut context, &resource);
    assert_eq!(get(&context.response, "Vary"), None);
}

#[test]
fn rendered_body_is_used_for_a_plain_get() {
    let mut context = Context::default();
    let resource = Resource {
        render_response: Some("{\"data\":[1,2,3]}".to_string()),
        ..Resource::default()
    };
    execute_state_machine(&mut context, &resource);
    finalise_response(&mut context, &resource);
    assert_eq!(context.response.status, 200);
    assert_eq!(
        context.response.body,
        Some("{\"data\":[1,2,3]}".as_bytes().to_vec())
    );
}

#[test]
fn parse_rfc2822_reads_the_epoch_instant() {
    assert_eq!(
        parse_rfc2822("Sun, 06 Nov 1994 08:49:37 GMT"),
        Some(Timestamp {
            epoch_millis: 784111777000,
            offset_seconds: 0
        })
    );
    assert_eq!(
        parse_rfc2822("Sun, 06 Nov 1994 08:49:37 +1000"),
        Some(Timestamp {
            epoch_millis: 784111777000 - 36_000_000,
            offset_seconds: 36_000
        })
    );
    assert_eq!(parse_rfc2822("not a date"), None);
}

#[test]
fn format_rfc2822_writes_the_instant_in_its_zone() {
    let ts = Timestamp {
        epoch_millis: 784111777000,
        offset_seconds: 0,
    };
    assert_eq!(
        format_rfc2822(&ts),
        "Sun, 6 Nov 1994 08:49:37 +0000".to_string()
    );
}

#[test]
fn last_modified_and_etag_are_stamped_for_get() {
    let mut context = Context::default();
    let resource = Resource {
        generate_etag: Some("abc".to_string()),
        last_modified: Some(Timestamp {
            epoch_millis: 784111777000,
            offset_seconds: 0,
        }),
        ..Resource::default()
    };
    execute_state_machine(&mut context, &resource);
    finalise_response(&mut context, &resource);
    assert_eq!(context.response.status, 200);
    let etag = get(&context.response, "ETag").unwrap().clone();
    assert_eq!(etag.len(), 1);
    assert_eq!(etag[0].value, "abc".to_string());
    assert!(etag[0].quote);
    assert_eq!(etag[0].to_string(), "\"abc\"".to_string());
    let lm = get(&context.response, "Last-Modified").unwrap().clone();
    assert_eq!(lm.len(), 1);
    assert_eq!(lm[0].value, "Sun, 6 Nov 1994 08:49:37 +0000".to_string());
}

#[test]
fn expires_is_stamped_for_get() {
    let mut context = Context::default();
    let resource = Resource {
        expires: Some(Timestamp {
            epoch_millis: 784111777000,
            offset_seconds: 3600,
        }),
        ..Resource::default()
    };
    execute_state_machine(&mut context, &resource);
    finalise_response(&mut context, &resource);
    let expires = get(&context.response, "Expires").unwrap().clone();
    assert_eq!(expires.len(), 1);
    assert_eq!(expires[0].value, "Sun, 6 Nov 1994 09:49:37 +0100".to_string());
}

#[test]
fn cors_headers_hold_the_standard_triple() {
    let cors = Response::cors_headers(&svec(&["OPTIONS", "GET"]));
    assert_eq!(
        cors,
        vec![
            (
                "Access-Control-Allow-Origin".to_string(),
                svec(&["*"])
            ),
            (
                "Access-Control-Allow-Methods".to_string(),
                svec(&["OPTIONS", "GET"])
            ),
            (
                "Access-Control-Allow-Headers".to_string(),
                svec(&["Content-Type"])
            ),
        ]
    );
}

#[test]
fn add_cors_headers_writes_the_triple_to_the_response() {
    let mut response = Response::default();
    response.add_cors_headers(&svec(&["GET"]));
    assert_eq!(
        get(&response, "Access-Control-Allow-Origin").unwrap().clone(),
        vec![HeaderValue::basic("*")]
    );
    assert_eq!(
        get(&response, "Access-Control-Allow-Methods").unwrap().clone(),
        vec![HeaderValue::basic("GET")]
    );
    assert_eq!(
        get(&response, "Access-Control-Allow-Headers").unwrap().clone(),
        vec![HeaderValue::basic("Content-Type")]
    );
}

#[test]
fn has_header_ignores_ascii_case() {
    let request = Request {
        headers: vec![("Accept".to_string(), vec![h("application/json")])],
        ..Request::default()
    };
    assert!(request.has_header("accept"));
    assert!(request.has_header("ACCEPT"));
    assert!(request.has_header("Accept"));
    assert_eq!(
        request.has_header("accept"),
        request.has_header("ACCEPT")
    );
}

#[test]
fn content_type_defaults_when_absent() {
    let request = Request::default();
    assert_eq!(request.content_type(), "application/json".to_string());
    let with_header = Request {
        headers: vec![(
            "content-type".to_string(),
            vec![HeaderValue::basic("text/plain")],
        )],
        ..Request::default()
    };
    assert_eq!(with_header.content_type(), "text/plain".to_string());
}

#[test]
fn decision_trace_is_recorded_and_short() {
    let mut context = Context::default();
    let resource = Resource::default();
    execute_state_machine(&mut context, &resource);
    assert!(!context.decisions.is_empty());
    assert!(context.decisions.len() <= 100);
    let (_, _, last) = context.decisions.last().unwrap();
    assert!(last.is_terminal());
}

#[test]
fn parse_rfc2822_accepts_far_future_years() {
    assert_eq!(
        parse_rfc2822("1 Jan 262000 00:00:00 GMT"),
        Some(Timestamp {
            epoch_millis: 8_205_754_204_800_000,
            offset_seconds: 0
        })
    );
}

#[test]
fn format_rfc2822_writes_the_last_defined_second() {
    let ts = Timestamp {
        epoch_millis: 253_402_300_799_000,
        offset_seconds: 0,
    };
    assert_eq!(
        format_rfc2822(&ts),
        "Fri, 31 Dec 9999 23:59:59 +0000".to_string()
    );
}
