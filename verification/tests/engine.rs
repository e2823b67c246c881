use webmachine::context::{Context, Request, Response};
use webmachine::dispatcher::Dispatcher;
use webmachine::finalize::finalise_response;
use webmachine::headers::HeaderValue;
use webmachine::machine::{execute_state_machine, execute_state_machine_at};
use webmachine::resource::Resource;

fn h(s: &str) -> HeaderValue {
    HeaderValue::parse_string(s)
}

fn svec(items: &[&str]) -> Vec<String> {
    items.iter().map(|s| s.to_string()).collect()
}

fn get<'a>(response: &'a Response, name: &str) -> Option<&'a Vec<HeaderValue>> {
    response
        .headers
        .iter()
        .find(|(k, _)| k == name)
        .map(|(_, v)| v)
}

fn context_with_method(method: &str) -> Context {
    Context {
        request: Request {
            method: method.to_string(),
            ..Request::default()
        },
        ..Context::default()
    }
}

fn context_with_header(method: &str, header: &str, values: Vec<HeaderValue>) -> Context {
    Context {
        request: Request {
            method: method.to_string(),
            headers: vec![(header.to_string(), values)],
            ..Request::default()
        },
        ..Context::default()
    }
}

#[test]
fn execute_state_machine_returns_503_if_resource_indicates_not_available() {
    let mut context = Context::default();
    let resource = Resource {
        available: false,
        ..Resource::default()
    };
    execute_state_machine(&mut context, &resource);
    assert_eq!(context.response.status, 503);
}

#[test]
fn execute_state_machine_returns_501_if_method_is_not_in_known_list() {
    let mut context = context_with_method("Blah");
    let resource = Resource::default();
    execute_state_machine(&mut context, &resource);
    assert_eq!(context.response.status, 501);
}

#[test]
fn execute_state_machine_returns_414_if_uri_is_too_long() {
    let mut context = Context::default();
    let resource = Resource {
        uri_too_long: true,
        ..Resource::default()
    };
    execute_state_machine(&mut context, &resource);
    assert_eq!(context.response.status, 414);
}

#[test]
fn execute_state_machine_returns_405_if_method_is_not_allowed() {
    let mut context = context_with_method("TRACE");
    let resource = Resource::default();
    execute_state_machine(&mut context, &resource);
    assert_eq!(context.response.status, 405);
    assert_eq!(
        get(&context.response, "Allow").unwrap().clone(),
        vec![
            HeaderValue::basic("OPTIONS"),
            HeaderValue::basic("GET"),
            HeaderValue::basic("HEAD")
        ]
    );
}

#[test]
fn execute_state_machine_returns_400_if_malformed_request() {
    let mut context = Context::default();
    let resource = Resource {
        malformed_request: true,
        ..Resource::default()
    };
    execute_state_machine(&mut context, &resource);
    assert_eq!(context.response.status, 400);
}

#[test]
fn execute_state_machine_returns_401_if_not_authorized() {
    let mut context = Context::default();
    let resource = Resource {
        not_authorized: Some("Basic realm=\"User Visible Realm\"".to_string()),
        ..Resource::default()
    };
    execute_state_machine(&mut context, &resource);
    assert_eq!(context.response.status, 401);
    assert_eq!(
        get(&context.response, "WWW-Authenticate").unwrap().clone(),
        vec![h("Basic realm=\"User Visible Realm\"")]
    );
}

#[test]
fn execute_state_machine_returns_403_if_forbidden() {
    let mut context = Context::default();
    let resource = Resource {
        forbidden: true,
        ..Resource::default()
    };
    execute_state_machine(&mut context, &resource);
    assert_eq!(context.response.status, 403);
}

#[test]
fn execute_state_machine_returns_501_if_there_is_an_unsupported_content_header() {
    let mut context = Context::default();
    let resource = Resource {
        unsupported_content_headers: true,
        ..Resource::default()
    };
    execute_state_machine(&mut context, &resource);
    assert_eq!(context.response.status, 501);
}

#[test]
fn execute_state_machine_returns_415_if_the_content_type_is_unknown() {
    let mut context = context_with_header(
        "POST",
        "Content-type",
        vec![HeaderValue::basic("application/xml")],
    );
    let resource = Resource {
        acceptable_content_types: svec(&["application/json"]),
        allowed_methods: svec(&["POST"]),
        ..Resource::default()
    };
    execute_state_machine(&mut context, &resource);
    assert_eq!(context.response.status, 415);
}

#[test]
fn execute_state_machine_returns_does_not_return_415_if_not_a_put_or_post() {
    let mut context = context_with_header(
        "GET",
        "Content-type",
        vec![HeaderValue::basic("application/xml")],
    );
    let resource = Resource::default();
    execute_state_machine(&mut context, &resource);
    assert_ne!(context.response.status, 415);
}

#[test]
fn execute_state_machine_returns_413_if_the_request_entity_is_too_large() {
    let mut context = context_with_method("POST");
    let resource = Resource {
        valid_entity_length: false,
        allowed_methods: svec(&["POST"]),
        ..Resource::default()
    };
    execute_state_machine(&mut context, &resource);
    assert_eq!(context.response.status, 413);
}

#[test]
fn execute_state_machine_returns_does_not_return_413_if_not_a_put_or_post() {
    let mut context = Context::default();
    let resource = Resource {
        valid_entity_length: false,
        ..Resource::default()
    };
    execute_state_machine(&mut context, &resource);
    assert_ne!(context.response.status, 413);
}

#[test]
fn execute_state_machine_returns_headers_for_option_request() {
    let mut context = context_with_method("OPTIONS");
    let resource = Resource {
        allowed_methods: svec(&["OPTIONS"]),
        options: Some(vec![
            ("A".to_string(), svec(&["B"])),
            ("C".to_string(), svec(&["D;E=F"])),
        ]),
        ..Resource::default()
    };
    execute_state_machine(&mut context, &resource);
    assert_eq!(context.response.status, 204);
    assert_eq!(
        get(&context.response, "A").unwrap().clone(),
        vec![HeaderValue::basic("B")]
    );
    assert_eq!(
        get(&context.response, "C").unwrap().clone(),
        vec![HeaderValue::basic("D;E=F")]
    );
}

#[test]
fn execute_state_machine_returns_406_if_the_request_does_not_have_an_acceptable_content_type() {
    let mut context =
        context_with_header("GET", "Accept", vec![HeaderValue::basic("application/xml")]);
    let resource = Resource {
        produces: svec(&["application/javascript"]),
        ..Resource::default()
    };
    execute_state_machine(&mut context, &resource);
    assert_eq!(context.response.status, 406);
}

#[test]
fn execute_state_machine_sets_content_type_header_if_the_request_does_have_an_acceptable_content_type(
) {
    let mut context =
        context_with_header("GET", "Accept", vec![HeaderValue::basic("application/xml")]);
    let resource = Resource {
        produces: svec(&["application/xml"]),
        ..Resource::default()
    };
    execute_state_machine(&mut context, &resource);
    finalise_response(&mut context, &resource);
    assert_eq!(context.response.status, 200);
    assert_eq!(
        get(&context.response, "Content-Type").unwrap().clone(),
        vec![h("application/xml;charset=ISO-8859-1")]
    );
}

#[test]
fn execute_state_machine_returns_406_if_the_request_does_not_have_an_acceptable_language() {
    let mut context = context_with_header("GET", "Accept-Language", vec![HeaderValue::basic("da")]);
    let resource = Resource {
        languages_provided: svec(&["en"]),
        ..Resource::default()
    };
    execute_state_machine(&mut context, &resource);
    assert_eq!(context.response.status, 406);
}

#[test]
fn execute_state_machine_sets_the_language_header_if_the_request_does_have_an_acceptable_language(
) {
    let mut context =
        context_with_header("GET", "Accept-Language", vec![HeaderValue::basic("en-gb")]);
    let resource = Resource {
        languages_provided: svec(&["en"]),
        ..Resource::default()
    };
    execute_state_machine(&mut context, &resource);
    assert_eq!(context.response.status, 200);
    assert_eq!(
        context.response.headers,
        vec![("Content-Language".to_string(), vec![h("en")])]
    );
}

#[test]
fn execute_state_machine_returns_406_if_the_request_does_not_have_an_acceptable_charset() {
    let mut context = context_with_header(
        "GET",
        "Accept-Charset",
        vec![h("iso-8859-5"), h("iso-8859-1;q=0")],
    );
    let resource = Resource {
        charsets_provided: svec(&["UTF-8", "US-ASCII"]),
        ..Resource::default()
    };
    execute_state_machine(&mut context, &resource);
    assert_eq!(context.response.status, 406);
}

#[test]
fn execute_state_machine_sets_the_charset_if_the_request_does_have_an_acceptable_charset() {
    let mut context = context_with_header(
        "GET",
        "Accept-Charset",
        vec![h("UTF-8"), h("iso-8859-1;q=0")],
    );
    let resource = Resource {
        charsets_provided: svec(&["UTF-8", "US-ASCII"]),
        ..Resource::default()
    };
    execute_state_machine(&mut context, &resource);
    finalise_response(&mut context, &resource);
    assert_eq!(context.response.status, 200);
    assert_eq!(
        get(&context.response, "Content-Type").unwrap().clone(),
        vec![h("application/json;charset=UTF-8")]
    );
}

#[test]
fn execute_state_machine_returns_406_if_the_request_does_not_have_an_acceptable_encoding() {
    let mut context = context_with_header(
        "GET",
        "Accept-Encoding",
        vec![h("compress"), h("*;q=0")],
    );
    let resource = Resource {
        encodings_provided: svec(&["identity"]),
        ..Resource::default()
    };
    execute_state_machine(&mut context, &resource);
    assert_eq!(context.response.status, 406);
}

#[test]
fn execute_state_machine_sets_the_vary_header_if_the_resource_has_variances() {
    let mut context = Context::default();
    let resource = Resource {
        variances: svec(&["HEADER-A", "HEADER-B"]),
        ..Resource::default()
    };
    execute_state_machine(&mut context, &resource);
    finalise_response(&mut context, &resource);
    assert_eq!(context.response.status, 200);
    assert_eq!(
        context.response.headers,
        vec![
            (
                "Content-Type".to_string(),
                vec![h("application/json;charset=ISO-8859-1")]
            ),
            ("Vary".to_string(), vec![h("HEADER-A"), h("HEADER-B")])
        ]
    );
}

#[test]
fn execute_state_machine_returns_404_if_the_resource_does_not_exist() {
    let mut context = Context::default();
    let resource = Resource {
        resource_exists: false,
        ..Resource::default()
    };
    execute_state_machine(&mut context, &resource);
    assert_eq!(context.response.status, 404);
}

#[test]
fn execute_state_machine_returns_412_if_the_resource_does_not_exist_and_there_is_an_if_match_header(
) {
    let mut context = context_with_header("GET", "If-Match", vec![h("*")]);
    let resource = Resource {
        resource_exists: false,
        ..Resource::default()
    };
    execute_state_machine(&mut context, &resource);
    assert_eq!(context.response.status, 412);
}

#[test]
fn execute_state_machine_returns_301_and_sets_location_header_if_the_resource_has_moved_permanently(
) {
    let mut context = context_with_method("PUT");
    let resource = Resource {
        allowed_methods: svec(&["PUT"]),
        resource_exists: false,
        moved_permanently: Some("http://go.away.com/to/here".to_string()),
        ..Resource::default()
    };
    execute_state_machine(&mut context, &resource);
    assert_eq!(context.response.status, 301);
    assert_eq!(
        context.response.headers,
        vec![(
            "Location".to_string(),
            vec![h("http://go.away.com/to/here")]
        )]
    );
}

#[test]
fn execute_state_machine_returns_409_if_the_put_request_is_a_conflict() {
    let mut context = context_with_method("PUT");
    let resource = Resource {
        allowed_methods: svec(&["PUT"]),
        resource_exists: false,
        is_conflict: true,
        ..Resource::default()
    };
    execute_state_machine(&mut context, &resource);
    assert_eq!(context.response.status, 409);
}

#[test]
fn execute_state_machine_returns_404_if_the_resource_does_not_exist_and_does_not_except_posts_to_nonexistant_resources(
) {
    let mut context = context_with_method("POST");
    let resource = Resource {
        allowed_methods: svec(&["POST"]),
        resource_exists: false,
        allow_missing_post: false,
        ..Resource::default()
    };
    execute_state_machine(&mut context, &resource);
    assert_eq!(context.response.status, 404);
}

#[test]
fn execute_state_machine_returns_301_and_sets_location_header_if_the_resource_has_moved_permanently_and_prev_existed_and_not_a_put(
) {
    let mut context = context_with_method("POST");
    let resource = Resource {
        allowed_methods: svec(&["POST"]),
        resource_exists: false,
        previously_existed: true,
        moved_permanently: Some("http://go.away.com/to/here".to_string()),
        ..Resource::default()
    };
    execute_state_machine(&mut context, &resource);
    assert_eq!(context.response.status, 301);
    assert_eq!(
        context.response.headers,
        vec![(
            "Location".to_string(),
            vec![h("http://go.away.com/to/here")]
        )]
    );
}

#[test]
fn execute_state_machine_returns_307_and_sets_location_header_if_the_resource_has_moved_temporarily_and_not_a_put(
) {
    let mut context = Context::default();
    let resource = Resource {
        resource_exists: false,
        previously_existed: true,
        moved_temporarily: Some("http://go.away.com/to/here".to_string()),
        ..Resource::default()
    };
    execute_state_machine(&mut context, &resource);
    assert_eq!(context.response.status, 307);
    assert_eq!(
        context.response.headers,
        vec![(
            "Location".to_string(),
            vec![h("http://go.away.com/to/here")]
        )]
    );
}

#[test]
fn execute_state_machine_returns_410_if_the_resource_has_prev_existed_and_not_a_post() {
    let mut context = Context::default();
    let resource = Resource {
        resource_exists: false,
        previously_existed: true,
        ..Resource::default()
    };
    execute_state_machine(&mut context, &resource);
    assert_eq!(context.response.status, 410);
}

#[test]
fn execute_state_machine_returns_410_if_the_resource_has_prev_existed_and_a_post_and_posts_to_missing_resource_not_allowed(
) {
    let mut context = context_with_method("POST");
    let resource = Resource {
        allowed_methods: svec(&["POST"]),
        resource_exists: false,
        previously_existed: true,
        allow_missing_post: false,
        ..Resource::default()
    };
    execute_state_machine(&mut context, &resource);
    assert_eq!(context.response.status, 410);
}

#[test]
fn execute_state_machine_returns_404_if_the_resource_has_not_prev_existed_and_a_post_and_posts_to_missing_resource_not_allowed(
) {
    let mut context = context_with_method("POST");
    let resource = Resource {
        allowed_methods: svec(&["POST"]),
        resource_exists: false,
        previously_existed: false,
        allow_missing_post: false,
        ..Resource::default()
    };
    execute_state_machine(&mut context, &resource);
    assert_eq!(context.response.status, 404);
}

#[test]
fn execute_state_machine_returns_412_if_the_resource_etag_does_not_match_if_match_header() {
    let mut context = context_with_header("GET", "If-Match", vec![h("\"1234567891\"")]);
    let resource = Resource {
        resource_exists: true,
        generate_etag: Some("1234567890".to_string()),
        ..Resource::default()
    };
    execute_state_machine(&mut context, &resource);
    assert_eq!(context.response.status, 412);
}

#[test]
fn execute_state_machine_returns_412_if_the_resource_etag_does_not_match_if_match_header_weak_etag(
) {
    let mut context = context_with_header("GET", "If-Match", vec![h("W/\"1234567891\"")]);
    let resource = Resource {
        resource_exists: true,
        generate_etag: Some("1234567890".to_string()),
        ..Resource::default()
    };
    execute_state_machine(&mut context, &resource);
    assert_eq!(context.response.status, 412);
}

#[test]
fn execute_state_machine_returns_412_if_the_resource_last_modified_gt_unmodified_since() {
    let mut context = context_with_header(
        "GET",
        "If-Unmodified-Since",
        vec![h("\"Sat, 05 Nov 1994 08:49:37 GMT\"")],
    );
    let resource = Resource {
        resource_exists: true,
        last_modified: Some(webmachine::dates::Timestamp {
            epoch_millis: 784025977000,
            offset_seconds: 0,
        }),
        ..Resource::default()
    };
    execute_state_machine(&mut context, &resource);
    assert_eq!(context.response.status, 412);
}

#[test]
fn execute_state_machine_returns_304_if_non_match_star_exists_and_is_not_a_head_or_get() {
    let mut context = context_with_header("POST", "If-None-Match", vec![h("*")]);
    let resource = Resource {
        resource_exists: true,
        allowed_methods: svec(&["POST"]),
        ..Resource::default()
    };
    execute_state_machine(&mut context, &resource);
    assert_eq!(context.response.status, 412);
}

#[test]
fn execute_state_machine_returns_304_if_non_match_star_exists_and_is_a_head_or_get() {
    let mut context = context_with_header("HEAD", "If-None-Match", vec![h("*")]);
    let resource = Resource {
        resource_exists: true,
        allowed_methods: svec(&["HEAD"]),
        ..Resource::default()
    };
    execute_state_machine(&mut context, &resource);
    assert_eq!(context.response.status, 304);
}

#[test]
fn execute_state_machine_returns_412_if_resource_etag_in_if_non_match_and_is_not_a_head_or_get() {
    let mut context = context_with_header(
        "POST",
        "If-None-Match",
        vec![h("W/\"1234567890\""), h("W/\"1234567891\"")],
    );
    let resource = Resource {
        resource_exists: true,
        allowed_methods: svec(&["POST"]),
        generate_etag: Some("1234567890".to_string()),
        ..Resource::default()
    };
    execute_state_machine(&mut context, &resource);
    assert_eq!(context.response.status, 412);
}

#[test]
fn execute_state_machine_returns_304_if_resource_etag_in_if_non_match_and_is_a_head_or_get() {
    let mut context = context_with_header(
        "GET",
        "If-None-Match",
        vec![h("\"1234567890\""), h("\"1234567891\"")],
    );
    let resource = Resource {
        resource_exists: true,
        generate_etag: Some("1234567890".to_string()),
        ..Resource::default()
    };
    execute_state_machine(&mut context, &resource);
    assert_eq!(context.response.status, 304);
}

#[test]
fn execute_state_machine_returns_304_if_the_resource_last_modified_gt_modified_since() {
    let mut context = context_with_header(
        "GET",
        "If-Modified-Since",
        vec![h("\"Sat, 05 Nov 1994 08:49:37 GMT\"")],
    );
    let resource = Resource {
        resource_exists: true,
        last_modified: Some(webmachine::dates::Timestamp {
            epoch_millis: 784024000000,
            offset_seconds: 0,
        }),
        ..Resource::default()
    };
    execute_state_machine_at(&mut context, &resource, 784030000000);
    assert_eq!(context.response.status, 304);
}

#[test]
fn execute_state_machine_returns_202_if_delete_was_not_enacted() {
    let mut context = context_with_method("DELETE");
    let resource = Resource {
        resource_exists: true,
        delete_resource: Ok(false),
        allowed_methods: svec(&["DELETE"]),
        ..Resource::default()
    };
    execute_state_machine(&mut context, &resource);
    assert_eq!(context.response.status, 202);
}

#[test]
fn execute_state_machine_returns_a_resource_status_code_if_delete_fails() {
    let mut context = context_with_method("DELETE");
    let resource = Resource {
        resource_exists: true,
        delete_resource: Err(500),
        allowed_methods: svec(&["DELETE"]),
        ..Resource::default()
    };
    execute_state_machine(&mut context, &resource);
    assert_eq!(context.response.status, 500);
}

#[test]
fn execute_state_machine_returns_a_resource_status_code_if_post_fails_and_post_is_create() {
    let mut context = context_with_method("POST");
    let resource = Resource {
        resource_exists: true,
        post_is_create: true,
        create_path: Some(Err(500)),
        allowed_methods: svec(&["POST"]),
        ..Resource::default()
    };
    execute_state_machine(&mut context, &resource);
    assert_eq!(context.response.status, 500);
}

#[test]
fn execute_state_machine_returns_a_resource_status_code_if_post_fails_and_post_is_not_create() {
    let mut context = context_with_method("POST");
    let resource = Resource {
        resource_exists: true,
        post_is_create: false,
        process_post: Err(500),
        allowed_methods: svec(&["POST"]),
        ..Resource::default()
    };
    execute_state_machine(&mut context, &resource);
    assert_eq!(context.response.status, 500);
}

#[test]
fn execute_state_machine_returns_303_and_post_is_create_and_redirect_is_set() {
    let mut context = Context {
        request: Request {
            method: "POST".to_string(),
            base_path: "/base/path".to_string(),
            ..Request::default()
        },
        redirect: true,
        ..Context::default()
    };
    let resource = Resource {
        resource_exists: true,
        post_is_create: true,
        create_path: Some(Ok("/new/path".to_string())),
        allowed_methods: svec(&["POST"]),
        ..Resource::default()
    };
    execute_state_machine(&mut context, &resource);
    assert_eq!(context.response.status, 303);
    assert_eq!(
        context.response.headers,
        vec![("Location".to_string(), vec![h("/base/path/new/path")])]
    );
}

#[test]
fn execute_state_machine_returns_303_if_post_is_not_create_and_redirect_is_set() {
    let mut context = Context {
        request: Request {
            method: "POST".to_string(),
            ..Request::default()
        },
        redirect: true,
        ..Context::default()
    };
    let resource = Resource {
        resource_exists: true,
        post_is_create: false,
        process_post: Ok(true),
        allowed_methods: svec(&["POST"]),
        ..Resource::default()
    };
    execute_state_machine(&mut context, &resource);
    assert_eq!(context.response.status, 303);
}

#[test]
fn execute_state_machine_returns_303_if_post_to_missing_resource_and_redirect_is_set() {
    let mut context = Context {
        request: Request {
            method: "POST".to_string(),
            ..Request::default()
        },
        redirect: true,
        ..Context::default()
    };
    let resource = Resource {
        resource_exists: false,
        previously_existed: false,
        allow_missing_post: true,
        post_is_create: false,
        process_post: Ok(true),
        allowed_methods: svec(&["POST"]),
        ..Resource::default()
    };
    execute_state_machine(&mut context, &resource);
    assert_eq!(context.response.status, 303);
}

#[test]
fn execute_state_machine_returns_201_if_post_creates_new_resource() {
    let mut context = context_with_method("POST");
    let resource = Resource {
        resource_exists: false,
        previously_existed: false,
        allow_missing_post: true,
        post_is_create: true,
        create_path: Some(Ok("/new/path".to_string())),
        allowed_methods: svec(&["POST"]),
        ..Resource::default()
    };
    execute_state_machine(&mut context, &resource);
    assert_eq!(context.response.status, 201);
    assert_eq!(
        context.response.headers,
        vec![("Location".to_string(), vec![h("/new/path")])]
    );
}

#[test]
fn execute_state_machine_returns_201_if_put_to_new_resource() {
    let mut context = context_with_method("PUT");
    let resource = Resource {
        resource_exists: false,
        allowed_methods: svec(&["PUT"]),
        ..Resource::default()
    };
    execute_state_machine(&mut context, &resource);
    assert_eq!(context.response.status, 201);
}

#[test]
fn execute_state_machine_returns_409_for_existing_resource_if_the_put_request_is_a_conflict() {
    let mut context = context_with_method("PUT");
    let resource = Resource {
        allowed_methods: svec(&["PUT"]),
        resource_exists: true,
        is_conflict: true,
        ..Resource::default()
    };
    execute_state_machine(&mut context, &resource);
    assert_eq!(context.response.status, 409);
}

#[test]
fn execute_state_machine_returns_200_if_put_request_to_existing_resource() {
    let mut context = Context {
        request: Request {
            method: "PUT".to_string(),
            ..Request::default()
        },
        response: Response {
            body: Some("body".as_bytes().to_vec()),
            ..Response::default()
        },
        ..Context::default()
    };
    let resource = Resource {
        allowed_methods: svec(&["PUT"]),
        resource_exists: true,
        process_put: Ok(true),
        ..Resource::default()
    };
    execute_state_machine(&mut context, &resource);
    assert_eq!(context.response.status, 200);
}

#[test]
fn execute_state_machine_returns_204_if_put_request_to_existing_resource_with_no_response_body() {
    let mut context = context_with_method("PUT");
    let resource = Resource {
        allowed_methods: svec(&["PUT"]),
        resource_exists: true,
        ..Resource::default()
    };
    execute_state_machine(&mut context, &resource);
    assert_eq!(context.response.status, 204);
}

#[test]
fn execute_state_machine_returns_300_if_multiple_choices_is_true() {
    let mut context = Context::default();
    let resource = Resource {
        resource_exists: true,
        multiple_choices: true,
        ..Resource::default()
    };
    execute_state_machine(&mut context, &resource);
    assert_eq!(context.response.status, 300);
}

#[test]
fn execute_state_machine_returns_204_if_delete_was_enacted_and_response_has_no_body() {
    let mut context = context_with_method("DELETE");
    let resource = Resource {
        resource_exists: true,
        delete_resource: Ok(true),
        allowed_methods: svec(&["DELETE"]),
        ..Resource::default()
    };
    execute_state_machine(&mut context, &resource);
    assert_eq!(context.response.status, 204);
}

#[test]
fn execute_state_machine_returns_200_if_delete_was_enacted_and_response_has_a_body() {
    let mut context = Context {
        request: Request {
            method: "DELETE".to_string(),
            ..Request::default()
        },
        response: Response {
            body: Some("body".as_bytes().to_vec()),
            ..Response::default()
        },
        ..Context::default()
    };
    let resource = Resource {
        resource_exists: true,
        delete_resource: Ok(true),
        allowed_methods: svec(&["DELETE"]),
        ..Resource::default()
    };
    execute_state_machine(&mut context, &resource);
    assert_eq!(context.response.status, 200);
}

#[test]
fn dispatcher_returns_404_if_there_is_no_matching_resource() {
    let mut context = Context::default();
    let dispatcher = Dispatcher {
        routes: vec![("/some/path".to_string(), Resource::default())],
    };
    dispatcher.dispatch_to_resource(&mut context);
    assert_eq!(context.response.status, 404);
}
