use webmachine::content_negotiation::{
    matching_charset, matching_content_type, matching_encoding, matching_language,
    sort_encodings, sort_media_charsets, sort_media_languages, sort_media_types, Charset,
    Encoding, MediaLanguage, MediaType, MediaTypeMatch,
};
use webmachine::context::Request;
use webmachine::headers::HeaderValue;
use webmachine::resource::Resource;

fn h(s: &str) -> HeaderValue {
    HeaderValue::parse_string(s)
}

fn svec(items: &[&str]) -> Vec<String> {
    items.iter().map(|s| s.to_string()).collect()
}

fn request_with(header: &str, values: Vec<HeaderValue>) -> Request {
    Request {
        headers: vec![(header.to_string(), values)],
        ..Request::default()
    }
}

#[test]
fn matches_if_no_accept_header_is_provided() {
    let resource = Resource::default();
    let request = Request::default();
    assert_eq!(
        matching_content_type(&resource, &request),
        Some("application/json".to_string())
    );
}

#[test]
fn matches_exact_media_types() {
    let resource = Resource::default();
    let request = request_with("Accept", vec![HeaderValue::basic("application/json")]);
    assert_eq!(
        matching_content_type(&resource, &request),
        Some("application/json".to_string())
    );
}

#[test]
fn matches_wild_card_subtype() {
    let resource = Resource::default();
    let request = request_with("Accept", vec![HeaderValue::basic("application/*")]);
    assert_eq!(
        matching_content_type(&resource, &request),
        Some("application/json".to_string())
    );
}

#[test]
fn matches_wild_card_type() {
    let resource = Resource::default();
    let request = request_with("Accept", vec![HeaderValue::basic("*/json")]);
    assert_eq!(
        matching_content_type(&resource, &request),
        Some("application/json".to_string())
    );
}

#[test]
fn matches_wild_card() {
    let resource = Resource::default();
    let request = request_with("Accept", vec![HeaderValue::basic("*/*")]);
    assert_eq!(
        matching_content_type(&resource, &request),
        Some("application/json".to_string())
    );
}

#[test]
fn matches_most_specific() {
    let resource1 = Resource::default();
    let resource2 = Resource {
        produces: svec(&["application/pdf"]),
        ..Resource::default()
    };
    let resource3 = Resource {
        produces: svec(&["text/plain"]),
        ..Resource::default()
    };
    let resource4 = Resource {
        produces: svec(&["text/plain", "application/pdf", "application/json"]),
        ..Resource::default()
    };
    let resource5 = Resource {
        produces: svec(&["text/plain", "application/pdf"]),
        ..Resource::default()
    };
    let request = request_with(
        "Accept",
        vec![
            HeaderValue::basic("*/*"),
            HeaderValue::basic("application/*"),
            HeaderValue::basic("application/json"),
        ],
    );
    assert_eq!(
        matching_content_type(&resource1, &request),
        Some("application/json".to_string())
    );
    assert_eq!(
        matching_content_type(&resource2, &request),
        Some("application/pdf".to_string())
    );
    assert_eq!(
        matching_content_type(&resource3, &request),
        Some("text/plain".to_string())
    );
    assert_eq!(
        matching_content_type(&resource4, &request),
        Some("application/json".to_string())
    );
    assert_eq!(
        matching_content_type(&resource5, &request),
        Some("application/pdf".to_string())
    );
}

#[test]
fn sort_media_types_basic_test() {
    assert_eq!(
        sort_media_types(&vec![h("text/plain")]),
        vec![h("text/plain")]
    );
    assert_eq!(
        sort_media_types(&vec![h("text/plain"), h("text/html")]),
        vec![h("text/plain"), h("text/html")]
    );
    assert_eq!(
        sort_media_types(&vec![h("text/*"), h("text/html")]),
        vec![h("text/html"), h("text/*")]
    );
    assert_eq!(
        sort_media_types(&vec![h("*/*"), h("text/*"), h("text/html")]),
        vec![h("text/html"), h("text/*"), h("*/*")]
    );
}

#[test]
fn sort_media_types_with_quality_weighting() {
    assert_eq!(
        sort_media_types(&vec![h("text/plain;q=0.2")]),
        vec![h("text/plain;q=0.2")]
    );
    assert_eq!(
        sort_media_types(&vec![h("text/plain;q=0.2"), h("text/html;q=0.3")]),
        vec![h("text/html;q=0.3"), h("text/plain;q=0.2")]
    );
    assert_eq!(
        sort_media_types(&vec![h("text/plain;q=0.2"), h("text/html")]),
        vec![h("text/html"), h("text/plain;q=0.2")]
    );
    assert_eq!(
        sort_media_types(&vec![h("audio/*; q=0.2"), h("audio/basic")]),
        vec![h("audio/basic"), h("audio/*;q=0.2")]
    );
    assert_eq!(
        sort_media_types(&vec![h("audio/*;q=1"), h("audio/basic;q=0.5")]),
        vec![h("audio/*;q=1"), h("audio/basic;q=0.5")]
    );
    assert_eq!(
        sort_media_types(&vec![
            h("text/plain; q=0.5"),
            h("text/html"),
            h("text/x-dvi; q=0.8"),
            h("text/x-c")
        ]),
        vec![
            h("text/html"),
            h("text/x-c"),
            h("text/x-dvi;q=0.8"),
            h("text/plain;q=0.5")
        ]
    );
}

#[test]
fn parse_media_type_test() {
    assert_eq!(
        MediaType::parse_string("text/plain"),
        MediaType {
            main: "text".to_string(),
            sub: "plain".to_string(),
            weight: 1000
        }
    );
    assert_eq!(
        MediaType::parse_string("text/*"),
        MediaType {
            main: "text".to_string(),
            sub: "*".to_string(),
            weight: 1000
        }
    );
    assert_eq!(
        MediaType::parse_string("*/*"),
        MediaType {
            main: "*".to_string(),
            sub: "*".to_string(),
            weight: 1000
        }
    );
    assert_eq!(
        MediaType::parse_string("text/"),
        MediaType {
            main: "text".to_string(),
            sub: "*".to_string(),
            weight: 1000
        }
    );
    assert_eq!(
        MediaType::parse_string("text"),
        MediaType {
            main: "text".to_string(),
            sub: "*".to_string(),
            weight: 1000
        }
    );
    assert_eq!(
        MediaType::parse_string(""),
        MediaType {
            main: "*".to_string(),
            sub: "*".to_string(),
            weight: 1000
        }
    );
}

#[test]
fn media_type_matches_test() {
    let media_type = MediaType {
        main: "application".to_string(),
        sub: "json".to_string(),
        weight: 1000,
    };
    assert_eq!(
        media_type.matches(&MediaType {
            main: "application".to_string(),
            sub: "json".to_string(),
            weight: 1000
        }),
        MediaTypeMatch::Full
    );
    assert_eq!(
        media_type.matches(&MediaType {
            main: "application".to_string(),
            sub: "*".to_string(),
            weight: 1000
        }),
        MediaTypeMatch::SubStar
    );
    assert_eq!(
        media_type.matches(&MediaType {
            main: "*".to_string(),
            sub: "*".to_string(),
            weight: 1000
        }),
        MediaTypeMatch::Star
    );
    assert_eq!(
        media_type.matches(&MediaType {
            main: "application".to_string(),
            sub: "application".to_string(),
            weight: 1000
        }),
        MediaTypeMatch::NoMatch
    );
}

#[test]
fn matching_language_matches_if_no_accept_header_is_provided() {
    let resource = Resource::default();
    let request = Request::default();
    assert_eq!(matching_language(&resource, &request), Some("*".to_string()));
}

#[test]
fn matching_language_matches_if_the_resource_does_not_define_any_language() {
    let resource = Resource::default();
    let request = request_with("Accept-Language", vec![h("en-gb")]);
    assert_eq!(
        matching_language(&resource, &request),
        Some("en-gb".to_string())
    );
}

#[test]
fn matching_language_matches_if_the_request_language_is_empty() {
    let resource = Resource {
        languages_provided: svec(&["x-pig-latin"]),
        ..Resource::default()
    };
    let request = request_with("Accept-Language", Vec::new());
    assert_eq!(
        matching_language(&resource, &request),
        Some("x-pig-latin".to_string())
    );
}

#[test]
fn matching_language_matches_exact_language() {
    let resource = Resource {
        languages_provided: svec(&["en-gb"]),
        ..Resource::default()
    };
    let request = request_with("Accept-Language", vec![h("en-gb")]);
    assert_eq!(
        matching_language(&resource, &request),
        Some("en-gb".to_string())
    );
}

#[test]
fn matching_language_wild_card() {
    let resource = Resource {
        languages_provided: svec(&["en-gb"]),
        ..Resource::default()
    };
    let request = request_with("Accept-Language", vec![h("*")]);
    assert_eq!(
        matching_language(&resource, &request),
        Some("en-gb".to_string())
    );
}

#[test]
fn matching_language_matches_prefix() {
    let resource = Resource {
        languages_provided: svec(&["en"]),
        ..Resource::default()
    };
    let request = request_with("Accept-Language", vec![h("en-gb")]);
    assert_eq!(matching_language(&resource, &request), Some("en".to_string()));
}

#[test]
fn matching_language_does_not_match_prefix_if_it_does_not_end_with_dash() {
    let resource = Resource {
        languages_provided: svec(&["e"]),
        ..Resource::default()
    };
    let request = request_with("Accept-Language", vec![h("en-gb")]);
    assert_eq!(matching_language(&resource, &request), None);
}

#[test]
fn matching_language_does_not_match_if_quality_is_zero() {
    let resource = Resource {
        languages_provided: svec(&["en"]),
        ..Resource::default()
    };
    let request = request_with("Accept-Language", vec![h("en-gb;q=0")]);
    assert_eq!(matching_language(&resource, &request), None);
}

#[test]
fn matching_language_does_not_match_wildcard_if_quality_is_zero() {
    let resource = Resource {
        languages_provided: svec(&["en"]),
        ..Resource::default()
    };
    let request = request_with("Accept-Language", vec![h("*;q=0")]);
    assert_eq!(matching_language(&resource, &request), None);
}

#[test]
fn matches_most_specific_language() {
    let resource1 = Resource::default();
    let resource2 = Resource {
        languages_provided: svec(&["en-gb"]),
        ..Resource::default()
    };
    let resource3 = Resource {
        languages_provided: svec(&["en"]),
        ..Resource::default()
    };
    let resource4 = Resource {
        languages_provided: svec(&["en-gb", "da"]),
        ..Resource::default()
    };
    let request = request_with(
        "Accept-Language",
        vec![h("da"), h("en-gb;q=0.8"), h("en;q=0.7")],
    );
    assert_eq!(matching_language(&resource1, &request), Some("da".to_string()));
    assert_eq!(
        matching_language(&resource2, &request),
        Some("en-gb".to_string())
    );
    assert_eq!(matching_language(&resource3, &request), Some("en".to_string()));
    assert_eq!(matching_language(&resource4, &request), Some("da".to_string()));
}

#[test]
fn language_matches_test() {
    assert!(MediaLanguage::parse_string("en").matches(&MediaLanguage::parse_string("en")));
    assert!(!MediaLanguage::parse_string("en").matches(&MediaLanguage::parse_string("dn")));
    assert!(MediaLanguage::parse_string("en-gb").matches(&MediaLanguage::parse_string("en-gb")));
    assert!(MediaLanguage::parse_string("en-gb").matches(&MediaLanguage::parse_string("*")));
    assert!(MediaLanguage::parse_string("en").matches(&MediaLanguage::parse_string("en-gb")));
}

#[test]
fn matching_charset_matches_if_no_accept_header_is_provided() {
    let resource = Resource::default();
    let request = Request::default();
    assert_eq!(
        matching_charset(&resource, &request),
        Some("ISO-8859-1".to_string())
    );
}

#[test]
fn matching_charset_matches_if_the_resource_does_not_define_any_charset() {
    let resource = Resource::default();
    let request = request_with("Accept-Charset", vec![h("ISO-8859-5")]);
    assert_eq!(
        matching_charset(&resource, &request),
        Some("ISO-8859-5".to_string())
    );
}

#[test]
fn matching_charset_matches_if_the_request_language_is_empty() {
    let resource = Resource {
        charsets_provided: svec(&["Shift-JIS"]),
        ..Resource::default()
    };
    let request = request_with("Accept-Charset", Vec::new());
    assert_eq!(
        matching_charset(&resource, &request),
        Some("Shift-JIS".to_string())
    );
}

#[test]
fn matching_charset_matches_exact_charset() {
    let resource = Resource {
        charsets_provided: svec(&["ISO-8859-5"]),
        ..Resource::default()
    };
    let request = request_with("Accept-Charset", vec![h("ISO-8859-5")]);
    assert_eq!(
        matching_charset(&resource, &request),
        Some("ISO-8859-5".to_string())
    );
}

#[test]
fn matching_charset_wild_card() {
    let resource = Resource {
        charsets_provided: svec(&["US-ASCII"]),
        ..Resource::default()
    };
    let request = request_with("Accept-Charset", vec![h("*")]);
    assert_eq!(
        matching_charset(&resource, &request),
        Some("US-ASCII".to_string())
    );
}

#[test]
fn matching_charset_does_not_match_if_quality_is_zero() {
    let resource = Resource {
        charsets_provided: svec(&["US-ASCII"]),
        ..Resource::default()
    };
    let request = request_with("Accept-Charset", vec![h("US-ASCII;q=0")]);
    assert_eq!(matching_charset(&resource, &request), None);
}

#[test]
fn matches_most_specific_charset() {
    let resource1 = Resource::default();
    let resource2 = Resource {
        charsets_provided: svec(&["US-ASCII"]),
        ..Resource::default()
    };
    let resource3 = Resource {
        charsets_provided: svec(&["UTF-8"]),
        ..Resource::default()
    };
    let resource4 = Resource {
        charsets_provided: svec(&["UTF-8", "US-ASCII"]),
        ..Resource::default()
    };
    let request = request_with(
        "Accept-Charset",
        vec![h("ISO-8859-1"), h("UTF-8;q=0.8"), h("US-ASCII;q=0.7")],
    );
    assert_eq!(
        matching_charset(&resource1, &request),
        Some("ISO-8859-1".to_string())
    );
    assert_eq!(
        matching_charset(&resource2, &request),
        Some("US-ASCII".to_string())
    );
    assert_eq!(
        matching_charset(&resource3, &request),
        Some("UTF-8".to_string())
    );
    assert_eq!(
        matching_charset(&resource4, &request),
        Some("UTF-8".to_string())
    );
}

#[test]
fn sort_charsets_with_quality_weighting() {
    assert_eq!(
        sort_media_charsets(&vec![h("iso-8859-5")]),
        vec![
            Charset::parse_string("iso-8859-5"),
            Charset::parse_string("ISO-8859-1")
        ]
    );
    assert_eq!(
        sort_media_charsets(&vec![h("unicode-1-1;q=0.8"), h("iso-8859-5")]),
        vec![
            Charset::parse_string("iso-8859-5"),
            Charset::parse_string("ISO-8859-1"),
            Charset::parse_string("unicode-1-1").with_weight("0.8")
        ]
    );
    assert_eq!(
        sort_media_charsets(&vec![h("US-ASCII;q=0.8"), h("*;q=0.5")]),
        vec![
            Charset::parse_string("US-ASCII").with_weight("0.8"),
            Charset::parse_string("*").with_weight("0.5")
        ]
    );
    assert_eq!(
        sort_media_charsets(&vec![h("iso-8859-1; q=0.2"), h("iso-8859-5")]),
        vec![
            Charset::parse_string("iso-8859-5"),
            Charset::parse_string("iso-8859-1").with_weight("0.2")
        ]
    );
}

#[test]
fn charset_matches_test() {
    assert!(Charset::parse_string("iso-8859-5").matches(&Charset::parse_string("iso-8859-5")));
    assert!(!Charset::parse_string("iso-8859-5").matches(&Charset::parse_string("iso-8859-1")));
    assert!(Charset::parse_string("iso-8859-5").matches(&Charset::parse_string("ISO-8859-5")));
    assert!(Charset::parse_string("iso-8859-5").matches(&Charset::parse_string("*")));
}

#[test]
fn matching_encoding_matches_if_no_accept_header_is_provided() {
    let resource = Resource::default();
    let request = Request::default();
    assert_eq!(
        matching_encoding(&resource, &request),
        Some("identity".to_string())
    );
}

#[test]
fn matching_encoding_matches_if_the_resource_does_not_define_any_encoding_and_if_no_accept_header_is_provided(
) {
    let resource = Resource {
        encodings_provided: Vec::new(),
        ..Resource::default()
    };
    let request = Request::default();
    assert_eq!(
        matching_encoding(&resource, &request),
        Some("identity".to_string())
    );
}

#[test]
fn matching_encoding_does_not_match_if_the_resource_does_not_define_any_encoding() {
    let resource = Resource {
        encodings_provided: Vec::new(),
        ..Resource::default()
    };
    let request = request_with("Accept-Encoding", vec![h("compress"), h("*;q=0")]);
    assert_eq!(matching_encoding(&resource, &request), None);
}

#[test]
fn matching_encoding_matches_if_the_request_encoding_is_empty_and_the_resource_provides_identity()
{
    let resource = Resource {
        encodings_provided: svec(&["compress", "identity"]),
        ..Resource::default()
    };
    let request = request_with("Accept-Encoding", Vec::new());
    assert_eq!(
        matching_encoding(&resource, &request),
        Some("identity".to_string())
    );
}

#[test]
fn matching_encoding_does_not_match_if_the_request_encoding_is_empty_and_the_resource_does_not_provide_identity(
) {
    let resource = Resource {
        encodings_provided: svec(&["compress", "gzip"]),
        ..Resource::default()
    };
    let request = request_with("Accept-Encoding", Vec::new());
    assert_eq!(matching_encoding(&resource, &request), None);
}

#[test]
fn matching_encoding_matches_exact_encoding() {
    let resource = Resource {
        encodings_provided: svec(&["gzip"]),
        ..Resource::default()
    };
    let request = request_with("Accept-Encoding", vec![h("gzip")]);
    assert_eq!(matching_encoding(&resource, &request), Some("gzip".to_string()));
}

#[test]
fn matching_encoding_wild_card() {
    let resource = Resource {
        encodings_provided: svec(&["compress"]),
        ..Resource::default()
    };
    let request = request_with("Accept-Encoding", vec![h("*")]);
    assert_eq!(
        matching_encoding(&resource, &request),
        Some("compress".to_string())
    );
}

#[test]
fn matching_encoding_does_not_match_if_quality_is_zero() {
    let resource = Resource {
        encodings_provided: svec(&["gzip"]),
        ..Resource::default()
    };
    let request = request_with("Accept-Encoding", vec![h("gzip;q=0")]);
    assert_eq!(matching_encoding(&resource, &request), None);
}

#[test]
fn matching_encoding_does_not_match_if_star_quality_is_zero() {
    let resource = Resource {
        encodings_provided: svec(&["identity"]),
        ..Resource::default()
    };
    let request = request_with("Accept-Encoding", vec![h("*;q=0")]);
    assert_eq!(matching_encoding(&resource, &request), None);
}

#[test]
fn matching_encoding_always_matches_if_identity_is_available() {
    let resource = Resource {
        encodings_provided: svec(&["identity"]),
        ..Resource::default()
    };
    let request = request_with("Accept-Encoding", vec![h("gzip")]);
    assert_eq!(
        matching_encoding(&resource, &request),
        Some("identity".to_string())
    );
}

#[test]
fn matches_most_specific_encoding() {
    let resource1 = Resource::default();
    let resource2 = Resource {
        encodings_provided: svec(&["gzip"]),
        ..Resource::default()
    };
    let resource3 = Resource {
        encodings_provided: svec(&["compress", "identity"]),
        ..Resource::default()
    };
    let resource4 = Resource {
        encodings_provided: svec(&["compress", "gzip", "identity"]),
        ..Resource::default()
    };
    let request = request_with(
        "Accept-Encoding",
        vec![h("gzip;q=1.0"), h("*;q=0"), h("identity; q=0.5")],
    );
    assert_eq!(
        matching_encoding(&resource1, &request),
        Some("identity".to_string())
    );
    assert_eq!(matching_encoding(&resource2, &request), Some("gzip".to_string()));
    assert_eq!(
        matching_encoding(&resource3, &request),
        Some("identity".to_string())
    );
    assert_eq!(matching_encoding(&resource4, &request), Some("gzip".to_string()));
}

#[test]
fn sort_encodings_with_quality_weighting() {
    assert_eq!(
        sort_encodings(&vec![h("gzip")]),
        vec![
            Encoding::parse_string("gzip"),
            Encoding::parse_string("identity")
        ]
    );
    assert_eq!(
        sort_encodings(&vec![h("gzip;q=0.8"), h("compress")]),
        vec![
            Encoding::parse_string("compress"),
            Encoding::parse_string("identity"),
            Encoding::parse_string("gzip").with_weight("0.8")
        ]
    );
    assert_eq!(
        sort_encodings(&vec![h("gzip;q=0.8"), h("*;q=0.5")]),
        vec![
            Encoding::parse_string("gzip").with_weight("0.8"),
            Encoding::parse_string("*").with_weight("0.5")
        ]
    );
    assert_eq!(
        sort_encodings(&vec![h("gzip; q=0.2"), h("compress;q=0"), h("*;q=0")]),
        vec![Encoding::parse_string("gzip").with_weight("0.2")]
    );
}

#[test]
fn encoding_matches_test() {
    assert!(Encoding::parse_string("identity").matches(&Encoding::parse_string("identity")));
    assert!(!Encoding::parse_string("identity").matches(&Encoding::parse_string("gzip")));
    assert!(Encoding::parse_string("gzip").matches(&Encoding::parse_string("GZip")));
    assert!(Encoding::parse_string("compress").matches(&Encoding::parse_string("*")));
}

#[test]
fn sort_media_languages_drops_zero_weight_entries() {
    let sorted = sort_media_languages(&vec![h("da"), h("en-gb;q=0.8"), h("en;q=0")]);
    assert_eq!(
        sorted,
        vec![
            MediaLanguage {
                main: "da".to_string(),
                sub: "".to_string(),
                weight: 1000
            },
            MediaLanguage {
                main: "en".to_string(),
                sub: "gb".to_string(),
                weight: 800
            }
        ]
    );
}
