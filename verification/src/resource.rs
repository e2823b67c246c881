//! The resource descriptor: the static capability lists and the outcomes of
//! the behavioural callbacks that an application binds to one endpoint.
//!
//! The engine consumes outcomes as plain values; how an application computes
//! them (queries, clocks, side effects) stays outside the verified core. The
//! four fallible operations carry `Err(status)` to short-circuit a run.

use vstd::prelude::*;

use crate::context::spec_cors_headers;
use crate::dates::Timestamp;

verus! {

/// A resource: capability lists and callback outcomes, immutable per run.
#[derive(Debug, PartialEq)]
pub struct Resource {
    /// Whether the service is available; `false` yields 503.
    pub available: bool,
    /// Methods known to the resource; an unknown method yields 501.
    pub known_methods: Vec<String>,
    /// Whether the request URI is too long; `true` yields 414.
    pub uri_too_long: bool,
    /// Methods allowed on the resource; others yield 405 with `Allow`.
    pub allowed_methods: Vec<String>,
    /// Whether the request is malformed; `true` yields 400.
    pub malformed_request: bool,
    /// The authentication realm to challenge with, when not authorized.
    pub not_authorized: Option<String>,
    /// Whether the request is forbidden; `true` yields 403.
    pub forbidden: bool,
    /// Whether the request has content headers the resource cannot honour.
    pub unsupported_content_headers: bool,
    /// Content types accepted on PUT and POST; others yield 415.
    pub acceptable_content_types: Vec<String>,
    /// Whether the entity length of a PUT or POST is acceptable.
    pub valid_entity_length: bool,
    /// Headers answered to an OPTIONS request.
    pub options: Option<Vec<(String, Vec<String>)>>,
    /// Content types the resource can produce.
    pub produces: Vec<String>,
    /// Languages the resource provides; empty means any language.
    pub languages_provided: Vec<String>,
    /// Charsets the resource provides; empty means any charset.
    pub charsets_provided: Vec<String>,
    /// Encodings the resource provides.
    pub encodings_provided: Vec<String>,
    /// Extra header names for the response `Vary` header.
    pub variances: Vec<String>,
    /// Whether the resource exists.
    pub resource_exists: bool,
    /// Whether the resource existed previously.
    pub previously_existed: bool,
    /// A permanent new location, if the resource has moved for good.
    pub moved_permanently: Option<String>,
    /// A temporary new location, if the resource has moved for now.
    pub moved_temporarily: Option<String>,
    /// Whether a PUT would conflict; `true` yields 409.
    pub is_conflict: bool,
    /// Whether POST to a missing resource is accepted.
    pub allow_missing_post: bool,
    /// The entity tag of the representation, if one is defined.
    pub generate_etag: Option<String>,
    /// When the resource was last modified, if known.
    pub last_modified: Option<Timestamp>,
    /// The outcome of enacting a DELETE: done, pending, or a failure status.
    pub delete_resource: Result<bool, u16>,
    /// Whether a POST stands for creation at a fresh path.
    pub post_is_create: bool,
    /// The outcome of processing a plain POST.
    pub process_post: Result<bool, u16>,
    /// The path created for a creating POST; `None` echoes the request path.
    pub create_path: Option<Result<String, u16>>,
    /// The outcome of processing a PUT.
    pub process_put: Result<bool, u16>,
    /// Whether several representations exist; `true` yields 300.
    pub multiple_choices: bool,
    /// When the representation expires, if it does.
    pub expires: Option<Timestamp>,
    /// The body rendered for a plain GET, if any.
    pub render_response: Option<String>,
}

/// The mathematical shape of a resource.
#[verifier::ext_equal]
#[allow(missing_docs)]
pub struct ResourceView {
    pub available: bool,
    pub known_methods: Seq<Seq<char>>,
    pub uri_too_long: bool,
    pub allowed_methods: Seq<Seq<char>>,
    pub malformed_request: bool,
    pub not_authorized: Option<Seq<char>>,
    pub forbidden: bool,
    pub unsupported_content_headers: bool,
    pub acceptable_content_types: Seq<Seq<char>>,
    pub valid_entity_length: bool,
    pub options: Option<Seq<(Seq<char>, Seq<Seq<char>>)>>,
    pub produces: Seq<Seq<char>>,
    pub languages_provided: Seq<Seq<char>>,
    pub charsets_provided: Seq<Seq<char>>,
    pub encodings_provided: Seq<Seq<char>>,
    pub variances: Seq<Seq<char>>,
    pub resource_exists: bool,
    pub previously_existed: bool,
    pub moved_permanently: Option<Seq<char>>,
    pub moved_temporarily: Option<Seq<char>>,
    pub is_conflict: bool,
    pub allow_missing_post: bool,
    pub generate_etag: Option<Seq<char>>,
    pub last_modified: Option<Timestamp>,
    pub delete_resource: Result<bool, u16>,
    pub post_is_create: bool,
    pub process_post: Result<bool, u16>,
    pub create_path: Option<Result<Seq<char>, u16>>,
    pub process_put: Result<bool, u16>,
    pub multiple_choices: bool,
    pub expires: Option<Timestamp>,
    pub render_response: Option<Seq<char>>,
}

impl View for Resource {
    type V = ResourceView;

    open spec fn view(&self) -> ResourceView {
        ResourceView {
            available: self.available,
            known_methods: self.known_methods.deep_view(),
            uri_too_long: self.uri_too_long,
            allowed_methods: self.allowed_methods.deep_view(),
            malformed_request: self.malformed_request,
            not_authorized: self.not_authorized.deep_view(),
            forbidden: self.forbidden,
            unsupported_content_headers: self.unsupported_content_headers,
            acceptable_content_types: self.acceptable_content_types.deep_view(),
            valid_entity_length: self.valid_entity_length,
            options: match self.options {
                Some(ref hs) => Some(hs.deep_view()),
                None => None,
            },
            produces: self.produces.deep_view(),
            languages_provided: self.languages_provided.deep_view(),
            charsets_provided: self.charsets_provided.deep_view(),
            encodings_provided: self.encodings_provided.deep_view(),
            variances: self.variances.deep_view(),
            resource_exists: self.resource_exists,
            previously_existed: self.previously_existed,
            moved_permanently: self.moved_permanently.deep_view(),
            moved_temporarily: self.moved_temporarily.deep_view(),
            is_conflict: self.is_conflict,
            allow_missing_post: self.allow_missing_post,
            generate_etag: self.generate_etag.deep_view(),
            last_modified: self.last_modified,
            delete_resource: self.delete_resource,
            post_is_create: self.post_is_create,
            process_post: self.process_post,
            create_path: match self.create_path {
                Some(Ok(ref p)) => Some(Ok(p@)),
                Some(Err(code)) => Some(Err(code)),
                None => None,
            },
            process_put: self.process_put,
            multiple_choices: self.multiple_choices,
            expires: self.expires,
            render_response: self.render_response.deep_view(),
        }
    }
}

impl DeepView for Resource {
    type V = ResourceView;

    open spec fn deep_view(&self) -> ResourceView {
        self.view()
    }
}

impl ResourceView {
    /// Whether the timestamps the resource carries can be written as
    /// RFC 2822 dates, as the response finalizer must.
    pub open spec fn spec_wf(self) -> bool {
        &&& (self.last_modified matches Some(t) ==> t.spec_rfc2822_representable())
        &&& (self.expires matches Some(t) ==> t.spec_rfc2822_representable())
    }
}

/// The default allowed methods: OPTIONS, GET and HEAD.
pub open spec fn spec_default_allowed_methods() -> Seq<Seq<char>> {
    seq!["OPTIONS"@, "GET"@, "HEAD"@]
}

/// The nine standard methods a default resource knows.
pub open spec fn spec_default_known_methods() -> Seq<Seq<char>> {
    seq![
        "OPTIONS"@,
        "GET"@,
        "POST"@,
        "PUT"@,
        "DELETE"@,
        "HEAD"@,
        "TRACE"@,
        "CONNECT"@,
        "PATCH"@,
    ]
}

fn string_vec(items: &[&str]) -> (r: Vec<String>)
    ensures
        r.deep_view() == items.deep_view(),
{
    let mut out: Vec<String> = Vec::new();
    let n = items.len();
    let mut i: usize = 0;
    proof {
        assert(out.deep_view() =~= items.deep_view().take(0));
    }
    while i < n
        invariant
            n == items@.len(),
            i <= n,
            out.deep_view() == items.deep_view().take(i as int),
        decreases n - i,
    {
        crate::strutil::push_dv(&mut out, items[i].to_owned());
        proof {
            assert(out.deep_view() =~= items.deep_view().take(i + 1));
        }
        i = i + 1;
    }
    proof {
        assert(items.deep_view().take(n as int) =~= items.deep_view());
    }
    out
}

impl Default for Resource {
    /// The default resource: available and existing, GET-oriented, JSON.
    fn default() -> (r: Resource)
        ensures
            r@.available,
            r@.known_methods == spec_default_known_methods(),
            !r@.uri_too_long,
            r@.allowed_methods == spec_default_allowed_methods(),
            !r@.malformed_request,
            r@.not_authorized is None,
            !r@.forbidden,
            !r@.unsupported_content_headers,
            r@.acceptable_content_types == seq!["application/json"@],
            r@.valid_entity_length,
            r@.options == Some(spec_cors_headers(spec_default_allowed_methods())),
            r@.produces == seq!["application/json"@],
            r@.languages_provided == Seq::<Seq<char>>::empty(),
            r@.charsets_provided == Seq::<Seq<char>>::empty(),
            r@.encodings_provided == seq!["identity"@],
            r@.variances == Seq::<Seq<char>>::empty(),
            r@.resource_exists,
            !r@.previously_existed,
            r@.moved_permanently is None,
            r@.moved_temporarily is None,
            !r@.is_conflict,
            !r@.allow_missing_post,
            r@.generate_etag is None,
            r@.last_modified is None,
            r@.delete_resource == Result::<bool, u16>::Ok(true),
            !r@.post_is_create,
            r@.process_post == Result::<bool, u16>::Ok(false),
            r@.create_path is None,
            r@.process_put == Result::<bool, u16>::Ok(true),
            !r@.multiple_choices,
            r@.expires is None,
            r@.render_response is None,
            r@.spec_wf(),
    {
        let known = string_vec(
            &["OPTIONS", "GET", "POST", "PUT", "DELETE", "HEAD", "TRACE", "CONNECT", "PATCH"],
        );
        let allowed = string_vec(&["OPTIONS", "GET", "HEAD"]);
        let acceptable = string_vec(&["application/json"]);
        let produces = string_vec(&["application/json"]);
        let encodings = string_vec(&["identity"]);
        let options = crate::context::Response::cors_headers(&allowed);
        proof {
            assert(known.deep_view() =~~= spec_default_known_methods());
            assert(allowed.deep_view() =~~= spec_default_allowed_methods());
            assert(acceptable.deep_view() =~~= seq!["application/json"@]);
            assert(produces.deep_view() =~~= seq!["application/json"@]);
            assert(encodings.deep_view() =~~= seq!["identity"@]);
        }
        let r = Resource {
            available: true,
            known_methods: known,
            uri_too_long: false,
            allowed_methods: allowed,
            malformed_request: false,
            not_authorized: None,
            forbidden: false,
            unsupported_content_headers: false,
            acceptable_content_types: acceptable,
            valid_entity_length: true,
            options: Some(options),
            produces,
            languages_provided: Vec::new(),
            charsets_provided: Vec::new(),
            encodings_provided: encodings,
            variances: Vec::new(),
            resource_exists: true,
            previously_existed: false,
            moved_permanently: None,
            moved_temporarily: None,
            is_conflict: false,
            allow_missing_post: false,
            generate_etag: None,
            last_modified: None,
            delete_resource: Ok(true),
            post_is_create: false,
            process_post: Ok(false),
            create_path: None,
            process_put: Ok(true),
            multiple_choices: false,
            expires: None,
            render_response: None,
        };
        proof {
            assert(r@.languages_provided =~= Seq::<Seq<char>>::empty());
            assert(r@.charsets_provided =~= Seq::<Seq<char>>::empty());
            assert(r@.variances =~= Seq::<Seq<char>>::empty());
        }
        r
    }
}

} // verus!
