//! The carriers of a request's journey through the engine: the request, the
//! response being built, and the per-request context around both.

use vstd::prelude::*;

use crate::dates::Timestamp;
use crate::enums::Decision;
use crate::headers::{HeaderValue, HeaderValueView};
use crate::strutil::{eq_ignore_case, push_dv, spec_upper, str_eq};

verus! {

/// A named header list: name to ordered values, insertion order kept.
pub type Headers = Vec<(String, Vec<HeaderValue>)>;

/// The mathematical shape of a header list.
pub type HeadersView = Seq<(Seq<char>, Seq<HeaderValueView>)>;

/// The first list bound to `name`, compared without regard to ASCII case.
pub open spec fn spec_lookup_ci(hs: HeadersView, name: Seq<char>) -> Option<Seq<HeaderValueView>>
    decreases hs.len(),
{
    if hs.len() == 0 {
        None
    } else if spec_upper(hs[0].0) == spec_upper(name) {
        Some(hs[0].1)
    } else {
        spec_lookup_ci(hs.drop_first(), name)
    }
}

proof fn lemma_lookup_ci_at(hs: HeadersView, name: Seq<char>, i: int)
    requires
        0 <= i < hs.len(),
        spec_upper(hs[i].0) == spec_upper(name),
        forall|j: int| 0 <= j < i ==> spec_upper(#[trigger] hs[j].0) != spec_upper(name),
    ensures
        spec_lookup_ci(hs, name) == Some(hs[i].1),
    decreases hs.len(),
{
    if i > 0 {
        lemma_lookup_ci_at(hs.drop_first(), name, i - 1);
    }
}

proof fn lemma_lookup_ci_none(hs: HeadersView, name: Seq<char>)
    requires
        forall|j: int| 0 <= j < hs.len() ==> spec_upper(#[trigger] hs[j].0) != spec_upper(name),
    ensures
        spec_lookup_ci(hs, name) is None,
    decreases hs.len(),
{
    if hs.len() > 0 {
        lemma_lookup_ci_none(hs.drop_first(), name);
    }
}

/// A header list with `name` bound to `values`: an entry whose name matches
/// exactly is replaced in place, a new name goes to the end.
pub open spec fn spec_set_header(
    hs: HeadersView,
    name: Seq<char>,
    values: Seq<HeaderValueView>,
) -> HeadersView
    decreases hs.len(),
{
    if hs.len() == 0 {
        seq![(name, values)]
    } else if hs[0].0 == name {
        seq![(name, values)] + hs.drop_first()
    } else {
        seq![hs[0]] + spec_set_header(hs.drop_first(), name, values)
    }
}

/// A duplicate of one header value.
pub fn duplicate_header_value(hv: &HeaderValue) -> (r: HeaderValue)
    ensures
        r@ == hv@,
{
    let mut params: Vec<(String, String)> = Vec::new();
    let n = hv.params.len();
    let mut i: usize = 0;
    proof {
        assert(params.deep_view() =~= hv.params.deep_view().take(0));
    }
    while i < n
        invariant
            n == hv.params@.len(),
            i <= n,
            params.deep_view() == hv.params.deep_view().take(i as int),
        decreases n - i,
    {
        push_dv(&mut params, (hv.params[i].0.clone(), hv.params[i].1.clone()));
        proof {
            assert(params.deep_view() =~= hv.params.deep_view().take(i + 1));
        }
        i = i + 1;
    }
    let r = HeaderValue { value: hv.value.clone(), params, quote: hv.quote };
    proof {
        assert(hv.params.deep_view().take(n as int) =~= hv.params.deep_view());
        assert(r@ =~= hv@);
    }
    r
}

/// A duplicate of a list of header values.
pub fn duplicate_header_values(vs: &Vec<HeaderValue>) -> (r: Vec<HeaderValue>)
    ensures
        r.deep_view() == vs.deep_view(),
{
    let mut out: Vec<HeaderValue> = Vec::new();
    let n = vs.len();
    let mut i: usize = 0;
    proof {
        assert(out.deep_view() =~= vs.deep_view().take(0));
    }
    while i < n
        invariant
            n == vs@.len(),
            i <= n,
            out.deep_view() == vs.deep_view().take(i as int),
        decreases n - i,
    {
        push_dv(&mut out, duplicate_header_value(&vs[i]));
        proof {
            assert(out.deep_view() =~= vs.deep_view().take(i + 1));
        }
        i = i + 1;
    }
    proof {
        assert(vs.deep_view().take(n as int) =~= vs.deep_view());
    }
    out
}

fn lookup_ci<'a>(hs: &'a Headers, name: &str) -> (r: Option<&'a Vec<HeaderValue>>)
    ensures
        match r {
            Some(vs) => spec_lookup_ci(hs.deep_view(), name@) == Some(vs.deep_view()),
            None => spec_lookup_ci(hs.deep_view(), name@) is None,
        },
{
    let n = hs.len();
    let mut i: usize = 0;
    while i < n
        invariant
            n == hs@.len(),
            i <= n,
            forall|j: int| 0 <= j < i ==> spec_upper(#[trigger] hs.deep_view()[j].0) != spec_upper(
                name@,
            ),
        decreases n - i,
    {
        if eq_ignore_case(hs[i].0.as_str(), name) {
            proof {
                lemma_lookup_ci_at(hs.deep_view(), name@, i as int);
            }
            return Some(&hs[i].1);
        }
        i = i + 1;
    }
    proof {
        lemma_lookup_ci_none(hs.deep_view(), name@);
    }
    None
}

/// Binds `name` to `values` in a header list: replaces the entry whose name
/// matches exactly, else appends.
pub fn set_header(hs: &mut Headers, name: &str, values: Vec<HeaderValue>)
    ensures
        final(hs).deep_view() == spec_set_header(old(hs).deep_view(), name@, values.deep_view()),
{
    let n = hs.len();
    let mut i: usize = 0;
    while i < n
        invariant
            n == hs@.len(),
            i <= n,
            hs@ == old(hs)@,
            forall|j: int| 0 <= j < i ==> #[trigger] hs.deep_view()[j].0 != name@,
        decreases n - i,
    {
        if str_eq(hs[i].0.as_str(), name) {
            proof {
                assert(hs.deep_view()[i as int].0 == name@);
            }
            hs.set(i, (name.to_owned(), values));
            proof {
                assert(hs.deep_view()[i as int] == (name@, values.deep_view()));
                lemma_set_header_at(old(hs).deep_view(), hs.deep_view(), i as int);
            }
            return ;
        }
        i = i + 1;
    }
    proof {
        lemma_set_header_missing(hs.deep_view(), name@, values.deep_view());
    }
    hs.push((name.to_owned(), values));
    proof {
        assert(hs.deep_view() =~= old(hs).deep_view() + seq![(name@, values.deep_view())]);
    }
}

proof fn lemma_set_header_at(hs: HeadersView, updated: HeadersView, i: int)
    requires
        0 <= i < hs.len(),
        updated.len() == hs.len(),
        forall|j: int| 0 <= j < hs.len() && j != i ==> updated[j] == hs[j],
        forall|j: int| 0 <= j < i ==> #[trigger] hs[j].0 != updated[i].0,
        hs[i].0 == updated[i].0,
    ensures
        updated == spec_set_header(hs, updated[i].0, updated[i].1),
    decreases hs.len(),
{
    if i == 0 {
        assert(updated =~= seq![(updated[0].0, updated[0].1)] + hs.drop_first());
    } else {
        lemma_set_header_at(hs.drop_first(), updated.drop_first(), i - 1);
        assert(updated =~= seq![hs[0]] + updated.drop_first());
    }
}

proof fn lemma_set_header_missing(hs: HeadersView, name: Seq<char>, values: Seq<HeaderValueView>)
    requires
        forall|j: int| 0 <= j < hs.len() ==> #[trigger] hs[j].0 != name,
    ensures
        hs + seq![(name, values)] == spec_set_header(hs, name, values),
    decreases hs.len(),
{
    if hs.len() == 0 {
        assert(hs + seq![(name, values)] =~= seq![(name, values)]);
    } else {
        lemma_set_header_missing(hs.drop_first(), name, values);
        assert(hs + seq![(name, values)] =~= seq![hs[0]] + (hs.drop_first() + seq![
            (name, values),
        ]));
    }
}

/// The request the engine is executing against.
#[derive(Debug, Clone, PartialEq)]
pub struct Request {
    /// Path of the request relative to the matched resource.
    pub request_path: String,
    /// The resource base path chosen by the dispatcher.
    pub base_path: String,
    /// The request method.
    pub method: String,
    /// The request headers; lookups ignore ASCII case of the name.
    pub headers: Headers,
    /// The request body, if one was sent.
    pub body: Option<Vec<u8>>,
    /// Decoded query parameters, in order of first appearance.
    pub query: Vec<(String, Vec<String>)>,
}

/// The mathematical shape of a request.
#[verifier::ext_equal]
#[allow(missing_docs)]
pub struct RequestView {
    pub request_path: Seq<char>,
    pub base_path: Seq<char>,
    pub method: Seq<char>,
    pub headers: HeadersView,
    pub body: Option<Seq<u8>>,
    pub query: Seq<(Seq<char>, Seq<Seq<char>>)>,
}

impl View for Request {
    type V = RequestView;

    open spec fn view(&self) -> RequestView {
        RequestView {
            request_path: self.request_path@,
            base_path: self.base_path@,
            method: self.method@,
            headers: self.headers.deep_view(),
            body: self.body.deep_view(),
            query: self.query.deep_view(),
        }
    }
}

impl RequestView {
    /// The values of the named header; an absent header has none.
    pub open spec fn spec_find_header(self, name: Seq<char>) -> Seq<HeaderValueView> {
        match spec_lookup_ci(self.headers, name) {
            Some(vs) => vs,
            None => Seq::empty(),
        }
    }

    /// Whether the named header is present, in any casing.
    pub open spec fn spec_has_header(self, name: Seq<char>) -> bool {
        spec_lookup_ci(self.headers, name) is Some
    }

    /// Whether the named header carries the given primary value.
    pub open spec fn spec_has_header_value(self, name: Seq<char>, value: Seq<char>) -> bool {
        exists|i: int|
            0 <= i < self.spec_find_header(name).len() && #[trigger] self.spec_find_header(
                name,
            )[i].value == value
    }

    /// The request content type: the first `Content-Type` value, or
    /// `application/json` where the header is absent or empty.
    pub open spec fn spec_content_type(self) -> Seq<char> {
        if self.spec_find_header("Content-Type"@).len() > 0 {
            self.spec_find_header("Content-Type"@)[0].value
        } else {
            "application/json"@
        }
    }

    /// Whether the method equals `m` once case is folded away.
    pub open spec fn spec_method_is(self, m: Seq<char>) -> bool {
        spec_upper(self.method) == spec_upper(m)
    }
}

impl Request {
    /// Whether the request has the given header, in any casing.
    pub fn has_header(&self, header: &str) -> (r: bool)
        ensures
            r == self@.spec_has_header(header@),
    {
        lookup_ci(&self.headers, header).is_some()
    }

    /// The values of the given header; absent headers yield none.
    pub fn find_header(&self, header: &str) -> (r: Vec<HeaderValue>)
        ensures
            r.deep_view() == self@.spec_find_header(header@),
    {
        match lookup_ci(&self.headers, header) {
            Some(vs) => duplicate_header_values(vs),
            None => {
                let r: Vec<HeaderValue> = Vec::new();
                proof {
                    assert(r.deep_view() =~= Seq::<HeaderValueView>::empty());
                }
                r
            },
        }
    }

    /// Whether the given header carries the given primary value.
    pub fn has_header_value(&self, header: &str, value: &str) -> (r: bool)
        ensures
            r == self@.spec_has_header_value(header@, value@),
    {
        let vs = self.find_header(header);
        let n = vs.len();
        let mut i: usize = 0;
        while i < n
            invariant
                n == vs@.len(),
                vs.deep_view() == self@.spec_find_header(header@),
                i <= n,
                forall|j: int| 0 <= j < i ==> #[trigger] vs.deep_view()[j].value != value@,
            decreases n - i,
        {
            if vs[i].value_equals(value) {
                proof {
                    assert(self@.spec_find_header(header@)[i as int].value == value@);
                }
                return true;
            }
            i = i + 1;
        }
        false
    }

    /// The request content type, `application/json` when none was sent.
    pub fn content_type(&self) -> (r: String)
        ensures
            r@ == self@.spec_content_type(),
    {
        let vs = self.find_header("Content-Type");
        if vs.len() > 0 {
            vs[0].value.clone()
        } else {
            "application/json".to_owned()
        }
    }

    /// Whether the request is a PUT or a POST.
    pub fn is_put_or_post(&self) -> (r: bool)
        ensures
            r == (self@.spec_method_is("PUT"@) || self@.spec_method_is("POST"@)),
    {
        self.is_put() || self.is_post()
    }

    /// Whether the request is a GET or a HEAD.
    pub fn is_get_or_head(&self) -> (r: bool)
        ensures
            r == (self@.spec_method_is("GET"@) || self@.spec_method_is("HEAD"@)),
    {
        self.is_get() || eq_ignore_case(self.method.as_str(), "HEAD")
    }

    /// Whether the request is a GET.
    pub fn is_get(&self) -> (r: bool)
        ensures
            r == self@.spec_method_is("GET"@),
    {
        eq_ignore_case(self.method.as_str(), "GET")
    }

    /// Whether the request is an OPTIONS.
    pub fn is_options(&self) -> (r: bool)
        ensures
            r == self@.spec_method_is("OPTIONS"@),
    {
        eq_ignore_case(self.method.as_str(), "OPTIONS")
    }

    /// Whether the request is a PUT.
    pub fn is_put(&self) -> (r: bool)
        ensures
            r == self@.spec_method_is("PUT"@),
    {
        eq_ignore_case(self.method.as_str(), "PUT")
    }

    /// Whether the request is a POST.
    pub fn is_post(&self) -> (r: bool)
        ensures
            r == self@.spec_method_is("POST"@),
    {
        eq_ignore_case(self.method.as_str(), "POST")
    }

    /// Whether the request is a DELETE.
    pub fn is_delete(&self) -> (r: bool)
        ensures
            r == self@.spec_method_is("DELETE"@),
    {
        eq_ignore_case(self.method.as_str(), "DELETE")
    }

    /// Whether an Accept header exists.
    pub fn has_accept_header(&self) -> (r: bool)
        ensures
            r == self@.spec_has_header("ACCEPT"@),
    {
        self.has_header("ACCEPT")
    }

    /// The acceptable media types from the Accept header.
    pub fn accept(&self) -> (r: Vec<HeaderValue>)
        ensures
            r.deep_view() == self@.spec_find_header("ACCEPT"@),
    {
        self.find_header("ACCEPT")
    }

    /// Whether an Accept-Language header exists.
    pub fn has_accept_language_header(&self) -> (r: bool)
        ensures
            r == self@.spec_has_header("ACCEPT-LANGUAGE"@),
    {
        self.has_header("ACCEPT-LANGUAGE")
    }

    /// The acceptable languages from the Accept-Language header.
    pub fn accept_language(&self) -> (r: Vec<HeaderValue>)
        ensures
            r.deep_view() == self@.spec_find_header("ACCEPT-LANGUAGE"@),
    {
        self.find_header("ACCEPT-LANGUAGE")
    }

    /// Whether an Accept-Charset header exists.
    pub fn has_accept_charset_header(&self) -> (r: bool)
        ensures
            r == self@.spec_has_header("ACCEPT-CHARSET"@),
    {
        self.has_header("ACCEPT-CHARSET")
    }

    /// The acceptable charsets from the Accept-Charset header.
    pub fn accept_charset(&self) -> (r: Vec<HeaderValue>)
        ensures
            r.deep_view() == self@.spec_find_header("ACCEPT-CHARSET"@),
    {
        self.find_header("ACCEPT-CHARSET")
    }

    /// Whether an Accept-Encoding header exists.
    pub fn has_accept_encoding_header(&self) -> (r: bool)
        ensures
            r == self@.spec_has_header("ACCEPT-ENCODING"@),
    {
        self.has_header("ACCEPT-ENCODING")
    }

    /// The acceptable encodings from the Accept-Encoding header.
    pub fn accept_encoding(&self) -> (r: Vec<HeaderValue>)
        ensures
            r.deep_view() == self@.spec_find_header("ACCEPT-ENCODING"@),
    {
        self.find_header("ACCEPT-ENCODING")
    }
}

impl Default for Request {
    /// A default request: GET on the root path with nothing else set.
    fn default() -> (r: Request)
        ensures
            r@.request_path == "/"@,
            r@.base_path == "/"@,
            r@.method == "GET"@,
            r@.headers == Seq::<(Seq<char>, Seq<HeaderValueView>)>::empty(),
            r@.body is None,
            r@.query == Seq::<(Seq<char>, Seq<Seq<char>>)>::empty(),
    {
        let r = Request {
            request_path: "/".to_owned(),
            base_path: "/".to_owned(),
            method: "GET".to_owned(),
            headers: Vec::new(),
            body: None,
            query: Vec::new(),
        };
        proof {
            assert(r@.headers =~= Seq::<(Seq<char>, Seq<HeaderValueView>)>::empty());
            assert(r@.query =~= Seq::<(Seq<char>, Seq<Seq<char>>)>::empty());
        }
        r
    }
}

/// The response the engine is building.
#[derive(Debug, Clone, PartialEq)]
pub struct Response {
    /// The status code to return.
    pub status: u16,
    /// The response headers, in insertion order.
    pub headers: Headers,
    /// The response body, if one has been produced.
    pub body: Option<Vec<u8>>,
}

/// The mathematical shape of a response.
#[verifier::ext_equal]
#[allow(missing_docs)]
pub struct ResponseView {
    pub status: u16,
    pub headers: HeadersView,
    pub body: Option<Seq<u8>>,
}

impl View for Response {
    type V = ResponseView;

    open spec fn view(&self) -> ResponseView {
        ResponseView {
            status: self.status,
            headers: self.headers.deep_view(),
            body: self.body.deep_view(),
        }
    }
}

impl ResponseView {
    /// Whether the named header is present, in any casing.
    pub open spec fn spec_has_header(self, name: Seq<char>) -> bool {
        spec_lookup_ci(self.headers, name) is Some
    }

    /// Whether a non-empty body has been produced.
    pub open spec fn spec_has_body(self) -> bool {
        self.body matches Some(b) && b.len() > 0
    }
}

/// The standard CORS headers for the given allowed methods.
pub open spec fn spec_cors_headers(methods: Seq<Seq<char>>) -> Seq<(Seq<char>, Seq<Seq<char>>)> {
    seq![
        ("Access-Control-Allow-Origin"@, seq!["*"@]),
        ("Access-Control-Allow-Methods"@, methods),
        ("Access-Control-Allow-Headers"@, seq!["Content-Type"@]),
    ]
}

/// Each plain string as an unquoted header value without parameters.
pub open spec fn spec_basic_values(vs: Seq<Seq<char>>) -> Seq<HeaderValueView> {
    vs.map_values(
        |v: Seq<char>| HeaderValueView { value: v, params: Seq::empty(), quote: false },
    )
}

/// A header list after binding each of `add` in turn, values made basic.
pub open spec fn spec_add_headers(
    hs: HeadersView,
    add: Seq<(Seq<char>, Seq<Seq<char>>)>,
) -> HeadersView
    decreases add.len(),
{
    if add.len() == 0 {
        hs
    } else {
        spec_add_headers(spec_set_header(hs, add[0].0, spec_basic_values(add[0].1)), add.drop_first())
    }
}

impl Response {
    /// A fresh response: 200 with no headers and no body.
    pub fn default() -> (r: Response)
        ensures
            r@.status == 200,
            r@.headers == Seq::<(Seq<char>, Seq<HeaderValueView>)>::empty(),
            r@.body is None,
    {
        let r = Response { status: 200, headers: Vec::new(), body: None };
        proof {
            assert(r@.headers =~= Seq::<(Seq<char>, Seq<HeaderValueView>)>::empty());
        }
        r
    }

    /// Whether the response has the given header, in any casing.
    pub fn has_header(&self, header: &str) -> (r: bool)
        ensures
            r == self@.spec_has_header(header@),
    {
        lookup_ci(&self.headers, header).is_some()
    }

    /// Binds the header to the given values; an entry with exactly this
    /// name is replaced, otherwise the header is appended.
    pub fn add_header(&mut self, header: &str, values: Vec<HeaderValue>)
        ensures
            final(self)@.headers == spec_set_header(
                old(self)@.headers,
                header@,
                values.deep_view(),
            ),
            final(self)@.status == old(self)@.status,
            final(self)@.body == old(self)@.body,
    {
        set_header(&mut self.headers, header, values);
    }

    /// Binds each given name to its values, each value as a basic header
    /// value.
    pub fn add_headers(&mut self, headers: Vec<(String, Vec<String>)>)
        ensures
            final(self)@.headers == spec_add_headers(old(self)@.headers, headers.deep_view()),
            final(self)@.status == old(self)@.status,
            final(self)@.body == old(self)@.body,
    {
        let n = headers.len();
        let mut i: usize = 0;
        proof {
            assert(headers.deep_view().skip(0) =~= headers.deep_view());
        }
        while i < n
            invariant
                n == headers@.len(),
                i <= n,
                self@.status == old(self)@.status,
                self@.body == old(self)@.body,
                spec_add_headers(old(self)@.headers, headers.deep_view()) == spec_add_headers(
                    self@.headers,
                    headers.deep_view().skip(i as int),
                ),
            decreases n - i,
        {
            proof {
                assert(headers.deep_view().skip(i as int)[0] == headers.deep_view()[i as int]);
                assert(headers.deep_view().skip(i as int).drop_first() =~= headers.deep_view()
                    .skip(i + 1));
            }
            let mut values: Vec<HeaderValue> = Vec::new();
            let m = headers[i].1.len();
            let mut j: usize = 0;
            proof {
                assert(values.deep_view() =~= spec_basic_values(
                    headers.deep_view()[i as int].1,
                ).take(0));
            }
            while j < m
                invariant
                    m == headers@[i as int].1@.len(),
                    i < n == headers@.len(),
                    j <= m,
                    values.deep_view() == spec_basic_values(
                        headers.deep_view()[i as int].1,
                    ).take(j as int),
                decreases m - j,
            {
                push_dv(&mut values, HeaderValue::basic(headers[i].1[j].as_str()));
                proof {
                    assert(spec_basic_values(headers.deep_view()[i as int].1)[j as int]
                        == (HeaderValueView {
                        value: headers.deep_view()[i as int].1[j as int],
                        params: Seq::empty(),
                        quote: false,
                    }));
                    assert(values.deep_view() =~= spec_basic_values(
                        headers.deep_view()[i as int].1,
                    ).take(j + 1));
                }
                j = j + 1;
            }
            proof {
                assert(values.deep_view() =~= spec_basic_values(headers.deep_view()[i as int].1));
            }
            self.add_header(headers[i].0.as_str(), values);
            i = i + 1;
        }
        proof {
            assert(headers.deep_view().skip(n as int) =~= Seq::<
                (Seq<char>, Seq<Seq<char>>),
            >::empty());
        }
    }

    /// The standard CORS headers for the given allowed methods.
    pub fn cors_headers(allowed_methods: &Vec<String>) -> (r: Vec<(String, Vec<String>)>)
        ensures
            r.deep_view() == spec_cors_headers(allowed_methods.deep_view()),
    {
        let mut methods: Vec<String> = Vec::new();
        let n = allowed_methods.len();
        let mut i: usize = 0;
        proof {
            assert(methods.deep_view() =~= allowed_methods.deep_view().take(0));
        }
        while i < n
            invariant
                n == allowed_methods@.len(),
                i <= n,
                methods.deep_view() == allowed_methods.deep_view().take(i as int),
            decreases n - i,
        {
            push_dv(&mut methods, allowed_methods[i].clone());
            proof {
                assert(methods.deep_view() =~= allowed_methods.deep_view().take(i + 1));
            }
            i = i + 1;
        }
        proof {
            assert(allowed_methods.deep_view().take(n as int) =~= allowed_methods.deep_view());
        }
        let mut r: Vec<(String, Vec<String>)> = Vec::new();
        let mut origin: Vec<String> = Vec::new();
        origin.push("*".to_owned());
        let entry_origin = ("Access-Control-Allow-Origin".to_owned(), origin);
        r.push(entry_origin);
        let entry_methods = ("Access-Control-Allow-Methods".to_owned(), methods);
        r.push(entry_methods);
        let mut allow_headers: Vec<String> = Vec::new();
        allow_headers.push("Content-Type".to_owned());
        let entry_allow = ("Access-Control-Allow-Headers".to_owned(), allow_headers);
        r.push(entry_allow);
        proof {
            assert(r.deep_view() =~~= spec_cors_headers(allowed_methods.deep_view()));
        }
        r
    }

    /// Adds the standard CORS headers for the given allowed methods.
    pub fn add_cors_headers(&mut self, allowed_methods: &Vec<String>)
        ensures
            final(self)@.headers == spec_add_headers(
                old(self)@.headers,
                spec_cors_headers(allowed_methods.deep_view()),
            ),
            final(self)@.status == old(self)@.status,
            final(self)@.body == old(self)@.body,
    {
        let cors = Response::cors_headers(allowed_methods);
        self.add_headers(cors);
    }

    /// Whether the response carries a non-empty body.
    pub fn has_body(&self) -> (r: bool)
        ensures
            r == self@.spec_has_body(),
    {
        match &self.body {
            None => false,
            Some(body) => body.len() > 0,
        }
    }
}

/// One recorded step of a run: the node, the branch taken, and where it led.
pub type TraceStep = (Decision, bool, Decision);

/// The per-request context: the request, the response being built, the
/// negotiation outcomes, parsed conditional dates, and scratch state.
#[derive(Debug, Clone, PartialEq)]
pub struct Context {
    /// The request driving the run.
    pub request: Request,
    /// The response the run is building.
    pub response: Response,
    /// The media type chosen by content negotiation.
    pub selected_media_type: Option<String>,
    /// The language chosen by content negotiation.
    pub selected_language: Option<String>,
    /// The charset chosen by content negotiation.
    pub selected_charset: Option<String>,
    /// The encoding chosen by content negotiation.
    pub selected_encoding: Option<String>,
    /// The parsed If-Unmodified-Since header, once validated.
    pub if_unmodified_since: Option<Timestamp>,
    /// The parsed If-Modified-Since header, once validated.
    pub if_modified_since: Option<Timestamp>,
    /// Whether the response should be a redirect.
    pub redirect: bool,
    /// Whether a new resource was created.
    pub new_resource: bool,
    /// Scratch metadata, opaque to the engine.
    pub metadata: Vec<(String, String)>,
    /// The decisions taken so far: node, branch, next node.
    pub decisions: Vec<TraceStep>,
}

/// The mathematical shape of a context.
#[verifier::ext_equal]
#[allow(missing_docs)]
pub struct ContextView {
    pub request: RequestView,
    pub response: ResponseView,
    pub selected_media_type: Option<Seq<char>>,
    pub selected_language: Option<Seq<char>>,
    pub selected_charset: Option<Seq<char>>,
    pub selected_encoding: Option<Seq<char>>,
    pub if_unmodified_since: Option<Timestamp>,
    pub if_modified_since: Option<Timestamp>,
    pub redirect: bool,
    pub new_resource: bool,
    pub metadata: Seq<(Seq<char>, Seq<char>)>,
    pub decisions: Seq<TraceStep>,
}

impl View for Context {
    type V = ContextView;

    open spec fn view(&self) -> ContextView {
        ContextView {
            request: self.request@,
            response: self.response@,
            selected_media_type: self.selected_media_type.deep_view(),
            selected_language: self.selected_language.deep_view(),
            selected_charset: self.selected_charset.deep_view(),
            selected_encoding: self.selected_encoding.deep_view(),
            if_unmodified_since: self.if_unmodified_since,
            if_modified_since: self.if_modified_since,
            redirect: self.redirect,
            new_resource: self.new_resource,
            metadata: self.metadata.deep_view(),
            decisions: self.decisions@,
        }
    }
}

impl Default for Context {
    /// A default context: default request and response, nothing selected.
    fn default() -> (r: Context)
        ensures
            r@.request.request_path == "/"@,
            r@.request.base_path == "/"@,
            r@.request.method == "GET"@,
            r@.request.headers == Seq::<(Seq<char>, Seq<HeaderValueView>)>::empty(),
            r@.request.body is None,
            r@.request.query == Seq::<(Seq<char>, Seq<Seq<char>>)>::empty(),
            r@.response.status == 200,
            r@.response.headers == Seq::<(Seq<char>, Seq<HeaderValueView>)>::empty(),
            r@.response.body is None,
            r@.selected_media_type is None,
            r@.selected_language is None,
            r@.selected_charset is None,
            r@.selected_encoding is None,
            r@.if_unmodified_since is None,
            r@.if_modified_since is None,
            !r@.redirect,
            !r@.new_resource,
            r@.metadata == Seq::<(Seq<char>, Seq<char>)>::empty(),
            r@.decisions == Seq::<TraceStep>::empty(),
    {
        let r = Context {
            request: Request::default(),
            response: Response::default(),
            selected_media_type: None,
            selected_language: None,
            selected_charset: None,
            selected_encoding: None,
            if_unmodified_since: None,
            if_modified_since: None,
            redirect: false,
            new_resource: false,
            metadata: Vec::new(),
            decisions: Vec::new(),
        };
        proof {
            assert(r@.metadata =~= Seq::<(Seq<char>, Seq<char>)>::empty());
        }
        r
    }
}

} // verus!
