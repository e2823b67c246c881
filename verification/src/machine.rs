//! The decision state machine: the fixed transition table, the evaluation
//! of each node against the context and the resource, and the loop that
//! drives a request from `Start` to a terminal node.

use vstd::prelude::*;

use crate::content_negotiation::{
    matching_charset, matching_content_type, matching_encoding, matching_language,
    spec_matching_charset, spec_matching_content_type, spec_matching_encoding,
    spec_matching_language,
};
use crate::context::{
    spec_add_headers, spec_basic_values, spec_set_header, Context, ContextView, Request,
    RequestView, ResponseView,
};
use crate::dates::{now_millis, rfc2822_date, Timestamp};
use crate::enums::{Decision, DecisionResult, Transition, MAX_STATE_MACHINE_TRANSITIONS};
use crate::headers::{spec_parse_header_value, spec_weak_etag, HeaderValue, HeaderValueView};
use crate::paths::{join_paths, sanitise_path, spec_join_paths, spec_sanitise_path};
use crate::resource::{Resource, ResourceView};
use crate::strutil::{push_dv, spec_starts_with, spec_upper, starts_with, str_eq};

verus! {

/// The transition out of a node, exactly as the decision graph fixes it;
/// terminal nodes have none.
pub open spec fn spec_transition(d: Decision) -> Option<Transition> {
    match d {
        Decision::Start => Some(Transition::To(Decision::B13Available)),
        Decision::End(_) => None,
        Decision::A3Options => None,
        Decision::B3Options => Some(
            Transition::Branch(Decision::A3Options, Decision::C3AcceptExists),
        ),
        Decision::B4RequestEntityTooLarge => Some(
            Transition::Branch(Decision::End(413), Decision::B3Options),
        ),
        Decision::B5UnknownContentType => Some(
            Transition::Branch(Decision::End(415), Decision::B4RequestEntityTooLarge),
        ),
        Decision::B6UnsupportedContentHeader => Some(
            Transition::Branch(Decision::End(501), Decision::B5UnknownContentType),
        ),
        Decision::B7Forbidden => Some(
            Transition::Branch(Decision::End(403), Decision::B6UnsupportedContentHeader),
        ),
        Decision::B8Authorized => Some(
            Transition::Branch(Decision::B7Forbidden, Decision::End(401)),
        ),
        Decision::B9MalformedRequest => Some(
            Transition::Branch(Decision::End(400), Decision::B8Authorized),
        ),
        Decision::B10MethodAllowed => Some(
            Transition::Branch(Decision::B9MalformedRequest, Decision::End(405)),
        ),
        Decision::B11UriTooLong => Some(
            Transition::Branch(Decision::End(414), Decision::B10MethodAllowed),
        ),
        Decision::B12KnownMethod => Some(
            Transition::Branch(Decision::B11UriTooLong, Decision::End(501)),
        ),
        Decision::B13Available => Some(
            Transition::Branch(Decision::B12KnownMethod, Decision::End(503)),
        ),
        Decision::C3AcceptExists => Some(
            Transition::Branch(
                Decision::C4AcceptableMediaTypeAvailable,
                Decision::D4AcceptLanguageExists,
            ),
        ),
        Decision::C4AcceptableMediaTypeAvailable => Some(
            Transition::Branch(Decision::D4AcceptLanguageExists, Decision::End(406)),
        ),
        Decision::D4AcceptLanguageExists => Some(
            Transition::Branch(
                Decision::D5AcceptableLanguageAvailable,
                Decision::E5AcceptCharsetExists,
            ),
        ),
        Decision::D5AcceptableLanguageAvailable => Some(
            Transition::Branch(Decision::E5AcceptCharsetExists, Decision::End(406)),
        ),
        Decision::E5AcceptCharsetExists => Some(
            Transition::Branch(
                Decision::E6AcceptableCharsetAvailable,
                Decision::F6AcceptEncodingExists,
            ),
        ),
        Decision::E6AcceptableCharsetAvailable => Some(
            Transition::Branch(Decision::F6AcceptEncodingExists, Decision::End(406)),
        ),
        Decision::F6AcceptEncodingExists => Some(
            Transition::Branch(
                Decision::F7AcceptableEncodingAvailable,
                Decision::G7ResourceExists,
            ),
        ),
        Decision::F7AcceptableEncodingAvailable => Some(
            Transition::Branch(Decision::G7ResourceExists, Decision::End(406)),
        ),
        Decision::G7ResourceExists => Some(
            Transition::Branch(Decision::G8IfMatchExists, Decision::H7IfMatchStarExists),
        ),
        Decision::G8IfMatchExists => Some(
            Transition::Branch(
                Decision::G9IfMatchStarExists,
                Decision::H10IfUnmodifiedSinceExists,
            ),
        ),
        Decision::G9IfMatchStarExists => Some(
            Transition::Branch(
                Decision::H10IfUnmodifiedSinceExists,
                Decision::G11EtagInIfMatch,
            ),
        ),
        Decision::G11EtagInIfMatch => Some(
            Transition::Branch(Decision::H10IfUnmodifiedSinceExists, Decision::End(412)),
        ),
        Decision::H7IfMatchStarExists => Some(
            Transition::Branch(Decision::End(412), Decision::I7Put),
        ),
        Decision::H10IfUnmodifiedSinceExists => Some(
            Transition::Branch(
                Decision::H11IfUnmodifiedSinceValid,
                Decision::I12IfNoneMatchExists,
            ),
        ),
        Decision::H11IfUnmodifiedSinceValid => Some(
            Transition::Branch(
                Decision::H12LastModifiedGreaterThanUMS,
                Decision::I12IfNoneMatchExists,
            ),
        ),
        Decision::H12LastModifiedGreaterThanUMS => Some(
            Transition::Branch(Decision::End(412), Decision::I12IfNoneMatchExists),
        ),
        Decision::I4HasMovedPermanently => Some(
            Transition::Branch(Decision::End(301), Decision::P3Conflict),
        ),
        Decision::I7Put => Some(
            Transition::Branch(
                Decision::I4HasMovedPermanently,
                Decision::K7ResourcePreviouslyExisted,
            ),
        ),
        Decision::I12IfNoneMatchExists => Some(
            Transition::Branch(
                Decision::I13IfNoneMatchStarExists,
                Decision::L13IfModifiedSinceExists,
            ),
        ),
        Decision::I13IfNoneMatchStarExists => Some(
            Transition::Branch(Decision::J18GetHead, Decision::K13ETagInIfNoneMatch),
        ),
        Decision::J18GetHead => Some(
            Transition::Branch(Decision::End(304), Decision::End(412)),
        ),
        Decision::K13ETagInIfNoneMatch => Some(
            Transition::Branch(Decision::J18GetHead, Decision::L13IfModifiedSinceExists),
        ),
        Decision::K5HasMovedPermanently => Some(
            Transition::Branch(Decision::End(301), Decision::L5HasMovedTemporarily),
        ),
        Decision::K7ResourcePreviouslyExisted => Some(
            Transition::Branch(Decision::K5HasMovedPermanently, Decision::L7Post),
        ),
        Decision::L5HasMovedTemporarily => Some(
            Transition::Branch(Decision::End(307), Decision::M5Post),
        ),
        Decision::L7Post => Some(
            Transition::Branch(Decision::M7PostToMissingResource, Decision::End(404)),
        ),
        Decision::L13IfModifiedSinceExists => Some(
            Transition::Branch(Decision::L14IfModifiedSinceValid, Decision::M16Delete),
        ),
        Decision::L14IfModifiedSinceValid => Some(
            Transition::Branch(
                Decision::L15IfModifiedSinceGreaterThanNow,
                Decision::M16Delete,
            ),
        ),
        Decision::L15IfModifiedSinceGreaterThanNow => Some(
            Transition::Branch(Decision::M16Delete, Decision::L17IfLastModifiedGreaterThanMS),
        ),
        Decision::L17IfLastModifiedGreaterThanMS => Some(
            Transition::Branch(Decision::M16Delete, Decision::End(304)),
        ),
        Decision::M5Post => Some(
            Transition::Branch(Decision::N5PostToMissingResource, Decision::End(410)),
        ),
        Decision::M7PostToMissingResource => Some(
            Transition::Branch(Decision::N11Redirect, Decision::End(404)),
        ),
        Decision::M16Delete => Some(
            Transition::Branch(Decision::M20DeleteEnacted, Decision::N16Post),
        ),
        Decision::M20DeleteEnacted => Some(
            Transition::Branch(Decision::O20ResponseHasBody, Decision::End(202)),
        ),
        Decision::N5PostToMissingResource => Some(
            Transition::Branch(Decision::N11Redirect, Decision::End(410)),
        ),
        Decision::N11Redirect => Some(
            Transition::Branch(Decision::End(303), Decision::P11NewResource),
        ),
        Decision::N16Post => Some(
            Transition::Branch(Decision::N11Redirect, Decision::O16Put),
        ),
        Decision::O14Conflict => Some(
            Transition::Branch(Decision::End(409), Decision::P11NewResource),
        ),
        Decision::O16Put => Some(
            Transition::Branch(Decision::O14Conflict, Decision::O18MultipleRepresentations),
        ),
        Decision::P3Conflict => Some(
            Transition::Branch(Decision::End(409), Decision::P11NewResource),
        ),
        Decision::P11NewResource => Some(
            Transition::Branch(Decision::End(201), Decision::O20ResponseHasBody),
        ),
        Decision::O18MultipleRepresentations => Some(
            Transition::Branch(Decision::End(300), Decision::End(200)),
        ),
        Decision::O20ResponseHasBody => Some(
            Transition::Branch(Decision::O18MultipleRepresentations, Decision::End(204)),
        ),
    }
}

/// Looks up the transition out of a node; terminal nodes have none.
pub fn transition(d: &Decision) -> (r: Option<Transition>)
    ensures
        r == spec_transition(*d),
{
    match d {
        Decision::Start => Some(Transition::To(Decision::B13Available)),
        Decision::End(_) => None,
        Decision::A3Options => None,
        Decision::B3Options => Some(
            Transition::Branch(Decision::A3Options, Decision::C3AcceptExists),
        ),
        Decision::B4RequestEntityTooLarge => Some(
            Transition::Branch(Decision::End(413), Decision::B3Options),
        ),
        Decision::B5UnknownContentType => Some(
            Transition::Branch(Decision::End(415), Decision::B4RequestEntityTooLarge),
        ),
        Decision::B6UnsupportedContentHeader => Some(
            Transition::Branch(Decision::End(501), Decision::B5UnknownContentType),
        ),
        Decision::B7Forbidden => Some(
            Transition::Branch(Decision::End(403), Decision::B6UnsupportedContentHeader),
        ),
        Decision::B8Authorized => Some(
            Transition::Branch(Decision::B7Forbidden, Decision::End(401)),
        ),
        Decision::B9MalformedRequest => Some(
            Transition::Branch(Decision::End(400), Decision::B8Authorized),
        ),
        Decision::B10MethodAllowed => Some(
            Transition::Branch(Decision::B9MalformedRequest, Decision::End(405)),
        ),
        Decision::B11UriTooLong => Some(
            Transition::Branch(Decision::End(414), Decision::B10MethodAllowed),
        ),
        Decision::B12KnownMethod => Some(
            Transition::Branch(Decision::B11UriTooLong, Decision::End(501)),
        ),
        Decision::B13Available => Some(
            Transition::Branch(Decision::B12KnownMethod, Decision::End(503)),
        ),
        Decision::C3AcceptExists => Some(
            Transition::Branch(
                Decision::C4AcceptableMediaTypeAvailable,
                Decision::D4AcceptLanguageExists,
            ),
        ),
        Decision::C4AcceptableMediaTypeAvailable => Some(
            Transition::Branch(Decision::D4AcceptLanguageExists, Decision::End(406)),
        ),
        Decision::D4AcceptLanguageExists => Some(
            Transition::Branch(
                Decision::D5AcceptableLanguageAvailable,
                Decision::E5AcceptCharsetExists,
            ),
        ),
        Decision::D5AcceptableLanguageAvailable => Some(
            Transition::Branch(Decision::E5AcceptCharsetExists, Decision::End(406)),
        ),
        Decision::E5AcceptCharsetExists => Some(
            Transition::Branch(
                Decision::E6AcceptableCharsetAvailable,
                Decision::F6AcceptEncodingExists,
            ),
        ),
        Decision::E6AcceptableCharsetAvailable => Some(
            Transition::Branch(Decision::F6AcceptEncodingExists, Decision::End(406)),
        ),
        Decision::F6AcceptEncodingExists => Some(
            Transition::Branch(
                Decision::F7AcceptableEncodingAvailable,
                Decision::G7ResourceExists,
            ),
        ),
        Decision::F7AcceptableEncodingAvailable => Some(
            Transition::Branch(Decision::G7ResourceExists, Decision::End(406)),
        ),
        Decision::G7ResourceExists => Some(
            Transition::Branch(Decision::G8IfMatchExists, Decision::H7IfMatchStarExists),
        ),
        Decision::G8IfMatchExists => Some(
            Transition::Branch(
                Decision::G9IfMatchStarExists,
                Decision::H10IfUnmodifiedSinceExists,
            ),
        ),
        Decision::G9IfMatchStarExists => Some(
            Transition::Branch(
                Decision::H10IfUnmodifiedSinceExists,
                Decision::G11EtagInIfMatch,
            ),
        ),
        Decision::G11EtagInIfMatch => Some(
            Transition::Branch(Decision::H10IfUnmodifiedSinceExists, Decision::End(412)),
        ),
        Decision::H7IfMatchStarExists => Some(
            Transition::Branch(Decision::End(412), Decision::I7Put),
        ),
        Decision::H10IfUnmodifiedSinceExists => Some(
            Transition::Branch(
                Decision::H11IfUnmodifiedSinceValid,
                Decision::I12IfNoneMatchExists,
            ),
        ),
        Decision::H11IfUnmodifiedSinceValid => Some(
            Transition::Branch(
                Decision::H12LastModifiedGreaterThanUMS,
                Decision::I12IfNoneMatchExists,
            ),
        ),
        Decision::H12LastModifiedGreaterThanUMS => Some(
            Transition::Branch(Decision::End(412), Decision::I12IfNoneMatchExists),
        ),
        Decision::I4HasMovedPermanently => Some(
            Transition::Branch(Decision::End(301), Decision::P3Conflict),
        ),
        Decision::I7Put => Some(
            Transition::Branch(
                Decision::I4HasMovedPermanently,
                Decision::K7ResourcePreviouslyExisted,
            ),
        ),
        Decision::I12IfNoneMatchExists => Some(
            Transition::Branch(
                Decision::I13IfNoneMatchStarExists,
                Decision::L13IfModifiedSinceExists,
            ),
        ),
        Decision::I13IfNoneMatchStarExists => Some(
            Transition::Branch(Decision::J18GetHead, Decision::K13ETagInIfNoneMatch),
        ),
        Decision::J18GetHead => Some(
            Transition::Branch(Decision::End(304), Decision::End(412)),
        ),
        Decision::K13ETagInIfNoneMatch => Some(
            Transition::Branch(Decision::J18GetHead, Decision::L13IfModifiedSinceExists),
        ),
        Decision::K5HasMovedPermanently => Some(
            Transition::Branch(Decision::End(301), Decision::L5HasMovedTemporarily),
        ),
        Decision::K7ResourcePreviouslyExisted => Some(
            Transition::Branch(Decision::K5HasMovedPermanently, Decision::L7Post),
        ),
        Decision::L5HasMovedTemporarily => Some(
            Transition::Branch(Decision::End(307), Decision::M5Post),
        ),
        Decision::L7Post => Some(
            Transition::Branch(Decision::M7PostToMissingResource, Decision::End(404)),
        ),
        Decision::L13IfModifiedSinceExists => Some(
            Transition::Branch(Decision::L14IfModifiedSinceValid, Decision::M16Delete),
        ),
        Decision::L14IfModifiedSinceValid => Some(
            Transition::Branch(
                Decision::L15IfModifiedSinceGreaterThanNow,
                Decision::M16Delete,
            ),
        ),
        Decision::L15IfModifiedSinceGreaterThanNow => Some(
            Transition::Branch(Decision::M16Delete, Decision::L17IfLastModifiedGreaterThanMS),
        ),
        Decision::L17IfLastModifiedGreaterThanMS => Some(
            Transition::Branch(Decision::M16Delete, Decision::End(304)),
        ),
        Decision::M5Post => Some(
            Transition::Branch(Decision::N5PostToMissingResource, Decision::End(410)),
        ),
        Decision::M7PostToMissingResource => Some(
            Transition::Branch(Decision::N11Redirect, Decision::End(404)),
        ),
        Decision::M16Delete => Some(
            Transition::Branch(Decision::M20DeleteEnacted, Decision::N16Post),
        ),
        Decision::M20DeleteEnacted => Some(
            Transition::Branch(Decision::O20ResponseHasBody, Decision::End(202)),
        ),
        Decision::N5PostToMissingResource => Some(
            Transition::Branch(Decision::N11Redirect, Decision::End(410)),
        ),
        Decision::N11Redirect => Some(
            Transition::Branch(Decision::End(303), Decision::P11NewResource),
        ),
        Decision::N16Post => Some(
            Transition::Branch(Decision::N11Redirect, Decision::O16Put),
        ),
        Decision::O14Conflict => Some(
            Transition::Branch(Decision::End(409), Decision::P11NewResource),
        ),
        Decision::O16Put => Some(
            Transition::Branch(Decision::O14Conflict, Decision::O18MultipleRepresentations),
        ),
        Decision::P3Conflict => Some(
            Transition::Branch(Decision::End(409), Decision::P11NewResource),
        ),
        Decision::P11NewResource => Some(
            Transition::Branch(Decision::End(201), Decision::O20ResponseHasBody),
        ),
        Decision::O18MultipleRepresentations => Some(
            Transition::Branch(Decision::End(300), Decision::End(200)),
        ),
        Decision::O20ResponseHasBody => Some(
            Transition::Branch(Decision::O18MultipleRepresentations, Decision::End(204)),
        ),
    }
}

/// The longest distance from a node to a terminal node; every transition
/// strictly decreases it, so it bounds the transitions a run still takes.
pub open spec fn rank(d: Decision) -> nat {
    match d {
        Decision::Start => 41,
        Decision::End(_) => 0,
        Decision::A3Options => 0,
        Decision::B13Available => 40,
        Decision::B12KnownMethod => 39,
        Decision::B11UriTooLong => 38,
        Decision::B10MethodAllowed => 37,
        Decision::B9MalformedRequest => 36,
        Decision::B8Authorized => 35,
        Decision::B7Forbidden => 34,
        Decision::B6UnsupportedContentHeader => 33,
        Decision::B5UnknownContentType => 32,
        Decision::B4RequestEntityTooLarge => 31,
        Decision::B3Options => 30,
        Decision::C3AcceptExists => 29,
        Decision::C4AcceptableMediaTypeAvailable => 28,
        Decision::D4AcceptLanguageExists => 27,
        Decision::D5AcceptableLanguageAvailable => 26,
        Decision::E5AcceptCharsetExists => 25,
        Decision::E6AcceptableCharsetAvailable => 24,
        Decision::F6AcceptEncodingExists => 23,
        Decision::F7AcceptableEncodingAvailable => 22,
        Decision::G7ResourceExists => 21,
        Decision::G8IfMatchExists => 20,
        Decision::G9IfMatchStarExists => 19,
        Decision::G11EtagInIfMatch => 18,
        Decision::H10IfUnmodifiedSinceExists => 17,
        Decision::H11IfUnmodifiedSinceValid => 16,
        Decision::H12LastModifiedGreaterThanUMS => 15,
        Decision::I12IfNoneMatchExists => 14,
        Decision::I13IfNoneMatchStarExists => 13,
        Decision::K13ETagInIfNoneMatch => 12,
        Decision::H7IfMatchStarExists => 11,
        Decision::L13IfModifiedSinceExists => 11,
        Decision::I7Put => 10,
        Decision::L14IfModifiedSinceValid => 10,
        Decision::K7ResourcePreviouslyExisted => 9,
        Decision::L15IfModifiedSinceGreaterThanNow => 9,
        Decision::K5HasMovedPermanently => 8,
        Decision::L17IfLastModifiedGreaterThanMS => 8,
        Decision::L5HasMovedTemporarily => 7,
        Decision::M16Delete => 7,
        Decision::L7Post => 6,
        Decision::M5Post => 6,
        Decision::N16Post => 6,
        Decision::I4HasMovedPermanently => 5,
        Decision::M7PostToMissingResource => 5,
        Decision::N5PostToMissingResource => 5,
        Decision::O16Put => 5,
        Decision::N11Redirect => 4,
        Decision::O14Conflict => 4,
        Decision::P3Conflict => 4,
        Decision::M20DeleteEnacted => 3,
        Decision::P11NewResource => 3,
        Decision::O20ResponseHasBody => 2,
        Decision::J18GetHead => 1,
        Decision::O18MultipleRepresentations => 1,
    }
}

/// Every transition of the graph strictly lowers the rank, and a node with
/// a transition is not terminal.
pub proof fn lemma_transition_ranks(d: Decision)
    ensures
        match spec_transition(d) {
            Some(Transition::To(n)) => rank(n) < rank(d) && !d.spec_is_terminal(),
            Some(Transition::Branch(t, f)) => rank(t) < rank(d) && rank(f) < rank(d) && rank(d)
                >= 1 && !d.spec_is_terminal(),
            None => d.spec_is_terminal(),
        },
{
}

/// The outcome of one node at the specification level: affirmative,
/// negative, or a status code that ends the run.
#[derive(Debug, Clone, Copy, PartialEq, Eq, Structural)]
#[allow(missing_docs)]
pub enum Verdict {
    Yes,
    No,
    Halt(u16),
}

/// Whether the list holds the method, compared without regard to case.
pub open spec fn spec_contains_ci(list: Seq<Seq<char>>, m: Seq<char>) -> bool {
    exists|i: int| 0 <= i < list.len() && spec_upper(#[trigger] list[i]) == spec_upper(m)
}

fn contains_ci(list: &Vec<String>, m: &str) -> (r: bool)
    ensures
        r == spec_contains_ci(list.deep_view(), m@),
{
    let n = list.len();
    let mut i: usize = 0;
    while i < n
        invariant
            n == list@.len(),
            i <= n,
            forall|j: int| 0 <= j < i ==> spec_upper(#[trigger] list.deep_view()[j])
                != spec_upper(m@),
        decreases n - i,
    {
        if crate::strutil::eq_ignore_case(list[i].as_str(), m) {
            proof {
                assert(spec_upper(#[trigger] list.deep_view()[i as int]) == spec_upper(m@));
            }
            return true;
        }
        i = i + 1;
    }
    proof {
        if spec_contains_ci(list.deep_view(), m@) {
            let w = choose|j: int|
                0 <= j < list.deep_view().len() && spec_upper(#[trigger] list.deep_view()[j])
                    == spec_upper(m@);
            assert(spec_upper(list.deep_view()[w]) != spec_upper(m@));
        }
    }
    false
}

/// Each plain string as a basic header value, in order.
fn basic_values(vs: &Vec<String>) -> (r: Vec<HeaderValue>)
    ensures
        r.deep_view() == spec_basic_values(vs.deep_view()),
{
    let mut out: Vec<HeaderValue> = Vec::new();
    let n = vs.len();
    let mut i: usize = 0;
    proof {
        assert(out.deep_view() =~= spec_basic_values(vs.deep_view()).take(0));
    }
    while i < n
        invariant
            n == vs@.len(),
            i <= n,
            out.deep_view() == spec_basic_values(vs.deep_view()).take(i as int),
        decreases n - i,
    {
        push_dv(&mut out, HeaderValue::basic(vs[i].as_str()));
        proof {
            assert(spec_basic_values(vs.deep_view())[i as int] == (HeaderValueView {
                value: vs.deep_view()[i as int],
                params: Seq::empty(),
                quote: false,
            }));
            assert(out.deep_view() =~= spec_basic_values(vs.deep_view()).take(i + 1));
        }
        i = i + 1;
    }
    proof {
        assert(spec_basic_values(vs.deep_view()).take(n as int) =~= spec_basic_values(
            vs.deep_view(),
        ));
    }
    out
}

/// A duplicate of a string list.
fn duplicate_string_vec(vs: &Vec<String>) -> (r: Vec<String>)
    ensures
        r.deep_view() == vs.deep_view(),
{
    let mut out: Vec<String> = Vec::new();
    let n = vs.len();
    let mut i: usize = 0;
    proof {
        assert(out.deep_view() =~= vs.deep_view().take(0));
    }
    while i < n
        invariant
            n == vs@.len(),
            i <= n,
            out.deep_view() == vs.deep_view().take(i as int),
        decreases n - i,
    {
        push_dv(&mut out, vs[i].clone());
        proof {
            assert(out.deep_view() =~= vs.deep_view().take(i + 1));
        }
        i = i + 1;
    }
    proof {
        assert(vs.deep_view().take(n as int) =~= vs.deep_view());
    }
    out
}

/// A duplicate of a name-to-values table.
fn duplicate_string_table(t: &Vec<(String, Vec<String>)>) -> (r: Vec<(String, Vec<String>)>)
    ensures
        r.deep_view() == t.deep_view(),
{
    let mut out: Vec<(String, Vec<String>)> = Vec::new();
    let n = t.len();
    let mut i: usize = 0;
    proof {
        assert(out.deep_view() =~= t.deep_view().take(0));
    }
    while i < n
        invariant
            n == t@.len(),
            i <= n,
            out.deep_view() == t.deep_view().take(i as int),
        decreases n - i,
    {
        push_dv(&mut out, (t[i].0.clone(), duplicate_string_vec(&t[i].1)));
        proof {
            assert(out.deep_view() =~= t.deep_view().take(i + 1));
        }
        i = i + 1;
    }
    proof {
        assert(t.deep_view().take(n as int) =~= t.deep_view());
    }
    out
}

/// Whether one conditional header entry speaks of the entity tag: a weak
/// entry by its unwrapped token, any other entry verbatim.
pub open spec fn spec_etag_match_value(v: HeaderValueView, etag: Seq<char>) -> bool {
    if spec_starts_with(v.value, "W/"@) {
        spec_weak_etag(v) == Some(etag)
    } else {
        v.value == etag
    }
}

/// Whether the resource's entity tag stands among the named header's
/// entries; a resource without a tag matches nothing.
pub open spec fn spec_etag_in_header(req: RequestView, header: Seq<char>, res: ResourceView) -> bool {
    match res.generate_etag {
        Some(etag) => exists|i: int|
            0 <= i < req.spec_find_header(header).len() && spec_etag_match_value(
                #[trigger] req.spec_find_header(header)[i],
                etag,
            ),
        None => false,
    }
}

/// Whether the resource's entity tag stands among the given conditional
/// header's entries.
pub fn resource_etag_matches_header_values(
    resource: &Resource,
    context: &Context,
    header: &str,
) -> (r: bool)
    ensures
        r == spec_etag_in_header(context@.request, header@, resource@),
{
    let header_values = context.request.find_header(header);
    match &resource.generate_etag {
        Some(etag) => {
            let n = header_values.len();
            let mut i: usize = 0;
            while i < n
                invariant
                    n == header_values@.len(),
                    i <= n,
                    header_values.deep_view() == context@.request.spec_find_header(header@),
                    resource@.generate_etag == Some(etag@),
                    forall|j: int| 0 <= j < i ==> !spec_etag_match_value(
                        #[trigger] header_values.deep_view()[j],
                        etag@,
                    ),
                decreases n - i,
            {
                let v = &header_values[i];
                if starts_with(v.value.as_str(), "W/") {
                    match v.weak_etag() {
                        Some(token) => {
                            if str_eq(token.as_str(), etag.as_str()) {
                                proof {
                                    assert(spec_etag_match_value(
                                        header_values.deep_view()[i as int],
                                        etag@,
                                    ));
                                }
                                return true;
                            }
                        },
                        None => {},
                    }
                } else {
                    if v.value_equals(etag.as_str()) {
                        proof {
                            assert(spec_etag_match_value(
                                header_values.deep_view()[i as int],
                                etag@,
                            ));
                        }
                        return true;
                    }
                }
                i = i + 1;
            }
            proof {
                if spec_etag_in_header(context@.request, header@, resource@) {
                    let vs = context@.request.spec_find_header(header@);
                    let w = choose|j: int|
                        0 <= j < vs.len() && spec_etag_match_value(#[trigger] vs[j], etag@);
                    assert(!spec_etag_match_value(header_values.deep_view()[w], etag@));
                }
            }
            false
        },
        None => false,
    }
}

/// Reads and validates a date header: on success the parsed timestamp is
/// stored; on failure or absence the stored value stays.
pub fn validate_header_date(
    request: &Request,
    header: &str,
    context_meta: &mut Option<Timestamp>,
) -> (r: bool)
    ensures
        ({
            let vs = request@.spec_find_header(header@);
            if vs.len() > 0 && rfc2822_date(vs[0].value) is Some {
                r && *final(context_meta) == rfc2822_date(vs[0].value)
            } else {
                !r && *final(context_meta) == *old(context_meta)
            }
        }),
{
    let header_values = request.find_header(header);
    if header_values.len() > 0 {
        match crate::dates::parse_rfc2822(header_values[0].value.as_str()) {
            Some(ts) => {
                *context_meta = Some(ts);
                true
            },
            None => false,
        }
    } else {
        false
    }
}

/// What evaluating one node yields: the verdict that picks the branch, and
/// the context as the node leaves it. Nodes that the table never asks to
/// branch on yield a plain negative.
pub open spec fn spec_decide(d: Decision, ctx: ContextView, res: ResourceView, now: i64) -> (
    Verdict,
    ContextView,
) {
    match d {
        Decision::B13Available => (if res.available { Verdict::Yes } else { Verdict::No }, ctx),
        Decision::B12KnownMethod => (
            if spec_contains_ci(res.known_methods, ctx.request.method) {
                Verdict::Yes
            } else {
                Verdict::No
            },
            ctx,
        ),
        Decision::B11UriTooLong => (
            if res.uri_too_long { Verdict::Yes } else { Verdict::No },
            ctx,
        ),
        Decision::B10MethodAllowed => if spec_contains_ci(
            res.allowed_methods,
            ctx.request.method,
        ) {
            (Verdict::Yes, ctx)
        } else {
            (
                Verdict::No,
                ContextView {
                    response: ResponseView {
                        headers: spec_set_header(
                            ctx.response.headers,
                            "Allow"@,
                            spec_basic_values(res.allowed_methods),
                        ),
                        ..ctx.response
                    },
                    ..ctx
                },
            )
        },
        Decision::B9MalformedRequest => (
            if res.malformed_request { Verdict::Yes } else { Verdict::No },
            ctx,
        ),
        Decision::B8Authorized => match res.not_authorized {
            Some(realm) => (
                Verdict::No,
                ContextView {
                    response: ResponseView {
                        headers: spec_set_header(
                            ctx.response.headers,
                            "WWW-Authenticate"@,
                            seq![spec_parse_header_value(realm)],
                        ),
                        ..ctx.response
                    },
                    ..ctx
                },
            ),
            None => (Verdict::Yes, ctx),
        },
        Decision::B7Forbidden => (if res.forbidden { Verdict::Yes } else { Verdict::No }, ctx),
        Decision::B6UnsupportedContentHeader => (
            if res.unsupported_content_headers { Verdict::Yes } else { Verdict::No },
            ctx,
        ),
        Decision::B5UnknownContentType => (
            if (ctx.request.spec_method_is("PUT"@) || ctx.request.spec_method_is("POST"@))
                && !spec_contains_ci(res.acceptable_content_types, ctx.request.spec_content_type()) {
                Verdict::Yes
            } else {
                Verdict::No
            },
            ctx,
        ),
        Decision::B4RequestEntityTooLarge => (
            if (ctx.request.spec_method_is("PUT"@) || ctx.request.spec_method_is("POST"@))
                && !res.valid_entity_length {
                Verdict::Yes
            } else {
                Verdict::No
            },
            ctx,
        ),
        Decision::B3Options => (
            if ctx.request.spec_method_is("OPTIONS"@) { Verdict::Yes } else { Verdict::No },
            ctx,
        ),
        Decision::C3AcceptExists => (
            if ctx.request.spec_has_header("ACCEPT"@) { Verdict::Yes } else { Verdict::No },
            ctx,
        ),
        Decision::C4AcceptableMediaTypeAvailable => match spec_matching_content_type(res, ctx.request) {
            Some(mt) => (
                Verdict::Yes,
                ContextView { selected_media_type: Some(mt), ..ctx },
            ),
            None => (Verdict::No, ctx),
        },
        Decision::D4AcceptLanguageExists => (
            if ctx.request.spec_has_header("ACCEPT-LANGUAGE"@) {
                Verdict::Yes
            } else {
                Verdict::No
            },
            ctx,
        ),
        Decision::D5AcceptableLanguageAvailable => match spec_matching_language(res, ctx.request) {
            Some(lang) => if lang != "*"@ {
                (
                    Verdict::Yes,
                    ContextView {
                        selected_language: Some(lang),
                        response: ResponseView {
                            headers: spec_set_header(
                                ctx.response.headers,
                                "Content-Language"@,
                                seq![spec_parse_header_value(lang)],
                            ),
                            ..ctx.response
                        },
                        ..ctx
                    },
                )
            } else {
                (Verdict::Yes, ctx)
            },
            None => (Verdict::No, ctx),
        },
        Decision::E5AcceptCharsetExists => (
            if ctx.request.spec_has_header("ACCEPT-CHARSET"@) {
                Verdict::Yes
            } else {
                Verdict::No
            },
            ctx,
        ),
        Decision::E6AcceptableCharsetAvailable => match spec_matching_charset(res, ctx.request) {
            Some(cs) => if cs != "*"@ {
                (Verdict::Yes, ContextView { selected_charset: Some(cs), ..ctx })
            } else {
                (Verdict::Yes, ctx)
            },
            None => (Verdict::No, ctx),
        },
        Decision::F6AcceptEncodingExists => (
            if ctx.request.spec_has_header("ACCEPT-ENCODING"@) {
                Verdict::Yes
            } else {
                Verdict::No
            },
            ctx,
        ),
        Decision::F7AcceptableEncodingAvailable => match spec_matching_encoding(res, ctx.request) {
            Some(enc) => if enc != "identity"@ {
                (
                    Verdict::Yes,
                    ContextView {
                        selected_encoding: Some(enc),
                        response: ResponseView {
                            headers: spec_set_header(
                                ctx.response.headers,
                                "Content-Encoding"@,
                                seq![spec_parse_header_value(enc)],
                            ),
                            ..ctx.response
                        },
                        ..ctx
                    },
                )
            } else {
                (Verdict::Yes, ContextView { selected_encoding: Some(enc), ..ctx })
            },
            None => (Verdict::No, ctx),
        },
        Decision::G7ResourceExists => (
            if res.resource_exists { Verdict::Yes } else { Verdict::No },
            ctx,
        ),
        Decision::G8IfMatchExists => (
            if ctx.request.spec_has_header("If-Match"@) { Verdict::Yes } else { Verdict::No },
            ctx,
        ),
        Decision::G9IfMatchStarExists | Decision::H7IfMatchStarExists => (
            if ctx.request.spec_has_header_value("If-Match"@, "*"@) {
                Verdict::Yes
            } else {
                Verdict::No
            },
            ctx,
        ),
        Decision::G11EtagInIfMatch => (
            if spec_etag_in_header(ctx.request, "If-Match"@, res) {
                Verdict::Yes
            } else {
                Verdict::No
            },
            ctx,
        ),
        Decision::H10IfUnmodifiedSinceExists => (
            if ctx.request.spec_has_header("If-Unmodified-Since"@) {
                Verdict::Yes
            } else {
                Verdict::No
            },
            ctx,
        ),
        Decision::H11IfUnmodifiedSinceValid => {
            let vs = ctx.request.spec_find_header("If-Unmodified-Since"@);
            if vs.len() > 0 && rfc2822_date(vs[0].value) is Some {
                (
                    Verdict::Yes,
                    ContextView { if_unmodified_since: rfc2822_date(vs[0].value), ..ctx },
                )
            } else {
                (Verdict::No, ctx)
            }
        },
        Decision::H12LastModifiedGreaterThanUMS => (
            match (ctx.if_unmodified_since, res.last_modified) {
                (Some(umod), Some(lm)) => if lm.spec_gt(umod) { Verdict::Yes } else { Verdict::No },
                _ => Verdict::No,
            },
            ctx,
        ),
        Decision::I7Put => if ctx.request.spec_method_is("PUT"@) {
            (Verdict::Yes, ContextView { new_resource: true, ..ctx })
        } else {
            (Verdict::No, ctx)
        },
        Decision::I12IfNoneMatchExists => (
            if ctx.request.spec_has_header("If-None-Match"@) {
                Verdict::Yes
            } else {
                Verdict::No
            },
            ctx,
        ),
        Decision::I13IfNoneMatchStarExists => (
            if ctx.request.spec_has_header_value("If-None-Match"@, "*"@) {
                Verdict::Yes
            } else {
                Verdict::No
            },
            ctx,
        ),
        Decision::J18GetHead => (
            if ctx.request.spec_method_is("GET"@) || ctx.request.spec_method_is("HEAD"@) {
                Verdict::Yes
            } else {
                Verdict::No
            },
            ctx,
        ),
        Decision::K7ResourcePreviouslyExisted => (
            if res.previously_existed { Verdict::Yes } else { Verdict::No },
            ctx,
        ),
        Decision::K13ETagInIfNoneMatch => (
            if spec_etag_in_header(ctx.request, "If-None-Match"@, res) {
                Verdict::Yes
            } else {
                Verdict::No
            },
            ctx,
        ),
        Decision::L5HasMovedTemporarily => match res.moved_temporarily {
            Some(location) => (
                Verdict::Yes,
                ContextView {
                    response: ResponseView {
                        headers: spec_set_header(
                            ctx.response.headers,
                            "Location"@,
                            seq![
                                HeaderValueView {
                                    value: location,
                                    params: Seq::empty(),
                                    quote: false,
                                },
                            ],
                        ),
                        ..ctx.response
                    },
                    ..ctx
                },
            ),
            None => (Verdict::No, ctx),
        },
        Decision::L7Post | Decision::M5Post | Decision::N16Post => (
            if ctx.request.spec_method_is("POST"@) { Verdict::Yes } else { Verdict::No },
            ctx,
        ),
        Decision::L13IfModifiedSinceExists => (
            if ctx.request.spec_has_header("If-Modified-Since"@) {
                Verdict::Yes
            } else {
                Verdict::No
            },
            ctx,
        ),
        Decision::L14IfModifiedSinceValid => {
            let vs = ctx.request.spec_find_header("If-Modified-Since"@);
            if vs.len() > 0 && rfc2822_date(vs[0].value) is Some {
                (
                    Verdict::Yes,
                    ContextView { if_modified_since: rfc2822_date(vs[0].value), ..ctx },
                )
            } else {
                (Verdict::No, ctx)
            }
        },
        Decision::L15IfModifiedSinceGreaterThanNow => (
            match ctx.if_modified_since {
                Some(ms) => if ms.epoch_millis > now { Verdict::Yes } else { Verdict::No },
                None => Verdict::No,
            },
            ctx,
        ),
        Decision::L17IfLastModifiedGreaterThanMS => (
            match (ctx.if_modified_since, res.last_modified) {
                (Some(ms), Some(lm)) => if lm.spec_gt(ms) { Verdict::Yes } else { Verdict::No },
                _ => Verdict::No,
            },
            ctx,
        ),
        Decision::I4HasMovedPermanently | Decision::K5HasMovedPermanently => match res.moved_permanently {
            Some(location) => (
                Verdict::Yes,
                ContextView {
                    response: ResponseView {
                        headers: spec_set_header(
                            ctx.response.headers,
                            "Location"@,
                            seq![
                                HeaderValueView {
                                    value: location,
                                    params: Seq::empty(),
                                    quote: false,
                                },
                            ],
                        ),
                        ..ctx.response
                    },
                    ..ctx
                },
            ),
            None => (Verdict::No, ctx),
        },
        Decision::M7PostToMissingResource | Decision::N5PostToMissingResource => if res.allow_missing_post {
            (Verdict::Yes, ContextView { new_resource: true, ..ctx })
        } else {
            (Verdict::No, ctx)
        },
        Decision::M16Delete => (
            if ctx.request.spec_method_is("DELETE"@) { Verdict::Yes } else { Verdict::No },
            ctx,
        ),
        Decision::M20DeleteEnacted => (
            match res.delete_resource {
                Ok(enacted) => if enacted { Verdict::Yes } else { Verdict::No },
                Err(code) => Verdict::Halt(code),
            },
            ctx,
        ),
        Decision::N11Redirect => if res.post_is_create {
            let created = match res.create_path {
                None => Ok(ctx.request.request_path),
                Some(r) => r,
            };
            match created {
                Ok(path) => {
                    let new_path = spec_join_paths(
                        spec_sanitise_path(ctx.request.base_path),
                        spec_sanitise_path(path),
                    );
                    (
                        if ctx.redirect { Verdict::Yes } else { Verdict::No },
                        ContextView {
                            request: RequestView { request_path: path, ..ctx.request },
                            response: ResponseView {
                                headers: spec_set_header(
                                    ctx.response.headers,
                                    "Location"@,
                                    seq![
                                        HeaderValueView {
                                            value: new_path,
                                            params: Seq::empty(),
                                            quote: false,
                                        },
                                    ],
                                ),
                                ..ctx.response
                            },
                            ..ctx
                        },
                    )
                },
                Err(code) => (Verdict::Halt(code), ctx),
            }
        } else {
            match res.process_post {
                Ok(_) => (if ctx.redirect { Verdict::Yes } else { Verdict::No }, ctx),
                Err(code) => (Verdict::Halt(code), ctx),
            }
        },
        Decision::P3Conflict | Decision::O14Conflict => (
            if res.is_conflict { Verdict::Yes } else { Verdict::No },
            ctx,
        ),
        Decision::P11NewResource => if ctx.request.spec_method_is("PUT"@) {
            match res.process_put {
                Ok(_) => (if ctx.new_resource { Verdict::Yes } else { Verdict::No }, ctx),
                Err(code) => (Verdict::Halt(code), ctx),
            }
        } else {
            (if ctx.new_resource { Verdict::Yes } else { Verdict::No }, ctx)
        },
        Decision::O16Put => (
            if ctx.request.spec_method_is("PUT"@) { Verdict::Yes } else { Verdict::No },
            ctx,
        ),
        Decision::O18MultipleRepresentations => (
            if res.multiple_choices { Verdict::Yes } else { Verdict::No },
            ctx,
        ),
        Decision::O20ResponseHasBody => (
            if ctx.response.spec_has_body() { Verdict::Yes } else { Verdict::No },
            ctx,
        ),
        _ => (Verdict::No, ctx),
    }
}

fn one_value(hv: HeaderValue) -> (r: Vec<HeaderValue>)
    ensures
        r.deep_view() == seq![hv@],
{
    let ghost v = hv@;
    let mut out: Vec<HeaderValue> = Vec::new();
    push_dv(&mut out, hv);
    proof {
        assert(out.deep_view() =~= seq![v]);
    }
    out
}

/// Evaluates one node against the context and the resource: the verdict
/// picks the branch, and the context carries what the node recorded.
#[verifier::rlimit(100)]
#[verifier::loop_isolation(false)]
pub fn execute_decision(
    decision: &Decision,
    context: &mut Context,
    resource: &Resource,
    now_millis: i64,
) -> (r: DecisionResult)
    ensures
        final(context)@ == spec_decide(*decision, old(context)@, resource@, now_millis).1,
        (r is True) == (spec_decide(*decision, old(context)@, resource@, now_millis).0
            is Yes),
        (r is False) == (spec_decide(*decision, old(context)@, resource@, now_millis).0
            is No),
        r matches DecisionResult::StatusCode(code) ==> spec_decide(
            *decision,
            old(context)@,
            resource@,
            now_millis,
        ).0 == Verdict::Halt(code),
{
    match decision {
        Decision::B10MethodAllowed => {
            if contains_ci(&resource.allowed_methods, context.request.method.as_str()) {
                DecisionResult::wrap(true, "method is in the list of allowed methods")
            } else {
                let allow = basic_values(&resource.allowed_methods);
                context.response.add_header("Allow", allow);
                DecisionResult::wrap(false, "method is in the list of allowed methods")
            }
        },
        Decision::B11UriTooLong => DecisionResult::wrap(resource.uri_too_long, "URI too long"),
        Decision::B12KnownMethod => DecisionResult::wrap(
            contains_ci(&resource.known_methods, context.request.method.as_str()),
            "known method",
        ),
        Decision::B13Available => DecisionResult::wrap(resource.available, "available"),
        Decision::B9MalformedRequest => DecisionResult::wrap(
            resource.malformed_request,
            "malformed request",
        ),
        Decision::B8Authorized => match &resource.not_authorized {
            Some(realm) => {
                let value = HeaderValue::parse_string(realm.as_str());
                context.response.add_header("WWW-Authenticate", one_value(value));
                DecisionResult::False("is not: authorized".to_owned())
            },
            None => DecisionResult::True("is: authorized".to_owned()),
        },
        Decision::B7Forbidden => DecisionResult::wrap(resource.forbidden, "forbidden"),
        Decision::B6UnsupportedContentHeader => DecisionResult::wrap(
            resource.unsupported_content_headers,
            "unsupported content headers",
        ),
        Decision::B5UnknownContentType => DecisionResult::wrap(
            context.request.is_put_or_post() && !contains_ci(
                &resource.acceptable_content_types,
                context.request.content_type().as_str(),
            ),
            "acceptable content types",
        ),
        Decision::B4RequestEntityTooLarge => DecisionResult::wrap(
            context.request.is_put_or_post() && !resource.valid_entity_length,
            "valid entity length",
        ),
        Decision::B3Options => DecisionResult::wrap(context.request.is_options(), "options"),
        Decision::C3AcceptExists => DecisionResult::wrap(
            context.request.has_accept_header(),
            "has accept header",
        ),
        Decision::C4AcceptableMediaTypeAvailable => match matching_content_type(
            resource,
            &context.request,
        ) {
            Some(media_type) => {
                context.selected_media_type = Some(media_type);
                DecisionResult::True("is: acceptable media type is available".to_owned())
            },
            None => DecisionResult::False(
                "is not: acceptable media type is available".to_owned(),
            ),
        },
        Decision::D4AcceptLanguageExists => DecisionResult::wrap(
            context.request.has_accept_language_header(),
            "has accept language header",
        ),
        Decision::D5AcceptableLanguageAvailable => match matching_language(
            resource,
            &context.request,
        ) {
            Some(language) => {
                if !str_eq(language.as_str(), "*") {
                    let value = HeaderValue::parse_string(language.as_str());
                    context.selected_language = Some(language);
                    context.response.add_header("Content-Language", one_value(value));
                }
                DecisionResult::True("is: acceptable language is available".to_owned())
            },
            None => DecisionResult::False("is not: acceptable language is available".to_owned()),
        },
        Decision::E5AcceptCharsetExists => DecisionResult::wrap(
            context.request.has_accept_charset_header(),
            "accept charset exists",
        ),
        Decision::E6AcceptableCharsetAvailable => match matching_charset(
            resource,
            &context.request,
        ) {
            Some(charset) => {
                if !str_eq(charset.as_str(), "*") {
                    context.selected_charset = Some(charset);
                }
                DecisionResult::True("is: acceptable charset is available".to_owned())
            },
            None => DecisionResult::False("is not: acceptable charset is available".to_owned()),
        },
        Decision::F6AcceptEncodingExists => DecisionResult::wrap(
            context.request.has_accept_encoding_header(),
            "accept encoding exists",
        ),
        Decision::F7AcceptableEncodingAvailable => match matching_encoding(
            resource,
            &context.request,
        ) {
            Some(encoding) => {
                if !str_eq(encoding.as_str(), "identity") {
                    let value = HeaderValue::parse_string(encoding.as_str());
                    context.response.add_header("Content-Encoding", one_value(value));
                }
                context.selected_encoding = Some(encoding);
                DecisionResult::True("is: acceptable encoding is available".to_owned())
            },
            None => DecisionResult::False("is not: acceptable encoding is available".to_owned()),
        },
        Decision::G7ResourceExists => DecisionResult::wrap(
            resource.resource_exists,
            "resource exists",
        ),
        Decision::G8IfMatchExists => DecisionResult::wrap(
            context.request.has_header("If-Match"),
            "match exists",
        ),
        Decision::G9IfMatchStarExists | Decision::H7IfMatchStarExists => DecisionResult::wrap(
            context.request.has_header_value("If-Match", "*"),
            "match star exists",
        ),
        Decision::G11EtagInIfMatch => DecisionResult::wrap(
            resource_etag_matches_header_values(resource, context, "If-Match"),
            "etag in if match",
        ),
        Decision::H10IfUnmodifiedSinceExists => DecisionResult::wrap(
            context.request.has_header("If-Unmodified-Since"),
            "unmodified since exists",
        ),
        Decision::H11IfUnmodifiedSinceValid => DecisionResult::wrap(
            validate_header_date(
                &context.request,
                "If-Unmodified-Since",
                &mut context.if_unmodified_since,
            ),
            "unmodified since valid",
        ),
        Decision::H12LastModifiedGreaterThanUMS => match (
            context.if_unmodified_since,
            resource.last_modified,
        ) {
            (Some(unmodified_since), Some(datetime)) => DecisionResult::wrap(
                datetime.gt(&unmodified_since),
                "resource last modified date is greater than unmodified since",
            ),
            _ => DecisionResult::False("is not: last modified date is known".to_owned()),
        },
        Decision::I7Put => {
            if context.request.is_put() {
                context.new_resource = true;
                DecisionResult::True("is: a PUT request".to_owned())
            } else {
                DecisionResult::False("is not: a PUT request".to_owned())
            }
        },
        Decision::I12IfNoneMatchExists => DecisionResult::wrap(
            context.request.has_header("If-None-Match"),
            "none match exists",
        ),
        Decision::I13IfNoneMatchStarExists => DecisionResult::wrap(
            context.request.has_header_value("If-None-Match", "*"),
            "none match star exists",
        ),
        Decision::J18GetHead => DecisionResult::wrap(
            context.request.is_get_or_head(),
            "is GET or HEAD request",
        ),
        Decision::K7ResourcePreviouslyExisted => DecisionResult::wrap(
            resource.previously_existed,
            "resource previously existed",
        ),
        Decision::K13ETagInIfNoneMatch => DecisionResult::wrap(
            resource_etag_matches_header_values(resource, context, "If-None-Match"),
            "ETag in if none match",
        ),
        Decision::L5HasMovedTemporarily => match &resource.moved_temporarily {
            Some(location) => {
                context.response.add_header(
                    "Location",
                    one_value(HeaderValue::basic(location.as_str())),
                );
                DecisionResult::True("is: resource has moved temporarily".to_owned())
            },
            None => DecisionResult::False("is not: resource has moved temporarily".to_owned()),
        },
        Decision::L7Post | Decision::M5Post | Decision::N16Post => DecisionResult::wrap(
            context.request.is_post(),
            "a POST request",
        ),
        Decision::L13IfModifiedSinceExists => DecisionResult::wrap(
            context.request.has_header("If-Modified-Since"),
            "if modified since exists",
        ),
        Decision::L14IfModifiedSinceValid => DecisionResult::wrap(
            validate_header_date(
                &context.request,
                "If-Modified-Since",
                &mut context.if_modified_since,
            ),
            "modified since valid",
        ),
        Decision::L15IfModifiedSinceGreaterThanNow => match context.if_modified_since {
            Some(datetime) => DecisionResult::wrap(
                datetime.epoch_millis > now_millis,
                "modified since greater than now",
            ),
            None => DecisionResult::False("is not: modified since is known".to_owned()),
        },
        Decision::L17IfLastModifiedGreaterThanMS => match (
            context.if_modified_since,
            resource.last_modified,
        ) {
            (Some(modified_since), Some(datetime)) => DecisionResult::wrap(
                datetime.gt(&modified_since),
                "last modified greater than modified since",
            ),
            _ => DecisionResult::False("is not: last modified date is known".to_owned()),
        },
        Decision::I4HasMovedPermanently | Decision::K5HasMovedPermanently => match &resource
            .moved_permanently {
            Some(location) => {
                context.response.add_header(
                    "Location",
                    one_value(HeaderValue::basic(location.as_str())),
                );
                DecisionResult::True("is: resource has moved permanently".to_owned())
            },
            None => DecisionResult::False("is not: resource has moved permanently".to_owned()),
        },
        Decision::M7PostToMissingResource | Decision::N5PostToMissingResource => {
            if resource.allow_missing_post {
                context.new_resource = true;
                DecisionResult::True("is: resource allows POST to missing resource".to_owned())
            } else {
                DecisionResult::False(
                    "is not: resource allows POST to missing resource".to_owned(),
                )
            }
        },
        Decision::M16Delete => DecisionResult::wrap(
            context.request.is_delete(),
            "a DELETE request",
        ),
        Decision::M20DeleteEnacted => match resource.delete_resource {
            Ok(result) => DecisionResult::wrap(result, "resource DELETE succeeded"),
            Err(status) => DecisionResult::StatusCode(status),
        },
        Decision::N11Redirect => {
            if resource.post_is_create {
                let created: Result<String, u16> = match &resource.create_path {
                    None => Ok(context.request.request_path.clone()),
                    Some(Ok(path)) => Ok(path.clone()),
                    Some(Err(status)) => Err(*status),
                };
                match created {
                    Ok(path) => {
                        let base_path = sanitise_path(context.request.base_path.as_str());
                        let suffix = sanitise_path(path.as_str());
                        let new_path = join_paths(&base_path, &suffix);
                        context.request.request_path = path;
                        context.response.add_header(
                            "Location",
                            one_value(HeaderValue::basic(new_path.as_str())),
                        );
                        DecisionResult::wrap(context.redirect, "should redirect")
                    },
                    Err(status) => DecisionResult::StatusCode(status),
                }
            } else {
                match resource.process_post {
                    Ok(_) => DecisionResult::wrap(context.redirect, "processing POST succeeded"),
                    Err(status) => DecisionResult::StatusCode(status),
                }
            }
        },
        Decision::P3Conflict | Decision::O14Conflict => DecisionResult::wrap(
            resource.is_conflict,
            "resource conflict",
        ),
        Decision::P11NewResource => {
            if context.request.is_put() {
                match resource.process_put {
                    Ok(_) => DecisionResult::wrap(context.new_resource, "process PUT succeeded"),
                    Err(status) => DecisionResult::StatusCode(status),
                }
            } else {
                DecisionResult::wrap(context.new_resource, "new resource creation succeeded")
            }
        },
        Decision::O16Put => DecisionResult::wrap(context.request.is_put(), "a PUT request"),
        Decision::O18MultipleRepresentations => DecisionResult::wrap(
            resource.multiple_choices,
            "multiple choices exist",
        ),
        Decision::O20ResponseHasBody => DecisionResult::wrap(
            context.response.has_body(),
            "response has a body",
        ),
        _ => DecisionResult::False("is not: a decision that branches".to_owned()),
    }
}

/// The context with one more recorded decision step.
pub open spec fn spec_push_trace(
    ctx: ContextView,
    from: Decision,
    taken: bool,
    to: Decision,
) -> ContextView {
    ContextView { decisions: ctx.decisions.push((from, taken, to)), ..ctx }
}

/// What a terminal node leaves behind: `End` writes its status, and an
/// OPTIONS answer writes 204 plus the resource's option headers.
pub open spec fn spec_apply_terminal(
    state: Decision,
    ctx: ContextView,
    res: ResourceView,
) -> ContextView {
    match state {
        Decision::End(status) => ContextView {
            response: ResponseView { status, ..ctx.response },
            ..ctx
        },
        Decision::A3Options => match res.options {
            Some(headers) => ContextView {
                response: ResponseView {
                    status: 204,
                    headers: spec_add_headers(ctx.response.headers, headers),
                    ..ctx.response
                },
                ..ctx
            },
            None => ContextView {
                response: ResponseView { status: 204, ..ctx.response },
                ..ctx
            },
        },
        _ => ctx,
    }
}

/// The whole run of the machine from a node: decisions are recorded, each
/// verdict follows its branch, a failing callback jumps to its status, and
/// the terminal node shapes the final context.
pub open spec fn spec_run(
    state: Decision,
    ctx: ContextView,
    res: ResourceView,
    now: i64,
) -> ContextView
    decreases rank(state),
    via spec_run_decreases
{
    if state.spec_is_terminal() {
        spec_apply_terminal(state, ctx, res)
    } else {
        match spec_transition(state) {
            Some(Transition::To(next)) => spec_run(next, ctx, res, now),
            Some(Transition::Branch(on_true, on_false)) => {
                let verdict = spec_decide(state, ctx, res, now).0;
                let stepped = spec_decide(state, ctx, res, now).1;
                match verdict {
                    Verdict::Yes => spec_run(
                        on_true,
                        spec_push_trace(stepped, state, true, on_true),
                        res,
                        now,
                    ),
                    Verdict::No => spec_run(
                        on_false,
                        spec_push_trace(stepped, state, false, on_false),
                        res,
                        now,
                    ),
                    Verdict::Halt(code) => spec_run(
                        Decision::End(code),
                        spec_push_trace(stepped, state, false, Decision::End(code)),
                        res,
                        now,
                    ),
                }
            },
            None => spec_run(
                Decision::End(500),
                spec_push_trace(ctx, state, false, Decision::End(500)),
                res,
                now,
            ),
        }
    }
}

#[via_fn]
proof fn spec_run_decreases(state: Decision, ctx: ContextView, res: ResourceView, now: i64) {
    lemma_transition_ranks(state);
}

/// Drives the machine from `Start` to a terminal node, recording each
/// decision, against a fixed reading of the clock.
#[verifier::rlimit(100)]
#[verifier::loop_isolation(false)]
pub fn execute_state_machine_at(context: &mut Context, resource: &Resource, now_millis: i64)
    ensures
        final(context)@ == spec_run(Decision::Start, old(context)@, resource@, now_millis),
{
    let mut state = Decision::Start;
    let mut loop_count: u8 = 0;
    while !state.is_terminal()
        invariant
            spec_run(state, context@, resource@, now_millis) == spec_run(
                Decision::Start,
                old(context)@,
                resource@,
                now_millis,
            ),
            loop_count as nat + rank(state) <= 41,
        decreases rank(state),
    {
        proof {
            lemma_transition_ranks(state);
        }
        loop_count = loop_count + 1;
        if loop_count >= MAX_STATE_MACHINE_TRANSITIONS {
            // the rank bound in the invariant puts this guard out of reach
            proof {
                assert(false);
            }
        }
        let ghost prev_ctx = context@;
        let ghost prev_state = state;
        match transition(&state) {
            Some(Transition::To(next)) => {
                state = next;
            },
            Some(Transition::Branch(decision_true, decision_false)) => {
                let result = execute_decision(&state, context, resource, now_millis);
                let ghost stepped = context@;
                match result {
                    DecisionResult::True(_) => {
                        context.decisions.push((state, true, decision_true));
                        proof {
                            assert(context@ =~= spec_push_trace(
                                stepped,
                                prev_state,
                                true,
                                decision_true,
                            ));
                        }
                        state = decision_true;
                    },
                    DecisionResult::False(_) => {
                        context.decisions.push((state, false, decision_false));
                        proof {
                            assert(context@ =~= spec_push_trace(
                                stepped,
                                prev_state,
                                false,
                                decision_false,
                            ));
                        }
                        state = decision_false;
                    },
                    DecisionResult::StatusCode(code) => {
                        let next = Decision::End(code);
                        context.decisions.push((state, false, next));
                        proof {
                            assert(context@ =~= spec_push_trace(stepped, prev_state, false, next));
                        }
                        state = next;
                    },
                }
            },
            None => {
                // only terminal nodes lack a transition, and the loop
                // condition has ruled those out
                proof {
                    assert(false);
                }
            },
        }
    }
    match state {
        Decision::End(status) => {
            context.response.status = status;
        },
        Decision::A3Options => {
            context.response.status = 204;
            match &resource.options {
                Some(headers) => {
                    let table = duplicate_string_table(headers);
                    context.response.add_headers(table);
                },
                None => {},
            }
        },
        _ => {},
    }
}

/// Drives the machine from `Start` to a terminal node against the wall
/// clock; only the check whether an `If-Modified-Since` date lies in the
/// future reads it.
pub fn execute_state_machine(context: &mut Context, resource: &Resource)
    ensures
        exists|now: i64|
            final(context)@ == #[trigger] spec_run(
                Decision::Start,
                old(context)@,
                resource@,
                now,
            ),
{
    let now = now_millis();
    execute_state_machine_at(context, resource, now);
}

} // verus!
