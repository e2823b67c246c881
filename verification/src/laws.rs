//! Laws of the engine, each proved against the specifications the public
//! functions carry.

use vstd::prelude::*;

use crate::context::{spec_lookup_ci, ContextView, HeadersView, RequestView};
use crate::enums::{Decision, Transition};
use crate::headers::HeaderValueView;
use crate::machine::{
    rank, spec_decide, spec_etag_in_header, spec_etag_match_value, spec_push_trace, spec_run,
    spec_transition, lemma_transition_ranks, Verdict,
};
use crate::resource::ResourceView;
use crate::strutil::{spec_starts_with, spec_upper};

verus! {

/// Every node's verdict leaves the recorded decisions alone; only the run
/// loop appends to them.
#[verifier::rlimit(100)]
#[verifier::spinoff_prover]
proof fn lemma_decide_keeps_trace(d: Decision, ctx: ContextView, res: ResourceView, now: i64)
    ensures
        spec_decide(d, ctx, res, now).1.decisions == ctx.decisions,
{
    match d {
        Decision::Start => {},
        Decision::End(_) => {},
        Decision::A3Options => {},
        Decision::B3Options => {},
        Decision::B4RequestEntityTooLarge => {},
        Decision::B5UnknownContentType => {},
        Decision::B6UnsupportedContentHeader => {},
        Decision::B7Forbidden => {},
        Decision::B8Authorized => {},
        Decision::B9MalformedRequest => {},
        Decision::B10MethodAllowed => {},
        Decision::B11UriTooLong => {},
        Decision::B12KnownMethod => {},
        Decision::B13Available => {},
        Decision::C3AcceptExists => {},
        Decision::C4AcceptableMediaTypeAvailable => {},
        Decision::D4AcceptLanguageExists => {},
        Decision::D5AcceptableLanguageAvailable => {},
        Decision::E5AcceptCharsetExists => {},
        Decision::E6AcceptableCharsetAvailable => {},
        Decision::F6AcceptEncodingExists => {},
        Decision::F7AcceptableEncodingAvailable => {},
        Decision::G7ResourceExists => {},
        Decision::G8IfMatchExists => {},
        Decision::G9IfMatchStarExists => {},
        Decision::G11EtagInIfMatch => {},
        Decision::H7IfMatchStarExists => {},
        Decision::H10IfUnmodifiedSinceExists => {},
        Decision::H11IfUnmodifiedSinceValid => {},
        Decision::H12LastModifiedGreaterThanUMS => {},
        Decision::I4HasMovedPermanently => {},
        Decision::I7Put => {},
        Decision::I12IfNoneMatchExists => {},
        Decision::I13IfNoneMatchStarExists => {},
        Decision::J18GetHead => {},
        Decision::K5HasMovedPermanently => {},
        Decision::K7ResourcePreviouslyExisted => {},
        Decision::K13ETagInIfNoneMatch => {},
        Decision::L5HasMovedTemporarily => {},
        Decision::L7Post => {},
        Decision::L13IfModifiedSinceExists => {},
        Decision::L14IfModifiedSinceValid => {},
        Decision::L15IfModifiedSinceGreaterThanNow => {},
        Decision::L17IfLastModifiedGreaterThanMS => {},
        Decision::M5Post => {},
        Decision::M7PostToMissingResource => {},
        Decision::M16Delete => {},
        Decision::M20DeleteEnacted => {},
        Decision::N5PostToMissingResource => {},
        Decision::N11Redirect => {},
        Decision::N16Post => {},
        Decision::O14Conflict => {},
        Decision::O16Put => {},
        Decision::O18MultipleRepresentations => {},
        Decision::O20ResponseHasBody => {},
        Decision::P3Conflict => {},
        Decision::P11NewResource => {},
    }
}

/// Termination: a run records one step per transition, and from any node
/// at most `rank` more transitions happen; from `Start` that is 41, well
/// under the engine's bound of one hundred.
pub proof fn lemma_run_terminates(state: Decision, ctx: ContextView, res: ResourceView, now: i64)
    ensures
        spec_run(state, ctx, res, now).decisions.len() <= ctx.decisions.len() + rank(state),
        rank(Decision::Start) < 100,
    decreases rank(state),
{
    lemma_transition_ranks(state);
    if !state.spec_is_terminal() {
        match spec_transition(state) {
            Some(Transition::To(next)) => {
                lemma_run_terminates(next, ctx, res, now);
            },
            Some(Transition::Branch(on_true, on_false)) => {
                lemma_decide_keeps_trace(state, ctx, res, now);
                let stepped = spec_decide(state, ctx, res, now).1;
                match spec_decide(state, ctx, res, now).0 {
                    Verdict::Yes => {
                        lemma_run_terminates(
                            on_true,
                            spec_push_trace(stepped, state, true, on_true),
                            res,
                            now,
                        );
                    },
                    Verdict::No => {
                        lemma_run_terminates(
                            on_false,
                            spec_push_trace(stepped, state, false, on_false),
                            res,
                            now,
                        );
                    },
                    Verdict::Halt(code) => {
                        lemma_run_terminates(
                            Decision::End(code),
                            spec_push_trace(stepped, state, false, Decision::End(code)),
                            res,
                            now,
                        );
                    },
                }
            },
            None => {
                lemma_run_terminates(
                    Decision::End(500),
                    spec_push_trace(ctx, state, false, Decision::End(500)),
                    res,
                    now,
                );
            },
        }
    }
}

/// Case-insensitive header lookup: two names equal up to ASCII case look
/// up the same header, so presence does not depend on the casing asked.
pub proof fn lemma_header_lookup_case_insensitive(
    hs: HeadersView,
    name_a: Seq<char>,
    name_b: Seq<char>,
)
    requires
        spec_upper(name_a) == spec_upper(name_b),
    ensures
        spec_lookup_ci(hs, name_a) == spec_lookup_ci(hs, name_b),
    decreases hs.len(),
{
    if hs.len() > 0 {
        lemma_header_lookup_case_insensitive(hs.drop_first(), name_a, name_b);
    }
}

/// Presence of a header is the same question under any casing of its name.
pub proof fn lemma_has_header_case_insensitive(
    req: RequestView,
    name_a: Seq<char>,
    name_b: Seq<char>,
)
    requires
        spec_upper(name_a) == spec_upper(name_b),
    ensures
        req.spec_has_header(name_a) == req.spec_has_header(name_b),
{
    lemma_header_lookup_case_insensitive(req.headers, name_a, name_b);
}

/// ETag match correctness: for a resource tag, both the strong form (the
/// bare tag, as a quoted header value) and the weak form `W/"tag"` satisfy
/// the conditional match test. The strong form is read weak where the tag
/// itself opens with `W/`, so that shape is left aside.
pub proof fn lemma_etag_match_forms(etag: Seq<char>)
    requires
        !spec_starts_with(etag, "W/"@),
    ensures
        spec_etag_match_value(
            HeaderValueView { value: etag, params: Seq::empty(), quote: true },
            etag,
        ),
        spec_etag_match_value(
            HeaderValueView {
                value: seq!['W', '/', '"'] + etag + seq!['"'],
                params: Seq::empty(),
                quote: false,
            },
            etag,
        ),
{
    let strong = HeaderValueView { value: etag, params: Seq::empty(), quote: true };
    let weak_text = seq!['W', '/', '"'] + etag + seq!['"'];
    let weak = HeaderValueView { value: weak_text, params: Seq::empty(), quote: false };
    assert(!spec_starts_with(strong.value, "W/"@));
    reveal_strlit("W/");
    assert(weak_text[0] == 'W' && weak_text[1] == '/');
    assert(weak_text.take(2) =~= "W/"@);
    assert(spec_starts_with(weak.value, "W/"@));
    let rest = weak_text.skip(2);
    assert(rest[0] == '"');
    assert(rest[rest.len() - 1] == '"');
    assert(rest.subrange(1, rest.len() - 1) =~= etag);
}

/// A request whose conditional header carries either form of the
/// resource's tag passes the ETag membership test.
pub proof fn lemma_etag_in_header_forms(
    req: RequestView,
    header: Seq<char>,
    res: ResourceView,
    etag: Seq<char>,
    i: int,
)
    requires
        res.generate_etag == Some(etag),
        !spec_starts_with(etag, "W/"@),
        0 <= i < req.spec_find_header(header).len(),
        req.spec_find_header(header)[i] == (HeaderValueView {
            value: etag,
            params: Seq::empty(),
            quote: true,
        }) || req.spec_find_header(header)[i] == (HeaderValueView {
            value: seq!['W', '/', '"'] + etag + seq!['"'],
            params: Seq::empty(),
            quote: false,
        }),
    ensures
        spec_etag_in_header(req, header, res),
{
    lemma_etag_match_forms(etag);
    assert(spec_etag_match_value(req.spec_find_header(header)[i], etag));
}

/// The status codes that the decision graph itself emits.
pub open spec fn spec_documented_status(status: u16) -> bool {
    ||| status == 200
    ||| status == 201
    ||| status == 202
    ||| status == 204
    ||| status == 300
    ||| status == 301
    ||| status == 303
    ||| status == 304
    ||| status == 307
    ||| status == 400
    ||| status == 401
    ||| status == 403
    ||| status == 404
    ||| status == 405
    ||| status == 406
    ||| status == 409
    ||| status == 410
    ||| status == 412
    ||| status == 413
    ||| status == 414
    ||| status == 415
    ||| status == 500
    ||| status == 501
    ||| status == 503
}

/// Whether a status is one that a failing callback of this resource
/// supplied.
pub open spec fn spec_callback_status(status: u16, res: ResourceView) -> bool {
    ||| res.delete_resource == Err::<bool, u16>(status)
    ||| res.process_post == Err::<bool, u16>(status)
    ||| res.process_put == Err::<bool, u16>(status)
    ||| res.create_path == Some(Err::<Seq<char>, u16>(status))
}

/// A node that halts a run does so with the status some failing callback
/// returned.
#[verifier::rlimit(100)]
#[verifier::spinoff_prover]
proof fn lemma_decide_halt_codes(d: Decision, ctx: ContextView, res: ResourceView, now: i64)
    ensures
        spec_decide(d, ctx, res, now).0 matches Verdict::Halt(code) ==> spec_callback_status(
            code,
            res,
        ),
{
    match d {
        Decision::Start => {},
        Decision::End(_) => {},
        Decision::A3Options => {},
        Decision::B3Options => {},
        Decision::B4RequestEntityTooLarge => {},
        Decision::B5UnknownContentType => {},
        Decision::B6UnsupportedContentHeader => {},
        Decision::B7Forbidden => {},
        Decision::B8Authorized => {},
        Decision::B9MalformedRequest => {},
        Decision::B10MethodAllowed => {},
        Decision::B11UriTooLong => {},
        Decision::B12KnownMethod => {},
        Decision::B13Available => {},
        Decision::C3AcceptExists => {},
        Decision::C4AcceptableMediaTypeAvailable => {},
        Decision::D4AcceptLanguageExists => {},
        Decision::D5AcceptableLanguageAvailable => {},
        Decision::E5AcceptCharsetExists => {},
        Decision::E6AcceptableCharsetAvailable => {},
        Decision::F6AcceptEncodingExists => {},
        Decision::F7AcceptableEncodingAvailable => {},
        Decision::G7ResourceExists => {},
        Decision::G8IfMatchExists => {},
        Decision::G9IfMatchStarExists => {},
        Decision::G11EtagInIfMatch => {},
        Decision::H7IfMatchStarExists => {},
        Decision::H10IfUnmodifiedSinceExists => {},
        Decision::H11IfUnmodifiedSinceValid => {},
        Decision::H12LastModifiedGreaterThanUMS => {},
        Decision::I4HasMovedPermanently => {},
        Decision::I7Put => {},
        Decision::I12IfNoneMatchExists => {},
        Decision::I13IfNoneMatchStarExists => {},
        Decision::J18GetHead => {},
        Decision::K5HasMovedPermanently => {},
        Decision::K7ResourcePreviouslyExisted => {},
        Decision::K13ETagInIfNoneMatch => {},
        Decision::L5HasMovedTemporarily => {},
        Decision::L7Post => {},
        Decision::L13IfModifiedSinceExists => {},
        Decision::L14IfModifiedSinceValid => {},
        Decision::L15IfModifiedSinceGreaterThanNow => {},
        Decision::L17IfLastModifiedGreaterThanMS => {},
        Decision::M5Post => {},
        Decision::M7PostToMissingResource => {},
        Decision::M16Delete => {},
        Decision::M20DeleteEnacted => {},
        Decision::N5PostToMissingResource => {},
        Decision::N11Redirect => {},
        Decision::N16Post => {},
        Decision::O14Conflict => {},
        Decision::O16Put => {},
        Decision::O18MultipleRepresentations => {},
        Decision::O20ResponseHasBody => {},
        Decision::P3Conflict => {},
        Decision::P11NewResource => {},
    }
}

/// Every `End` node of the transition table carries a documented status.
proof fn lemma_table_end_codes(d: Decision)
    ensures
        match spec_transition(d) {
            Some(Transition::To(n)) => n matches Decision::End(c) ==> spec_documented_status(c),
            Some(Transition::Branch(t, f)) => (t matches Decision::End(c)
                ==> spec_documented_status(c)) && (f matches Decision::End(c)
                ==> spec_documented_status(c)),
            None => true,
        },
{
    match d {
        Decision::Start => {},
        Decision::End(_) => {},
        Decision::A3Options => {},
        Decision::B3Options => {},
        Decision::B4RequestEntityTooLarge => {},
        Decision::B5UnknownContentType => {},
        Decision::B6UnsupportedContentHeader => {},
        Decision::B7Forbidden => {},
        Decision::B8Authorized => {},
        Decision::B9MalformedRequest => {},
        Decision::B10MethodAllowed => {},
        Decision::B11UriTooLong => {},
        Decision::B12KnownMethod => {},
        Decision::B13Available => {},
        Decision::C3AcceptExists => {},
        Decision::C4AcceptableMediaTypeAvailable => {},
        Decision::D4AcceptLanguageExists => {},
        Decision::D5AcceptableLanguageAvailable => {},
        Decision::E5AcceptCharsetExists => {},
        Decision::E6AcceptableCharsetAvailable => {},
        Decision::F6AcceptEncodingExists => {},
        Decision::F7AcceptableEncodingAvailable => {},
        Decision::G7ResourceExists => {},
        Decision::G8IfMatchExists => {},
        Decision::G9IfMatchStarExists => {},
        Decision::G11EtagInIfMatch => {},
        Decision::H7IfMatchStarExists => {},
        Decision::H10IfUnmodifiedSinceExists => {},
        Decision::H11IfUnmodifiedSinceValid => {},
        Decision::H12LastModifiedGreaterThanUMS => {},
        Decision::I4HasMovedPermanently => {},
        Decision::I7Put => {},
        Decision::I12IfNoneMatchExists => {},
        Decision::I13IfNoneMatchStarExists => {},
        Decision::J18GetHead => {},
        Decision::K5HasMovedPermanently => {},
        Decision::K7ResourcePreviouslyExisted => {},
        Decision::K13ETagInIfNoneMatch => {},
        Decision::L5HasMovedTemporarily => {},
        Decision::L7Post => {},
        Decision::L13IfModifiedSinceExists => {},
        Decision::L14IfModifiedSinceValid => {},
        Decision::L15IfModifiedSinceGreaterThanNow => {},
        Decision::L17IfLastModifiedGreaterThanMS => {},
        Decision::M5Post => {},
        Decision::M7PostToMissingResource => {},
        Decision::M16Delete => {},
        Decision::M20DeleteEnacted => {},
        Decision::N5PostToMissingResource => {},
        Decision::N11Redirect => {},
        Decision::N16Post => {},
        Decision::O14Conflict => {},
        Decision::O16Put => {},
        Decision::O18MultipleRepresentations => {},
        Decision::O20ResponseHasBody => {},
        Decision::P3Conflict => {},
        Decision::P11NewResource => {},
    }
}

proof fn lemma_status_coverage_rec(state: Decision, ctx: ContextView, res: ResourceView, now: i64)
    ensures
        ({
            let status = spec_run(state, ctx, res, now).response.status;
            spec_documented_status(status) || spec_callback_status(status, res) || (state
                matches Decision::End(c) && status == c)
        }),
    decreases rank(state),
{
    lemma_transition_ranks(state);
    lemma_table_end_codes(state);
    if !state.spec_is_terminal() {
        match spec_transition(state) {
            Some(Transition::To(next)) => {
                lemma_status_coverage_rec(next, ctx, res, now);
            },
            Some(Transition::Branch(on_true, on_false)) => {
                lemma_decide_halt_codes(state, ctx, res, now);
                let stepped = spec_decide(state, ctx, res, now).1;
                match spec_decide(state, ctx, res, now).0 {
                    Verdict::Yes => {
                        lemma_status_coverage_rec(
                            on_true,
                            spec_push_trace(stepped, state, true, on_true),
                            res,
                            now,
                        );
                    },
                    Verdict::No => {
                        lemma_status_coverage_rec(
                            on_false,
                            spec_push_trace(stepped, state, false, on_false),
                            res,
                            now,
                        );
                    },
                    Verdict::Halt(code) => {
                        lemma_status_coverage_rec(
                            Decision::End(code),
                            spec_push_trace(stepped, state, false, Decision::End(code)),
                            res,
                            now,
                        );
                    },
                }
            },
            None => {
                lemma_status_coverage_rec(
                    Decision::End(500),
                    spec_push_trace(ctx, state, false, Decision::End(500)),
                    res,
                    now,
                );
            },
        }
    }
}

/// Status coverage: a whole run emits either a status that the graph's
/// documented paths carry, or one supplied by a failing callback of the
/// resource.
pub proof fn lemma_status_coverage(ctx: ContextView, res: ResourceView, now: i64)
    ensures
        spec_documented_status(spec_run(Decision::Start, ctx, res, now).response.status)
            || spec_callback_status(
            spec_run(Decision::Start, ctx, res, now).response.status,
            res,
        ),
{
    lemma_status_coverage_rec(Decision::Start, ctx, res, now);
}

/// Binding one name leaves every lookup under a different (case-folded)
/// name unchanged.
proof fn lemma_set_header_preserves_lookup(
    hs: HeadersView,
    k: Seq<char>,
    v: Seq<HeaderValueView>,
    name: Seq<char>,
)
    requires
        spec_upper(k) != spec_upper(name),
    ensures
        spec_lookup_ci(crate::context::spec_set_header(hs, k, v), name) == spec_lookup_ci(
            hs,
            name,
        ),
    decreases hs.len(),
{
    if hs.len() == 0 {
        let s1 = crate::context::spec_set_header(hs, k, v);
        assert(s1 == seq![(k, v)]);
        assert(s1[0].0 == k);
        assert(s1.drop_first() =~= Seq::<(Seq<char>, Seq<HeaderValueView>)>::empty());
        assert(spec_lookup_ci(s1, name) == spec_lookup_ci(s1.drop_first(), name));
        assert(spec_lookup_ci(s1, name) is None);
        assert(spec_lookup_ci(hs, name) is None);
    } else if hs[0].0 == k {
        let s1 = crate::context::spec_set_header(hs, k, v);
        assert(s1 == seq![(k, v)] + hs.drop_first());
        assert(s1[0].0 == k);
        assert(s1.drop_first() =~= hs.drop_first());
        assert(spec_lookup_ci(s1, name) == spec_lookup_ci(hs.drop_first(), name));
        assert(spec_upper(hs[0].0) != spec_upper(name));
        assert(spec_lookup_ci(hs, name) == spec_lookup_ci(hs.drop_first(), name));
    } else {
        lemma_set_header_preserves_lookup(hs.drop_first(), k, v, name);
        let s1 = crate::context::spec_set_header(hs, k, v);
        assert(s1 == seq![hs[0]] + crate::context::spec_set_header(hs.drop_first(), k, v));
        assert(s1[0] == hs[0]);
        assert(s1.drop_first() =~= crate::context::spec_set_header(hs.drop_first(), k, v));
        if spec_upper(hs[0].0) == spec_upper(name) {
            assert(spec_lookup_ci(s1, name) == Some(hs[0].1));
            assert(spec_lookup_ci(hs, name) == Some(hs[0].1));
        } else {
            assert(spec_lookup_ci(s1, name) == spec_lookup_ci(s1.drop_first(), name));
            assert(spec_lookup_ci(hs, name) == spec_lookup_ci(hs.drop_first(), name));
        }
    }
}

/// Binding a name that no entry matches (case-folded) makes it found with
/// exactly the bound values.
proof fn lemma_set_header_lookup_new(hs: HeadersView, k: Seq<char>, v: Seq<HeaderValueView>)
    requires
        spec_lookup_ci(hs, k) is None,
    ensures
        spec_lookup_ci(crate::context::spec_set_header(hs, k, v), k) == Some(v),
    decreases hs.len(),
{
    if hs.len() == 0 {
    } else if hs[0].0 == k {
        assert(spec_upper(hs[0].0) == spec_upper(k));
        assert(false);
    } else {
        lemma_set_header_lookup_new(hs.drop_first(), k, v);
        assert((seq![hs[0]] + crate::context::spec_set_header(
            hs.drop_first(),
            k,
            v,
        )).drop_first() =~= crate::context::spec_set_header(hs.drop_first(), k, v));
    }
}

/// Content-Type shape: where the engine synthesises a Content-Type, the
/// finalised response carries exactly one value for it, bearing exactly
/// one parameter, named `charset`.
pub proof fn lemma_content_type_shape(ctx: ContextView, res: ResourceView)
    requires
        !ctx.response.spec_has_header("Content-Type"@),
    ensures
        ({
            let hs = crate::finalize::spec_finalise_response(ctx, res).response.headers;
            &&& spec_lookup_ci(hs, "Content-Type"@) == Some(
                seq![crate::finalize::spec_synth_content_type(ctx)],
            )
            &&& crate::finalize::spec_synth_content_type(ctx).params.len() == 1
            &&& crate::finalize::spec_synth_content_type(ctx).params[0].0 == "charset"@
        }),
{
    reveal_strlit("Content-Type");
    reveal_strlit("Vary");
    reveal_strlit("ETag");
    reveal_strlit("Expires");
    reveal_strlit("Last-Modified");
    let ct = seq![crate::finalize::spec_synth_content_type(ctx)];
    let with_ct = crate::context::spec_set_header(ctx.response.headers, "Content-Type"@, ct);
    lemma_set_header_lookup_new(ctx.response.headers, "Content-Type"@, ct);
    assert(spec_upper("Content-Type"@).len() == 12);
    assert(spec_upper("Vary"@).len() == 4);
    assert(spec_upper("ETag"@).len() == 4);
    assert(spec_upper("Expires"@).len() == 7);
    assert(spec_upper("Last-Modified"@).len() == 13);
    let vary = crate::finalize::spec_dedup(crate::finalize::spec_vary_list(ctx, res));
    let with_vary = if vary.len() > 1 {
        crate::context::spec_set_header(with_ct, "Vary"@, vary)
    } else {
        with_ct
    };
    if vary.len() > 1 {
        lemma_set_header_preserves_lookup(with_ct, "Vary"@, vary, "Content-Type"@);
    }
    let reads = ctx.request.spec_method_is("GET"@) || ctx.request.spec_method_is("HEAD"@);
    let with_etag = if reads && res.generate_etag is Some {
        crate::context::spec_set_header(
            with_vary,
            "ETag"@,
            seq![crate::finalize::spec_quoted_value(res.generate_etag->Some_0)],
        )
    } else {
        with_vary
    };
    if reads && res.generate_etag is Some {
        lemma_set_header_preserves_lookup(
            with_vary,
            "ETag"@,
            seq![crate::finalize::spec_quoted_value(res.generate_etag->Some_0)],
            "Content-Type"@,
        );
    }
    let with_expires = if reads && res.expires is Some {
        crate::context::spec_set_header(
            with_etag,
            "Expires"@,
            seq![
                crate::finalize::spec_quoted_value(
                    crate::dates::rfc2822_text(res.expires->Some_0),
                ),
            ],
        )
    } else {
        with_etag
    };
    if reads && res.expires is Some {
        lemma_set_header_preserves_lookup(
            with_etag,
            "Expires"@,
            seq![
                crate::finalize::spec_quoted_value(
                    crate::dates::rfc2822_text(res.expires->Some_0),
                ),
            ],
            "Content-Type"@,
        );
    }
    if reads && res.last_modified is Some {
        lemma_set_header_preserves_lookup(
            with_expires,
            "Last-Modified"@,
            seq![
                crate::finalize::spec_quoted_value(
                    crate::dates::rfc2822_text(res.last_modified->Some_0),
                ),
            ],
            "Content-Type"@,
        );
    }
}

proof fn lemma_push_contains<T>(s: Seq<T>, v: T, x: T)
    ensures
        s.push(v).contains(x) == (s.contains(x) || v == x),
{
    if s.contains(x) {
        let i = choose|i: int| 0 <= i < s.len() && s[i] == x;
        assert(s.push(v)[i] == x);
    }
    if v == x {
        assert(s.push(v)[s.len() as int] == x);
    }
    if s.push(v).contains(x) {
        let i = choose|i: int| 0 <= i < s.push(v).len() && s.push(v)[i] == x;
        if i < s.len() {
            assert(s[i] == x);
        }
    }
}

/// De-duplication neither loses nor invents entries.
proof fn lemma_dedup_membership(vs: Seq<HeaderValueView>, x: HeaderValueView)
    ensures
        crate::finalize::spec_dedup(vs).contains(x) == vs.contains(x),
    decreases vs.len(),
{
    if vs.len() > 0 {
        lemma_dedup_membership(vs.drop_last(), x);
        let rest = crate::finalize::spec_dedup(vs.drop_last());
        lemma_push_contains(rest, vs.last(), x);
        lemma_push_contains(vs.drop_last(), vs.last(), x);
        assert(vs.drop_last().push(vs.last()) =~= vs);
    }
}

/// Vary correctness: where no Vary header stands and the declared
/// variances name none of the negotiation axes, the computed Vary list
/// names an axis exactly when the resource offers a real choice on it.
pub proof fn lemma_vary_axes(ctx: ContextView, res: ResourceView)
    requires
        !ctx.response.spec_has_header("Vary"@),
        forall|i: int| 0 <= i < res.variances.len() ==> {
            let p = #[trigger] crate::headers::spec_parse_header_value(res.variances[i]);
            &&& p != crate::finalize::spec_basic_value("Accept-Language"@)
            &&& p != crate::finalize::spec_basic_value("Accept-Charset"@)
            &&& p != crate::finalize::spec_basic_value("Accept-Encoding"@)
            &&& p != crate::finalize::spec_basic_value("Accept"@)
        },
    ensures
        ({
            let vary = crate::finalize::spec_dedup(crate::finalize::spec_vary_list(ctx, res));
            &&& vary.contains(crate::finalize::spec_basic_value("Accept-Language"@)) <==> res
                .languages_provided.len() > 1
            &&& vary.contains(crate::finalize::spec_basic_value("Accept-Charset"@)) <==> res
                .charsets_provided.len() > 1
            &&& vary.contains(crate::finalize::spec_basic_value("Accept-Encoding"@)) <==> res
                .encodings_provided.len() > 1
            &&& vary.contains(crate::finalize::spec_basic_value("Accept"@)) <==> res.produces.len()
                > 1
        }),
{
    reveal_strlit("Accept-Language");
    reveal_strlit("Accept-Charset");
    reveal_strlit("Accept-Encoding");
    reveal_strlit("Accept");
    let al = crate::finalize::spec_basic_value("Accept-Language"@);
    let ac = crate::finalize::spec_basic_value("Accept-Charset"@);
    let ae = crate::finalize::spec_basic_value("Accept-Encoding"@);
    let a = crate::finalize::spec_basic_value("Accept"@);
    assert(("Accept-Language"@) != ("Accept-Encoding"@)) by {
        assert(("Accept-Language"@)[7] != ("Accept-Encoding"@)[7]);
    }
    assert(("Accept-Language"@).len() == 15);
    assert(("Accept-Charset"@).len() == 14);
    assert(("Accept-Encoding"@).len() == 15);
    assert(("Accept"@).len() == 6);
    assert(al != ac && al != ae && al != a && ac != ae && ac != a && ae != a);
    let base = res.variances.map_values(
        |v: Seq<char>| crate::headers::spec_parse_header_value(v),
    );
    assert(!base.contains(al) && !base.contains(ac) && !base.contains(ae) && !base.contains(a))
        by {
        if base.contains(al) {
            let i = choose|i: int| 0 <= i < base.len() && base[i] == al;
            assert(crate::headers::spec_parse_header_value(res.variances[i]) == al);
        }
        if base.contains(ac) {
            let i = choose|i: int| 0 <= i < base.len() && base[i] == ac;
            assert(crate::headers::spec_parse_header_value(res.variances[i]) == ac);
        }
        if base.contains(ae) {
            let i = choose|i: int| 0 <= i < base.len() && base[i] == ae;
            assert(crate::headers::spec_parse_header_value(res.variances[i]) == ae);
        }
        if base.contains(a) {
            let i = choose|i: int| 0 <= i < base.len() && base[i] == a;
            assert(crate::headers::spec_parse_header_value(res.variances[i]) == a);
        }
    }
    let b1 = if res.languages_provided.len() > 1 {
        base.push(al)
    } else {
        base
    };
    lemma_push_contains(base, al, al);
    lemma_push_contains(base, al, ac);
    lemma_push_contains(base, al, ae);
    lemma_push_contains(base, al, a);
    let b2 = if res.charsets_provided.len() > 1 {
        b1.push(ac)
    } else {
        b1
    };
    lemma_push_contains(b1, ac, al);
    lemma_push_contains(b1, ac, ac);
    lemma_push_contains(b1, ac, ae);
    lemma_push_contains(b1, ac, a);
    let b3 = if res.encodings_provided.len() > 1 {
        b2.push(ae)
    } else {
        b2
    };
    lemma_push_contains(b2, ae, al);
    lemma_push_contains(b2, ae, ac);
    lemma_push_contains(b2, ae, ae);
    lemma_push_contains(b2, ae, a);
    let list = if res.produces.len() > 1 {
        b3.push(a)
    } else {
        b3
    };
    lemma_push_contains(b3, a, al);
    lemma_push_contains(b3, a, ac);
    lemma_push_contains(b3, a, ae);
    lemma_push_contains(b3, a, a);
    assert(list == crate::finalize::spec_vary_list(ctx, res));
    lemma_dedup_membership(list, al);
    lemma_dedup_membership(list, ac);
    lemma_dedup_membership(list, ae);
    lemma_dedup_membership(list, a);
}

proof fn lemma_first_match_cases(items: Seq<Seq<char>>, pred: spec_fn(Seq<char>) -> bool)
    ensures
        match crate::sorting::spec_first_match(items, pred) {
            Some(p) => pred(p) && exists|i: int| 0 <= i < items.len() && #[trigger] items[i] == p,
            None => forall|i: int| 0 <= i < items.len() ==> !pred(#[trigger] items[i]),
        },
    decreases items.len(),
{
    if items.len() > 0 && !pred(items[0]) {
        lemma_first_match_cases(items.drop_first(), pred);
        match crate::sorting::spec_first_match(items, pred) {
            Some(p) => {
                let i = choose|i: int|
                    0 <= i < items.drop_first().len() && #[trigger] items.drop_first()[i] == p;
                assert(items[i + 1] == p);
            },
            None => {
                assert forall|i: int| 0 <= i < items.len() implies !pred(#[trigger] items[i]) by {
                    if i > 0 {
                        assert(items.drop_first()[i - 1] == items[i]);
                    }
                }
            },
        }
    }
}

/// Negotiation stability: with an Accept header, the selection returns a
/// member of `produces` whenever some produced and acceptable pair match,
/// and returns nothing only when no pair matches at all. The produced
/// entries are asked to be in canonical `main/sub` form, which re-parsing
/// leaves unchanged.
pub proof fn lemma_negotiation_stability(res: ResourceView, req: RequestView)
    requires
        req.spec_has_header("ACCEPT"@),
        forall|i: int| 0 <= i < res.produces.len()
            ==> crate::content_negotiation::spec_media_type_str(
            crate::content_negotiation::spec_parse_media_type(#[trigger] res.produces[i]),
        ) == res.produces[i],
    ensures
        ({
            let acc = crate::sorting::spec_sort_by(
                req.spec_find_header("ACCEPT"@),
                crate::content_negotiation::mt_order(),
            );
            match crate::content_negotiation::spec_matching_content_type(res, req) {
                Some(v) => res.produces.contains(v),
                None => forall|i: int, k: int|
                    0 <= i < res.produces.len() && 0 <= k < acc.len()
                        ==> crate::content_negotiation::spec_media_type_match(
                        crate::content_negotiation::spec_parse_media_type(
                            #[trigger] res.produces[i],
                        ),
                        crate::content_negotiation::spec_as_media_type(#[trigger] acc[k]),
                    ) == crate::content_negotiation::MediaTypeMatch::NoMatch,
            }
        }),
{
    let acc = crate::sorting::spec_sort_by(
        req.spec_find_header("ACCEPT"@),
        crate::content_negotiation::mt_order(),
    );
    let full = crate::content_negotiation::mt_kind_pred(
        acc,
        crate::content_negotiation::MediaTypeMatch::Full,
    );
    let substar = crate::content_negotiation::mt_kind_pred(
        acc,
        crate::content_negotiation::MediaTypeMatch::SubStar,
    );
    let star = crate::content_negotiation::mt_kind_pred(
        acc,
        crate::content_negotiation::MediaTypeMatch::Star,
    );
    lemma_first_match_cases(res.produces, full);
    lemma_first_match_cases(res.produces, substar);
    lemma_first_match_cases(res.produces, star);
    match crate::content_negotiation::spec_matching_content_type(res, req) {
        Some(v) => {
            assert(res.produces.contains(v)) by {
                if crate::sorting::spec_first_match(res.produces, full) is Some {
                    let p = crate::sorting::spec_first_match(res.produces, full)->Some_0;
                    let i = choose|i: int|
                        0 <= i < res.produces.len() && #[trigger] res.produces[i] == p;
                    assert(v == res.produces[i]);
                } else if crate::sorting::spec_first_match(res.produces, substar) is Some {
                    let p = crate::sorting::spec_first_match(res.produces, substar)->Some_0;
                    let i = choose|i: int|
                        0 <= i < res.produces.len() && #[trigger] res.produces[i] == p;
                    assert(v == res.produces[i]);
                } else {
                    let p = crate::sorting::spec_first_match(res.produces, star)->Some_0;
                    let i = choose|i: int|
                        0 <= i < res.produces.len() && #[trigger] res.produces[i] == p;
                    assert(v == res.produces[i]);
                }
            }
        },
        None => {
            assert forall|i: int, k: int|
                0 <= i < res.produces.len() && 0 <= k < acc.len()
                    implies crate::content_negotiation::spec_media_type_match(
                    crate::content_negotiation::spec_parse_media_type(
                        #[trigger] res.produces[i],
                    ),
                    crate::content_negotiation::spec_as_media_type(#[trigger] acc[k]),
                ) == crate::content_negotiation::MediaTypeMatch::NoMatch by {
                let m = crate::content_negotiation::spec_media_type_match(
                    crate::content_negotiation::spec_parse_media_type(res.produces[i]),
                    crate::content_negotiation::spec_as_media_type(acc[k]),
                );
                assert(!full(res.produces[i]));
                assert(!substar(res.produces[i]));
                assert(!star(res.produces[i]));
                if m == crate::content_negotiation::MediaTypeMatch::Full {
                    assert(crate::content_negotiation::spec_has_acceptable_match(
                        res.produces[i],
                        acc,
                        crate::content_negotiation::MediaTypeMatch::Full,
                    ));
                }
                if m == crate::content_negotiation::MediaTypeMatch::SubStar {
                    assert(crate::content_negotiation::spec_has_acceptable_match(
                        res.produces[i],
                        acc,
                        crate::content_negotiation::MediaTypeMatch::SubStar,
                    ));
                }
                if m == crate::content_negotiation::MediaTypeMatch::Star {
                    assert(crate::content_negotiation::spec_has_acceptable_match(
                        res.produces[i],
                        acc,
                        crate::content_negotiation::MediaTypeMatch::Star,
                    ));
                }
            }
        },
    }
}

/// Splitting at a separator placed between two pieces splits each piece
/// on its own.
proof fn lemma_exists_first_hit(s: Seq<char>, sep: char, k: int)
    requires
        0 <= k < s.len(),
        s[k] == sep,
    ensures
        exists|i: int|
            0 <= i < s.len() && s[i] == sep && (forall|j: int| 0 <= j < i ==> s[j] != sep),
    decreases k,
{
    if forall|j: int| 0 <= j < k ==> s[j] != sep {
        assert(0 <= k < s.len() && s[k] == sep && (forall|j: int| 0 <= j < k ==> s[j] != sep));
    } else {
        let j = choose|j: int| 0 <= j < k && s[j] == sep;
        lemma_exists_first_hit(s, sep, j);
    }
}

/// What a found separator index means: it is in range, hits the
/// separator, and nothing before it does; nothing found means no hit.
proof fn lemma_find_props(s: Seq<char>, sep: char)
    ensures
        match crate::strutil::spec_find(s, sep) {
            Some(i) => 0 <= i < s.len() && s[i] == sep && (forall|j: int|
                0 <= j < i ==> s[j] != sep),
            None => forall|j: int| 0 <= j < s.len() ==> s[j] != sep,
        },
{
    if exists|k: int| 0 <= k < s.len() && s[k] == sep {
        let k = choose|k: int| 0 <= k < s.len() && s[k] == sep;
        lemma_exists_first_hit(s, sep, k);
        let w = choose|i: int|
            0 <= i < s.len() && s[i] == sep && (forall|j: int| 0 <= j < i ==> s[j] != sep);
        crate::strutil::lemma_find_unique(s, sep, w);
    } else {
        assert forall|j: int| 0 <= j < s.len() implies s[j] != sep by {
            if s[j] == sep {
                assert(exists|k: int| 0 <= k < s.len() && s[k] == sep);
            }
        }
    }
}

proof fn lemma_find_in_concat(a: Seq<char>, b: Seq<char>, sep: char, i: int)
    requires
        0 <= i < a.len(),
        a[i] == sep,
        forall|j: int| 0 <= j < i ==> a[j] != sep,
    ensures
        crate::strutil::spec_find(a + seq![sep] + b, sep) == Some(i),
{
    let whole = a + seq![sep] + b;
    assert(whole[i] == sep);
    assert forall|j: int| 0 <= j < i implies whole[j] != sep by {
        assert(whole[j] == a[j]);
    }
    crate::strutil::lemma_find_unique(whole, sep, i);
}

#[verifier::spinoff_prover]
proof fn lemma_concat_take_skip(a: Seq<char>, b: Seq<char>, sep: char, i: int)
    requires
        0 <= i < a.len(),
    ensures
        (a + seq![sep] + b).take(i) == a.take(i),
        (a + seq![sep] + b).skip(i + 1) == a.skip(i + 1) + seq![sep] + b,
{
    assert((a + seq![sep] + b).take(i) =~= a.take(i));
    assert((a + seq![sep] + b).skip(i + 1) =~= a.skip(i + 1) + seq![sep] + b);
}

#[verifier::spinoff_prover]
proof fn lemma_seq_assoc(x: Seq<Seq<char>>, y: Seq<Seq<char>>, z: Seq<Seq<char>>)
    ensures
        x + (y + z) == (x + y) + z,
{
    assert(x + (y + z) =~= (x + y) + z);
}

#[verifier::rlimit(100)]
#[verifier::spinoff_prover]
proof fn lemma_split_concat_step(a: Seq<char>, b: Seq<char>, sep: char, i: int)
    requires
        crate::strutil::spec_find(a, sep) == Some(i),
        crate::strutil::spec_find(a + seq![sep] + b, sep) == Some(i),
        0 <= i < a.len(),
        crate::strutil::spec_split(a.skip(i + 1) + seq![sep] + b, sep)
            == crate::strutil::spec_split(a.skip(i + 1), sep) + crate::strutil::spec_split(
            b,
            sep,
        ),
    ensures
        crate::strutil::spec_split(a + seq![sep] + b, sep) == crate::strutil::spec_split(a, sep)
            + crate::strutil::spec_split(b, sep),
{
    let whole = a + seq![sep] + b;
    lemma_concat_take_skip(a, b, sep, i);
    assert(crate::strutil::spec_split(whole, sep) == seq![whole.take(i)]
        + crate::strutil::spec_split(whole.skip(i + 1), sep));
    assert(crate::strutil::spec_split(a, sep) == seq![a.take(i)]
        + crate::strutil::spec_split(a.skip(i + 1), sep));
    lemma_seq_assoc(
        seq![a.take(i)],
        crate::strutil::spec_split(a.skip(i + 1), sep),
        crate::strutil::spec_split(b, sep),
    );
}

#[verifier::rlimit(100)]
#[verifier::spinoff_prover]
proof fn lemma_split_concat_flat(a: Seq<char>, b: Seq<char>, sep: char)
    requires
        crate::strutil::spec_find(a, sep) is None,
    ensures
        crate::strutil::spec_split(a + seq![sep] + b, sep) == crate::strutil::spec_split(a, sep)
            + crate::strutil::spec_split(b, sep),
{
    let whole = a + seq![sep] + b;
    assert(forall|j: int| 0 <= j < a.len() ==> a[j] != sep) by {
        if exists|j: int| 0 <= j < a.len() && a[j] == sep {
            assert(crate::strutil::spec_find(a, sep) is Some);
        }
    }
    assert(crate::strutil::spec_find(whole, sep) == Some(a.len() as int)) by {
        assert(whole[a.len() as int] == sep);
        assert forall|j: int| 0 <= j < a.len() implies whole[j] != sep by {
            assert(whole[j] == a[j]);
        }
        crate::strutil::lemma_find_unique(whole, sep, a.len() as int);
    }
    assert(whole.take(a.len() as int) =~= a);
    assert(whole.skip(a.len() as int + 1) =~= b);
    assert(crate::strutil::spec_split(whole, sep) =~= crate::strutil::spec_split(a, sep)
        + crate::strutil::spec_split(b, sep)) by {
        assert(crate::strutil::spec_split(whole, sep) == seq![a]
            + crate::strutil::spec_split(b, sep));
        assert(crate::strutil::spec_split(a, sep) == seq![a]);
    }
}

/// Splitting at a separator placed between two pieces splits each piece
/// on its own.
proof fn lemma_split_concat(a: Seq<char>, b: Seq<char>, sep: char)
    ensures
        crate::strutil::spec_split(a + seq![sep] + b, sep) == crate::strutil::spec_split(a, sep)
            + crate::strutil::spec_split(b, sep),
    decreases a.len(),
{
    lemma_find_props(a, sep);
    match crate::strutil::spec_find(a, sep) {
        Some(i) => {
            lemma_find_in_concat(a, b, sep, i);
            lemma_split_concat(a.skip(i + 1), b, sep);
            lemma_split_concat_step(a, b, sep, i);
        },
        None => {
            lemma_split_concat_flat(a, b, sep);
        },
    }
}

/// Keeping the non-empty parts distributes over concatenation.
proof fn lemma_nonempty_concat(s: Seq<Seq<char>>, t: Seq<Seq<char>>)
    ensures
        crate::paths::spec_nonempty_parts(s + t) == crate::paths::spec_nonempty_parts(s)
            + crate::paths::spec_nonempty_parts(t),
    decreases t.len(),
{
    if t.len() == 0 {
        assert(s + t =~= s);
        assert(crate::paths::spec_nonempty_parts(s) + crate::paths::spec_nonempty_parts(t)
            =~= crate::paths::spec_nonempty_parts(s));
    } else {
        lemma_nonempty_concat(s, t.drop_last());
        assert((s + t).drop_last() =~= s + t.drop_last());
        assert((s + t).last() == t.last());
    }
}

/// Canonical segments split around an explicit slash.
proof fn lemma_sanitise_concat(a: Seq<char>, b: Seq<char>)
    ensures
        crate::paths::spec_sanitise_path(a + seq!['/'] + b) == crate::paths::spec_sanitise_path(a)
            + crate::paths::spec_sanitise_path(b),
{
    lemma_split_concat(a, b, '/');
    lemma_nonempty_concat(
        crate::strutil::spec_split(a, '/'),
        crate::strutil::spec_split(b, '/'),
    );
}

/// Round trip of the dispatch rewrite: where the base path is a character
/// prefix of the request path, and the remainder either begins at a slash
/// or follows a base that ends in one, the base joined with the rewritten
/// request path canonicalizes to the original path: duplicate slashes and
/// a trailing slash are all that the rewrite can introduce.
proof fn lemma_sanitise_of_empty()
    ensures
        crate::paths::spec_sanitise_path(Seq::<char>::empty()) == Seq::<Seq<char>>::empty(),
{
    assert(crate::strutil::spec_find(Seq::<char>::empty(), '/') is None);
    assert(crate::strutil::spec_split(Seq::<char>::empty(), '/') == seq![Seq::<char>::empty()]);
    assert(crate::paths::spec_nonempty_parts(seq![Seq::<char>::empty()]) =~= Seq::<
        Seq<char>,
    >::empty()) by {
        assert(seq![Seq::<char>::empty()].drop_last() =~= Seq::<Seq<char>>::empty());
        assert(seq![Seq::<char>::empty()].last().len() == 0);
        assert(crate::paths::spec_nonempty_parts(Seq::<Seq<char>>::empty()) =~= Seq::<
            Seq<char>,
        >::empty());
    }
    assert(crate::paths::spec_sanitise_path(Seq::<char>::empty()) =~= Seq::<Seq<char>>::empty());
}

#[verifier::rlimit(100)]
#[verifier::spinoff_prover]
pub proof fn lemma_path_rewrite_round_trip(path: Seq<char>, base: Seq<char>)
    requires
        crate::strutil::spec_starts_with(path, base),
        path.len() > base.len() ==> (path[base.len() as int] == '/' || (base.len() > 0
            && base[base.len() - 1] == '/')),
    ensures
        crate::paths::spec_sanitise_path(base + crate::paths::spec_rewritten_path(path, base))
            == crate::paths::spec_sanitise_path(path),
{
    reveal_strlit("/");
    lemma_sanitise_of_empty();
    let rewritten = crate::paths::spec_rewritten_path(path, base);
    if path.len() <= base.len() {
        assert(base =~= path);
        assert(rewritten == "/"@);
        assert(base + rewritten =~= path + seq!['/'] + Seq::<char>::empty());
        lemma_sanitise_concat(path, Seq::empty());
        assert(crate::paths::spec_sanitise_path(path) + Seq::<Seq<char>>::empty()
            =~= crate::paths::spec_sanitise_path(path));
    } else {
        let sub = path.skip(base.len() as int);
        assert(base + sub =~= path);
        if crate::strutil::spec_starts_with(sub, "/"@) {
            assert(rewritten == sub);
        } else {
            assert(sub[0] == path[base.len() as int]);
            assert(sub[0] != '/') by {
                if sub[0] == '/' {
                    assert(sub.take(1) =~= "/"@);
                }
            }
            assert(base.len() > 0 && base[base.len() - 1] == '/');
            assert(rewritten == "/"@ + sub);
            let stem = base.take(base.len() - 1);
            assert(base =~= stem + seq!['/']);
            assert(base + rewritten =~= stem + seq!['/'] + (seq!['/'] + sub));
            lemma_sanitise_concat(stem, seq!['/'] + sub);
            assert(seq!['/'] + sub =~= Seq::<char>::empty() + seq!['/'] + sub);
            lemma_sanitise_concat(Seq::empty(), sub);
            assert(path =~= stem + seq!['/'] + sub);
            lemma_sanitise_concat(stem, sub);
            assert(Seq::<Seq<char>>::empty() + crate::paths::spec_sanitise_path(sub)
                =~= crate::paths::spec_sanitise_path(sub));
        }
    }
}
} // verus!
