//! The response finalizer: after the machine halts, the negotiated
//! Content-Type is synthesised, the Vary header built, validators and
//! expiry stamped for reads, and a body rendered for a plain GET.

use vstd::prelude::*;

use crate::context::{spec_set_header, Context, ContextView, ResponseView};
use crate::dates::{format_rfc2822, rfc2822_text};
use crate::headers::{spec_parse_header_value, HeaderValue, HeaderValueView};
use crate::resource::{Resource, ResourceView};
use crate::strutil::push_dv;

verus! {

/// The Content-Type the engine synthesises: the selected media type (JSON
/// by default) carrying the selected charset (Latin-1 by default).
pub open spec fn spec_synth_content_type(ctx: ContextView) -> HeaderValueView {
    HeaderValueView {
        value: match ctx.selected_media_type {
            Some(mt) => mt,
            None => "application/json"@,
        },
        params: seq![
            (
                "charset"@,
                match ctx.selected_charset {
                    Some(cs) => cs,
                    None => "ISO-8859-1"@,
                },
            ),
        ],
        quote: false,
    }
}

/// The whole Vary list before de-duplication: the resource's declared
/// variances (only where no Vary header stands yet), then each negotiation
/// axis on which the resource offers a real choice.
pub open spec fn spec_vary_list(ctx: ContextView, res: ResourceView) -> Seq<HeaderValueView> {
    let base: Seq<HeaderValueView> = if !ctx.response.spec_has_header("Vary"@) {
        res.variances.map_values(|v: Seq<char>| spec_parse_header_value(v))
    } else {
        Seq::empty()
    };
    let base1 = if res.languages_provided.len() > 1 {
        base.push(spec_basic_value("Accept-Language"@))
    } else {
        base
    };
    let base2 = if res.charsets_provided.len() > 1 {
        base1.push(spec_basic_value("Accept-Charset"@))
    } else {
        base1
    };
    let base3 = if res.encodings_provided.len() > 1 {
        base2.push(spec_basic_value("Accept-Encoding"@))
    } else {
        base2
    };
    if res.produces.len() > 1 {
        base3.push(spec_basic_value("Accept"@))
    } else {
        base3
    }
}

/// A plain header value.
pub open spec fn spec_basic_value(v: Seq<char>) -> HeaderValueView {
    HeaderValueView { value: v, params: Seq::empty(), quote: false }
}

/// The list with later duplicates removed, first occurrences kept.
pub open spec fn spec_dedup(vs: Seq<HeaderValueView>) -> Seq<HeaderValueView>
    decreases vs.len(),
{
    if vs.len() == 0 {
        Seq::empty()
    } else {
        let rest = spec_dedup(vs.drop_last());
        if rest.contains(vs.last()) {
            rest
        } else {
            rest.push(vs.last())
        }
    }
}

/// A quoted header value.
pub open spec fn spec_quoted_value(v: Seq<char>) -> HeaderValueView {
    HeaderValueView { value: v, params: Seq::empty(), quote: true }
}

/// The response headers after the finalizer's first two steps: the
/// synthesised Content-Type where none stands, then the Vary header where
/// two or more distinct entries call for one.
pub open spec fn spec_finalised_headers(
    ctx: ContextView,
    res: ResourceView,
) -> crate::context::HeadersView {
    let with_ct = if !ctx.response.spec_has_header("Content-Type"@) {
        spec_set_header(ctx.response.headers, "Content-Type"@, seq![spec_synth_content_type(ctx)])
    } else {
        ctx.response.headers
    };
    let vary = spec_dedup(spec_vary_list(ctx, res));
    let with_vary = if vary.len() > 1 {
        spec_set_header(with_ct, "Vary"@, vary)
    } else {
        with_ct
    };
    let with_etag = if (ctx.request.spec_method_is("GET"@) || ctx.request.spec_method_is("HEAD"@))
        && res.generate_etag is Some {
        spec_set_header(with_vary, "ETag"@, seq![spec_quoted_value(res.generate_etag->Some_0)])
    } else {
        with_vary
    };
    let with_expires = if (ctx.request.spec_method_is("GET"@) || ctx.request.spec_method_is(
        "HEAD"@,
    )) && res.expires is Some {
        spec_set_header(
            with_etag,
            "Expires"@,
            seq![spec_quoted_value(rfc2822_text(res.expires->Some_0))],
        )
    } else {
        with_etag
    };
    if (ctx.request.spec_method_is("GET"@) || ctx.request.spec_method_is("HEAD"@))
        && res.last_modified is Some {
        spec_set_header(
            with_expires,
            "Last-Modified"@,
            seq![spec_quoted_value(rfc2822_text(res.last_modified->Some_0))],
        )
    } else {
        with_expires
    }
}

/// The response body after finalisation: a body rendered for a plain GET
/// answered 200 with nothing rendered yet, else what was there.
pub open spec fn spec_finalised_body(ctx: ContextView, res: ResourceView) -> Option<Seq<u8>> {
    if ctx.response.body is None && ctx.response.status == 200 && ctx.request.spec_method_is(
        "GET"@,
    ) && res.render_response is Some {
        Some(vstd::utf8::encode_utf8(res.render_response->Some_0))
    } else {
        ctx.response.body
    }
}

/// The whole context after finalisation.
pub open spec fn spec_finalise_response(ctx: ContextView, res: ResourceView) -> ContextView {
    ContextView {
        response: ResponseView {
            status: ctx.response.status,
            headers: spec_finalised_headers(ctx, res),
            body: spec_finalised_body(ctx, res),
        },
        ..ctx
    }
}

/// Shapes the final response: synthesises Content-Type, builds Vary,
/// stamps ETag, Expires and Last-Modified for reads, and renders a body
/// for a plain GET answered 200.
#[verifier::rlimit(100)]
#[verifier::loop_isolation(false)]
pub fn finalise_response(context: &mut Context, resource: &Resource)
    requires
        resource@.spec_wf(),
    ensures
        final(context)@ == spec_finalise_response(old(context)@, resource@),
{
    let vary_absent = !context.response.has_header("Vary");
    if !context.response.has_header("Content-Type") {
        let media_type = match &context.selected_media_type {
            Some(mt) => mt.clone(),
            None => "application/json".to_owned(),
        };
        let charset = match &context.selected_charset {
            Some(cs) => cs.clone(),
            None => "ISO-8859-1".to_owned(),
        };
        let mut params: Vec<(String, String)> = Vec::new();
        push_dv(&mut params, ("charset".to_owned(), charset));
        let header = HeaderValue { value: media_type, params, quote: false };
        proof {
            assert(header@ =~= spec_synth_content_type(old(context)@));
        }
        context.response.add_header("Content-Type", one_value(header));
    }
    let mut vary_header: Vec<HeaderValue> = Vec::new();
    if vary_absent {
        let n = resource.variances.len();
        let mut i: usize = 0;
        proof {
            assert(vary_header.deep_view() =~= resource@.variances.map_values(
                |v: Seq<char>| spec_parse_header_value(v),
            ).take(0));
        }
        while i < n
            invariant
                n == resource.variances@.len(),
                i <= n,
                vary_header.deep_view() == resource@.variances.map_values(
                    |v: Seq<char>| spec_parse_header_value(v),
                ).take(i as int),
            decreases n - i,
        {
            push_dv(&mut vary_header, HeaderValue::parse_string(resource.variances[i].as_str()));
            proof {
                assert(resource@.variances.map_values(
                    |v: Seq<char>| spec_parse_header_value(v),
                )[i as int] == spec_parse_header_value(resource@.variances[i as int]));
                assert(vary_header.deep_view() =~= resource@.variances.map_values(
                    |v: Seq<char>| spec_parse_header_value(v),
                ).take(i + 1));
            }
            i = i + 1;
        }
        proof {
            let mapped = resource@.variances.map_values(
                |v: Seq<char>| spec_parse_header_value(v),
            );
            assert(mapped.take(n as int) =~= mapped);
        }
    } else {
        proof {
            assert(vary_header.deep_view() =~= Seq::<HeaderValueView>::empty());
        }
    }
    if resource.languages_provided.len() > 1 {
        push_dv(&mut vary_header, HeaderValue::basic("Accept-Language"));
    }
    if resource.charsets_provided.len() > 1 {
        push_dv(&mut vary_header, HeaderValue::basic("Accept-Charset"));
    }
    if resource.encodings_provided.len() > 1 {
        push_dv(&mut vary_header, HeaderValue::basic("Accept-Encoding"));
    }
    if resource.produces.len() > 1 {
        push_dv(&mut vary_header, HeaderValue::basic("Accept"));
    }
    proof {
        assert(vary_header.deep_view() =~= spec_vary_list(old(context)@, resource@));
    }
    let deduped = dedup_values(&vary_header);
    if deduped.len() > 1 {
        context.response.add_header("Vary", deduped);
    }
    if context.request.is_get_or_head() {
        match &resource.generate_etag {
            Some(etag) => {
                let value = HeaderValue::basic(etag.as_str()).quote();
                proof {
                    assert(value@ =~= spec_quoted_value(resource@.generate_etag->Some_0));
                }
                context.response.add_header("ETag", one_value(value));
            },
            None => {},
        }
        match &resource.expires {
            Some(ts) => {
                let text = format_rfc2822(ts);
                let value = HeaderValue::basic(text.as_str()).quote();
                proof {
                    assert(value@ =~= spec_quoted_value(rfc2822_text(resource@.expires->Some_0)));
                }
                context.response.add_header("Expires", one_value(value));
            },
            None => {},
        }
        match &resource.last_modified {
            Some(ts) => {
                let text = format_rfc2822(ts);
                let value = HeaderValue::basic(text.as_str()).quote();
                proof {
                    assert(value@ =~= spec_quoted_value(
                        rfc2822_text(resource@.last_modified->Some_0),
                    ));
                }
                context.response.add_header("Last-Modified", one_value(value));
            },
            None => {},
        }
    }
    if context.response.body.is_none() && context.response.status == 200
        && context.request.is_get() {
        match &resource.render_response {
            Some(body) => {
                context.response.body = Some(body.as_str().as_bytes_vec());
            },
            None => {},
        }
    }
}

fn one_value(hv: HeaderValue) -> (r: Vec<HeaderValue>)
    ensures
        r.deep_view() == seq![hv@],
{
    let ghost v = hv@;
    let mut out: Vec<HeaderValue> = Vec::new();
    push_dv(&mut out, hv);
    proof {
        assert(out.deep_view() =~= seq![v]);
    }
    out
}

fn contains_value(vs: &Vec<HeaderValue>, hv: &HeaderValue) -> (r: bool)
    ensures
        r == vs.deep_view().contains(hv@),
{
    let n = vs.len();
    let mut i: usize = 0;
    while i < n
        invariant
            n == vs@.len(),
            i <= n,
            forall|j: int| 0 <= j < i ==> #[trigger] vs.deep_view()[j] != hv@,
        decreases n - i,
    {
        if header_value_eq(&vs[i], hv) {
            proof {
                assert(vs.deep_view()[i as int] == hv@);
                assert(vs.deep_view().contains(hv@));
            }
            return true;
        }
        i = i + 1;
    }
    proof {
        if vs.deep_view().contains(hv@) {
            let w = choose|j: int| 0 <= j < vs.deep_view().len() && vs.deep_view()[j] == hv@;
            assert(vs.deep_view()[w] != hv@);
        }
    }
    false
}

fn header_value_eq(a: &HeaderValue, b: &HeaderValue) -> (r: bool)
    ensures
        r == (a@ == b@),
{
    if !crate::strutil::str_eq(a.value.as_str(), b.value.as_str()) || a.quote != b.quote {
        proof {
            assert(a@ != b@);
        }
        return false;
    }
    let n = a.params.len();
    if n != b.params.len() {
        proof {
            assert(a@.params.len() != b@.params.len());
        }
        return false;
    }
    let mut i: usize = 0;
    while i < n
        invariant
            n == a.params@.len(),
            n == b.params@.len(),
            i <= n,
            a@.value == b@.value,
            a@.quote == b@.quote,
            forall|j: int| 0 <= j < i ==> #[trigger] a@.params[j] == b@.params[j],
        decreases n - i,
    {
        if !crate::strutil::str_eq(a.params[i].0.as_str(), b.params[i].0.as_str())
            || !crate::strutil::str_eq(a.params[i].1.as_str(), b.params[i].1.as_str()) {
            proof {
                assert(a@.params[i as int] != b@.params[i as int]);
            }
            return false;
        }
        i = i + 1;
    }
    proof {
        assert(a@.params =~= b@.params);
        assert(a@ =~= b@);
    }
    true
}

fn dedup_values(vs: &Vec<HeaderValue>) -> (r: Vec<HeaderValue>)
    ensures
        r.deep_view() == spec_dedup(vs.deep_view()),
{
    let mut out: Vec<HeaderValue> = Vec::new();
    let n = vs.len();
    let mut i: usize = 0;
    proof {
        assert(out.deep_view() =~= spec_dedup(vs.deep_view().take(0)));
    }
    while i < n
        invariant
            n == vs@.len(),
            i <= n,
            out.deep_view() == spec_dedup(vs.deep_view().take(i as int)),
        decreases n - i,
    {
        proof {
            let dv = vs.deep_view();
            assert(dv.take(i + 1).drop_last() =~= dv.take(i as int));
            assert(dv.take(i + 1).last() == dv[i as int]);
        }
        let item = crate::context::duplicate_header_value(&vs[i]);
        if !contains_value(&out, &item) {
            push_dv(&mut out, item);
        }
        i = i + 1;
    }
    proof {
        assert(vs.deep_view().take(n as int) =~= vs.deep_view());
    }
    out
}

} // verus!
