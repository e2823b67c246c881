//! The dispatcher: longest-prefix lookup from a request path to a
//! registered resource, the request rewrite for the match, and the run of
//! the engine plus finalizer against it.

use vstd::prelude::*;

use crate::context::{Context, ContextView, ResponseView};
use crate::finalize::{finalise_response, spec_finalise_response};
use crate::machine::{execute_state_machine_at, spec_run};
use crate::paths::{sanitise_path, spec_rewritten_path, spec_sanitise_path, update_paths_for_resource};
use crate::resource::{Resource, ResourceView};
use crate::strutil::{push_dv, str_eq};

verus! {

/// The route table as mathematics: path text to resource shape, in order.
pub type RoutesView = Seq<(Seq<char>, ResourceView)>;

/// Maps route paths to resources; earlier routes win ties of prefix
/// length.
#[derive(Debug)]
pub struct Dispatcher {
    /// The registered routes, in registration order.
    pub routes: Vec<(String, Resource)>,
}

impl View for Dispatcher {
    type V = RoutesView;

    open spec fn view(&self) -> RoutesView {
        self.routes.deep_view()
    }
}

/// Whether `p` is a segment-wise prefix of `s`.
pub open spec fn spec_seq_prefix(s: Seq<Seq<char>>, p: Seq<Seq<char>>) -> bool {
    p.len() <= s.len() && s.take(p.len() as int) == p
}

fn segments_prefix(s: &Vec<String>, p: &Vec<String>) -> (r: bool)
    ensures
        r == spec_seq_prefix(s.deep_view(), p.deep_view()),
{
    let m = p.len();
    if m > s.len() {
        proof {
            assert(!spec_seq_prefix(s.deep_view(), p.deep_view()));
        }
        return false;
    }
    let mut i: usize = 0;
    while i < m
        invariant
            m == p@.len(),
            m <= s@.len(),
            i <= m,
            forall|j: int| 0 <= j < i ==> #[trigger] s.deep_view()[j] == p.deep_view()[j],
        decreases m - i,
    {
        if !str_eq(s[i].as_str(), p[i].as_str()) {
            proof {
                assert(s.deep_view().take(m as int)[i as int] != p.deep_view()[i as int]);
            }
            return false;
        }
        i = i + 1;
    }
    proof {
        assert(s.deep_view().take(m as int) =~= p.deep_view());
    }
    true
}

/// The route paths whose canonical segments prefix the request's, in
/// registration order.
pub open spec fn spec_match_paths(routes: RoutesView, path: Seq<char>) -> Seq<Seq<char>>
    decreases routes.len(),
{
    if routes.len() == 0 {
        Seq::empty()
    } else {
        let rest = spec_match_paths(routes.drop_last(), path);
        if spec_seq_prefix(spec_sanitise_path(path), spec_sanitise_path(routes.last().0)) {
            rest.push(routes.last().0)
        } else {
            rest
        }
    }
}

/// The first route bound to exactly this path text.
pub open spec fn spec_lookup_route(routes: RoutesView, path: Seq<char>) -> Option<ResourceView>
    decreases routes.len(),
{
    if routes.len() == 0 {
        None
    } else if routes[0].0 == path {
        Some(routes[0].1)
    } else {
        spec_lookup_route(routes.drop_first(), path)
    }
}

proof fn lemma_lookup_route_at(routes: RoutesView, path: Seq<char>, i: int)
    requires
        0 <= i < routes.len(),
        routes[i].0 == path,
        forall|j: int| 0 <= j < i ==> #[trigger] routes[j].0 != path,
    ensures
        spec_lookup_route(routes, path) == Some(routes[i].1),
    decreases routes.len(),
{
    if i > 0 {
        lemma_lookup_route_at(routes.drop_first(), path, i - 1);
    }
}

proof fn lemma_lookup_route_in(routes: RoutesView, path: Seq<char>)
    ensures
        spec_lookup_route(routes, path) matches Some(res) ==> exists|i: int|
            0 <= i < routes.len() && (#[trigger] routes[i].1) == res,
    decreases routes.len(),
{
    if routes.len() > 0 {
        if routes[0].0 == path {
            if spec_lookup_route(routes, path) is Some {
                let res = spec_lookup_route(routes, path)->Some_0;
                assert(routes[0].1 == res);
            }
        } else {
            lemma_lookup_route_in(routes.drop_first(), path);
            if spec_lookup_route(routes, path) is Some {
                let res = spec_lookup_route(routes, path)->Some_0;
                let i = choose|i: int|
                    0 <= i < routes.drop_first().len() && (#[trigger] routes.drop_first()[i].1)
                        == res;
                assert(routes[i + 1].1 == res);
            }
        }
    }
}

proof fn lemma_lookup_route_none(routes: RoutesView, path: Seq<char>)
    requires
        forall|j: int| 0 <= j < routes.len() ==> #[trigger] routes[j].0 != path,
    ensures
        spec_lookup_route(routes, path) is None,
    decreases routes.len(),
{
    if routes.len() > 0 {
        lemma_lookup_route_none(routes.drop_first(), path);
    }
}

/// The longest of the matched paths, the earliest among equals.
pub open spec fn spec_best_of(matches: Seq<Seq<char>>, acc: Option<Seq<char>>) -> Option<
    Seq<char>,
>
    decreases matches.len(),
{
    if matches.len() == 0 {
        acc
    } else {
        spec_best_of(
            matches.drop_first(),
            match acc {
                None => Some(matches[0]),
                Some(best) => if matches[0].len() > best.len() {
                    Some(matches[0])
                } else {
                    Some(best)
                },
            },
        )
    }
}

/// The whole dispatch as mathematics: the longest matching route's
/// resource handles the rewritten request through the machine and the
/// finalizer; no match answers 404.
pub open spec fn spec_dispatch(routes: RoutesView, ctx: ContextView, now: i64) -> ContextView {
    match spec_best_of(spec_match_paths(routes, ctx.request.request_path), None) {
        Some(path) => {
            let rewritten = ContextView {
                request: crate::context::RequestView {
                    base_path: path,
                    request_path: spec_rewritten_path(ctx.request.request_path, path),
                    ..ctx.request
                },
                ..ctx
            };
            match spec_lookup_route(routes, path) {
                Some(res) => spec_finalise_response(
                    spec_run(crate::enums::Decision::Start, rewritten, res, now),
                    res,
                ),
                None => ContextView {
                    response: ResponseView { status: 404, ..rewritten.response },
                    ..rewritten
                },
            }
        },
        None => ContextView { response: ResponseView { status: 404, ..ctx.response }, ..ctx },
    }
}

impl Dispatcher {
    /// Whether every registered resource carries representable timestamps.
    pub open spec fn spec_wf(self) -> bool {
        forall|i: int| 0 <= i < self@.len() ==> (#[trigger] self@[i].1).spec_wf()
    }

    /// The route paths matching the request, in registration order.
    pub fn match_paths(&self, request: &crate::context::Request) -> (r: Vec<String>)
        ensures
            r.deep_view() == spec_match_paths(self@, request@.request_path),
    {
        let request_segments = sanitise_path(request.request_path.as_str());
        let mut out: Vec<String> = Vec::new();
        let n = self.routes.len();
        let mut i: usize = 0;
        proof {
            assert(out.deep_view() =~= spec_match_paths(self@.take(0), request@.request_path));
        }
        while i < n
            invariant
                n == self.routes@.len(),
                i <= n,
                request_segments.deep_view() == spec_sanitise_path(request@.request_path),
                out.deep_view() == spec_match_paths(self@.take(i as int), request@.request_path),
            decreases n - i,
        {
            proof {
                assert(self@.take(i + 1).drop_last() =~= self@.take(i as int));
                assert(self@.take(i + 1).last() == self@[i as int]);
            }
            let route_segments = sanitise_path(self.routes[i].0.as_str());
            if segments_prefix(&request_segments, &route_segments) {
                push_dv(&mut out, self.routes[i].0.clone());
            }
            i = i + 1;
        }
        proof {
            assert(self@.take(n as int) =~= self@);
        }
        out
    }

    /// The resource registered at exactly this path text.
    pub fn lookup_resource<'a>(&'a self, path: &str) -> (r: Option<&'a Resource>)
        ensures
            match r {
                Some(res) => spec_lookup_route(self@, path@) == Some(res@),
                None => spec_lookup_route(self@, path@) is None,
            },
    {
        let n = self.routes.len();
        let mut i: usize = 0;
        while i < n
            invariant
                n == self.routes@.len(),
                i <= n,
                forall|j: int| 0 <= j < i ==> #[trigger] self@[j].0 != path@,
            decreases n - i,
        {
            if str_eq(self.routes[i].0.as_str(), path) {
                proof {
                    lemma_lookup_route_at(self@, path@, i as int);
                }
                return Some(&self.routes[i].1);
            }
            i = i + 1;
        }
        proof {
            lemma_lookup_route_none(self@, path@);
        }
        None
    }

    /// Dispatches to the longest matching route against a fixed reading of
    /// the clock; without a match the response is 404 Not Found.
    #[verifier::rlimit(100)]
    #[verifier::loop_isolation(false)]
    pub fn dispatch_to_resource_at(&self, context: &mut Context, now_millis: i64)
        requires
            self.spec_wf(),
        ensures
            final(context)@ == spec_dispatch(self@, old(context)@, now_millis),
    {
        let matching_paths = self.match_paths(&context.request);
        let n = matching_paths.len();
        let mut best: Option<String> = None;
        let mut i: usize = 0;
        proof {
            assert(matching_paths.deep_view().skip(0) =~= matching_paths.deep_view());
        }
        while i < n
            invariant
                n == matching_paths@.len(),
                i <= n,
                spec_best_of(matching_paths.deep_view(), None) == spec_best_of(
                    matching_paths.deep_view().skip(i as int),
                    best.deep_view(),
                ),
            decreases n - i,
        {
            proof {
                assert(matching_paths.deep_view().skip(i as int)[0]
                    == matching_paths.deep_view()[i as int]);
                assert(matching_paths.deep_view().skip(i as int).drop_first()
                    =~= matching_paths.deep_view().skip(i + 1));
            }
            let candidate_len = matching_paths[i].as_str().unicode_len();
            let replace = match &best {
                None => true,
                Some(b) => candidate_len > b.as_str().unicode_len(),
            };
            if replace {
                best = Some(matching_paths[i].clone());
            }
            i = i + 1;
        }
        proof {
            assert(matching_paths.deep_view().skip(n as int) =~= Seq::<Seq<char>>::empty());
        }
        match best {
            Some(path) => {
                update_paths_for_resource(&mut context.request, path.as_str());
                match self.lookup_resource(path.as_str()) {
                    Some(resource) => {
                        proof {
                            lemma_lookup_route_in(self@, path@);
                        }
                        execute_state_machine_at(context, resource, now_millis);
                        finalise_response(context, resource);
                    },
                    None => {
                        context.response.status = 404;
                    },
                }
            },
            None => {
                context.response.status = 404;
            },
        }
    }

    /// Dispatches to the longest matching route against the wall clock.
    pub fn dispatch_to_resource(&self, context: &mut Context)
        requires
            self.spec_wf(),
        ensures
            exists|now: i64|
                final(context)@ == #[trigger] spec_dispatch(self@, old(context)@, now),
    {
        let now = crate::dates::now_millis();
        self.dispatch_to_resource_at(context, now);
    }
}

} // verus!
