//! Path handling for the dispatcher: canonical segments, joining a base
//! path with a suffix, and rewriting a request for its matched resource.

use vstd::prelude::*;

use crate::context::Request;
use crate::strutil::{push_char, push_dv, spec_split, spec_starts_with, split_char, starts_with};

verus! {

/// The subsequence of non-empty parts, in order.
pub open spec fn spec_nonempty_parts(parts: Seq<Seq<char>>) -> Seq<Seq<char>>
    decreases parts.len(),
{
    if parts.len() == 0 {
        Seq::empty()
    } else {
        let rest = spec_nonempty_parts(parts.drop_last());
        if parts.last().len() > 0 {
            rest.push(parts.last())
        } else {
            rest
        }
    }
}

/// The canonical segments of a path: what stands between the slashes,
/// empty segments dropped.
pub open spec fn spec_sanitise_path(s: Seq<char>) -> Seq<Seq<char>> {
    spec_nonempty_parts(spec_split(s, '/'))
}

/// Splits a path into its non-empty segments.
pub fn sanitise_path(path: &str) -> (r: Vec<String>)
    ensures
        r.deep_view() == spec_sanitise_path(path@),
{
    let parts = split_char(path, '/');
    let mut out: Vec<String> = Vec::new();
    let n = parts.len();
    let mut i: usize = 0;
    proof {
        assert(parts.deep_view().take(0) =~= Seq::<Seq<char>>::empty());
        assert(out.deep_view() =~= spec_nonempty_parts(parts.deep_view().take(0)));
    }
    while i < n
        invariant
            n == parts@.len(),
            i <= n,
            parts.deep_view() == spec_split(path@, '/'),
            out.deep_view() == spec_nonempty_parts(parts.deep_view().take(i as int)),
        decreases n - i,
    {
        proof {
            let dv = parts.deep_view();
            assert(dv.take(i + 1).drop_last() =~= dv.take(i as int));
            assert(dv.take(i + 1).last() == dv[i as int]);
        }
        if parts[i].as_str().unicode_len() > 0 {
            push_dv(&mut out, parts[i].clone());
        }
        i = i + 1;
    }
    proof {
        assert(parts.deep_view().take(n as int) =~= parts.deep_view());
    }
    out
}

/// The segments interleaved with slashes.
pub open spec fn spec_join_slash(parts: Seq<Seq<char>>) -> Seq<char>
    decreases parts.len(),
{
    if parts.len() == 0 {
        Seq::empty()
    } else if parts.len() == 1 {
        parts[0]
    } else {
        spec_join_slash(parts.drop_last()) + seq!['/'] + parts.last()
    }
}

/// The path joining `base` and `path`: the non-empty segments of both, in
/// order, separated by slashes and led by one; no segments read as the
/// root path.
pub open spec fn spec_join_paths(base: Seq<Seq<char>>, path: Seq<Seq<char>>) -> Seq<char> {
    let all = spec_nonempty_parts(base + path);
    if all.len() == 0 {
        "/"@
    } else {
        let joined = spec_join_slash(all);
        if spec_starts_with(joined, "/"@) {
            joined
        } else {
            "/"@ + joined
        }
    }
}

/// Joins base segments and suffix segments into one absolute path.
pub fn join_paths(base: &Vec<String>, path: &Vec<String>) -> (r: String)
    ensures
        r@ == spec_join_paths(base.deep_view(), path.deep_view()),
{
    let mut filtered: Vec<String> = Vec::new();
    let n = base.len();
    let mut i: usize = 0;
    proof {
        assert((base.deep_view() + path.deep_view()).take(0) =~= Seq::<Seq<char>>::empty());
        assert(filtered.deep_view() =~= spec_nonempty_parts(
            (base.deep_view() + path.deep_view()).take(0),
        ));
    }
    while i < n
        invariant
            n == base@.len(),
            i <= n,
            filtered.deep_view() == spec_nonempty_parts(
                (base.deep_view() + path.deep_view()).take(i as int),
            ),
        decreases n - i,
    {
        proof {
            let all = base.deep_view() + path.deep_view();
            assert(all.take(i + 1).drop_last() =~= all.take(i as int));
            assert(all.take(i + 1).last() == all[i as int]);
            assert(all[i as int] == base.deep_view()[i as int]);
        }
        if base[i].as_str().unicode_len() > 0 {
            push_dv(&mut filtered, base[i].clone());
        }
        i = i + 1;
    }
    let m = path.len();
    let mut j: usize = 0;
    while j < m
        invariant
            n == base@.len(),
            m == path@.len(),
            j <= m,
            filtered.deep_view() == spec_nonempty_parts(
                (base.deep_view() + path.deep_view()).take(n + j),
            ),
        decreases m - j,
    {
        proof {
            let all = base.deep_view() + path.deep_view();
            assert(all.take(n + j + 1).drop_last() =~= all.take(n + j));
            assert(all.take(n + j + 1).last() == all[n + j]);
            assert(all[n + j] == path.deep_view()[j as int]);
        }
        if path[j].as_str().unicode_len() > 0 {
            push_dv(&mut filtered, path[j].clone());
        }
        j = j + 1;
    }
    proof {
        assert((base.deep_view() + path.deep_view()).take((n + m) as int) =~= base.deep_view()
            + path.deep_view());
    }
    if filtered.len() == 0 {
        return "/".to_owned();
    }
    let mut joined = filtered[0].clone();
    let k_end = filtered.len();
    let mut k: usize = 1;
    proof {
        assert(filtered.deep_view().take(1).drop_last() =~= Seq::<Seq<char>>::empty());
        assert(filtered.deep_view().take(1).last() == filtered.deep_view()[0]);
        assert(joined@ == spec_join_slash(filtered.deep_view().take(1)));
    }
    while k < k_end
        invariant
            k_end == filtered@.len(),
            1 <= k <= k_end,
            joined@ == spec_join_slash(filtered.deep_view().take(k as int)),
        decreases k_end - k,
    {
        push_char(&mut joined, '/');
        joined.append(filtered[k].as_str());
        proof {
            let dv = filtered.deep_view();
            assert(dv.take(k + 1).drop_last() =~= dv.take(k as int));
            assert(dv.take(k + 1).last() == dv[k as int]);
            assert(dv.take(k + 1).len() == k + 1);
            assert(joined@ =~= spec_join_slash(dv.take(k as int)) + seq!['/'] + dv[k as int]);
        }
        k = k + 1;
    }
    proof {
        assert(filtered.deep_view().take(k_end as int) =~= filtered.deep_view());
    }
    if starts_with(joined.as_str(), "/") {
        joined
    } else {
        let mut out = "/".to_owned();
        out.append(joined.as_str());
        proof {
            assert(out@ =~= "/"@ + joined@);
        }
        out
    }
}

/// Rewrites a request for the resource matched at `base_path`: the base is
/// recorded, and the request path becomes the remainder after it, with a
/// leading slash; an empty remainder becomes the root path.
pub fn update_paths_for_resource(request: &mut Request, base_path: &str)
    ensures
        final(request)@.base_path == base_path@,
        final(request)@.request_path == spec_rewritten_path(
            old(request)@.request_path,
            base_path@,
        ),
        final(request)@.method == old(request)@.method,
        final(request)@.headers == old(request)@.headers,
        final(request)@.body == old(request)@.body,
        final(request)@.query == old(request)@.query,
{
    request.base_path = base_path.to_owned();
    let old_path_len: usize = request.request_path.as_str().unicode_len();
    let base_len: usize = base_path.unicode_len();
    if old_path_len > base_len {
        let subpath = request.request_path.as_str().substring_char(base_len, old_path_len);
        proof {
            assert(subpath@ =~= old(request)@.request_path.skip(base_path@.len() as int));
        }
        if starts_with(subpath, "/") {
            request.request_path = subpath.to_owned();
        } else {
            let mut p = "/".to_owned();
            p.append(subpath);
            proof {
                assert(p@ =~= "/"@ + old(request)@.request_path.skip(base_path@.len() as int));
            }
            request.request_path = p;
        }
    } else {
        request.request_path = "/".to_owned();
    }
}

/// The request path after dispatch: the remainder of the original path
/// after the base, with a leading slash; the root path where nothing is
/// left over.
pub open spec fn spec_rewritten_path(path: Seq<char>, base: Seq<char>) -> Seq<char> {
    if path.len() > base.len() {
        let sub = path.skip(base.len() as int);
        if spec_starts_with(sub, "/"@) {
            sub
        } else {
            "/"@ + sub
        }
    } else {
        "/"@
    }
}

} // verus!
