//! The header value model: one parsed element of a header, with its
//! parameters and quoting, plus the parser for comma-separated header text.

use vstd::prelude::*;

use crate::strutil::{
    lower, parse_q_millis, push_char, spec_find, spec_lower, spec_q_millis, spec_split,
    spec_trim, split_char, str_eq, trim,
};

verus! {

/// A parsed single header element: a primary value, parameters in insertion
/// order with lowercased names, and whether the primary value was quoted.
#[derive(Debug, Clone, PartialEq)]
pub struct HeaderValue {
    /// The primary value, without surrounding quotes.
    pub value: String,
    /// Parameter name to value, names lowercased, insertion order kept.
    pub params: Vec<(String, String)>,
    /// Whether the primary value is quoted when serialised.
    pub quote: bool,
}

/// The mathematical shape of a header value.
#[verifier::ext_equal]
pub struct HeaderValueView {
    /// The primary value.
    pub value: Seq<char>,
    /// The parameter mapping, in insertion order.
    pub params: Seq<(Seq<char>, Seq<char>)>,
    /// Whether the primary value is quoted when serialised.
    pub quote: bool,
}

impl View for HeaderValue {
    type V = HeaderValueView;

    open spec fn view(&self) -> HeaderValueView {
        HeaderValueView {
            value: self.value@,
            params: self.params.deep_view(),
            quote: self.quote,
        }
    }
}

impl DeepView for HeaderValue {
    type V = HeaderValueView;

    open spec fn deep_view(&self) -> HeaderValueView {
        self.view()
    }
}

/// Strips one pair of surrounding double quotes, noting whether it did.
pub open spec fn spec_unquote(s: Seq<char>) -> (Seq<char>, bool) {
    if s.len() >= 2 && s[0] == '"' && s[s.len() - 1] == '"' {
        (s.subrange(1, s.len() - 1), true)
    } else {
        (s, false)
    }
}

/// A parameter map with `(k, v)` bound: an existing entry for `k` is
/// replaced in place, a new key goes to the end.
pub open spec fn spec_insert_param(
    ps: Seq<(Seq<char>, Seq<char>)>,
    k: Seq<char>,
    v: Seq<char>,
) -> Seq<(Seq<char>, Seq<char>)>
    decreases ps.len(),
{
    if ps.len() == 0 {
        seq![(k, v)]
    } else if ps[0].0 == k {
        seq![(k, v)] + ps.drop_first()
    } else {
        seq![ps[0]] + spec_insert_param(ps.drop_first(), k, v)
    }
}

/// What one `key=value` parameter part denotes: the trimmed, lowercased key
/// and the trimmed, unquoted value. A part without `=` denotes nothing.
pub open spec fn spec_parse_param(part: Seq<char>) -> Option<(Seq<char>, Seq<char>)> {
    match spec_find(part, '=') {
        Some(i) => if 0 <= i < part.len() {
            Some(
                (
                    spec_lower(spec_trim(part.take(i))),
                    spec_unquote(spec_trim(part.skip(i + 1))).0,
                ),
            )
        } else {
            None
        },
        None => None,
    }
}

/// The parameter map that a sequence of `;`-separated parts denotes.
pub open spec fn spec_params_acc(
    parts: Seq<Seq<char>>,
    acc: Seq<(Seq<char>, Seq<char>)>,
) -> Seq<(Seq<char>, Seq<char>)>
    decreases parts.len(),
{
    if parts.len() == 0 {
        acc
    } else {
        spec_params_acc(
            parts.drop_first(),
            match spec_parse_param(parts[0]) {
                Some(kv) => spec_insert_param(acc, kv.0, kv.1),
                None => acc,
            },
        )
    }
}

/// What a raw header element `value[; param=value]*` denotes.
pub open spec fn spec_parse_header_value(s: Seq<char>) -> HeaderValueView {
    let parts = spec_split(s, ';');
    let primary = spec_unquote(spec_trim(parts[0]));
    HeaderValueView {
        value: primary.0,
        params: spec_params_acc(parts.drop_first(), Seq::empty()),
        quote: primary.1,
    }
}

/// What a whole header line denotes: empty text denotes no elements, other
/// text one element per comma-separated piece.
pub open spec fn spec_parse_header_values(s: Seq<char>) -> Seq<HeaderValueView> {
    if s.len() == 0 {
        Seq::empty()
    } else {
        spec_split(s, ',').map_values(|p: Seq<char>| spec_parse_header_value(p))
    }
}

/// The weak-ETag payload: the token inside `W/"..."`, if the value has that
/// exact shape.
pub open spec fn spec_weak_etag(v: HeaderValueView) -> Option<Seq<char>> {
    if v.value.len() >= 2 && v.value[0] == 'W' && v.value[1] == '/' {
        let rest = v.value.skip(2);
        if rest.len() >= 2 && rest[0] == '"' && rest[rest.len() - 1] == '"' {
            Some(rest.subrange(1, rest.len() - 1))
        } else {
            None
        }
    } else {
        None
    }
}

/// The serialised form: the primary value, quoted on demand, then each
/// parameter as `;key=value` in insertion order.
pub open spec fn spec_params_format(ps: Seq<(Seq<char>, Seq<char>)>) -> Seq<char>
    decreases ps.len(),
{
    if ps.len() == 0 {
        Seq::empty()
    } else {
        seq![';'] + ps[0].0 + seq!['='] + ps[0].1 + spec_params_format(ps.drop_first())
    }
}

/// The serialised form of a whole header value.
pub open spec fn spec_format_header_value(v: HeaderValueView) -> Seq<char> {
    if v.quote {
        seq!['"'] + v.value + seq!['"'] + spec_params_format(v.params)
    } else {
        v.value + spec_params_format(v.params)
    }
}

fn unquote(s: &str) -> (r: (String, bool))
    ensures
        (r.0@, r.1) == spec_unquote(s@),
{
    let n: usize = s.unicode_len();
    if n >= 2 && s.get_char(0) == '"' && s.get_char(n - 1) == '"' {
        let inner = s.substring_char(1, n - 1);
        proof {
            assert(inner@ =~= s@.subrange(1, s@.len() - 1));
        }
        (inner.to_owned(), true)
    } else {
        (s.to_owned(), false)
    }
}

fn parse_param(part: &str) -> (r: Option<(String, String)>)
    ensures
        match r {
            Some(kv) => spec_parse_param(part@) == Some((kv.0@, kv.1@)),
            None => spec_parse_param(part@) is None,
        },
{
    match crate::strutil::split_once_char(part, '=') {
        Some((rawk, rawv)) => {
            let k = lower(trim(rawk.as_str()).as_str());
            let tv = trim(rawv.as_str());
            let (v, _) = unquote(tv.as_str());
            Some((k, v))
        },
        None => None,
    }
}

fn insert_param(params: &mut Vec<(String, String)>, k: String, v: String)
    ensures
        final(params).deep_view() == spec_insert_param(old(params).deep_view(), k@, v@),
{
    let n = params.len();
    let mut i: usize = 0;
    while i < n
        invariant
            n == params@.len(),
            i <= n,
            params@ == old(params)@,
            forall|j: int| 0 <= j < i ==> #[trigger] params.deep_view()[j].0 != k@,
        decreases n - i,
    {
        if str_eq(params[i].0.as_str(), k.as_str()) {
            proof {
                assert(params.deep_view()[i as int].0 == k@);
            }
            params.set(i, (k, v));
            proof {
                assert(params.deep_view()[i as int] == (k@, v@));
                lemma_insert_param_at(old(params).deep_view(), params.deep_view(), i as int);
            }
            return ;
        }
        i = i + 1;
    }
    proof {
        lemma_insert_param_missing(params.deep_view(), k@, v@);
    }
    params.push((k, v));
    proof {
        assert(params.deep_view() =~= old(params).deep_view() + seq![(k@, v@)]);
    }
}

proof fn lemma_insert_param_at(
    ps: Seq<(Seq<char>, Seq<char>)>,
    updated: Seq<(Seq<char>, Seq<char>)>,
    i: int,
)
    requires
        0 <= i < ps.len(),
        updated.len() == ps.len(),
        forall|j: int| 0 <= j < ps.len() && j != i ==> updated[j] == ps[j],
        forall|j: int| 0 <= j < i ==> #[trigger] ps[j].0 != updated[i].0,
        ps[i].0 == updated[i].0,
    ensures
        updated == spec_insert_param(ps, updated[i].0, updated[i].1),
    decreases ps.len(),
{
    if i == 0 {
        assert(updated =~= seq![(updated[0].0, updated[0].1)] + ps.drop_first());
    } else {
        lemma_insert_param_at(ps.drop_first(), updated.drop_first(), i - 1);
        assert(updated =~= seq![ps[0]] + updated.drop_first());
    }
}

proof fn lemma_insert_param_missing(ps: Seq<(Seq<char>, Seq<char>)>, k: Seq<char>, v: Seq<char>)
    requires
        forall|j: int| 0 <= j < ps.len() ==> #[trigger] ps[j].0 != k,
    ensures
        ps + seq![(k, v)] == spec_insert_param(ps, k, v),
    decreases ps.len(),
{
    if ps.len() == 0 {
        assert(ps + seq![(k, v)] =~= seq![(k, v)]);
    } else {
        lemma_insert_param_missing(ps.drop_first(), k, v);
        assert(ps + seq![(k, v)] =~= seq![ps[0]] + (ps.drop_first() + seq![(k, v)]));
    }
}

impl HeaderValue {
    /// A plain value with no parameters and no quoting.
    pub fn basic(value: &str) -> (r: HeaderValue)
        ensures
            r@ == (HeaderValueView { value: value@, params: Seq::empty(), quote: false }),
    {
        let r = HeaderValue { value: value.to_owned(), params: Vec::new(), quote: false };
        proof {
            assert(r@ =~= HeaderValueView { value: value@, params: Seq::empty(), quote: false });
        }
        r
    }

    /// The same value, marked for quoting on serialisation.
    pub fn quote(self) -> (r: HeaderValue)
        ensures
            r@ == (HeaderValueView { value: self@.value, params: self@.params, quote: true }),
    {
        let ghost v = self@;
        let r = HeaderValue { value: self.value, params: self.params, quote: true };
        proof {
            assert(r@ =~= HeaderValueView { value: v.value, params: v.params, quote: true });
        }
        r
    }

    /// Parses one raw header element, `value[; param=value]*`.
    pub fn parse_string(s: &str) -> (r: HeaderValue)
        ensures
            r@ == spec_parse_header_value(s@),
    {
        let parts = split_char(s, ';');
        let trimmed = trim(parts[0].as_str());
        let (value, quoted) = unquote(trimmed.as_str());
        let mut params: Vec<(String, String)> = Vec::new();
        let n = parts.len();
        let mut i: usize = 1;
        proof {
            assert(parts.deep_view().drop_first() =~= parts.deep_view().skip(1));
            assert(params.deep_view() =~= Seq::<(Seq<char>, Seq<char>)>::empty());
        }
        while i < n
            invariant
                n == parts@.len(),
                parts.deep_view() == spec_split(s@, ';'),
                1 <= i <= n,
                spec_params_acc(parts.deep_view().drop_first(), Seq::empty())
                    == spec_params_acc(parts.deep_view().skip(i as int), params.deep_view()),
            decreases n - i,
        {
            proof {
                assert(parts.deep_view().skip(i as int)[0] == parts.deep_view()[i as int]);
                assert(parts.deep_view().skip(i as int).drop_first() =~= parts.deep_view().skip(
                    i + 1,
                ));
            }
            match parse_param(parts[i].as_str()) {
                Some((k, v)) => {
                    insert_param(&mut params, k, v);
                },
                None => {},
            }
            i = i + 1;
        }
        proof {
            assert(parts.deep_view().skip(n as int) =~= Seq::<Seq<char>>::empty());
        }
        let r = HeaderValue { value, params, quote: quoted };
        proof {
            assert(r@ =~= spec_parse_header_value(s@));
        }
        r
    }

    /// The weak-ETag payload, for a value of the shape `W/"token"`.
    pub fn weak_etag(&self) -> (r: Option<String>)
        ensures
            match r {
                Some(t) => spec_weak_etag(self@) == Some(t@),
                None => spec_weak_etag(self@) is None,
            },
    {
        let v = self.value.as_str();
        let n: usize = v.unicode_len();
        if n >= 2 && v.get_char(0) == 'W' && v.get_char(1) == '/' {
            if n >= 4 && v.get_char(2) == '"' && v.get_char(n - 1) == '"' {
                let inner = v.substring_char(3, n - 1);
                proof {
                    let rest = self@.value.skip(2);
                    assert(rest[0] == self@.value[2]);
                    assert(rest[rest.len() - 1] == self@.value[n - 1]);
                    assert(inner@ =~= rest.subrange(1, rest.len() - 1));
                }
                Some(inner.to_owned())
            } else {
                proof {
                    let rest = self@.value.skip(2);
                    if rest.len() >= 2 {
                        assert(rest[0] == self@.value[2]);
                        assert(rest[rest.len() - 1] == self@.value[n - 1]);
                    }
                }
                None
            }
        } else {
            None
        }
    }

    /// Serialises this value: quoted primary on demand, then `;key=value`
    /// for each parameter in insertion order.
    pub fn to_string(&self) -> (r: String)
        ensures
            r@ == spec_format_header_value(self@),
    {
        let mut out = String::new();
        if self.quote {
            push_char(&mut out, '"');
            out.append(self.value.as_str());
            push_char(&mut out, '"');
            proof {
                assert(out@ =~= seq!['"'] + self@.value + seq!['"']);
            }
        } else {
            out.append(self.value.as_str());
        }
        let n = self.params.len();
        let mut i: usize = 0;
        proof {
            assert(self@.params.skip(0) =~= self@.params);
        }
        while i < n
            invariant
                n == self.params@.len(),
                i <= n,
                out@ + spec_params_format(self@.params.skip(i as int))
                    == spec_format_header_value(self@),
            decreases n - i,
        {
            proof {
                assert(self@.params.skip(i as int)[0] == self@.params[i as int]);
                assert(self@.params.skip(i as int).drop_first() =~= self@.params.skip(i + 1));
            }
            push_char(&mut out, ';');
            out.append(self.params[i].0.as_str());
            push_char(&mut out, '=');
            out.append(self.params[i].1.as_str());
            proof {
                assert(out@ + spec_params_format(self@.params.skip(i + 1))
                    =~= spec_format_header_value(self@));
            }
            i = i + 1;
        }
        proof {
            assert(spec_params_format(self@.params.skip(n as int)) =~= Seq::<char>::empty());
            assert(out@ =~= spec_format_header_value(self@));
        }
        out
    }

    /// Whether the primary value equals the given text.
    pub fn value_equals(&self, s: &str) -> (r: bool)
        ensures
            r == (self@.value == s@),
    {
        str_eq(self.value.as_str(), s)
    }

    /// The parameter named `q`, parsed as a quality weight in thousandths;
    /// one (a thousand) where absent or malformed.
    pub fn weight_millis(&self) -> (r: i64)
        ensures
            r == spec_weight_millis(self@),
    {
        let n = self.params.len();
        let mut i: usize = 0;
        while i < n
            invariant
                n == self.params@.len(),
                i <= n,
                forall|j: int| 0 <= j < i ==> #[trigger] self@.params[j].0 != "q"@,
            decreases n - i,
        {
            if str_eq(self.params[i].0.as_str(), "q") {
                proof {
                    lemma_first_param_named(self@.params, "q"@, i as int);
                }
                return parse_q_millis(self.params[i].1.as_str());
            }
            i = i + 1;
        }
        proof {
            if exists|j: int| 0 <= j < self@.params.len() && #[trigger] self@.params[j].0 == "q"@ {
                let j = choose|j: int|
                    0 <= j < self@.params.len() && #[trigger] self@.params[j].0 == "q"@;
                assert(self@.params[j].0 != "q"@);
            }
        }
        1000
    }
}

/// The first parameter value bound to `name`, if any.
pub open spec fn spec_param_lookup(v: HeaderValueView, name: Seq<char>) -> Option<Seq<char>> {
    if exists|j: int| 0 <= j < v.params.len() && #[trigger] v.params[j].0 == name {
        Some(
            v.params[choose|j: int|
                0 <= j < v.params.len() && #[trigger] v.params[j].0 == name && forall|l: int|
                    0 <= l < j ==> v.params[l].0 != name].1,
        )
    } else {
        None
    }
}

/// The quality weight of a header value, in thousandths.
pub open spec fn spec_weight_millis(v: HeaderValueView) -> i64 {
    match spec_param_lookup(v, "q"@) {
        Some(w) => spec_q_millis(w),
        None => 1000,
    }
}

proof fn lemma_first_param_named(params: Seq<(Seq<char>, Seq<char>)>, name: Seq<char>, i: int)
    requires
        0 <= i < params.len(),
        params[i].0 == name,
        forall|j: int| 0 <= j < i ==> #[trigger] params[j].0 != name,
    ensures
        spec_param_lookup(HeaderValueView { value: Seq::empty(), params, quote: false }, name)
            == Some(params[i].1),
{
    let v = HeaderValueView { value: Seq::empty(), params, quote: false };
    assert(v.params[i].0 == name);
    assert(exists|j: int| 0 <= j < v.params.len() && #[trigger] v.params[j].0 == name);
    let w = choose|j: int|
        0 <= j < v.params.len() && #[trigger] v.params[j].0 == name && forall|l: int|
            0 <= l < j ==> v.params[l].0 != name;
    if w < i {
        assert(params[w].0 != name);
    }
    if i < w {
        assert(params[i].0 != name);
    }
}

/// Parses a whole header line into its comma-separated elements.
pub fn parse_header_values(value: &str) -> (r: Vec<HeaderValue>)
    ensures
        r.deep_view() == spec_parse_header_values(value@),
{
    let mut out: Vec<HeaderValue> = Vec::new();
    if value.unicode_len() == 0 {
        proof {
            assert(out.deep_view() =~= spec_parse_header_values(value@));
        }
        return out;
    }
    let parts = split_char(value, ',');
    let n = parts.len();
    let mut i: usize = 0;
    while i < n
        invariant
            n == parts@.len(),
            parts.deep_view() == spec_split(value@, ','),
            value@.len() > 0,
            i <= n,
            out.deep_view() =~= spec_parse_header_values(value@).take(i as int),
        decreases n - i,
    {
        let ghost prev = out.deep_view();
        out.push(HeaderValue::parse_string(parts[i].as_str()));
        proof {
            assert(out.deep_view() =~= prev.push(
                spec_parse_header_value(parts.deep_view()[i as int]),
            ));
            assert(spec_parse_header_values(value@)[i as int] == spec_parse_header_value(
                parts.deep_view()[i as int],
            ));
            assert(out.deep_view() =~= spec_parse_header_values(value@).take(i + 1));
        }
        i = i + 1;
    }
    proof {
        assert(spec_parse_header_values(value@).take(n as int) =~= spec_parse_header_values(
            value@,
        ));
    }
    out
}

} // verus!
