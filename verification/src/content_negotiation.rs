//! Content negotiation: media types, languages, charsets and encodings,
//! with weighted client preferences matched against server capabilities.
//! Quality weights are kept in thousandths, as parsed from `q` parameters.

use vstd::prelude::*;

use crate::context::{duplicate_header_value, duplicate_header_values, Request};
use crate::headers::{HeaderValue, HeaderValueView, spec_weight_millis};
use crate::resource::Resource;
use crate::sorting::{insert_dv, lemma_insert_by_at, spec_insert_by, spec_sort_by};
use crate::strutil::{
    eq_ignore_case, push_char, push_dv, split_once_char, spec_find, spec_starts_with, spec_upper,
    starts_with, str_eq,
};

verus! {

/// How a produced media type relates to an acceptable one, from the closest
/// agreement down to none.
#[derive(Debug, Clone, Copy, PartialEq, Eq, Structural)]
pub enum MediaTypeMatch {
    /// Type and subtype agree exactly.
    Full,
    /// The type agrees and the acceptor's subtype is a wildcard.
    SubStar,
    /// The acceptor is a full wildcard.
    Star,
    /// No agreement.
    NoMatch,
}

/// A media type: a main type, a subtype, and a quality weight.
#[derive(Debug, Clone, PartialEq)]
pub struct MediaType {
    /// The main type; `*` is the wildcard.
    pub main: String,
    /// The subtype; `*` is the wildcard.
    pub sub: String,
    /// The quality weight, in thousandths.
    pub weight: i64,
}

/// The mathematical shape of a media type.
#[verifier::ext_equal]
#[allow(missing_docs)]
pub struct MediaTypeView {
    pub main: Seq<char>,
    pub sub: Seq<char>,
    pub weight: i64,
}

impl View for MediaType {
    type V = MediaTypeView;

    open spec fn view(&self) -> MediaTypeView {
        MediaTypeView { main: self.main@, sub: self.sub@, weight: self.weight }
    }
}

impl DeepView for MediaType {
    type V = MediaTypeView;

    open spec fn deep_view(&self) -> MediaTypeView {
        self.view()
    }
}

/// What a piece of media type text denotes: split at the first `/`, with
/// missing or empty parts read as wildcards, at the default weight.
pub open spec fn spec_parse_media_type(s: Seq<char>) -> MediaTypeView {
    match spec_find(s, '/') {
        Some(i) => if s.take(i).len() == 0 {
            MediaTypeView { main: "*"@, sub: "*"@, weight: 1000 }
        } else {
            MediaTypeView {
                main: s.take(i),
                sub: if s.skip(i + 1).len() == 0 {
                    "*"@
                } else {
                    s.skip(i + 1)
                },
                weight: 1000,
            }
        },
        None => if s.len() == 0 {
            MediaTypeView { main: "*"@, sub: "*"@, weight: 1000 }
        } else {
            MediaTypeView { main: s, sub: "*"@, weight: 1000 }
        },
    }
}

/// How specific a media type is: 0 fully, 1 subtype wildcard, 2 wildcard.
pub open spec fn spec_specificity(v: MediaTypeView) -> u8 {
    if v.main == "*"@ && v.sub == "*"@ {
        2
    } else if v.sub == "*"@ {
        1
    } else {
        0
    }
}

/// How a produced media type (`v`) relates to an acceptable one (`other`).
pub open spec fn spec_media_type_match(v: MediaTypeView, other: MediaTypeView) -> MediaTypeMatch {
    if other.main == "*"@ {
        MediaTypeMatch::Star
    } else if v.main == other.main && other.sub == "*"@ {
        MediaTypeMatch::SubStar
    } else if v.main == other.main && v.sub == other.sub {
        MediaTypeMatch::Full
    } else {
        MediaTypeMatch::NoMatch
    }
}

/// The `main/sub` text of a media type.
pub open spec fn spec_media_type_str(v: MediaTypeView) -> Seq<char> {
    v.main + seq!['/'] + v.sub
}

impl MediaType {
    /// Parses media type text; missing or empty parts become wildcards.
    pub fn parse_string(media_type: &str) -> (r: MediaType)
        ensures
            r@ == spec_parse_media_type(media_type@),
    {
        match split_once_char(media_type, '/') {
            Some((main, sub)) => {
                if main.as_str().unicode_len() == 0 {
                    MediaType { main: "*".to_owned(), sub: "*".to_owned(), weight: 1000 }
                } else if sub.as_str().unicode_len() == 0 {
                    MediaType { main, sub: "*".to_owned(), weight: 1000 }
                } else {
                    MediaType { main, sub, weight: 1000 }
                }
            },
            None => {
                if media_type.unicode_len() == 0 {
                    MediaType { main: "*".to_owned(), sub: "*".to_owned(), weight: 1000 }
                } else {
                    MediaType { main: media_type.to_owned(), sub: "*".to_owned(), weight: 1000 }
                }
            },
        }
    }

    /// The same type under another quality weight, parsed from text.
    pub fn with_weight(&self, weight: &str) -> (r: MediaType)
        ensures
            r@ == (MediaTypeView {
                main: self@.main,
                sub: self@.sub,
                weight: crate::strutil::spec_q_millis(weight@),
            }),
    {
        MediaType {
            main: self.main.clone(),
            sub: self.sub.clone(),
            weight: crate::strutil::parse_q_millis(weight),
        }
    }

    /// The weighting of this media type: its quality weight, then how
    /// specific it is.
    pub fn weight(&self) -> (r: (i64, u8))
        ensures
            r.0 == self@.weight,
            r.1 == spec_specificity(self@),
    {
        if str_eq(self.main.as_str(), "*") && str_eq(self.sub.as_str(), "*") {
            (self.weight, 2)
        } else if str_eq(self.sub.as_str(), "*") {
            (self.weight, 1)
        } else {
            (self.weight, 0)
        }
    }

    /// How this produced media type relates to an acceptable one.
    pub fn matches(&self, other: &MediaType) -> (r: MediaTypeMatch)
        ensures
            r == spec_media_type_match(self@, other@),
    {
        if str_eq(other.main.as_str(), "*") {
            MediaTypeMatch::Star
        } else if str_eq(self.main.as_str(), other.main.as_str()) && str_eq(
            other.sub.as_str(),
            "*",
        ) {
            MediaTypeMatch::SubStar
        } else if str_eq(self.main.as_str(), other.main.as_str()) && str_eq(
            self.sub.as_str(),
            other.sub.as_str(),
        ) {
            MediaTypeMatch::Full
        } else {
            MediaTypeMatch::NoMatch
        }
    }

    /// The `main/sub` text of this media type.
    pub fn to_string(&self) -> (r: String)
        ensures
            r@ == spec_media_type_str(self@),
    {
        let mut out = self.main.clone();
        push_char(&mut out, '/');
        out.append(self.sub.as_str());
        proof {
            assert(out@ =~= spec_media_type_str(self@));
        }
        out
    }
}

/// A language tag: a main tag, an optional subtag, and a quality weight.
#[derive(Debug, Clone, PartialEq)]
pub struct MediaLanguage {
    /// The main tag; `*` is the wildcard.
    pub main: String,
    /// The subtag; empty when the tag has none.
    pub sub: String,
    /// The quality weight, in thousandths.
    pub weight: i64,
}

/// The mathematical shape of a language tag.
#[verifier::ext_equal]
#[allow(missing_docs)]
pub struct MediaLanguageView {
    pub main: Seq<char>,
    pub sub: Seq<char>,
    pub weight: i64,
}

impl View for MediaLanguage {
    type V = MediaLanguageView;

    open spec fn view(&self) -> MediaLanguageView {
        MediaLanguageView { main: self.main@, sub: self.sub@, weight: self.weight }
    }
}

impl DeepView for MediaLanguage {
    type V = MediaLanguageView;

    open spec fn deep_view(&self) -> MediaLanguageView {
        self.view()
    }
}

/// What a piece of language text denotes: split at the first `-`; an empty
/// main tag reads as the wildcard, a missing subtag stays empty.
pub open spec fn spec_parse_media_language(s: Seq<char>) -> MediaLanguageView {
    match spec_find(s, '-') {
        Some(i) => if s.take(i).len() == 0 {
            MediaLanguageView { main: "*"@, sub: Seq::empty(), weight: 1000 }
        } else {
            MediaLanguageView { main: s.take(i), sub: s.skip(i + 1), weight: 1000 }
        },
        None => if s.len() == 0 {
            MediaLanguageView { main: "*"@, sub: Seq::empty(), weight: 1000 }
        } else {
            MediaLanguageView { main: s, sub: Seq::empty(), weight: 1000 }
        },
    }
}

/// The `main` or `main-sub` text of a language tag.
pub open spec fn spec_media_language_str(v: MediaLanguageView) -> Seq<char> {
    if v.sub.len() == 0 {
        v.main
    } else {
        v.main + seq!['-'] + v.sub
    }
}

/// Whether a provided language (`v`) satisfies an acceptable one: by
/// wildcard, exact tag, or as a prefix of the acceptable tag before a `-`.
pub open spec fn spec_media_language_matches(v: MediaLanguageView, other: MediaLanguageView) -> bool {
    ||| other.main == "*"@
    ||| (v.main == other.main && v.sub == other.sub)
    ||| spec_starts_with(
        spec_media_language_str(other),
        spec_media_language_str(v) + seq!['-'],
    )
}

impl MediaLanguage {
    /// Parses language text; an empty tag becomes the wildcard.
    pub fn parse_string(language: &str) -> (r: MediaLanguage)
        ensures
            r@ == spec_parse_media_language(language@),
    {
        match split_once_char(language, '-') {
            Some((main, sub)) => {
                if main.as_str().unicode_len() == 0 {
                    let r = MediaLanguage {
                        main: "*".to_owned(),
                        sub: String::new(),
                        weight: 1000,
                    };
                    proof {
                        assert(r@ =~= spec_parse_media_language(language@));
                    }
                    r
                } else {
                    MediaLanguage { main, sub, weight: 1000 }
                }
            },
            None => {
                if language.unicode_len() == 0 {
                    let r = MediaLanguage {
                        main: "*".to_owned(),
                        sub: String::new(),
                        weight: 1000,
                    };
                    proof {
                        assert(r@ =~= spec_parse_media_language(language@));
                    }
                    r
                } else {
                    let r = MediaLanguage {
                        main: language.to_owned(),
                        sub: String::new(),
                        weight: 1000,
                    };
                    proof {
                        assert(r@ =~= spec_parse_media_language(language@));
                    }
                    r
                }
            },
        }
    }

    /// The same language under another quality weight, parsed from text.
    pub fn with_weight(&self, weight: &str) -> (r: MediaLanguage)
        ensures
            r@ == (MediaLanguageView {
                main: self@.main,
                sub: self@.sub,
                weight: crate::strutil::spec_q_millis(weight@),
            }),
    {
        MediaLanguage {
            main: self.main.clone(),
            sub: self.sub.clone(),
            weight: crate::strutil::parse_q_millis(weight),
        }
    }

    /// Whether this provided language satisfies the acceptable one.
    pub fn matches(&self, other: &MediaLanguage) -> (r: bool)
        ensures
            r == spec_media_language_matches(self@, other@),
    {
        if str_eq(other.main.as_str(), "*") || (str_eq(self.main.as_str(), other.main.as_str())
            && str_eq(self.sub.as_str(), other.sub.as_str())) {
            true
        } else {
            let mut prefix = self.to_string();
            push_char(&mut prefix, '-');
            proof {
                assert(prefix@ =~= spec_media_language_str(self@) + seq!['-']);
            }
            starts_with(other.to_string().as_str(), prefix.as_str())
        }
    }

    /// The `main` or `main-sub` text of this language tag.
    pub fn to_string(&self) -> (r: String)
        ensures
            r@ == spec_media_language_str(self@),
    {
        if self.sub.as_str().unicode_len() == 0 {
            let r = self.main.clone();
            proof {
                assert(self@.sub =~= Seq::<char>::empty());
            }
            r
        } else {
            let mut out = self.main.clone();
            push_char(&mut out, '-');
            out.append(self.sub.as_str());
            proof {
                assert(out@ =~= spec_media_language_str(self@));
            }
            out
        }
    }
}

/// A charset: a name and a quality weight; names compare without case.
#[derive(Debug, Clone, PartialEq)]
pub struct Charset {
    /// The charset name; `*` is the wildcard.
    pub charset: String,
    /// The quality weight, in thousandths.
    pub weight: i64,
}

/// The mathematical shape of a charset.
#[verifier::ext_equal]
#[allow(missing_docs)]
pub struct CharsetView {
    pub charset: Seq<char>,
    pub weight: i64,
}

impl View for Charset {
    type V = CharsetView;

    open spec fn view(&self) -> CharsetView {
        CharsetView { charset: self.charset@, weight: self.weight }
    }
}

impl DeepView for Charset {
    type V = CharsetView;

    open spec fn deep_view(&self) -> CharsetView {
        self.view()
    }
}

/// Whether a provided charset (`v`) satisfies an acceptable one: by
/// wildcard or by case-insensitive equality.
pub open spec fn spec_charset_matches(v: CharsetView, other: CharsetView) -> bool {
    other.charset == "*"@ || spec_upper(v.charset) == spec_upper(other.charset)
}

impl Charset {
    /// Reads charset text as a charset at the default weight.
    pub fn parse_string(charset: &str) -> (r: Charset)
        ensures
            r@ == (CharsetView { charset: charset@, weight: 1000 }),
    {
        Charset { charset: charset.to_owned(), weight: 1000 }
    }

    /// The same charset under another quality weight, parsed from text.
    pub fn with_weight(&self, weight: &str) -> (r: Charset)
        ensures
            r@ == (CharsetView {
                charset: self@.charset,
                weight: crate::strutil::spec_q_millis(weight@),
            }),
    {
        Charset { charset: self.charset.clone(), weight: crate::strutil::parse_q_millis(weight) }
    }

    /// Whether this provided charset satisfies the acceptable one.
    pub fn matches(&self, other: &Charset) -> (r: bool)
        ensures
            r == spec_charset_matches(self@, other@),
    {
        str_eq(other.charset.as_str(), "*") || eq_ignore_case(
            self.charset.as_str(),
            other.charset.as_str(),
        )
    }

    /// The name of this charset.
    pub fn to_string(&self) -> (r: String)
        ensures
            r@ == self@.charset,
    {
        self.charset.clone()
    }
}

/// An encoding: a name and a quality weight; names compare without case.
#[derive(Debug, Clone, PartialEq)]
pub struct Encoding {
    /// The encoding name; `*` is the wildcard.
    pub encoding: String,
    /// The quality weight, in thousandths.
    pub weight: i64,
}

/// The mathematical shape of an encoding.
#[verifier::ext_equal]
#[allow(missing_docs)]
pub struct EncodingView {
    pub encoding: Seq<char>,
    pub weight: i64,
}

impl View for Encoding {
    type V = EncodingView;

    open spec fn view(&self) -> EncodingView {
        EncodingView { encoding: self.encoding@, weight: self.weight }
    }
}

impl DeepView for Encoding {
    type V = EncodingView;

    open spec fn deep_view(&self) -> EncodingView {
        self.view()
    }
}

/// Whether a provided encoding (`v`) satisfies an acceptable one: by
/// wildcard or by case-insensitive equality.
pub open spec fn spec_encoding_matches(v: EncodingView, other: EncodingView) -> bool {
    other.encoding == "*"@ || spec_upper(v.encoding) == spec_upper(other.encoding)
}

impl Encoding {
    /// Reads encoding text as an encoding at the default weight.
    pub fn parse_string(encoding: &str) -> (r: Encoding)
        ensures
            r@ == (EncodingView { encoding: encoding@, weight: 1000 }),
    {
        Encoding { encoding: encoding.to_owned(), weight: 1000 }
    }

    /// The same encoding under another quality weight, parsed from text.
    pub fn with_weight(&self, weight: &str) -> (r: Encoding)
        ensures
            r@ == (EncodingView {
                encoding: self@.encoding,
                weight: crate::strutil::spec_q_millis(weight@),
            }),
    {
        Encoding {
            encoding: self.encoding.clone(),
            weight: crate::strutil::parse_q_millis(weight),
        }
    }

    /// Whether this provided encoding satisfies the acceptable one.
    pub fn matches(&self, other: &Encoding) -> (r: bool)
        ensures
            r == spec_encoding_matches(self@, other@),
    {
        str_eq(other.encoding.as_str(), "*") || eq_ignore_case(
            self.encoding.as_str(),
            other.encoding.as_str(),
        )
    }

    /// The name of this encoding.
    pub fn to_string(&self) -> (r: String)
        ensures
            r@ == self@.encoding,
    {
        self.encoding.clone()
    }
}

/// The media type a header value denotes, under the value's weight.
pub open spec fn spec_as_media_type(v: HeaderValueView) -> MediaTypeView {
    MediaTypeView {
        main: spec_parse_media_type(v.value).main,
        sub: spec_parse_media_type(v.value).sub,
        weight: spec_weight_millis(v),
    }
}

/// The language a header value denotes, under the value's weight.
pub open spec fn spec_as_media_language(v: HeaderValueView) -> MediaLanguageView {
    MediaLanguageView {
        main: spec_parse_media_language(v.value).main,
        sub: spec_parse_media_language(v.value).sub,
        weight: spec_weight_millis(v),
    }
}

/// The charset a header value denotes, under the value's weight.
pub open spec fn spec_as_charset(v: HeaderValueView) -> CharsetView {
    CharsetView { charset: v.value, weight: spec_weight_millis(v) }
}

/// The encoding a header value denotes, under the value's weight.
pub open spec fn spec_as_encoding(v: HeaderValueView) -> EncodingView {
    EncodingView { encoding: v.value, weight: spec_weight_millis(v) }
}

impl HeaderValue {
    /// This header value read as a media type, under its `q` weight.
    pub fn as_media_type(&self) -> (r: MediaType)
        ensures
            r@ == spec_as_media_type(self@),
    {
        let parsed = MediaType::parse_string(self.value.as_str());
        MediaType { main: parsed.main, sub: parsed.sub, weight: self.weight_millis() }
    }

    /// This header value read as a language tag, under its `q` weight.
    pub fn as_media_language(&self) -> (r: MediaLanguage)
        ensures
            r@ == spec_as_media_language(self@),
    {
        let parsed = MediaLanguage::parse_string(self.value.as_str());
        MediaLanguage { main: parsed.main, sub: parsed.sub, weight: self.weight_millis() }
    }

    /// This header value read as a charset, under its `q` weight.
    pub fn as_charset(&self) -> (r: Charset)
        ensures
            r@ == spec_as_charset(self@),
    {
        Charset { charset: self.value.clone(), weight: self.weight_millis() }
    }

    /// This header value read as an encoding, under its `q` weight.
    pub fn as_encoding(&self) -> (r: Encoding)
        ensures
            r@ == spec_as_encoding(self@),
    {
        Encoding { encoding: self.value.clone(), weight: self.weight_millis() }
    }
}

/// Whether `a` sorts strictly before `b` as a media type preference:
/// greater weight first, then the more specific pattern.
pub open spec fn spec_media_type_before(a: HeaderValueView, b: HeaderValueView) -> bool {
    let ka = spec_as_media_type(a);
    let kb = spec_as_media_type(b);
    ||| ka.weight > kb.weight
    ||| (ka.weight == kb.weight && spec_specificity(ka) < spec_specificity(kb))
}

/// The media type preference order, as one order value.
pub open spec fn mt_order() -> spec_fn(HeaderValueView, HeaderValueView) -> bool {
    |a: HeaderValueView, b: HeaderValueView| spec_media_type_before(a, b)
}

fn media_type_before(a: &HeaderValue, b: &HeaderValue) -> (r: bool)
    ensures
        r == mt_order()(a@, b@),
{
    let ka = a.as_media_type().weight();
    let kb = b.as_media_type().weight();
    ka.0 > kb.0 || (ka.0 == kb.0 && ka.1 < kb.1)
}

/// Sorts media type preferences: descending weight, then specificity, the
/// order of equals kept.
pub fn sort_media_types(media_types: &Vec<HeaderValue>) -> (r: Vec<HeaderValue>)
    ensures
        r.deep_view() == spec_sort_by(media_types.deep_view(), mt_order()),
{
    let mut out: Vec<HeaderValue> = Vec::new();
    let n = media_types.len();
    let mut i: usize = 0;
    proof {
        assert(media_types.deep_view().take(0) =~= Seq::<HeaderValueView>::empty());
        assert(out.deep_view() =~= Seq::<HeaderValueView>::empty());
    }
    while i < n
        invariant
            n == media_types@.len(),
            i <= n,
            out.deep_view() == spec_sort_by(media_types.deep_view().take(i as int), mt_order()),
        decreases n - i,
    {
        let x = duplicate_header_value(&media_types[i]);
        let m = out.len();
        let mut p: usize = 0;
        while p < m && !media_type_before(&x, &out[p])
            invariant
                m == out@.len(),
                p <= m,
                forall|j: int| 0 <= j < p ==> !mt_order()(x@, #[trigger] out.deep_view()[j]),
            decreases m - p,
        {
            p = p + 1;
        }
        let ghost prev = out.deep_view();
        insert_dv(&mut out, p, x);
        proof {
            lemma_insert_by_at(prev, x@, mt_order(), p as int);
            assert(prev.insert(p as int, x@) =~= prev.take(p as int) + seq![x@] + prev.skip(
                p as int,
            ));
            let dv = media_types.deep_view();
            assert(dv.take(i + 1) =~= dv.take(i as int).push(dv[i as int]));
            crate::sorting::lemma_sort_by_push(dv.take(i as int), dv[i as int], mt_order());
        }
        i = i + 1;
    }
    proof {
        assert(media_types.deep_view().take(n as int) =~= media_types.deep_view());
    }
    out
}

/// Whether `a` sorts strictly before `b` by weight alone.
pub open spec fn spec_language_before(a: MediaLanguageView, b: MediaLanguageView) -> bool {
    a.weight > b.weight
}

/// The language preference order, as one order value.
pub open spec fn lang_order() -> spec_fn(MediaLanguageView, MediaLanguageView) -> bool {
    |a: MediaLanguageView, b: MediaLanguageView| spec_language_before(a, b)
}

/// The languages a header list denotes, entries of weight zero dropped.
pub open spec fn spec_weighted_languages(hvs: Seq<HeaderValueView>) -> Seq<MediaLanguageView>
    decreases hvs.len(),
{
    if hvs.len() == 0 {
        Seq::empty()
    } else {
        let rest = spec_weighted_languages(hvs.drop_last());
        let l = spec_as_media_language(hvs.last());
        if l.weight > 0 {
            rest.push(l)
        } else {
            rest
        }
    }
}

/// Sorts acceptable languages by descending weight, entries of weight zero
/// dropped, the order of equals kept.
pub fn sort_media_languages(media_languages: &Vec<HeaderValue>) -> (r: Vec<MediaLanguage>)
    ensures
        r.deep_view() == spec_sort_by(
            spec_weighted_languages(media_languages.deep_view()),
            lang_order(),
        ),
{
    let mut out: Vec<MediaLanguage> = Vec::new();
    let n = media_languages.len();
    let mut i: usize = 0;
    proof {
        assert(media_languages.deep_view().take(0) =~= Seq::<HeaderValueView>::empty());
        assert(out.deep_view() =~= Seq::<MediaLanguageView>::empty());
    }
    while i < n
        invariant
            n == media_languages@.len(),
            i <= n,
            out.deep_view() == spec_sort_by(
                spec_weighted_languages(media_languages.deep_view().take(i as int)),
                lang_order(),
            ),
        decreases n - i,
    {
        let lang = media_languages[i].as_media_language();
        proof {
            let dv = media_languages.deep_view();
            assert(dv.take(i + 1).drop_last() =~= dv.take(i as int));
            assert(dv.take(i + 1).last() == dv[i as int]);
        }
        if lang.weight > 0 {
            let m = out.len();
            let mut p: usize = 0;
            while p < m && !(lang.weight > out[p].weight)
                invariant
                    m == out@.len(),
                    p <= m,
                    forall|j: int| 0 <= j < p ==> !lang_order()(
                        lang@,
                        #[trigger] out.deep_view()[j],
                    ),
                decreases m - p,
            {
                p = p + 1;
            }
            let ghost prev = out.deep_view();
            insert_dv(&mut out, p, lang);
            proof {
                lemma_insert_by_at(prev, lang@, lang_order(), p as int);
                assert(prev.insert(p as int, lang@) =~= prev.take(p as int) + seq![lang@]
                    + prev.skip(p as int));
                let dv = media_languages.deep_view();
                crate::sorting::lemma_sort_by_push(
                    spec_weighted_languages(dv.take(i as int)),
                    lang@,
                    lang_order(),
                );
            }
        }
        i = i + 1;
    }
    proof {
        assert(media_languages.deep_view().take(n as int) =~= media_languages.deep_view());
    }
    out
}

/// The default charset, as a plain header value.
pub open spec fn spec_default_charset_value() -> HeaderValueView {
    HeaderValueView { value: "ISO-8859-1"@, params: Seq::empty(), quote: false }
}

/// Whether the client's charset list already speaks of the default charset
/// or of the wildcard.
pub open spec fn spec_mentions_default_charset(hvs: Seq<HeaderValueView>) -> bool {
    exists|i: int|
        0 <= i < hvs.len() && ((#[trigger] hvs[i]).value == "*"@ || spec_upper(hvs[i].value)
            == "ISO-8859-1"@)
}

/// The charset list with the default appended where nothing mentions it.
pub open spec fn spec_charsets_with_default(hvs: Seq<HeaderValueView>) -> Seq<HeaderValueView> {
    if spec_mentions_default_charset(hvs) {
        hvs
    } else {
        hvs.push(spec_default_charset_value())
    }
}

/// Whether `a` sorts strictly before `b` by weight alone.
pub open spec fn spec_charset_before(a: CharsetView, b: CharsetView) -> bool {
    a.weight > b.weight
}

/// The charset preference order, as one order value.
pub open spec fn cs_order() -> spec_fn(CharsetView, CharsetView) -> bool {
    |a: CharsetView, b: CharsetView| spec_charset_before(a, b)
}

/// The charsets a header list denotes, entries of weight zero dropped.
pub open spec fn spec_weighted_charsets(hvs: Seq<HeaderValueView>) -> Seq<CharsetView>
    decreases hvs.len(),
{
    if hvs.len() == 0 {
        Seq::empty()
    } else {
        let rest = spec_weighted_charsets(hvs.drop_last());
        let c = spec_as_charset(hvs.last());
        if c.weight > 0 {
            rest.push(c)
        } else {
            rest
        }
    }
}

/// Sorts acceptable charsets by descending weight, after appending the
/// default charset where neither it nor the wildcard is mentioned; entries
/// of weight zero are dropped.
pub fn sort_media_charsets(charsets: &Vec<HeaderValue>) -> (r: Vec<Charset>)
    ensures
        r.deep_view() == spec_sort_by(
            spec_weighted_charsets(spec_charsets_with_default(charsets.deep_view())),
            cs_order(),
        ),
{
    let mut work = duplicate_header_values(charsets);
    let n = charsets.len();
    let mut i: usize = 0;
    let mut mentioned = false;
    while i < n
        invariant
            n == charsets@.len(),
            i <= n,
            work.deep_view() == charsets.deep_view(),
            mentioned <==> exists|j: int|
                0 <= j < i && ((#[trigger] charsets.deep_view()[j]).value == "*"@ || spec_upper(
                    charsets.deep_view()[j].value,
                ) == "ISO-8859-1"@),
        decreases n - i,
    {
        if charsets[i].value_equals("*") || crate::strutil::str_eq(
            crate::strutil::upper(charsets[i].value.as_str()).as_str(),
            "ISO-8859-1",
        ) {
            mentioned = true;
            proof {
                assert((#[trigger] charsets.deep_view()[i as int]).value == "*"@ || spec_upper(
                    charsets.deep_view()[i as int].value,
                ) == "ISO-8859-1"@);
            }
        }
        i = i + 1;
    }
    if !mentioned {
        push_dv(&mut work, HeaderValue::basic("ISO-8859-1"));
    }
    proof {
        assert(work.deep_view() =~= spec_charsets_with_default(charsets.deep_view()));
    }
    let target = work;
    let mut out: Vec<Charset> = Vec::new();
    let m = target.len();
    let mut k: usize = 0;
    proof {
        assert(target.deep_view().take(0) =~= Seq::<HeaderValueView>::empty());
        assert(out.deep_view() =~= Seq::<CharsetView>::empty());
    }
    while k < m
        invariant
            m == target@.len(),
            k <= m,
            out.deep_view() == spec_sort_by(
                spec_weighted_charsets(target.deep_view().take(k as int)),
                cs_order(),
            ),
        decreases m - k,
    {
        let c = target[k].as_charset();
        proof {
            let dv = target.deep_view();
            assert(dv.take(k + 1).drop_last() =~= dv.take(k as int));
            assert(dv.take(k + 1).last() == dv[k as int]);
        }
        if c.weight > 0 {
            let len = out.len();
            let mut p: usize = 0;
            while p < len && !(c.weight > out[p].weight)
                invariant
                    len == out@.len(),
                    p <= len,
                    forall|j: int| 0 <= j < p ==> !cs_order()(c@, #[trigger] out.deep_view()[j]),
                decreases len - p,
            {
                p = p + 1;
            }
            let ghost prev = out.deep_view();
            insert_dv(&mut out, p, c);
            proof {
                lemma_insert_by_at(prev, c@, cs_order(), p as int);
                assert(prev.insert(p as int, c@) =~= prev.take(p as int) + seq![c@] + prev.skip(
                    p as int,
                ));
                crate::sorting::lemma_sort_by_push(
                    spec_weighted_charsets(target.deep_view().take(k as int)),
                    c@,
                    cs_order(),
                );
            }
        }
        k = k + 1;
    }
    proof {
        assert(target.deep_view().take(m as int) =~= target.deep_view());
    }
    out
}

/// The identity encoding, as a plain header value.
pub open spec fn spec_identity_encoding_value() -> HeaderValueView {
    HeaderValueView { value: "identity"@, params: Seq::empty(), quote: false }
}

/// Whether the client's encoding list already speaks of the identity
/// encoding or of the wildcard.
pub open spec fn spec_mentions_identity(hvs: Seq<HeaderValueView>) -> bool {
    exists|i: int|
        0 <= i < hvs.len() && ((#[trigger] hvs[i]).value == "*"@ || crate::strutil::spec_lower(
            hvs[i].value,
        ) == "identity"@)
}

/// The encoding list with identity appended where nothing mentions it.
pub open spec fn spec_encodings_with_identity(hvs: Seq<HeaderValueView>) -> Seq<HeaderValueView> {
    if spec_mentions_identity(hvs) {
        hvs
    } else {
        hvs.push(spec_identity_encoding_value())
    }
}

/// Whether `a` sorts strictly before `b` by weight alone.
pub open spec fn spec_encoding_before(a: EncodingView, b: EncodingView) -> bool {
    a.weight > b.weight
}

/// The encoding preference order, as one order value.
pub open spec fn enc_order() -> spec_fn(EncodingView, EncodingView) -> bool {
    |a: EncodingView, b: EncodingView| spec_encoding_before(a, b)
}

/// The encodings a header list denotes, entries of weight zero dropped.
pub open spec fn spec_weighted_encodings(hvs: Seq<HeaderValueView>) -> Seq<EncodingView>
    decreases hvs.len(),
{
    if hvs.len() == 0 {
        Seq::empty()
    } else {
        let rest = spec_weighted_encodings(hvs.drop_last());
        let e = spec_as_encoding(hvs.last());
        if e.weight > 0 {
            rest.push(e)
        } else {
            rest
        }
    }
}

/// Sorts acceptable encodings by descending weight, after appending the
/// identity encoding where neither it nor the wildcard is mentioned;
/// entries of weight zero are dropped.
pub fn sort_encodings(encodings: &Vec<HeaderValue>) -> (r: Vec<Encoding>)
    ensures
        r.deep_view() == spec_sort_by(
            spec_weighted_encodings(spec_encodings_with_identity(encodings.deep_view())),
            enc_order(),
        ),
{
    let mut work = duplicate_header_values(encodings);
    let n = encodings.len();
    let mut i: usize = 0;
    let mut mentioned = false;
    while i < n
        invariant
            n == encodings@.len(),
            i <= n,
            work.deep_view() == encodings.deep_view(),
            mentioned <==> exists|j: int|
                0 <= j < i && ((#[trigger] encodings.deep_view()[j]).value == "*"@
                    || crate::strutil::spec_lower(encodings.deep_view()[j].value)
                    == "identity"@),
        decreases n - i,
    {
        if encodings[i].value_equals("*") || crate::strutil::str_eq(
            crate::strutil::lower(encodings[i].value.as_str()).as_str(),
            "identity",
        ) {
            mentioned = true;
            proof {
                assert((#[trigger] encodings.deep_view()[i as int]).value == "*"@
                    || crate::strutil::spec_lower(encodings.deep_view()[i as int].value)
                    == "identity"@);
            }
        }
        i = i + 1;
    }
    if !mentioned {
        push_dv(&mut work, HeaderValue::basic("identity"));
    }
    proof {
        assert(work.deep_view() =~= spec_encodings_with_identity(encodings.deep_view()));
    }
    let target = work;
    let mut out: Vec<Encoding> = Vec::new();
    let m = target.len();
    let mut k: usize = 0;
    proof {
        assert(target.deep_view().take(0) =~= Seq::<HeaderValueView>::empty());
        assert(out.deep_view() =~= Seq::<EncodingView>::empty());
    }
    while k < m
        invariant
            m == target@.len(),
            k <= m,
            out.deep_view() == spec_sort_by(
                spec_weighted_encodings(target.deep_view().take(k as int)),
                enc_order(),
            ),
        decreases m - k,
    {
        let e = target[k].as_encoding();
        proof {
            let dv = target.deep_view();
            assert(dv.take(k + 1).drop_last() =~= dv.take(k as int));
            assert(dv.take(k + 1).last() == dv[k as int]);
        }
        if e.weight > 0 {
            let len = out.len();
            let mut p: usize = 0;
            while p < len && !(e.weight > out[p].weight)
                invariant
                    len == out@.len(),
                    p <= len,
                    forall|j: int| 0 <= j < p ==> !enc_order()(e@, #[trigger] out.deep_view()[j]),
                decreases len - p,
            {
                p = p + 1;
            }
            let ghost prev = out.deep_view();
            insert_dv(&mut out, p, e);
            proof {
                lemma_insert_by_at(prev, e@, enc_order(), p as int);
                assert(prev.insert(p as int, e@) =~= prev.take(p as int) + seq![e@] + prev.skip(
                    p as int,
                ));
                crate::sorting::lemma_sort_by_push(
                    spec_weighted_encodings(target.deep_view().take(k as int)),
                    e@,
                    enc_order(),
                );
            }
        }
        k = k + 1;
    }
    proof {
        assert(target.deep_view().take(m as int) =~= target.deep_view());
    }
    out
}

/// Whether some acceptable entry relates to the produced text with exactly
/// the given match kind.
pub open spec fn spec_has_acceptable_match(
    p: Seq<char>,
    acceptable: Seq<HeaderValueView>,
    kind: MediaTypeMatch,
) -> bool {
    exists|k: int|
        0 <= k < acceptable.len() && spec_media_type_match(
            spec_parse_media_type(p),
            spec_as_media_type(#[trigger] acceptable[k]),
        ) == kind
}

/// The produced-text predicate for one match kind, as one value.
pub open spec fn mt_kind_pred(
    acceptable: Seq<HeaderValueView>,
    kind: MediaTypeMatch,
) -> spec_fn(Seq<char>) -> bool {
    |p: Seq<char>| spec_has_acceptable_match(p, acceptable, kind)
}

/// The first produced entry that meets some acceptable entry with the
/// given kind, rendered as its parsed `main/sub` text.
pub open spec fn spec_first_produced(
    produces: Seq<Seq<char>>,
    acceptable: Seq<HeaderValueView>,
    kind: MediaTypeMatch,
) -> Option<Seq<char>> {
    match crate::sorting::spec_first_match(produces, mt_kind_pred(acceptable, kind)) {
        Some(p) => Some(spec_media_type_str(spec_parse_media_type(p))),
        None => None,
    }
}

/// The media type the engine selects: for a request without an Accept
/// header, the first produced entry; otherwise the produced entry that
/// meets the sorted preferences most closely, ties broken by the order of
/// `produces`.
pub open spec fn spec_matching_content_type(
    res: crate::resource::ResourceView,
    req: crate::context::RequestView,
) -> Option<Seq<char>> {
    if req.spec_has_header("ACCEPT"@) {
        let acceptable = spec_sort_by(req.spec_find_header("ACCEPT"@), mt_order());
        if spec_first_produced(res.produces, acceptable, MediaTypeMatch::Full) is Some {
            spec_first_produced(res.produces, acceptable, MediaTypeMatch::Full)
        } else if spec_first_produced(res.produces, acceptable, MediaTypeMatch::SubStar)
            is Some {
            spec_first_produced(res.produces, acceptable, MediaTypeMatch::SubStar)
        } else {
            spec_first_produced(res.produces, acceptable, MediaTypeMatch::Star)
        }
    } else if res.produces.len() > 0 {
        Some(res.produces[0])
    } else {
        None
    }
}

#[verifier::rlimit(100)]
#[verifier::loop_isolation(false)]
fn find_produced(
    produces: &Vec<String>,
    acceptable: &Vec<HeaderValue>,
    kind: MediaTypeMatch,
) -> (r: Option<String>)
    ensures
        r.deep_view() == spec_first_produced(produces.deep_view(), acceptable.deep_view(), kind),
{
    let n = produces.len();
    let mut i: usize = 0;
    while i < n
        invariant
            n == produces@.len(),
            i <= n,
            forall|j: int| 0 <= j < i ==> !mt_kind_pred(acceptable.deep_view(), kind)(
                #[trigger] produces.deep_view()[j],
            ),
        decreases n - i,
    {
        let pm = MediaType::parse_string(produces[i].as_str());
        let m = acceptable.len();
        let mut k: usize = 0;
        while k < m
            invariant
                m == acceptable@.len(),
                k <= m,
                pm@ == spec_parse_media_type(produces.deep_view()[i as int]),
                i < n == produces@.len(),
                forall|l: int| 0 <= l < k ==> spec_media_type_match(
                    pm@,
                    spec_as_media_type(#[trigger] acceptable.deep_view()[l]),
                ) != kind,
            decreases m - k,
        {
            if pm.matches(&acceptable[k].as_media_type()) == kind {
                proof {
                    assert(spec_media_type_match(
                        pm@,
                        spec_as_media_type(acceptable.deep_view()[k as int]),
                    ) == kind);
                    assert(mt_kind_pred(acceptable.deep_view(), kind)(
                        produces.deep_view()[i as int],
                    ));
                    assert(produces.deep_view().len() == n);
                    crate::sorting::lemma_first_match_at(
                        produces.deep_view(),
                        mt_kind_pred(acceptable.deep_view(), kind),
                        i as int,
                    );
                }
                return Some(pm.to_string());
            }
            k = k + 1;
        }
        proof {
            if mt_kind_pred(acceptable.deep_view(), kind)(produces.deep_view()[i as int]) {
                let w = choose|l: int|
                    0 <= l < acceptable.deep_view().len() && spec_media_type_match(
                        spec_parse_media_type(produces.deep_view()[i as int]),
                        spec_as_media_type(#[trigger] acceptable.deep_view()[l]),
                    ) == kind;
                assert(spec_media_type_match(
                    pm@,
                    spec_as_media_type(acceptable.deep_view()[w]),
                ) != kind);
            }
        }
        i = i + 1;
    }
    proof {
        assert(produces.deep_view().len() == n);
        crate::sorting::lemma_first_match_none(
            produces.deep_view(),
            mt_kind_pred(acceptable.deep_view(), kind),
        );
    }
    None
}

/// Selects the media type the response will carry, if any produced entry
/// is acceptable to the client.
#[verifier::rlimit(100)]
pub fn matching_content_type(resource: &Resource, request: &Request) -> (r: Option<String>)
    ensures
        r.deep_view() == spec_matching_content_type(resource@, request@),
{
    if request.has_accept_header() {
        let acceptable = sort_media_types(&request.accept());
        let full = find_produced(&resource.produces, &acceptable, MediaTypeMatch::Full);
        if full.is_some() {
            return full;
        }
        let sub = find_produced(&resource.produces, &acceptable, MediaTypeMatch::SubStar);
        if sub.is_some() {
            return sub;
        }
        find_produced(&resource.produces, &acceptable, MediaTypeMatch::Star)
    } else if resource.produces.len() > 0 {
        Some(resource.produces[0].clone())
    } else {
        None
    }
}

/// The provided-language predicate for one acceptable language.
pub open spec fn lang_match_pred(a: MediaLanguageView) -> spec_fn(Seq<char>) -> bool {
    |p: Seq<char>| spec_media_language_matches(spec_parse_media_language(p), a)
}

/// The provided language chosen for one acceptable language, rendered as
/// its parsed text.
pub open spec fn lang_scan_fn(provided: Seq<Seq<char>>) -> spec_fn(MediaLanguageView) -> Option<
    Seq<char>,
> {
    |a: MediaLanguageView|
        match crate::sorting::spec_first_match(provided, lang_match_pred(a)) {
            Some(p) => Some(spec_media_language_str(spec_parse_media_language(p))),
            None => None,
        }
}

/// The language the engine selects: with no (or an empty) Accept-Language
/// header, the first provided language, or the wildcard where none are
/// declared; otherwise the first provided language matching the client's
/// preferences in descending weight.
pub open spec fn spec_matching_language(
    res: crate::resource::ResourceView,
    req: crate::context::RequestView,
) -> Option<Seq<char>> {
    if req.spec_has_header("ACCEPT-LANGUAGE"@) && req.spec_find_header("ACCEPT-LANGUAGE"@).len()
        > 0 {
        let acc = spec_sort_by(
            spec_weighted_languages(req.spec_find_header("ACCEPT-LANGUAGE"@)),
            lang_order(),
        );
        if res.languages_provided.len() == 0 {
            if acc.len() > 0 {
                Some(spec_media_language_str(acc[0]))
            } else {
                None
            }
        } else {
            crate::sorting::spec_first_some(acc, lang_scan_fn(res.languages_provided))
        }
    } else if res.languages_provided.len() == 0 {
        Some("*"@)
    } else {
        Some(res.languages_provided[0])
    }
}

/// Selects the content language, if the resource can satisfy the client.
#[verifier::rlimit(100)]
#[verifier::loop_isolation(false)]
pub fn matching_language(resource: &Resource, request: &Request) -> (r: Option<String>)
    ensures
        r.deep_view() == spec_matching_language(resource@, request@),
{
    if request.has_accept_language_header() && request.accept_language().len() > 0 {
        let acc = sort_media_languages(&request.accept_language());
        if resource.languages_provided.len() == 0 {
            if acc.len() > 0 {
                Some(acc[0].to_string())
            } else {
                None
            }
        } else {
            let n = acc.len();
            let mut i: usize = 0;
            while i < n
                invariant
                    n == acc@.len(),
                    i <= n,
                    acc.deep_view() == spec_sort_by(
                        spec_weighted_languages(request@.spec_find_header("ACCEPT-LANGUAGE"@)),
                        lang_order(),
                    ),
                    resource@.languages_provided.len() > 0,
                    forall|j: int| 0 <= j < i ==> lang_scan_fn(resource@.languages_provided)(
                        #[trigger] acc.deep_view()[j],
                    ) is None,
                decreases n - i,
            {
                let m = resource.languages_provided.len();
                let mut k: usize = 0;
                while k < m
                    invariant
                        m == resource.languages_provided@.len(),
                        k <= m,
                        i < n == acc@.len(),
                        forall|l: int| 0 <= l < k ==> !lang_match_pred(acc.deep_view()[i as int])(
                            #[trigger] resource@.languages_provided[l],
                        ),
                    decreases m - k,
                {
                    let pl = MediaLanguage::parse_string(resource.languages_provided[k].as_str());
                    if pl.matches(&acc[i]) {
                        proof {
                            assert(lang_match_pred(acc.deep_view()[i as int])(
                                resource@.languages_provided[k as int],
                            ));
                            assert(resource@.languages_provided.len() == m);
                            crate::sorting::lemma_first_match_at(
                                resource@.languages_provided,
                                lang_match_pred(acc.deep_view()[i as int]),
                                k as int,
                            );
                            assert(lang_scan_fn(resource@.languages_provided)(
                                acc.deep_view()[i as int],
                            ) == Some(
                                spec_media_language_str(
                                    spec_parse_media_language(
                                        resource@.languages_provided[k as int],
                                    ),
                                ),
                            ));
                            assert(acc.deep_view().len() == n);
                            crate::sorting::lemma_first_some_at(
                                acc.deep_view(),
                                lang_scan_fn(resource@.languages_provided),
                                i as int,
                            );
                        }
                        return Some(pl.to_string());
                    }
                    k = k + 1;
                }
                proof {
                    assert(resource@.languages_provided.len() == m);
                    crate::sorting::lemma_first_match_none(
                        resource@.languages_provided,
                        lang_match_pred(acc.deep_view()[i as int]),
                    );
                    assert(lang_scan_fn(resource@.languages_provided)(
                        acc.deep_view()[i as int],
                    ) is None);
                }
                i = i + 1;
            }
            proof {
                crate::sorting::lemma_first_some_none(
                    acc.deep_view(),
                    lang_scan_fn(resource@.languages_provided),
                );
            }
            None
        }
    } else if resource.languages_provided.len() == 0 {
        Some("*".to_owned())
    } else {
        Some(resource.languages_provided[0].clone())
    }
}

/// The provided-charset predicate for one acceptable charset.
pub open spec fn cs_match_pred(a: CharsetView) -> spec_fn(Seq<char>) -> bool {
    |p: Seq<char>| spec_charset_matches(CharsetView { charset: p, weight: 1000 }, a)
}

/// The provided charset chosen for one acceptable charset.
pub open spec fn cs_scan_fn(provided: Seq<Seq<char>>) -> spec_fn(CharsetView) -> Option<
    Seq<char>,
> {
    |a: CharsetView| crate::sorting::spec_first_match(provided, cs_match_pred(a))
}

/// The charset the engine selects: with no (or an empty) Accept-Charset
/// header, the first provided charset, or the default where none are
/// declared; otherwise the first provided charset matching the client's
/// preferences in descending weight, the default charset counting as
/// acceptable unless ruled out.
pub open spec fn spec_matching_charset(
    res: crate::resource::ResourceView,
    req: crate::context::RequestView,
) -> Option<Seq<char>> {
    if req.spec_has_header("ACCEPT-CHARSET"@) && req.spec_find_header("ACCEPT-CHARSET"@).len()
        > 0 {
        let acc = spec_sort_by(
            spec_weighted_charsets(
                spec_charsets_with_default(req.spec_find_header("ACCEPT-CHARSET"@)),
            ),
            cs_order(),
        );
        if res.charsets_provided.len() == 0 {
            if acc.len() > 0 {
                Some(acc[0].charset)
            } else {
                None
            }
        } else {
            crate::sorting::spec_first_some(acc, cs_scan_fn(res.charsets_provided))
        }
    } else if res.charsets_provided.len() == 0 {
        Some("ISO-8859-1"@)
    } else {
        Some(res.charsets_provided[0])
    }
}

/// Selects the response charset, if the resource can satisfy the client.
#[verifier::rlimit(100)]
#[verifier::loop_isolation(false)]
pub fn matching_charset(resource: &Resource, request: &Request) -> (r: Option<String>)
    ensures
        r.deep_view() == spec_matching_charset(resource@, request@),
{
    if request.has_accept_charset_header() && request.accept_charset().len() > 0 {
        let acc = sort_media_charsets(&request.accept_charset());
        if resource.charsets_provided.len() == 0 {
            if acc.len() > 0 {
                Some(acc[0].to_string())
            } else {
                None
            }
        } else {
            let n = acc.len();
            let mut i: usize = 0;
            while i < n
                invariant
                    n == acc@.len(),
                    i <= n,
                    acc.deep_view() == spec_sort_by(
                        spec_weighted_charsets(
                            spec_charsets_with_default(
                                request@.spec_find_header("ACCEPT-CHARSET"@),
                            ),
                        ),
                        cs_order(),
                    ),
                    resource@.charsets_provided.len() > 0,
                    forall|j: int| 0 <= j < i ==> cs_scan_fn(resource@.charsets_provided)(
                        #[trigger] acc.deep_view()[j],
                    ) is None,
                decreases n - i,
            {
                let m = resource.charsets_provided.len();
                let mut k: usize = 0;
                while k < m
                    invariant
                        m == resource.charsets_provided@.len(),
                        k <= m,
                        i < n == acc@.len(),
                        forall|l: int| 0 <= l < k ==> !cs_match_pred(acc.deep_view()[i as int])(
                            #[trigger] resource@.charsets_provided[l],
                        ),
                    decreases m - k,
                {
                    let pc = Charset::parse_string(resource.charsets_provided[k].as_str());
                    if pc.matches(&acc[i]) {
                        proof {
                            assert(cs_match_pred(acc.deep_view()[i as int])(
                                resource@.charsets_provided[k as int],
                            ));
                            assert(resource@.charsets_provided.len() == m);
                            crate::sorting::lemma_first_match_at(
                                resource@.charsets_provided,
                                cs_match_pred(acc.deep_view()[i as int]),
                                k as int,
                            );
                            assert(cs_scan_fn(resource@.charsets_provided)(
                                acc.deep_view()[i as int],
                            ) == Some(resource@.charsets_provided[k as int]));
                            assert(acc.deep_view().len() == n);
                            crate::sorting::lemma_first_some_at(
                                acc.deep_view(),
                                cs_scan_fn(resource@.charsets_provided),
                                i as int,
                            );
                        }
                        return Some(pc.to_string());
                    }
                    k = k + 1;
                }
                proof {
                    assert(resource@.charsets_provided.len() == m);
                    crate::sorting::lemma_first_match_none(
                        resource@.charsets_provided,
                        cs_match_pred(acc.deep_view()[i as int]),
                    );
                    assert(cs_scan_fn(resource@.charsets_provided)(
                        acc.deep_view()[i as int],
                    ) is None);
                }
                i = i + 1;
            }
            proof {
                crate::sorting::lemma_first_some_none(
                    acc.deep_view(),
                    cs_scan_fn(resource@.charsets_provided),
                );
            }
            None
        }
    } else if resource.charsets_provided.len() == 0 {
        Some("ISO-8859-1".to_owned())
    } else {
        Some(resource.charsets_provided[0].clone())
    }
}

/// The provided-encoding predicate for one acceptable encoding.
pub open spec fn enc_match_pred(a: EncodingView) -> spec_fn(Seq<char>) -> bool {
    |p: Seq<char>| spec_encoding_matches(EncodingView { encoding: p, weight: 1000 }, a)
}

/// The provided encoding chosen for one acceptable encoding.
pub open spec fn enc_scan_fn(provided: Seq<Seq<char>>) -> spec_fn(EncodingView) -> Option<
    Seq<char>,
> {
    |a: EncodingView| crate::sorting::spec_first_match(provided, enc_match_pred(a))
}

/// Whether the sorted preferences carry the identity encoding at full
/// weight.
pub open spec fn spec_accepts_identity(acc: Seq<EncodingView>) -> bool {
    exists|i: int|
        0 <= i < acc.len() && #[trigger] acc[i] == (EncodingView {
            encoding: "identity"@,
            weight: 1000,
        })
}

/// The encoding the engine selects: with no Accept-Encoding header, the
/// first provided encoding, or identity where none are declared; otherwise
/// the first provided encoding matching the client's preferences, identity
/// counting as acceptable unless ruled out. A resource providing no
/// encodings accepts only an explicit identity at full weight.
pub open spec fn spec_matching_encoding(
    res: crate::resource::ResourceView,
    req: crate::context::RequestView,
) -> Option<Seq<char>> {
    if req.spec_has_header("ACCEPT-ENCODING"@) {
        let acc = spec_sort_by(
            spec_weighted_encodings(
                spec_encodings_with_identity(req.spec_find_header("ACCEPT-ENCODING"@)),
            ),
            enc_order(),
        );
        if res.encodings_provided.len() == 0 {
            if spec_accepts_identity(acc) {
                Some("identity"@)
            } else {
                None
            }
        } else {
            crate::sorting::spec_first_some(acc, enc_scan_fn(res.encodings_provided))
        }
    } else if res.encodings_provided.len() == 0 {
        Some("identity"@)
    } else {
        Some(res.encodings_provided[0])
    }
}

/// Selects the content encoding, if the resource can satisfy the client.
#[verifier::rlimit(100)]
#[verifier::loop_isolation(false)]
pub fn matching_encoding(resource: &Resource, request: &Request) -> (r: Option<String>)
    ensures
        r.deep_view() == spec_matching_encoding(resource@, request@),
{
    if request.has_accept_encoding_header() {
        let acc = sort_encodings(&request.accept_encoding());
        if resource.encodings_provided.len() == 0 {
            let n = acc.len();
            let mut i: usize = 0;
            while i < n
                invariant
                    n == acc@.len(),
                    i <= n,
                    forall|j: int| 0 <= j < i ==> #[trigger] acc.deep_view()[j] != (EncodingView {
                        encoding: "identity"@,
                        weight: 1000,
                    }),
                decreases n - i,
            {
                if str_eq(acc[i].encoding.as_str(), "identity") && acc[i].weight == 1000 {
                    proof {
                        assert(acc.deep_view()[i as int] =~= EncodingView {
                            encoding: "identity"@,
                            weight: 1000,
                        });
                    }
                    return Some("identity".to_owned());
                }
                i = i + 1;
            }
            proof {
                if spec_accepts_identity(acc.deep_view()) {
                    let w = choose|j: int|
                        0 <= j < acc.deep_view().len() && #[trigger] acc.deep_view()[j]
                            == (EncodingView { encoding: "identity"@, weight: 1000 });
                    assert(acc.deep_view()[w] != (EncodingView {
                        encoding: "identity"@,
                        weight: 1000,
                    }));
                }
            }
            None
        } else {
            let n = acc.len();
            let mut i: usize = 0;
            while i < n
                invariant
                    n == acc@.len(),
                    i <= n,
                    acc.deep_view() == spec_sort_by(
                        spec_weighted_encodings(
                            spec_encodings_with_identity(
                                request@.spec_find_header("ACCEPT-ENCODING"@),
                            ),
                        ),
                        enc_order(),
                    ),
                    resource@.encodings_provided.len() > 0,
                    forall|j: int| 0 <= j < i ==> enc_scan_fn(resource@.encodings_provided)(
                        #[trigger] acc.deep_view()[j],
                    ) is None,
                decreases n - i,
            {
                let m = resource.encodings_provided.len();
                let mut k: usize = 0;
                while k < m
                    invariant
                        m == resource.encodings_provided@.len(),
                        k <= m,
                        i < n == acc@.len(),
                        forall|l: int| 0 <= l < k ==> !enc_match_pred(acc.deep_view()[i as int])(
                            #[trigger] resource@.encodings_provided[l],
                        ),
                    decreases m - k,
                {
                    let pe = Encoding::parse_string(resource.encodings_provided[k].as_str());
                    if pe.matches(&acc[i]) {
                        proof {
                            assert(enc_match_pred(acc.deep_view()[i as int])(
                                resource@.encodings_provided[k as int],
                            ));
                            assert(resource@.encodings_provided.len() == m);
                            crate::sorting::lemma_first_match_at(
                                resource@.encodings_provided,
                                enc_match_pred(acc.deep_view()[i as int]),
                                k as int,
                            );
                            assert(enc_scan_fn(resource@.encodings_provided)(
                                acc.deep_view()[i as int],
                            ) == Some(resource@.encodings_provided[k as int]));
                            assert(acc.deep_view().len() == n);
                            crate::sorting::lemma_first_some_at(
                                acc.deep_view(),
                                enc_scan_fn(resource@.encodings_provided),
                                i as int,
                            );
                        }
                        return Some(pe.to_string());
                    }
                    k = k + 1;
                }
                proof {
                    assert(resource@.encodings_provided.len() == m);
                    crate::sorting::lemma_first_match_none(
                        resource@.encodings_provided,
                        enc_match_pred(acc.deep_view()[i as int]),
                    );
                    assert(enc_scan_fn(resource@.encodings_provided)(
                        acc.deep_view()[i as int],
                    ) is None);
                }
                i = i + 1;
            }
            proof {
                crate::sorting::lemma_first_some_none(
                    acc.deep_view(),
                    enc_scan_fn(resource@.encodings_provided),
                );
            }
            None
        }
    } else if resource.encodings_provided.len() == 0 {
        Some("identity".to_owned())
    } else {
        Some(resource.encodings_provided[0].clone())
    }
}

} // verus!
