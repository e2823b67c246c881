//! Character-level string utilities: case folding, trimming, splitting and
//! decimal quality-weight parsing, each specified over `Seq<char>`.

use vstd::prelude::*;

verus! {

/// Uppercases one character, ASCII letters only; all others are unchanged.
pub open spec fn spec_upper_char(c: char) -> char {
    if 'a' <= c && c <= 'z' {
        (((c as u8) - 32) as char)
    } else {
        c
    }
}

/// Lowercases one character, ASCII letters only; all others are unchanged.
pub open spec fn spec_lower_char(c: char) -> char {
    if 'A' <= c && c <= 'Z' {
        (((c as u8) + 32) as char)
    } else {
        c
    }
}

/// ASCII-uppercase of a whole character sequence.
pub open spec fn spec_upper(s: Seq<char>) -> Seq<char> {
    s.map_values(|c: char| spec_upper_char(c))
}

/// ASCII-lowercase of a whole character sequence.
pub open spec fn spec_lower(s: Seq<char>) -> Seq<char> {
    s.map_values(|c: char| spec_lower_char(c))
}

/// Appends one character to a string.
/// Relies on std's `String::push`: vstd gives it no specification.
#[verifier::external_body]
pub fn push_char(s: &mut String, c: char)
    ensures
        final(s)@ == old(s)@.push(c),
{
    s.push(c);
}

fn upper_char(c: char) -> (r: char)
    ensures
        r == spec_upper_char(c),
{
    if 'a' <= c && c <= 'z' {
        let u: u8 = c as u8;
        assert(97 <= u <= 122);
        ((u - 32) as char)
    } else {
        c
    }
}

fn lower_char(c: char) -> (r: char)
    ensures
        r == spec_lower_char(c),
{
    if 'A' <= c && c <= 'Z' {
        let u: u8 = c as u8;
        assert(65 <= u <= 90);
        ((u + 32) as char)
    } else {
        c
    }
}

/// ASCII-uppercases a string; characters outside `a`..`z` are unchanged.
pub fn upper(s: &str) -> (r: String)
    ensures
        r@ == spec_upper(s@),
{
    let n: usize = s.unicode_len();
    let mut out = String::new();
    let mut i: usize = 0;
    while i < n
        invariant
            n == s@.len(),
            i <= n,
            out@ == spec_upper(s@.take(i as int)),
        decreases n - i,
    {
        let c = s.get_char(i);
        push_char(&mut out, upper_char(c));
        proof {
            assert(spec_upper(s@.take(i + 1)) == spec_upper(s@.take(i as int)).push(
                spec_upper_char(s@[i as int]),
            )) by {
                assert(s@.take(i + 1).map_values(|c: char| spec_upper_char(c)) =~= s@.take(
                    i as int,
                ).map_values(|c: char| spec_upper_char(c)).push(spec_upper_char(s@[i as int])));
            }
        }
        i = i + 1;
    }
    proof {
        assert(s@.take(n as int) == s@);
    }
    out
}

/// ASCII-lowercases a string; characters outside `A`..`Z` are unchanged.
pub fn lower(s: &str) -> (r: String)
    ensures
        r@ == spec_lower(s@),
{
    let n: usize = s.unicode_len();
    let mut out = String::new();
    let mut i: usize = 0;
    while i < n
        invariant
            n == s@.len(),
            i <= n,
            out@ == spec_lower(s@.take(i as int)),
        decreases n - i,
    {
        let c = s.get_char(i);
        push_char(&mut out, lower_char(c));
        proof {
            assert(spec_lower(s@.take(i + 1)) == spec_lower(s@.take(i as int)).push(
                spec_lower_char(s@[i as int]),
            )) by {
                assert(s@.take(i + 1).map_values(|c: char| spec_lower_char(c)) =~= s@.take(
                    i as int,
                ).map_values(|c: char| spec_lower_char(c)).push(spec_lower_char(s@[i as int])));
            }
        }
        i = i + 1;
    }
    proof {
        assert(s@.take(n as int) == s@);
    }
    out
}

/// Whether a character counts as blank space when trimming header parts.
pub open spec fn spec_is_space(c: char) -> bool {
    c == ' ' || c == '\t'
}

/// `s` with blank characters removed from both ends.
pub open spec fn spec_trim(s: Seq<char>) -> Seq<char>
    decreases s.len(),
{
    if s.len() > 0 && spec_is_space(s[0]) {
        spec_trim(s.drop_first())
    } else if s.len() > 0 && spec_is_space(s[s.len() - 1]) {
        spec_trim(s.drop_last())
    } else {
        s
    }
}

fn is_space(c: char) -> (r: bool)
    ensures
        r == spec_is_space(c),
{
    c == ' ' || c == '\t'
}

/// Removes blank characters (space and tab) from both ends of a string.
pub fn trim(s: &str) -> (r: String)
    ensures
        r@ == spec_trim(s@),
{
    let n: usize = s.unicode_len();
    let mut start: usize = 0;
    proof {
        assert(s@.skip(0) =~= s@);
    }
    while start < n && is_space(s.get_char(start))
        invariant
            n == s@.len(),
            start <= n,
            spec_trim(s@) == spec_trim(s@.skip(start as int)),
            forall|j: int| 0 <= j < start ==> spec_is_space(s@[j]),
        decreases n - start,
    {
        proof {
            assert(s@.skip(start as int)[0] == s@[start as int]);
            assert(s@.skip(start as int).drop_first() =~= s@.skip(start + 1));
        }
        start = start + 1;
    }
    let mut end: usize = n;
    proof {
        assert(s@.skip(start as int).take(n - start) =~= s@.skip(start as int));
    }
    while end > start && is_space(s.get_char(end - 1))
        invariant
            n == s@.len(),
            start <= end <= n,
            start < n ==> !spec_is_space(s@[start as int]),
            start == end ==> start == n || !spec_is_space(s@[start as int]),
            spec_trim(s@) == spec_trim(s@.skip(start as int).take(end - start)),
        decreases end,
    {
        proof {
            let cur = s@.skip(start as int).take(end - start);
            assert(cur[0] == s@[start as int]);
            assert(cur[cur.len() - 1] == s@[end - 1]);
            assert(cur.drop_last() =~= s@.skip(start as int).take(end - 1 - start));
        }
        end = end - 1;
    }
    proof {
        let cur = s@.skip(start as int).take(end - start);
        if cur.len() > 0 {
            assert(cur[0] == s@[start as int]);
            assert(cur[cur.len() - 1] == s@[end - 1]);
        }
        assert(spec_trim(cur) == cur);
    }
    let r = s.substring_char(start, end);
    proof {
        assert(r@ =~= s@.skip(start as int).take(end - start));
    }
    r.to_owned()
}

/// The index of the first occurrence of `sep` in `s`, if any.
pub open spec fn spec_find(s: Seq<char>, sep: char) -> Option<int> {
    if exists|i: int| 0 <= i < s.len() && s[i] == sep {
        Some(choose|i: int| 0 <= i < s.len() && s[i] == sep && forall|j: int|
            0 <= j < i ==> s[j] != sep)
    } else {
        None
    }
}

pub proof fn lemma_find_unique(s: Seq<char>, sep: char, i: int)
    requires
        0 <= i < s.len(),
        s[i] == sep,
        forall|j: int| 0 <= j < i ==> s[j] != sep,
    ensures
        spec_find(s, sep) == Some(i),
{
    assert(exists|k: int| 0 <= k < s.len() && s[k] == sep);
    let w = choose|k: int|
        0 <= k < s.len() && s[k] == sep && forall|j: int| 0 <= j < k ==> s[j] != sep;
    if w < i {
        assert(s[w] != sep);
    }
    if i < w {
        assert(s[i] != sep);
    }
}

/// Finds the first occurrence of a character in a string.
pub fn find_char(s: &str, sep: char) -> (r: Option<usize>)
    ensures
        match r {
            Some(i) => 0 <= i < s@.len() && spec_find(s@, sep) == Some(i as int),
            None => spec_find(s@, sep) is None,
        },
{
    let n: usize = s.unicode_len();
    let mut i: usize = 0;
    while i < n
        invariant
            n == s@.len(),
            i <= n,
            forall|j: int| 0 <= j < i ==> s@[j] != sep,
        decreases n - i,
    {
        if s.get_char(i) == sep {
            proof {
                lemma_find_unique(s@, sep, i as int);
            }
            return Some(i);
        }
        i = i + 1;
    }
    proof {
        if exists|k: int| 0 <= k < s@.len() && s@[k] == sep {
            let k = choose|k: int| 0 <= k < s@.len() && s@[k] == sep;
            assert(s@[k] != sep);
        }
    }
    None
}

/// What splitting `s` at every occurrence of `sep` yields, in order.
pub open spec fn spec_split(s: Seq<char>, sep: char) -> Seq<Seq<char>>
    decreases s.len(),
{
    match spec_find(s, sep) {
        Some(i) => if 0 <= i < s.len() {
            seq![s.take(i)] + spec_split(s.skip(i + 1), sep)
        } else {
            seq![s]
        },
        None => seq![s],
    }
}

/// Splits a string at every occurrence of `sep`.
pub fn split_char(s: &str, sep: char) -> (r: Vec<String>)
    ensures
        r.deep_view() == spec_split(s@, sep),
        r@.len() >= 1,
    decreases s@.len(),
{
    let mut out: Vec<String> = Vec::new();
    match find_char(s, sep) {
        Some(i) => {
            let n: usize = s.unicode_len();
            let head = s.substring_char(0, i);
            let tail = s.substring_char(i + 1, n);
            proof {
                assert(head@ =~= s@.take(i as int));
                assert(tail@ =~= s@.skip(i + 1));
            }
            let mut rest = split_char(tail, sep);
            out.push(head.to_owned());
            out.append(&mut rest);
            proof {
                assert(out.deep_view() =~= spec_split(s@, sep));
            }
        },
        None => {
            out.push(s.to_owned());
            proof {
                assert(out.deep_view() =~= spec_split(s@, sep));
            }
        },
    }
    out
}

/// Splits a string at the first occurrence of `sep` only, if present.
pub fn split_once_char(s: &str, sep: char) -> (r: Option<(String, String)>)
    ensures
        match r {
            Some(p) => {
                &&& spec_find(s@, sep) matches Some(i)
                &&& 0 <= spec_find(s@, sep)->Some_0 < s@.len()
                &&& p.0@ == s@.take(spec_find(s@, sep)->Some_0)
                &&& p.1@ == s@.skip(spec_find(s@, sep)->Some_0 + 1)
            },
            None => spec_find(s@, sep) is None,
        },
{
    match find_char(s, sep) {
        Some(i) => {
            let n: usize = s.unicode_len();
            let head = s.substring_char(0, i);
            let tail = s.substring_char(i + 1, n);
            proof {
                assert(head@ =~= s@.take(i as int));
                assert(tail@ =~= s@.skip(i + 1));
            }
            Some((head.to_owned(), tail.to_owned()))
        },
        None => None,
    }
}

/// Whether `p` is a prefix of `s`.
pub open spec fn spec_starts_with(s: Seq<char>, p: Seq<char>) -> bool {
    p.len() <= s.len() && s.take(p.len() as int) == p
}

/// Whether the string `s` starts with the prefix `p`.
pub fn starts_with(s: &str, p: &str) -> (r: bool)
    ensures
        r == spec_starts_with(s@, p@),
{
    let n: usize = s.unicode_len();
    let m: usize = p.unicode_len();
    if m > n {
        proof {
            assert(!spec_starts_with(s@, p@));
        }
        return false;
    }
    let mut i: usize = 0;
    while i < m
        invariant
            n == s@.len(),
            m == p@.len(),
            m <= n,
            i <= m,
            forall|j: int| 0 <= j < i ==> s@[j] == p@[j],
        decreases m - i,
    {
        if s.get_char(i) != p.get_char(i) {
            proof {
                assert(s@.take(m as int)[i as int] != p@[i as int]);
            }
            return false;
        }
        i = i + 1;
    }
    proof {
        assert(s@.take(m as int) =~= p@);
    }
    true
}

/// Whether two strings hold the same characters.
pub fn str_eq(a: &str, b: &str) -> (r: bool)
    ensures
        r == (a@ == b@),
{
    let n: usize = a.unicode_len();
    let m: usize = b.unicode_len();
    if n != m {
        return false;
    }
    let mut i: usize = 0;
    while i < n
        invariant
            n == a@.len(),
            n == b@.len(),
            i <= n,
            forall|j: int| 0 <= j < i ==> a@[j] == b@[j],
        decreases n - i,
    {
        if a.get_char(i) != b.get_char(i) {
            return false;
        }
        i = i + 1;
    }
    proof {
        assert(a@ =~= b@);
    }
    true
}

/// Whether a character is a decimal digit.
pub open spec fn spec_is_digit(c: char) -> bool {
    '0' <= c && c <= '9'
}

/// Whether every character of `s` is a decimal digit.
pub open spec fn spec_all_digits(s: Seq<char>) -> bool {
    forall|i: int| 0 <= i < s.len() ==> spec_is_digit(s[i])
}

/// The number that a sequence of decimal digits denotes.
pub open spec fn spec_digits_value(s: Seq<char>) -> int
    decreases s.len(),
{
    if s.len() == 0 {
        0
    } else {
        spec_digits_value(s.drop_last()) * 10 + ((s.last() as u32) - 48)
    }
}

/// Caps an integer part of a quality weight at one million.
pub open spec fn spec_clamped(v: int) -> int {
    if v > 1000000 {
        1000000
    } else {
        v
    }
}

/// The value, in thousandths, of up to three leading fractional digits.
pub open spec fn spec_frac_millis(f: Seq<char>) -> int {
    if f.len() >= 3 {
        spec_digits_value(f.take(3))
    } else if f.len() == 2 {
        spec_digits_value(f) * 10
    } else if f.len() == 1 {
        spec_digits_value(f) * 100
    } else {
        0
    }
}

/// The unsigned thousandths a decimal literal denotes, or `None` where the
/// text is not `digits`, `digits.digits`, `.digits` or `digits.`.
pub open spec fn spec_q_body(s: Seq<char>) -> Option<int> {
    match spec_find(s, '.') {
        Some(i) => if 0 <= i < s.len() {
            if (s.take(i).len() > 0 || s.skip(i + 1).len() > 0) && spec_all_digits(s.take(i))
                && spec_all_digits(s.skip(i + 1)) {
                Some(spec_clamped(spec_digits_value(s.take(i))) * 1000 + spec_frac_millis(
                    s.skip(i + 1),
                ))
            } else {
                None
            }
        } else {
            None
        },
        None => if s.len() > 0 && spec_all_digits(s) {
            Some(spec_clamped(spec_digits_value(s)) * 1000)
        } else {
            None
        },
    }
}

/// A quality weight in thousandths: an optional sign and a decimal literal.
/// Text that fits no such shape falls back to one (a thousand thousandths).
pub open spec fn spec_q_millis(s: Seq<char>) -> i64 {
    if s.len() > 0 && s[0] == '-' {
        match spec_q_body(s.drop_first()) {
            Some(v) => (-v) as i64,
            None => 1000,
        }
    } else if s.len() > 0 && s[0] == '+' {
        match spec_q_body(s.drop_first()) {
            Some(v) => v as i64,
            None => 1000,
        }
    } else {
        match spec_q_body(s) {
            Some(v) => v as i64,
            None => 1000,
        }
    }
}

fn all_digits(s: &str) -> (r: bool)
    ensures
        r == spec_all_digits(s@),
{
    let n: usize = s.unicode_len();
    let mut i: usize = 0;
    while i < n
        invariant
            n == s@.len(),
            i <= n,
            forall|j: int| 0 <= j < i ==> spec_is_digit(s@[j]),
        decreases n - i,
    {
        let c = s.get_char(i);
        if !('0' <= c && c <= '9') {
            return false;
        }
        i = i + 1;
    }
    true
}

fn int_value_clamped(s: &str) -> (r: u64)
    requires
        spec_all_digits(s@),
    ensures
        r == spec_clamped(spec_digits_value(s@)),
        r <= 1000000,
{
    let n: usize = s.unicode_len();
    let mut acc: u64 = 0;
    let mut i: usize = 0;
    while i < n
        invariant
            n == s@.len(),
            i <= n,
            spec_all_digits(s@),
            acc <= 10000009,
            spec_clamped(spec_digits_value(s@.take(i as int))) == spec_clamped(acc as int),
            acc <= 1000000 ==> acc == spec_digits_value(s@.take(i as int)),
        decreases n - i,
    {
        let c = s.get_char(i);
        let d: u64 = ((c as u8) - 48) as u64;
        proof {
            assert(spec_is_digit(s@[i as int]));
            assert(s@.take(i + 1).drop_last() =~= s@.take(i as int));
            assert(s@.take(i + 1).last() == s@[i as int]);
        }
        if acc <= 1000000 {
            acc = acc * 10 + d;
        } else {
            proof {
                let dv = spec_digits_value(s@.take(i as int));
                assert(dv >= 1000000);
                assert(spec_digits_value(s@.take(i + 1)) == dv * 10 + ((s@[i as int] as u32)
                    - 48));
            }
        }
        i = i + 1;
    }
    proof {
        assert(s@.take(n as int) =~= s@);
    }
    if acc > 1000000 {
        1000000
    } else {
        acc
    }
}

fn frac_millis(s: &str) -> (r: u64)
    requires
        spec_all_digits(s@),
    ensures
        r == spec_frac_millis(s@),
        r <= 999,
{
    let n: usize = s.unicode_len();
    if n == 0 {
        return 0;
    }
    let take_n: usize = if n >= 3 {
        3
    } else {
        n
    };
    let mut acc: u64 = 0;
    let mut i: usize = 0;
    while i < take_n
        invariant
            n == s@.len(),
            take_n <= 3,
            take_n <= n,
            i <= take_n,
            spec_all_digits(s@),
            acc == spec_digits_value(s@.take(i as int)),
            i == 0 ==> acc == 0,
            i <= 1 ==> acc <= 9,
            i <= 2 ==> acc <= 99,
            acc <= 999,
        decreases take_n - i,
    {
        let c = s.get_char(i);
        proof {
            assert(spec_is_digit(s@[i as int]));
        }
        let d: u64 = ((c as u8) - 48) as u64;
        proof {
            assert(d <= 9);
            assert(s@.take(i + 1).drop_last() =~= s@.take(i as int));
            assert(s@.take(i + 1).last() == s@[i as int]);
        }
        acc = acc * 10 + d;
        i = i + 1;
    }
    if n >= 3 {
        acc
    } else if n == 2 {
        proof {
            assert(s@.take(2) =~= s@);
        }
        acc * 10
    } else {
        proof {
            assert(s@.take(1) =~= s@);
        }
        acc * 100
    }
}

fn q_body_value(body: &str) -> (r: Option<u64>)
    ensures
        match spec_q_body(body@) {
            Some(v) => r == Some(v as u64) && 0 <= v <= 1000000999,
            None => r is None,
        },
{
    match split_once_char(body, '.') {
        Some((ip, fp)) => {
            let ghost i = spec_find(body@, '.')->Some_0;
            proof {
                assert(ip@ == body@.take(i));
                assert(fp@ == body@.skip(i + 1));
            }
            let ip_len: usize = ip.as_str().unicode_len();
            let fp_len: usize = fp.as_str().unicode_len();
            if (ip_len > 0 || fp_len > 0) && all_digits(ip.as_str()) && all_digits(fp.as_str()) {
                let iv = int_value_clamped(ip.as_str());
                let fv = frac_millis(fp.as_str());
                proof {
                    assert(spec_q_body(body@) == Some(
                        spec_clamped(spec_digits_value(body@.take(i))) * 1000 + spec_frac_millis(
                            body@.skip(i + 1),
                        ),
                    ));
                }
                Some(iv * 1000 + fv)
            } else {
                proof {
                    assert(spec_q_body(body@) is None);
                }
                None
            }
        },
        None => {
            if body.unicode_len() > 0 && all_digits(body) {
                Some(int_value_clamped(body) * 1000)
            } else {
                None
            }
        },
    }
}

/// Parses a quality weight into thousandths; text that is not a signed
/// decimal literal yields one, the default weight.
pub fn parse_q_millis(s: &str) -> (r: i64)
    ensures
        r == spec_q_millis(s@),
{
    let n: usize = s.unicode_len();
    let neg: bool = n > 0 && s.get_char(0) == '-';
    let signed: bool = neg || (n > 0 && s.get_char(0) == '+');
    let body = if signed {
        s.substring_char(1, n)
    } else {
        s.substring_char(0, n)
    };
    proof {
        if signed {
            assert(body@ =~= s@.drop_first());
        } else {
            assert(body@ =~= s@);
        }
    }
    match q_body_value(body) {
        Some(m) => {
            if neg {
                -(m as i64)
            } else {
                m as i64
            }
        },
        None => 1000,
    }
}

/// Whether two strings are equal once ASCII case is folded away.
pub fn eq_ignore_case(a: &str, b: &str) -> (r: bool)
    ensures
        r == (spec_upper(a@) == spec_upper(b@)),
{
    let ua = upper(a);
    let ub = upper(b);
    str_eq(ua.as_str(), ub.as_str())
}

/// Pushes an element, stating the effect on the deep view as well.
pub fn push_dv<T: DeepView>(v: &mut Vec<T>, item: T)
    ensures
        final(v)@ == old(v)@.push(item),
        final(v).deep_view() == old(v).deep_view().push(item.deep_view()),
{
    let ghost prevseq = v@;
    let ghost prevdv = v.deep_view();
    v.push(item);
    proof {
        assert(prevdv.len() == prevseq.len());
        assert forall|j: int| 0 <= j < v@.len() implies #[trigger] v.deep_view()[j]
            == prevdv.push(item.deep_view())[j] by {
            assert(v@ == prevseq.push(item));
            if j < prevseq.len() {
                assert(v@[j] == prevseq.push(item)[j]);
                assert(prevseq.push(item)[j] == prevseq[j]);
                assert(prevdv[j] == prevseq[j].deep_view());
            } else {
                assert(v@[j] == prevseq.push(item)[j]);
                assert(prevseq.push(item)[j] == item);
            }
        }
        assert(v.deep_view() =~= prevdv.push(item.deep_view()));
    }
}

} // verus!
