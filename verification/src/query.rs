//! Query string handling: percent-decoding of names and values, and the
//! accumulation of repeated keys into an ordered multimap.

use vstd::prelude::*;

use crate::strutil::{push_char, push_dv, spec_find, spec_split, split_char, split_once_char};

verus! {

/// The numeric value of a hexadecimal digit, upper or lower case.
pub open spec fn spec_hex_val(c: char) -> Option<u8> {
    if '0' <= c && c <= '9' {
        Some(((c as u8) - 48) as u8)
    } else if 'a' <= c && c <= 'f' {
        Some((((c as u8) - 97) + 10) as u8)
    } else if 'A' <= c && c <= 'F' {
        Some((((c as u8) - 65) + 10) as u8)
    } else {
        None
    }
}

/// The byte two hexadecimal digits denote, where both are digits.
pub open spec fn spec_hex_byte(c1: char, c2: char) -> Option<u8> {
    match (spec_hex_val(c1), spec_hex_val(c2)) {
        (Some(h), Some(l)) => Some((h * 16 + l) as u8),
        _ => None,
    }
}

/// Relies on hex::decode: two hexadecimal digits decode to the one byte
/// they denote, and anything else is refused. Characters outside the
/// ASCII range widen to several bytes and are refused the same way.
#[verifier::external_body]
fn decode_hex_pair(c1: char, c2: char) -> (r: Option<u8>)
    ensures
        r == spec_hex_byte(c1, c2),
{
    let mut s = String::new();
    s.push(c1);
    s.push(c2);
    match hex::decode(&s) {
        Ok(bytes) => if bytes.len() == 1 {
            Some(bytes[0])
        } else {
            None
        },
        Err(_) => None,
    }
}

/// What percent-decoding denotes: `%` with two hexadecimal digits becomes
/// the byte's character, a broken escape stays literal, `+` becomes a
/// space, anything else stands for itself.
pub open spec fn spec_decode_query(s: Seq<char>) -> Seq<char>
    decreases s.len(),
{
    if s.len() == 0 {
        Seq::empty()
    } else if s[0] == '%' {
        if s.len() >= 3 {
            match spec_hex_byte(s[1], s[2]) {
                Some(b) => seq![b as char] + spec_decode_query(s.skip(3)),
                None => seq!['%', s[1], s[2]] + spec_decode_query(s.skip(3)),
            }
        } else if s.len() == 2 {
            seq!['%', s[1]]
        } else {
            seq!['%']
        }
    } else if s[0] == '+' {
        seq![' '] + spec_decode_query(s.skip(1))
    } else {
        seq![s[0]] + spec_decode_query(s.skip(1))
    }
}

/// Percent-decodes one query token; broken escapes stay literal.
pub fn decode_query(query: &str) -> (r: String)
    ensures
        r@ == spec_decode_query(query@),
{
    let n: usize = query.unicode_len();
    let mut out = String::new();
    let mut i: usize = 0;
    proof {
        assert(query@.skip(0) =~= query@);
    }
    while i < n
        invariant
            n == query@.len(),
            i <= n,
            spec_decode_query(query@) == out@ + spec_decode_query(query@.skip(i as int)),
        decreases n - i,
    {
        let c = query.get_char(i);
        proof {
            assert(query@.skip(i as int)[0] == query@[i as int]);
        }
        if c == '%' {
            if n - i >= 3 {
                let c1 = query.get_char(i + 1);
                let c2 = query.get_char(i + 2);
                proof {
                    assert(query@.skip(i as int)[1] == query@[i + 1]);
                    assert(query@.skip(i as int)[2] == query@[i + 2]);
                    assert(query@.skip(i as int).skip(3) =~= query@.skip(i + 3));
                }
                match decode_hex_pair(c1, c2) {
                    Some(b) => {
                        push_char(&mut out, b as char);
                    },
                    None => {
                        push_char(&mut out, '%');
                        push_char(&mut out, c1);
                        push_char(&mut out, c2);
                    },
                }
                i = i + 3;
            } else if n - i == 2 {
                let c1 = query.get_char(i + 1);
                proof {
                    assert(query@.skip(i as int)[1] == query@[i + 1]);
                    assert(query@.skip(i as int).len() == 2);
                }
                push_char(&mut out, '%');
                push_char(&mut out, c1);
                i = i + 2;
                proof {
                    assert(query@.skip(i as int) =~= Seq::<char>::empty());
                }
            } else {
                proof {
                    assert(query@.skip(i as int).len() == 1);
                }
                push_char(&mut out, '%');
                i = i + 1;
                proof {
                    assert(query@.skip(i as int) =~= Seq::<char>::empty());
                }
            }
        } else if c == '+' {
            push_char(&mut out, ' ');
            proof {
                assert(query@.skip(i as int).skip(1) =~= query@.skip(i + 1));
            }
            i = i + 1;
        } else {
            push_char(&mut out, c);
            proof {
                assert(query@.skip(i as int).skip(1) =~= query@.skip(i + 1));
            }
            i = i + 1;
        }
    }
    proof {
        assert(query@.skip(n as int) =~= Seq::<char>::empty());
    }
    out
}

/// A query multimap with one more value bound to a name: the value joins
/// the name's list, a new name goes to the end.
pub open spec fn spec_multimap_add(
    q: Seq<(Seq<char>, Seq<Seq<char>>)>,
    name: Seq<char>,
    value: Seq<char>,
) -> Seq<(Seq<char>, Seq<Seq<char>>)>
    decreases q.len(),
{
    if q.len() == 0 {
        seq![(name, seq![value])]
    } else if q[0].0 == name {
        seq![(name, q[0].1.push(value))] + q.drop_first()
    } else {
        seq![q[0]] + spec_multimap_add(q.drop_first(), name, value)
    }
}

/// What one `name[=value]` token adds: both sides percent-decoded, a token
/// without `=` binding the empty value, an empty token adding nothing.
pub open spec fn spec_query_token(
    q: Seq<(Seq<char>, Seq<Seq<char>>)>,
    token: Seq<char>,
) -> Seq<(Seq<char>, Seq<Seq<char>>)> {
    if token.len() == 0 {
        q
    } else {
        match spec_find(token, '=') {
            Some(i) => spec_multimap_add(
                q,
                spec_decode_query(token.take(i)),
                spec_decode_query(token.skip(i + 1)),
            ),
            None => spec_multimap_add(q, spec_decode_query(token), Seq::empty()),
        }
    }
}

/// The decoded query multimap that a sequence of `&`-separated tokens
/// denotes.
pub open spec fn spec_query_acc(
    tokens: Seq<Seq<char>>,
    q: Seq<(Seq<char>, Seq<Seq<char>>)>,
) -> Seq<(Seq<char>, Seq<Seq<char>>)>
    decreases tokens.len(),
{
    if tokens.len() == 0 {
        q
    } else {
        spec_query_acc(tokens.drop_first(), spec_query_token(q, tokens[0]))
    }
}

/// What a whole query string denotes; empty text denotes no parameters.
pub open spec fn spec_parse_query(s: Seq<char>) -> Seq<(Seq<char>, Seq<Seq<char>>)> {
    if s.len() == 0 {
        Seq::empty()
    } else {
        spec_query_acc(spec_split(s, '&'), Seq::empty())
    }
}

fn multimap_add(q: &mut Vec<(String, Vec<String>)>, name: String, value: String)
    ensures
        final(q).deep_view() == spec_multimap_add(old(q).deep_view(), name@, value@),
{
    let n = q.len();
    let mut i: usize = 0;
    while i < n
        invariant
            n == q@.len(),
            i <= n,
            q@ == old(q)@,
            forall|j: int| 0 <= j < i ==> #[trigger] q.deep_view()[j].0 != name@,
        decreases n - i,
    {
        if crate::strutil::str_eq(q[i].0.as_str(), name.as_str()) {
            proof {
                assert(q.deep_view()[i as int].0 == name@);
            }
            let mut entry = q.remove(i);
            let ghost entry_dv = (entry.0@, entry.1.deep_view());
            push_dv(&mut entry.1, value);
            let name_again = entry.0;
            let values = entry.1;
            q.insert(i, (name_again, values));
            proof {
                assert(q.deep_view()[i as int] == (name@, entry_dv.1.push(value@)));
                lemma_multimap_add_at(old(q).deep_view(), q.deep_view(), i as int, value@);
            }
            return ;
        }
        i = i + 1;
    }
    proof {
        lemma_multimap_add_missing(q.deep_view(), name@, value@);
    }
    let mut values: Vec<String> = Vec::new();
    values.push(value);
    q.push((name, values));
    proof {
        assert(q.deep_view() =~~= old(q).deep_view() + seq![
            (name@, seq![value@]),
        ]);
    }
}

proof fn lemma_multimap_add_at(
    q: Seq<(Seq<char>, Seq<Seq<char>>)>,
    updated: Seq<(Seq<char>, Seq<Seq<char>>)>,
    i: int,
    value: Seq<char>,
)
    requires
        0 <= i < q.len(),
        updated.len() == q.len(),
        forall|j: int| 0 <= j < q.len() && j != i ==> updated[j] == q[j],
        forall|j: int| 0 <= j < i ==> #[trigger] q[j].0 != updated[i].0,
        q[i].0 == updated[i].0,
        updated[i].1 == q[i].1.push(value),
    ensures
        updated == spec_multimap_add(q, updated[i].0, value),
    decreases q.len(),
{
    if i == 0 {
        assert(updated =~= seq![(updated[0].0, q[0].1.push(value))] + q.drop_first());
    } else {
        lemma_multimap_add_at(q.drop_first(), updated.drop_first(), i - 1, value);
        assert(updated =~= seq![q[0]] + updated.drop_first());
    }
}

proof fn lemma_multimap_add_missing(
    q: Seq<(Seq<char>, Seq<Seq<char>>)>,
    name: Seq<char>,
    value: Seq<char>,
)
    requires
        forall|j: int| 0 <= j < q.len() ==> #[trigger] q[j].0 != name,
    ensures
        q + seq![(name, seq![value])] == spec_multimap_add(q, name, value),
    decreases q.len(),
{
    if q.len() == 0 {
        assert(q + seq![(name, seq![value])] =~= seq![(name, seq![value])]);
    } else {
        lemma_multimap_add_missing(q.drop_first(), name, value);
        assert(q + seq![(name, seq![value])] =~= seq![q[0]] + (q.drop_first() + seq![
            (name, seq![value]),
        ]));
    }
}

/// Parses a query string into decoded names and values, repeated names
/// accumulating in order of first appearance.
#[verifier::loop_isolation(false)]
pub fn parse_query(query: &str) -> (r: Vec<(String, Vec<String>)>)
    ensures
        r.deep_view() == spec_parse_query(query@),
{
    let mut out: Vec<(String, Vec<String>)> = Vec::new();
    if query.unicode_len() == 0 {
        proof {
            assert(out.deep_view() =~= spec_parse_query(query@));
        }
        return out;
    }
    let tokens = split_char(query, '&');
    let n = tokens.len();
    let mut i: usize = 0;
    proof {
        assert(tokens.deep_view().skip(0) =~= tokens.deep_view());
        assert(out.deep_view() =~= Seq::<(Seq<char>, Seq<Seq<char>>)>::empty());
    }
    while i < n
        invariant
            n == tokens@.len(),
            i <= n,
            spec_query_acc(tokens.deep_view(), Seq::empty()) == spec_query_acc(
                tokens.deep_view().skip(i as int),
                out.deep_view(),
            ),
        decreases n - i,
    {
        proof {
            assert(tokens.deep_view().skip(i as int)[0] == tokens.deep_view()[i as int]);
            assert(tokens.deep_view().skip(i as int).drop_first() =~= tokens.deep_view().skip(
                i + 1,
            ));
        }
        let token = &tokens[i];
        if token.as_str().unicode_len() > 0 {
            match split_once_char(token.as_str(), '=') {
                Some((rawname, rawvalue)) => {
                    let name = decode_query(rawname.as_str());
                    let value = decode_query(rawvalue.as_str());
                    multimap_add(&mut out, name, value);
                },
                None => {
                    let name = decode_query(token.as_str());
                    proof {
                        assert(spec_decode_query(Seq::<char>::empty()) =~= Seq::<char>::empty());
                    }
                    multimap_add(&mut out, name, String::new());
                },
            }
        }
        i = i + 1;
    }
    proof {
        assert(tokens.deep_view().skip(n as int) =~= Seq::<Seq<char>>::empty());
    }
    out
}

} // verus!
