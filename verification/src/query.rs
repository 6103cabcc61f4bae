use vstd::prelude::*;
use crate::collections::{str_values, lemma_str_values_empty, lemma_str_values_insert, StrMap};
use crate::text::{chars_of, string_of};

verus! {

/// The (name, value) pairs that `serde_urlencoded::from_str` decodes from an
/// `application/x-www-form-urlencoded` string, in order, or `None` when it
/// reports an error.
pub uninterp spec fn urlencoded_pairs(input: Seq<char>) -> Option<Seq<(Seq<char>, Seq<char>)>>;

/// The character views of decoded pairs.
pub open spec fn pair_views(v: Seq<(String, String)>) -> Seq<(Seq<char>, Seq<char>)> {
    v.map_values(|p: (String, String)| (p.0@, p.1@))
}

/// `serde_urlencoded::from_str::<Vec<(String, String)>>`: decodes the pairs of
/// a form-encoded string in order (percent-decoding, `+` as space); `None`
/// when the crate reports an error. The pairs are named by
/// `urlencoded_pairs`; the decoding itself is not restated here.
#[verifier::external_body]
fn decode_urlencoded(input: &str) -> (r: Option<Vec<(String, String)>>)
    ensures
        r is Some <==> urlencoded_pairs(input@) is Some,
        r matches Some(v) ==> pair_views(v@) == urlencoded_pairs(input@)->0,
{
    serde_urlencoded::from_str::<Vec<(String, String)>>(input).ok()
}

/// The map that a list of pairs denotes; a later pair for a name replaces an
/// earlier one.
pub open spec fn pairs_map(s: Seq<(Seq<char>, Seq<char>)>) -> Map<Seq<char>, Seq<char>>
    decreases s.len(),
{
    if s.len() == 0 {
        Map::empty()
    } else {
        pairs_map(s.drop_last()).insert(s.last().0, s.last().1)
    }
}

/// The parameters of a query string; empty when it does not decode.
pub open spec fn query_map(q: Seq<char>) -> Map<Seq<char>, Seq<char>> {
    match urlencoded_pairs(q) {
        Some(p) => pairs_map(p),
        None => Map::empty(),
    }
}

/// The map built from decoded pairs.
pub fn map_from_pairs(pairs: Vec<(String, String)>) -> (r: StrMap<String>)
    ensures
        str_values(r@) == pairs_map(pair_views(pairs@)),
{
    let ghost pv = pair_views(pairs@);
    let mut m: StrMap<String> = StrMap::new();
    proof {
        lemma_str_values_empty();
        assert(pv.take(0) =~= Seq::<(Seq<char>, Seq<char>)>::empty());
    }
    let mut i: usize = 0;
    while i < pairs.len()
        invariant
            i <= pairs@.len(),
            pv == pair_views(pairs@),
            str_values(m@) == pairs_map(pv.take(i as int)),
        decreases pairs@.len() - i,
    {
        let k = pairs[i].0.clone();
        let v = pairs[i].1.clone();
        proof {
            lemma_str_values_insert(m@, k@, v);
            assert(pv.take(i + 1).drop_last() =~= pv.take(i as int));
            assert(pv.take(i + 1).last() == (k@, v@));
        }
        m.insert(k, v);
        i = i + 1;
    }
    proof {
        assert(pv.take(pairs@.len() as int) =~= pv);
    }
    m
}

/// The parameters of a query string; empty when it does not decode.
pub fn parse_query(query: &str) -> (r: StrMap<String>)
    ensures
        str_values(r@) == query_map(query@),
{
    match decode_urlencoded(query) {
        Some(pairs) => map_from_pairs(pairs),
        None => {
            proof {
                lemma_str_values_empty();
            }
            StrMap::new()
        },
    }
}

/// The position of the first `?`, if any.
pub open spec fn first_question_mark(s: Seq<char>) -> Option<int>
    decreases s.len(),
{
    if s.len() == 0 {
        None
    } else {
        match first_question_mark(s.drop_last()) {
            Some(i) => Some(i),
            None => if s.last() == '?' {
                Some(s.len() - 1)
            } else {
                None
            },
        }
    }
}

proof fn lemma_first_question_extends(s: Seq<char>, n: int)
    requires
        0 <= n <= s.len(),
        first_question_mark(s.take(n)) is Some,
    ensures
        first_question_mark(s) == first_question_mark(s.take(n)),
    decreases s.len() - n,
{
    if n < s.len() {
        assert(s.take(n + 1).drop_last() =~= s.take(n));
        lemma_first_question_extends(s, n + 1);
    } else {
        assert(s.take(n) =~= s);
    }
}

/// A request target split at its first `?` into the path, the raw query
/// string and the decoded query parameters.
pub open spec fn split_target(t: Seq<char>) -> (Seq<char>, Option<Seq<char>>, Map<Seq<char>, Seq<char>>) {
    match first_question_mark(t) {
        Some(i) => (t.take(i), Some(t.skip(i + 1)), query_map(t.skip(i + 1))),
        None => (t, None, Map::empty()),
    }
}

/// Split a request target at its first `?`.
pub fn split_path_query(value: String) -> (r: (String, Option<String>, StrMap<String>))
    ensures
        r.0@ == split_target(value@).0,
        (match r.1 {
            Some(q) => split_target(value@).1 == Some(q@),
            None => split_target(value@).1 is None,
        }),
        str_values(r.2@) == split_target(value@).2,
{
    let cs = chars_of(value.as_str());
    let mut i: usize = 0;
    while i < cs.len()
        invariant
            i <= cs@.len(),
            cs@ == value@,
            first_question_mark(cs@.take(i as int)) is None,
        decreases cs@.len() - i,
    {
        proof {
            assert(cs@.take(i + 1).drop_last() =~= cs@.take(i as int));
        }
        if cs[i] == '?' {
            proof {
                assert(first_question_mark(cs@.take(i + 1)) == Some(i as int));
                lemma_first_question_extends(cs@, i + 1);
            }
            let mut head: Vec<char> = Vec::new();
            let mut k: usize = 0;
            while k < i
                invariant
                    k <= i < cs@.len(),
                    head@ == cs@.take(k as int),
                decreases i - k,
            {
                head.push(cs[k]);
                proof {
                    assert(cs@.take(k + 1) =~= cs@.take(k as int).push(cs@[k as int]));
                }
                k = k + 1;
            }
            let mut tail: Vec<char> = Vec::new();
            let mut k: usize = i + 1;
            while k < cs.len()
                invariant
                    i + 1 <= k <= cs@.len(),
                    tail@ == cs@.subrange(i + 1, k as int),
                decreases cs@.len() - k,
            {
                tail.push(cs[k]);
                proof {
                    assert(cs@.subrange(i + 1, k + 1) =~= cs@.subrange(i + 1, k as int).push(cs@[k as int]));
                }
                k = k + 1;
            }
            proof {
                assert(tail@ =~= cs@.skip(i + 1));
            }
            let path = string_of(head.as_slice());
            let query = string_of(tail.as_slice());
            let params = parse_query(query.as_str());
            return (path, Some(query), params);
        }
        i = i + 1;
    }
    proof {
        assert(cs@.take(cs@.len() as int) =~= cs@);
        lemma_str_values_empty();
    }
    (value, None, StrMap::new())
}

} // verus!
