//! Query-string and form-body decoding.
//!
//! `decode` turns `key=value&...` text into a multimap: pairs split on
//! `&`, each pair split at its first `=`; a pair with an empty key is
//! dropped; a pair with no `=` binds the whole pair text to the empty
//! string; repeated keys accumulate values in encounter order.
use vstd::prelude::*;
use crate::strutil::{find_from, spec_find, spec_split, split_str, views_of};

verus! {

#[verifier::external_type_specification]
#[verifier::external_body]
#[verifier::reject_recursive_types(K)]
#[verifier::reject_recursive_types(V)]
#[verifier::reject_recursive_types(S)]
pub struct ExMultiMap<K, V, S>(multimap::MultiMap<K, V, S>);

/// A multimap from query/form keys to their values.
pub type StringMultiMap = multimap::MultiMap<String, String>;

/// What a string multimap holds: each key's values, in insertion order.
pub uninterp spec fn multimap_view(m: StringMultiMap) -> Map<
    Seq<char>,
    Seq<Seq<char>>,
>;

/// The empty multimap contents.
pub open spec fn mm_empty() -> Map<Seq<char>, Seq<Seq<char>>> {
    Map::empty()
}

/// How one insertion changes a multimap's contents: the value is appended
/// to the key's vector, which is created if absent.
pub open spec fn mm_insert_spec(
    m: Map<Seq<char>, Seq<Seq<char>>>,
    k: Seq<char>,
    v: Seq<char>,
) -> Map<Seq<char>, Seq<Seq<char>>> {
    if m.dom().contains(k) {
        m.insert(k, m[k].push(v))
    } else {
        m.insert(k, seq![v])
    }
}

/// Relies on multimap::MultiMap::new: the new multimap is empty.
#[verifier::external_body]
pub fn multimap_new() -> (r: StringMultiMap)
    ensures
        multimap_view(r) == mm_empty(),
{
    multimap::MultiMap::new()
}

/// Relies on multimap::MultiMap::insert: pushes `v` onto the vector bound
/// to `k`, inserting the binding `k -> vec![v]` if `k` was unbound.
#[verifier::external_body]
pub fn multimap_insert(m: &mut StringMultiMap, k: String, v: String)
    ensures
        multimap_view(*final(m)) == mm_insert_spec(multimap_view(*old(m)), k@, v@),
{
    m.insert(k, v)
}

/// The pair (if any) one `&`-delimited token decodes to: split at the
/// first `=`, empty keys dropped, a missing `=` meaning an empty value.
pub open spec fn pair_of(p: Seq<char>) -> Seq<(Seq<char>, Seq<char>)> {
    match spec_find(p, '=') {
        None => if p.len() == 0 {
            Seq::empty()
        } else {
            seq![(p, Seq::<char>::empty())]
        },
        Some(i) => if i == 0 {
            Seq::empty()
        } else {
            seq![(p.take(i), p.skip(i + 1))]
        },
    }
}

/// The retained pairs of a token list, in encounter order.
pub open spec fn pairs_of_toks(toks: Seq<Seq<char>>) -> Seq<(Seq<char>, Seq<char>)>
    decreases toks.len(),
{
    if toks.len() == 0 {
        Seq::empty()
    } else {
        pairs_of_toks(toks.drop_last()) + pair_of(toks.last())
    }
}

/// The retained pairs of a raw query/form string, in encounter order.
pub open spec fn decode_pairs(s: Seq<char>) -> Seq<(Seq<char>, Seq<char>)> {
    pairs_of_toks(spec_split(s, '&'))
}

/// A pair list grouped into a multimap, inserting left to right.
pub open spec fn group_pairs(pairs: Seq<(Seq<char>, Seq<char>)>) -> Map<Seq<char>, Seq<Seq<char>>>
    decreases pairs.len(),
{
    if pairs.len() == 0 {
        Map::empty()
    } else {
        mm_insert_spec(group_pairs(pairs.drop_last()), pairs.last().0, pairs.last().1)
    }
}

/// The multimap a raw query/form string decodes to.
pub open spec fn decode_map(s: Seq<char>) -> Map<Seq<char>, Seq<Seq<char>>> {
    group_pairs(decode_pairs(s))
}

proof fn lemma_group_pairs_push(ps: Seq<(Seq<char>, Seq<char>)>, p: (Seq<char>, Seq<char>))
    ensures
        group_pairs(ps.push(p)) == mm_insert_spec(group_pairs(ps), p.0, p.1),
{
    assert(ps.push(p).drop_last() =~= ps);
    assert(ps.push(p).last() == p);
}

proof fn lemma_pairs_of_toks_take(toks: Seq<Seq<char>>, i: int)
    requires
        0 <= i < toks.len(),
    ensures
        pairs_of_toks(toks.take(i + 1)) == pairs_of_toks(toks.take(i)) + pair_of(toks[i]),
{
    assert(toks.take(i + 1).drop_last() =~= toks.take(i));
    assert(toks.take(i + 1).last() == toks[i]);
}

/// Decoding the empty string yields the empty multimap: the single empty
/// token it splits into has an empty key, which is dropped.
pub proof fn lemma_decode_empty()
    ensures
        decode_map(Seq::<char>::empty()) == mm_empty(),
{
    let e = Seq::<char>::empty();
    assert(spec_split(e, '&') =~= seq![e]);
    assert(pair_of(e) =~= Seq::<(Seq<char>, Seq<char>)>::empty());
    assert(seq![e].drop_last() =~= Seq::<Seq<char>>::empty());
    assert(pairs_of_toks(Seq::<Seq<char>>::empty()) =~= Seq::<(Seq<char>, Seq<char>)>::empty());
    assert(seq![e].last() == e);
    assert(pairs_of_toks(seq![e]) =~= Seq::<(Seq<char>, Seq<char>)>::empty());
    assert(group_pairs(Seq::<(Seq<char>, Seq<char>)>::empty()) == mm_empty());
}

/// Decodes `raw` as `key=value&...` text. Decoding is pure and total:
/// every string decodes, the empty string to the empty multimap.
pub fn decode(raw: &str) -> (r: StringMultiMap)
    ensures
        multimap_view(r) == decode_map(raw@),
{
    let mut m = multimap_new();
    let toks = split_str(raw, '&');
    let n = toks.len();
    let ghost toks_v = views_of(toks@);
    let mut i: usize = 0;
    proof {
        assert(toks_v.take(0) =~= Seq::<Seq<char>>::empty());
        assert(mm_empty() == group_pairs(pairs_of_toks(toks_v.take(0))));
    }
    while i < n
        invariant
            0 <= i <= n,
            n == toks@.len(),
            toks_v == views_of(toks@),
            toks_v == spec_split(raw@, '&'),
            multimap_view(m) == group_pairs(pairs_of_toks(toks_v.take(i as int))),
        decreases n - i,
    {
        let tok = toks[i].as_str();
        proof {
            assert(views_of(toks@)[i as int] == toks@[i as int]@);
            assert(tok@ == toks_v[i as int]);
        }
        let tlen = tok.unicode_len();
        let ghost before = multimap_view(m);
        match find_from(tok, 0, '=') {
            Some(j) => {
                proof {
                    crate::strutil::lemma_spec_find_at(tok@, '=', j as int);
                }
                if j > 0 {
                    let k = tok.substring_char(0, j).to_owned();
                    let v = tok.substring_char(j + 1, tlen).to_owned();
                    proof {
                        assert(k@ =~= tok@.take(j as int));
                        assert(v@ =~= tok@.skip(j + 1));
                    }
                    multimap_insert(&mut m, k, v);
                    proof {
                        assert(pair_of(tok@) == seq![(tok@.take(j as int), tok@.skip(j + 1))]);
                    }
                }
            },
            None => {
                proof {
                    crate::strutil::lemma_spec_find_none(tok@, '=');
                }
                if tlen > 0 {
                    let k = tok.to_owned();
                    let v = String::new();
                    proof {
                        assert(v@ =~= Seq::<char>::empty());
                    }
                    multimap_insert(&mut m, k, v);
                    proof {
                        assert(pair_of(tok@) == seq![(tok@, Seq::<char>::empty())]);
                    }
                }
            },
        }
        proof {
            lemma_pairs_of_toks_take(toks_v, i as int);
            let ps = pairs_of_toks(toks_v.take(i as int));
            let pr = pair_of(toks_v[i as int]);
            if pr.len() == 0 {
                assert(ps + pr =~= ps);
                assert(multimap_view(m) == group_pairs(pairs_of_toks(toks_v.take(i + 1))));
            } else {
                assert(ps + pr =~= ps.push(pr[0]));
                lemma_group_pairs_push(ps, pr[0]);
                assert(multimap_view(m) == group_pairs(pairs_of_toks(toks_v.take(i + 1))));
            }
        }
        i = i + 1;
    }
    proof {
        assert(toks_v.take(n as int) =~= toks_v);
    }
    m
}

} // verus!
