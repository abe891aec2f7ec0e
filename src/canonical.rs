use vstd::prelude::*;

use crate::codec::{lower_of, lowercase, percent_encode, percent_encoded};
use crate::order::{
    lemma_ascending_unique, lemma_text_lt_connected, lemma_text_lt_irreflexive,
    lemma_text_lt_transitive, str_lt, strictly_ascending, text_lt,
};

verus! {

/// A name/value pair as texts.
pub type Pair = (Seq<char>, Seq<char>);

/// The texts held by a list of name/value pairs.
pub open spec fn pair_views(v: Seq<(String, String)>) -> Seq<Pair> {
    v.map_values(|e: (String, String)| (e.0@, e.1@))
}

/// A pair with its name lower-cased.
pub open spec fn lowered(e: Pair) -> Pair {
    (lower_of(e.0), e.1)
}

/// Order of pairs by name.
pub open spec fn name_lt(a: Pair, b: Pair) -> bool {
    text_lt(a.0, b.0)
}

/// Every pair of the list with its name lower-cased.
pub open spec fn lowered_all(es: Seq<Pair>) -> Seq<Pair> {
    es.map_values(|e: Pair| lowered(e))
}

/// Order of pairs by name, as a relation.
pub open spec fn by_name() -> spec_fn(Pair, Pair) -> bool {
    |a: Pair, b: Pair| name_lt(a, b)
}

/// No two names of the list lower-case to the same text.
pub open spec fn lowered_names_distinct(es: Seq<Pair>) -> bool {
    forall|i: int, j: int|
        0 <= i < j < es.len() ==> lower_of(#[trigger] es[i].0) != lower_of(#[trigger] es[j].0)
}

/// `s` holds exactly the lower-cased pairs of `es`, in strictly ascending name order.
pub open spec fn is_canonical_order(es: Seq<Pair>, s: Seq<Pair>) -> bool {
    &&& strictly_ascending(s, by_name())
    &&& forall|i: int| 0 <= i < es.len() ==> s.contains(lowered(#[trigger] es[i]))
    &&& forall|j: int| 0 <= j < s.len() ==> lowered_all(es).contains(#[trigger] s[j])
}

/// The canonical order of a list of pairs.
pub open spec fn canonical_order_of(es: Seq<Pair>) -> Seq<Pair> {
    choose|s: Seq<Pair>| is_canonical_order(es, s)
}

/// Texts joined by a separator.
pub open spec fn joined(parts: Seq<Seq<char>>, sep: char) -> Seq<char>
    decreases parts.len(),
{
    if parts.len() == 0 {
        seq![]
    } else if parts.len() == 1 {
        parts[0]
    } else {
        joined(parts.drop_last(), sep) + seq![sep] + parts.last()
    }
}

/// `name=value`, both percent-encoded.
pub open spec fn pair_text(e: Pair) -> Seq<char> {
    percent_encoded(e.0) + seq!['='] + percent_encoded(e.1)
}

/// The names of an ordered list of pairs, joined by `;`.
pub open spec fn name_list(s: Seq<Pair>) -> Seq<char> {
    joined(s.map_values(|e: Pair| e.0), ';')
}

/// The encoded pairs of an ordered list, joined by `&`.
pub open spec fn pair_list(s: Seq<Pair>) -> Seq<char> {
    joined(s.map_values(|e: Pair| pair_text(e)), '&')
}

/// The name list of the canonical form of `es`.
pub open spec fn canonical_names(es: Seq<Pair>) -> Seq<char> {
    name_list(canonical_order_of(es))
}

/// The encoded pair list of the canonical form of `es`.
pub open spec fn canonical_pairs(es: Seq<Pair>) -> Seq<char> {
    pair_list(canonical_order_of(es))
}

proof fn lemma_joined_push(parts: Seq<Seq<char>>, x: Seq<char>, sep: char)
    ensures
        joined(parts.push(x), sep) == if parts.len() == 0 {
            x
        } else {
            joined(parts, sep) + seq![sep] + x
        },
{
    assert(parts.push(x).drop_last() =~= parts);
}

proof fn lemma_canonical_order_intro(es: Seq<Pair>, s: Seq<Pair>, origin: Seq<int>)
    requires
        strictly_ascending(s, by_name()),
        forall|i: int| 0 <= i < es.len() ==> s.contains(lowered(#[trigger] es[i])),
        origin.len() == s.len(),
        forall|j: int| 0 <= j < s.len() ==> 0 <= #[trigger] origin[j] < es.len() && s[j] == lowered(es[origin[j]]),
    ensures
        is_canonical_order(es, s),
{
    assert forall|j: int| 0 <= j < s.len() implies lowered_all(es).contains(#[trigger] s[j]) by {
        assert(lowered_all(es)[origin[j]] == s[j]);
    }
}

proof fn lemma_name_lt_order()
    ensures
        forall|a: Pair, b: Pair| #[trigger] by_name()(a, b) == name_lt(a, b),
        forall|x: Pair| !#[trigger] name_lt(x, x),
        forall|x: Pair, y: Pair, z: Pair| #[trigger] name_lt(x, y) && #[trigger] name_lt(y, z) ==> name_lt(x, z),
{
    assert forall|x: Pair| !#[trigger] name_lt(x, x) by {
        lemma_text_lt_irreflexive(x.0);
    }
    assert forall|x: Pair, y: Pair, z: Pair| #[trigger] name_lt(x, y) && #[trigger] name_lt(y, z) implies name_lt(x, z) by {
        lemma_text_lt_transitive(x.0, y.0, z.0);
    }
}

/// The canonical order of a list of pairs does not depend on the order of the
/// list: two lists that are permutations of each other have the same canonical
/// order, hence the same canonical name list and pair list.
pub proof fn lemma_canonical_order_permutation(es1: Seq<Pair>, es2: Seq<Pair>, s1: Seq<Pair>, s2: Seq<Pair>)
    requires
        es1.to_multiset() == es2.to_multiset(),
        is_canonical_order(es1, s1),
        is_canonical_order(es2, s2),
    ensures
        s1 == s2,
        name_list(s1) == name_list(s2),
        pair_list(s1) == pair_list(s2),
{
    broadcast use vstd::seq_lib::group_to_multiset_ensures;
    let lt = by_name();
    lemma_name_lt_order();
    assert forall|x: Pair| s1.contains(x) <==> s2.contains(x) by {
        if s1.contains(x) {
            let j = choose|j: int| 0 <= j < s1.len() && s1[j] == x;
            assert(lowered_all(es1).contains(s1[j]));
            let i = choose|i: int| 0 <= i < es1.len() && lowered_all(es1)[i] == s1[j];
            assert(es1.contains(es1[i]));
            assert(es2.to_multiset().count(es1[i]) > 0);
            let k = choose|k: int| 0 <= k < es2.len() && es2[k] == es1[i];
            assert(s2.contains(lowered(es2[k])));
        }
        if s2.contains(x) {
            let j = choose|j: int| 0 <= j < s2.len() && s2[j] == x;
            assert(lowered_all(es2).contains(s2[j]));
            let i = choose|i: int| 0 <= i < es2.len() && lowered_all(es2)[i] == s2[j];
            assert(es2.contains(es2[i]));
            assert(es1.to_multiset().count(es2[i]) > 0);
            let k = choose|k: int| 0 <= k < es1.len() && es1[k] == es2[i];
            assert(s1.contains(lowered(es1[k])));
        }
    }
    lemma_ascending_unique(s1, s2, lt);
}

/// The two canonical strings of a list of name/value pairs: the lower-cased
/// names in ascending order joined by `;`, and `name=value` for each pair in
/// that order, percent-encoded and joined by `&`. `None` when two names
/// lower-case to the same text, since their order would then be undefined.
pub fn canonicalize(entries: &Vec<(String, String)>) -> (r: Option<(String, String)>)
    ensures
        r is Some <==> lowered_names_distinct(pair_views(entries@)),
        r matches Some((names, pairs)) ==> {
            let es = pair_views(entries@);
            &&& is_canonical_order(es, canonical_order_of(es))
            &&& names@ == canonical_names(es)
            &&& pairs@ == canonical_pairs(es)
        },
{
    let ghost es = pair_views(entries@);
    let mut sorted: Vec<(String, String)> = Vec::new();
    let ghost mut origin: Seq<int> = Seq::empty();
    let mut idx: usize = 0;
    while idx < entries.len()
        invariant
            0 <= idx <= entries.len(),
            es == pair_views(entries@),
            strictly_ascending(pair_views(sorted@), by_name()),
            forall|i: int| 0 <= i < idx ==> pair_views(sorted@).contains(lowered(#[trigger] es[i])),
            origin.len() == sorted@.len(),
            forall|j: int| 0 <= j < sorted@.len() ==> 0 <= #[trigger] origin[j] < idx
                && pair_views(sorted@)[j] == lowered(es[origin[j]]),
            lowered_names_distinct(es.take(idx as int)),
        decreases entries.len() - idx,
    {
        let ghost sv = pair_views(sorted@);
        let key = lowercase(entries[idx].0.as_str());
        let mut p: usize = 0;
        while p < sorted.len() && str_lt(sorted[p].0.as_str(), key.as_str())
            invariant
                0 <= p <= sorted.len(),
                sv == pair_views(sorted@),
                forall|j: int| 0 <= j < p ==> text_lt(#[trigger] sv[j].0, key@),
            decreases sorted.len() - p,
        {
            p = p + 1;
        }
        if p < sorted.len() && sorted[p].0 == key {
            proof {
                let j = origin[p as int];
                assert(lower_of(es[j].0) == lower_of(es[idx as int].0));
                assert(!lowered_names_distinct(es));
            }
            return None;
        }
        let ghost x = lowered(es[idx as int]);
        proof {
            lemma_name_lt_order();
            if p < sorted.len() {
                assert(sv[p as int].0 == sorted@[p as int].0@);
                assert(sv[p as int].0 != key@);
                assert(!text_lt(sv[p as int].0, key@));
                lemma_text_lt_connected(key@, sv[p as int].0);
            }
            assert forall|j: int| p < j < sv.len() implies text_lt(key@, #[trigger] sv[j].0) by {
                assert(by_name()(sv[p as int], sv[j]));
                assert(text_lt(sv[p as int].0, sv[j].0));
                lemma_text_lt_transitive(key@, sv[p as int].0, sv[j].0);
            }
            assert forall|j: int| 0 <= j < sv.len() implies sv[j].0 != key@ by {
                lemma_text_lt_irreflexive(key@);
                if j > p {
                    assert(by_name()(sv[p as int], sv[j]));
                    assert(text_lt(sv[p as int].0, sv[j].0));
                    lemma_text_lt_transitive(key@, sv[p as int].0, sv[j].0);
                }
            }
            assert(lowered_names_distinct(es.take(idx as int + 1))) by {
                assert forall|i: int, j: int| 0 <= i < j < idx + 1 implies lower_of(
                    #[trigger] es.take(idx as int + 1)[i].0,
                ) != lower_of(#[trigger] es.take(idx as int + 1)[j].0) by {
                    if j == idx {
                        assert(sv.contains(lowered(es[i])));
                        let k = choose|k: int| 0 <= k < sv.len() && sv[k] == lowered(es[i]);
                        assert(sv[k].0 != key@);
                    } else {
                        assert(es.take(idx as int)[i] == es.take(idx as int + 1)[i]);
                        assert(es.take(idx as int)[j] == es.take(idx as int + 1)[j]);
                    }
                }
            }
        }
        let value = entries[idx].1.clone();
        sorted.insert(p, (key, value));
        proof {
            let nv = pair_views(sorted@);
            assert(nv =~= sv.insert(p as int, x));
            assert(x.0 == key@);
            assert(strictly_ascending(nv, by_name())) by {
                assert forall|a: int, b: int| 0 <= a < b < nv.len() implies #[trigger] by_name()(nv[a], nv[b]) by {
                    if a < p && b < p {
                        assert(by_name()(sv[a], sv[b]));
                    } else if a < p && b == p {
                        assert(text_lt(sv[a].0, key@));
                        assert(nv[b] == x);
                    } else if a < p && b > p {
                        assert(text_lt(sv[a].0, key@));
                        assert(text_lt(key@, sv[b - 1].0));
                        lemma_text_lt_transitive(sv[a].0, key@, sv[b - 1].0);
                    } else if a == p {
                        assert(nv[a] == x);
                        assert(text_lt(key@, sv[b - 1].0));
                    } else {
                        assert(by_name()(sv[a - 1], sv[b - 1]));
                    }
                }
            }
            assert forall|i: int| 0 <= i < idx + 1 implies nv.contains(lowered(#[trigger] es[i])) by {
                if i == idx {
                    assert(nv[p as int] == x);
                } else {
                    let k = choose|k: int| 0 <= k < sv.len() && sv[k] == lowered(es[i]);
                    if k < p {
                        assert(nv[k] == sv[k]);
                    } else {
                        assert(nv[k + 1] == sv[k]);
                    }
                }
            }
            let old_origin = origin;
            origin = origin.insert(p as int, idx as int);
            assert forall|j: int| 0 <= j < nv.len() implies 0 <= #[trigger] origin[j] < idx + 1
                && nv[j] == lowered(es[origin[j]]) by {
                if j == p {
                } else if j < p {
                    assert(nv[j] == sv[j]);
                    assert(origin[j] == old_origin[j]);
                } else {
                    assert(nv[j] == sv[j - 1]);
                    assert(origin[j] == old_origin[j - 1]);
                }
            }
        }
        idx = idx + 1;
    }
    let ghost s = pair_views(sorted@);
    proof {
        assert(es.take(es.len() as int) =~= es);
        assert(strictly_ascending(s, by_name()));
        assert(forall|i: int| 0 <= i < es.len() ==> s.contains(lowered(#[trigger] es[i])));
        lemma_canonical_order_intro(es, s, origin);
        let c = canonical_order_of(es);
        assert(is_canonical_order(es, c));
        lemma_canonical_order_permutation(es, es, s, c);
    }
    let mut names = String::new();
    let mut pairs = String::new();
    let mut j: usize = 0;
    proof {
        reveal_strlit(";");
        reveal_strlit("&");
        reveal_strlit("=");
        assert(s.take(0).map_values(|e: Pair| e.0) =~= Seq::<Seq<char>>::empty());
        assert(s.take(0).map_values(|e: Pair| pair_text(e)) =~= Seq::<Seq<char>>::empty());
    }
    while j < sorted.len()
        invariant
            0 <= j <= sorted.len(),
            s == pair_views(sorted@),
            names@ == name_list(s.take(j as int)),
            pairs@ == pair_list(s.take(j as int)),
            ";"@ == seq![';'],
            "&"@ == seq!['&'],
            "="@ == seq!['='],
        decreases sorted.len() - j,
    {
        if j > 0 {
            names.append(";");
            pairs.append("&");
        }
        names.append(sorted[j].0.as_str());
        let ek = percent_encode(sorted[j].0.as_str());
        let ev = percent_encode(sorted[j].1.as_str());
        pairs.append(ek.as_str());
        pairs.append("=");
        pairs.append(ev.as_str());
        proof {
            let t = s.take(j as int);
            assert(s.take(j as int + 1) =~= t.push(s[j as int]));
            assert(t.push(s[j as int]).map_values(|e: Pair| e.0) =~= t.map_values(|e: Pair| e.0).push(s[j as int].0));
            assert(t.push(s[j as int]).map_values(|e: Pair| pair_text(e)) =~= t.map_values(|e: Pair| pair_text(e)).push(pair_text(s[j as int])));
            lemma_joined_push(t.map_values(|e: Pair| e.0), s[j as int].0, ';');
            lemma_joined_push(t.map_values(|e: Pair| pair_text(e)), pair_text(s[j as int]), '&');
        }
        j = j + 1;
    }
    proof {
        assert(s.take(s.len() as int) =~= s);
    }
    Some((names, pairs))
}

} // verus!
