use vstd::prelude::*;

verus! {

use vstd::relations::sorted_by;
use vstd::seq_lib::lemma_sorted_unique;
use vstd::seq_lib::lemma_multiset_commutative;
use crate::strings::{lex_leq, lex_leq_fn, lemma_lex_total_ordering, lemma_lex_connected, lemma_sorted_pair,
    lemma_lex_trans, str_lex_le, str_eq, join_amp, join_with_amp, views_of, int_dec_str,
    i64_to_string};

/// The parameters of one request: an unordered mapping from parameter
/// name to parameter value, with each name occurring at most once.
pub struct QuerySet {
    pairs: Vec<(String, String)>,
}

/// The character-sequence pairs of a sequence of string pairs.
pub open spec fn pairs_view(ps: Seq<(String, String)>) -> Seq<(Seq<char>, Seq<char>)> {
    ps.map_values(|p: (String, String)| (p.0@, p.1@))
}

impl View for QuerySet {
    type V = Seq<(Seq<char>, Seq<char>)>;

    closed spec fn view(&self) -> Seq<(Seq<char>, Seq<char>)> {
        pairs_view(self.pairs@)
    }
}

/// No parameter name occurs twice.
pub open spec fn unique_keys(s: Seq<(Seq<char>, Seq<char>)>) -> bool {
    forall|i: int, j: int|
        0 <= i < j < s.len() ==> (#[trigger] s[i]).0 != (#[trigger] s[j]).0
}

/// Whether some pair of the sequence carries the given key.
pub open spec fn has_key(s: Seq<(Seq<char>, Seq<char>)>, k: Seq<char>) -> bool {
    exists|i: int| 0 <= i < s.len() && (#[trigger] s[i]).0 == k
}

/// The index of the pair carrying the given key.
pub open spec fn key_index(s: Seq<(Seq<char>, Seq<char>)>, k: Seq<char>) -> int {
    choose|i: int| 0 <= i < s.len() && (#[trigger] s[i]).0 == k
}

/// Mapping-style insertion on the pair sequence: replaces the value of an
/// existing key in place, and appends a fresh key at the end.
pub open spec fn pairs_insert(
    s: Seq<(Seq<char>, Seq<char>)>,
    k: Seq<char>,
    v: Seq<char>,
) -> Seq<(Seq<char>, Seq<char>)> {
    if has_key(s, k) {
        s.update(key_index(s, k), (k, v))
    } else {
        s.push((k, v))
    }
}

/// The mapping that a pair sequence denotes, later values overriding earlier ones.
pub open spec fn map_of(s: Seq<(Seq<char>, Seq<char>)>) -> Map<Seq<char>, Seq<char>>
    decreases s.len(),
{
    if s.len() == 0 {
        Map::empty()
    } else {
        map_of(s.drop_last()).insert(s.last().0, s.last().1)
    }
}

/// One pair rendered as `key=value`.
pub open spec fn render_pair(p: (Seq<char>, Seq<char>)) -> Seq<char> {
    p.0 + seq!['='] + p.1
}

/// All pairs rendered as `key=value`.
pub open spec fn rendered_of(s: Seq<(Seq<char>, Seq<char>)>) -> Seq<Seq<char>> {
    s.map_values(|p: (Seq<char>, Seq<char>)| render_pair(p))
}

/// The canonical serialization: each pair rendered as `key=value`, the
/// renderings sorted in ascending lexicographic order and joined with `&`.
pub open spec fn canonical_of(s: Seq<(Seq<char>, Seq<char>)>) -> Seq<char> {
    join_amp(rendered_of(s).sort_by(lex_leq_fn()))
}

impl QuerySet {
    /// Each parameter name occurs at most once.
    pub open spec fn wf(&self) -> bool {
        unique_keys(self@)
    }

    /// An empty parameter set.
    pub fn new() -> (r: QuerySet)
        ensures
            r@ == Seq::<(Seq<char>, Seq<char>)>::empty(),
            r.wf(),
    {
        let r = QuerySet { pairs: Vec::new() };
        proof {
            assert(r@ =~= Seq::<(Seq<char>, Seq<char>)>::empty());
        }
        r
    }

    /// The number of parameters.
    pub fn len(&self) -> (r: usize)
        ensures
            r == self@.len(),
    {
        self.pairs.len()
    }

    /// Sets a parameter, replacing any earlier value of the same name.
    pub fn insert(&mut self, key: String, value: String)
        requires
            old(self).wf(),
        ensures
            final(self).wf(),
            final(self)@ == pairs_insert(old(self)@, key@, value@),
    {
        let ghost s0 = old(self)@;
        let mut i: usize = 0;
        while i < self.pairs.len()
            invariant
                self@ == s0,
                s0 == old(self)@,
                unique_keys(s0),
                0 <= i <= s0.len(),
                self.pairs@.len() == s0.len(),
                forall|k: int| 0 <= k < i ==> (#[trigger] s0[k]).0 != key@,
            decreases s0.len() - i,
        {
            proof {
                assert(s0[i as int] == (self.pairs@[i as int].0@, self.pairs@[i as int].1@));
            }
            if self.pairs[i].0 == key {
                proof {
                    assert(s0[i as int].0 == key@);
                    assert(has_key(s0, key@));
                    let j = key_index(s0, key@);
                    assert(0 <= j < s0.len() && s0[j].0 == key@);
                    assert(j == i as int);
                }
                self.pairs.remove(i);
                self.pairs.insert(i, (key, value));
                proof {
                    assert(pairs_insert(s0, key@, value@) == s0.update(i as int, (key@, value@)));
                    assert(self@ =~= s0.update(i as int, (key@, value@)));
                    assert forall|a: int, b: int|
                        0 <= a < b < self@.len() implies (#[trigger] self@[a]).0
                        != (#[trigger] self@[b]).0 by {
                        assert(self@[a].0 == s0[a].0);
                        assert(self@[b].0 == s0[b].0);
                    }
                }
                return;
            }
            i += 1;
        }
        proof {
            assert(!has_key(s0, key@));
        }
        self.pairs.push((key, value));
        proof {
            assert(self@ =~= s0.push((key@, value@)));
            assert forall|a: int, b: int|
                0 <= a < b < self@.len() implies (#[trigger] self@[a]).0
                != (#[trigger] self@[b]).0 by {
                if b < s0.len() {
                } else {
                    assert(self@[b] == (key@, value@));
                }
            }
        }
    }
}

/// The first position whose element is strictly greater than `x`, or the length.
fn find_insert_pos(out: &Vec<String>, x: &String) -> (p: usize)
    ensures
        p <= out@.len(),
        forall|k: int| 0 <= k < p ==> lex_leq(#[trigger] views_of(out@)[k], x@),
        p < out@.len() ==> !lex_leq(views_of(out@)[p as int], x@),
{
    let mut p: usize = 0;
    while p < out.len()
        invariant
            0 <= p <= out@.len(),
            forall|k: int| 0 <= k < p ==> lex_leq(#[trigger] views_of(out@)[k], x@),
        decreases out@.len() - p,
    {
        if !str_lex_le(out[p].as_str(), x.as_str()) {
            return p;
        }
        p += 1;
    }
    p
}

proof fn lemma_insert_to_multiset(s: Seq<Seq<char>>, i: int, x: Seq<char>)
    requires
        0 <= i <= s.len(),
    ensures
        s.insert(i, x).to_multiset() == s.to_multiset().insert(x),
{
    broadcast use vstd::seq_lib::group_to_multiset_ensures;

    let take = s.subrange(0, i);
    let skip = s.subrange(i, s.len() as int);
    assert(s.insert(i, x) == take.push(x) + skip);
    lemma_multiset_commutative(take.push(x), skip);
    assert(s =~= take + skip);
    lemma_multiset_commutative(take, skip);
    assert(take.push(x).to_multiset() =~= take.to_multiset().insert(x));
    assert(s.insert(i, x).to_multiset() =~= s.to_multiset().insert(x));
}

/// Sorts the strings in ascending lexicographic order, keeping the same
/// collection of strings.
pub fn sort_strings(v: Vec<String>) -> (r: Vec<String>)
    ensures
        views_of(r@).to_multiset() == views_of(v@).to_multiset(),
        sorted_by(views_of(r@), lex_leq_fn()),
{
    broadcast use vstd::seq_lib::group_to_multiset_ensures;

    let mut out: Vec<String> = Vec::new();
    proof {
        assert(views_of(out@) =~= Seq::<Seq<char>>::empty());
        assert(views_of(v@).take(0) =~= Seq::<Seq<char>>::empty());
    }
    for i in 0..v.len()
        invariant
            views_of(out@).to_multiset() == views_of(v@).take(i as int).to_multiset(),
            sorted_by(views_of(out@), lex_leq_fn()),
    {
        let x = v[i].clone();
        let ghost xv = x@;
        let ghost outv0 = views_of(out@);
        let p = find_insert_pos(&out, &x);
        proof {
            if p < out@.len() {
                assert(!lex_leq(outv0[p as int], xv));
                lemma_lex_connected(outv0[p as int], xv);
                assert(lex_leq(xv, outv0[p as int]));
            }
        }
        out.insert(p, x);
        proof {
            let outv1 = views_of(out@);
            assert(outv1 =~= outv0.insert(p as int, xv));
            lemma_insert_to_multiset(outv0, p as int, xv);
            let taken = views_of(v@).take(i as int);
            assert(taken.push(xv) =~= views_of(v@).take(i + 1));
            vstd::seq_lib::to_multiset_build(taken, xv);
            assert(outv1.to_multiset() == views_of(v@).take(i + 1).to_multiset());
            assert forall|a: int, b: int| 0 <= a < b < outv1.len()
                implies lex_leq(#[trigger] outv1[a], #[trigger] outv1[b]) by {
                let pi = p as int;
                if b < pi {
                    assert(outv1[a] == outv0[a] && outv1[b] == outv0[b]);
                    lemma_sorted_pair(outv0, a, b);
                } else if a < pi && b == pi {
                    assert(outv1[a] == outv0[a] && outv1[b] == xv);
                    assert(lex_leq(outv0[a], xv));
                } else if a < pi && b > pi {
                    assert(outv1[a] == outv0[a] && outv1[b] == outv0[b - 1]);
                    if b - 1 == a {
                        crate::strings::lemma_lex_refl(outv0[a]);
                    } else {
                        lemma_sorted_pair(outv0, a, b - 1);
                    }
                } else if a == pi && b > pi {
                    assert(outv1[a] == xv && outv1[b] == outv0[b - 1]);
                    assert(lex_leq(xv, outv0[pi]));
                    if b - 1 > pi {
                        lemma_sorted_pair(outv0, pi, b - 1);
                        lemma_lex_trans(xv, outv0[pi], outv0[b - 1]);
                    }
                } else {
                    assert(outv1[a] == outv0[a - 1] && outv1[b] == outv0[b - 1]);
                    lemma_sorted_pair(outv0, a - 1, b - 1);
                }
            }
        }
    }
    proof {
        assert(views_of(v@).take(v@.len() as int) =~= views_of(v@));
    }
    out
}

/// Renders the parameter set as its canonical, sorted, `&`-joined string.
pub fn queries_to_string(queries: &QuerySet) -> (r: String)
    ensures
        r@ == canonical_of(queries@),
{
    let mut rendered: Vec<String> = Vec::new();
    let n = queries.pairs.len();
    proof {
        assert(views_of(rendered@) =~= rendered_of(queries@).take(0));
    }
    for i in 0..n
        invariant
            n == queries@.len(),
            queries.pairs@.len() == queries@.len(),
            views_of(rendered@) == rendered_of(queries@).take(i as int),
    {
        let mut s = self_pair_key(queries, i);
        s.append("=");
        let value = &queries.pairs[i].1;
        s.append(value.as_str());
        proof {
            reveal_strlit("=");
            assert(("=")@ =~= seq!['=']);
            assert(s@ =~= render_pair(queries@[i as int]));
        }
        rendered.push(s);
        proof {
            assert(views_of(rendered@)
                =~= rendered_of(queries@).take(i as int).push(render_pair(queries@[i as int])));
            assert(rendered_of(queries@).take(i as int).push(render_pair(queries@[i as int]))
                =~= rendered_of(queries@).take(i + 1));
        }
    }
    proof {
        assert(rendered_of(queries@).take(queries@.len() as int) =~= rendered_of(queries@));
    }
    let sorted = sort_strings(rendered);
    proof {
        lemma_lex_total_ordering();
        rendered_of(queries@).lemma_sort_by_ensures(lex_leq_fn());
        lemma_sorted_unique(
            views_of(sorted@),
            rendered_of(queries@).sort_by(lex_leq_fn()),
            lex_leq_fn(),
        );
        assert(views_of(sorted@) =~= rendered_of(queries@).sort_by(lex_leq_fn()));
    }
    join_with_amp(&sorted)
}

/// A clone of the key at the given position.
fn self_pair_key(queries: &QuerySet, i: usize) -> (r: String)
    requires
        i < queries@.len(),
        queries.pairs@.len() == queries@.len(),
    ensures
        r@ == queries@[i as int].0,
{
    queries.pairs[i].0.clone()
}

/// The same pairs without any prior `sign` parameter.
pub open spec fn strip_sign(s: Seq<(Seq<char>, Seq<char>)>) -> Seq<(Seq<char>, Seq<char>)> {
    s.filter(|p: (Seq<char>, Seq<char>)| p.0 != ("sign")@)
}

proof fn lemma_strip_take_step(s: Seq<(Seq<char>, Seq<char>)>, i: int)
    requires
        0 <= i < s.len(),
    ensures
        strip_sign(s.take(i + 1)) == (if s[i].0 != ("sign")@ {
            strip_sign(s.take(i)).push(s[i])
        } else {
            strip_sign(s.take(i))
        }),
{
    reveal(Seq::filter);
    assert(s.take(i + 1).drop_last() =~= s.take(i));
    assert(s.take(i + 1).last() == s[i]);
}

/// A copy of the parameter set without any `sign` parameter.
pub fn without_sign(queries: &QuerySet) -> (r: QuerySet)
    ensures
        r@ == strip_sign(queries@),
{
    let mut out: Vec<(String, String)> = Vec::new();
    let n = queries.pairs.len();
    proof {
        reveal(Seq::filter);
        assert(queries@.take(0) =~= Seq::<(Seq<char>, Seq<char>)>::empty());
        assert(pairs_view(out@) =~= strip_sign(queries@.take(0)));
    }
    for i in 0..n
        invariant
            n == queries@.len(),
            queries.pairs@.len() == queries@.len(),
            pairs_view(out@) == strip_sign(queries@.take(i as int)),
    {
        proof {
            assert(queries@[i as int]
                == (queries.pairs@[i as int].0@, queries.pairs@[i as int].1@));
        }
        let keep = !str_eq(queries.pairs[i].0.as_str(), "sign");
        let ghost out0 = pairs_view(out@);
        if keep {
            let k = queries.pairs[i].0.clone();
            let v = queries.pairs[i].1.clone();
            out.push((k, v));
            proof {
                assert(pairs_view(out@) =~= out0.push(queries@[i as int]));
            }
        }
        proof {
            lemma_strip_take_step(queries@, i as int);
        }
    }
    proof {
        assert(queries@.take(n as int) =~= queries@);
    }
    let r = QuerySet { pairs: out };
    r
}

/// The fixed parameters of one probe, before signing: the account key, the
/// content identifier and the playback options, plus `s_locale=zh_SG` for the
/// alternate region `th` and `area=<region>` for every other region.
pub open spec fn base_queries_spec(
    area: Seq<char>,
    ep: int,
    access_key: Seq<char>,
) -> Seq<(Seq<char>, Seq<char>)> {
    let base = seq![
        (("access_key")@, access_key),
        (("ep_id")@, int_dec_str(ep)),
        (("fnver")@, ("0")@),
        (("fnval")@, ("4048")@),
        (("platform")@, ("android")@),
        (("fourk")@, ("1")@),
        (("qn")@, ("0")@),
    ];
    if area == ("th")@ {
        base.push((("s_locale")@, ("zh_SG")@))
    } else {
        base.push((("area")@, area))
    }
}

pub proof fn reveal_base_keys()
    ensures
        ("access_key")@.len() == 10,
        ("ep_id")@.len() == 5,
        ("fnver")@.len() == 5,
        ("fnval")@.len() == 5,
        ("platform")@.len() == 8,
        ("fourk")@.len() == 5,
        ("qn")@.len() == 2,
        ("s_locale")@.len() == 8,
        ("area")@.len() == 4,
        ("ep_id")@ != ("fnver")@,
        ("ep_id")@ != ("fnval")@,
        ("ep_id")@ != ("fourk")@,
        ("fnver")@ != ("fnval")@,
        ("fnver")@ != ("fourk")@,
        ("fnval")@ != ("fourk")@,
        ("platform")@ != ("s_locale")@,
{
    reveal_strlit("access_key");
    reveal_strlit("ep_id");
    reveal_strlit("fnver");
    reveal_strlit("fnval");
    reveal_strlit("platform");
    reveal_strlit("fourk");
    reveal_strlit("qn");
    reveal_strlit("s_locale");
    reveal_strlit("area");
    assert(("ep_id")@ != ("fnver")@) by {
        assert(("ep_id")@[0] == 'e' && ("fnver")@[0] == 'f');
    }
    assert(("ep_id")@ != ("fnval")@) by {
        assert(("ep_id")@[0] == 'e' && ("fnval")@[0] == 'f');
    }
    assert(("ep_id")@ != ("fourk")@) by {
        assert(("ep_id")@[0] == 'e' && ("fourk")@[0] == 'f');
    }
    assert(("fnver")@ != ("fnval")@) by {
        assert(("fnver")@[3] == 'e' && ("fnval")@[3] == 'a');
    }
    assert(("fnver")@ != ("fourk")@) by {
        assert(("fnver")@[1] == 'n' && ("fourk")@[1] == 'o');
    }
    assert(("fnval")@ != ("fourk")@) by {
        assert(("fnval")@[1] == 'n' && ("fourk")@[1] == 'o');
    }
    assert(("platform")@ != ("s_locale")@) by {
        assert(("platform")@[0] == 'p' && ("s_locale")@[0] == 's');
    }
}

/// Builds the unsigned parameter set for one probe of the given region and
/// content identifier, as `base_queries_spec` states.
pub fn build_queries(area: &str, ep: i32, access_key: &str) -> (r: QuerySet)
    ensures
        r.wf(),
        r@ == base_queries_spec(area@, ep as int, access_key@),
{
    proof {
        reveal_base_keys();
    }
    let mut queries = QuerySet::new();
    queries.insert(String::from_str("access_key"), String::from_str(access_key));
    proof {
        assert(queries@ =~= seq![(("access_key")@, access_key@)]);
    }
    let ghost g1 = queries@;
    queries.insert(String::from_str("ep_id"), i64_to_string(ep as i64));
    proof {
        assert(!has_key(g1, ("ep_id")@));
        assert(queries@ =~= g1.push((("ep_id")@, int_dec_str(ep as int))));
    }
    let ghost g2 = queries@;
    queries.insert(String::from_str("fnver"), String::from_str("0"));
    proof {
        assert(!has_key(g2, ("fnver")@));
        assert(queries@ =~= g2.push((("fnver")@, ("0")@)));
    }
    let ghost g3 = queries@;
    queries.insert(String::from_str("fnval"), String::from_str("4048"));
    proof {
        assert(!has_key(g3, ("fnval")@));
        assert(queries@ =~= g3.push((("fnval")@, ("4048")@)));
    }
    let ghost g4 = queries@;
    queries.insert(String::from_str("platform"), String::from_str("android"));
    proof {
        assert(!has_key(g4, ("platform")@));
        assert(queries@ =~= g4.push((("platform")@, ("android")@)));
    }
    let ghost g5 = queries@;
    queries.insert(String::from_str("fourk"), String::from_str("1"));
    proof {
        assert(!has_key(g5, ("fourk")@));
        assert(queries@ =~= g5.push((("fourk")@, ("1")@)));
    }
    let ghost g6 = queries@;
    queries.insert(String::from_str("qn"), String::from_str("0"));
    proof {
        assert(!has_key(g6, ("qn")@));
        assert(queries@ =~= g6.push((("qn")@, ("0")@)));
    }
    let ghost g7 = queries@;
    if str_eq(area, "th") {
        queries.insert(String::from_str("s_locale"), String::from_str("zh_SG"));
        proof {
            assert(!has_key(g7, ("s_locale")@));
            assert(queries@ =~= g7.push((("s_locale")@, ("zh_SG")@)));
            assert(queries@ =~= base_queries_spec(area@, ep as int, access_key@));
        }
    } else {
        queries.insert(String::from_str("area"), String::from_str(area));
        proof {
            assert(!has_key(g7, ("area")@));
            assert(queries@ =~= g7.push((("area")@, area@)));
            assert(queries@ =~= base_queries_spec(area@, ep as int, access_key@));
        }
    }
    queries
}

} // verus!
