use vstd::prelude::*;

verus! {

use vstd::seq_lib::lemma_sorted_unique;
use crate::strings::{lex_leq_fn, lemma_lex_total_ordering, contains_seq, dec_str};
use crate::query::{canonical_of, rendered_of, render_pair, base_queries_spec, has_key, map_of,
    unique_keys, pairs_insert, strip_sign, key_index};
use crate::classify::{classify_spec, status_is_success, json_code_of, code_zero_marker,
    OutcomeModel};
use crate::signer::{sign_at_spec, signature_of};

proof fn lemma_rendered_multiset(
    q1: Seq<(Seq<char>, Seq<char>)>,
    q2: Seq<(Seq<char>, Seq<char>)>,
)
    requires
        q1.to_multiset() == q2.to_multiset(),
    ensures
        rendered_of(q1).to_multiset() == rendered_of(q2).to_multiset(),
    decreases q1.len(),
{
    broadcast use vstd::seq_lib::group_to_multiset_ensures;
    broadcast use vstd::multiset::group_multiset_axioms;

    if q1.len() == 0 {
        assert(q1.to_multiset().len() == q1.len());
        assert(q2.to_multiset().len() == q2.len());
        assert(q2.len() == 0);
        assert(rendered_of(q1) =~= Seq::<Seq<char>>::empty());
        assert(rendered_of(q2) =~= Seq::<Seq<char>>::empty());
    } else {
        let x = q1[0];
        assert(q1.contains(x));
        assert(q1.to_multiset().contains(x));
        assert(q2.to_multiset().contains(x));
        assert(q2.contains(x));
        let j = choose|j: int| 0 <= j < q2.len() && q2[j] == x;
        assert(q1.remove(0).to_multiset() == q1.to_multiset().remove(x));
        assert(q2.remove(j).to_multiset() == q2.to_multiset().remove(x));
        lemma_rendered_multiset(q1.remove(0), q2.remove(j));
        assert(rendered_of(q1.remove(0)) =~= rendered_of(q1).remove(0));
        assert(rendered_of(q2.remove(j)) =~= rendered_of(q2).remove(j));
        let a = rendered_of(q1).to_multiset();
        let b = rendered_of(q2).to_multiset();
        let rv = render_pair(x);
        assert(rendered_of(q1)[0] == rv);
        assert(rendered_of(q2)[j] == rv);
        assert(rendered_of(q1).remove(0).to_multiset() == a.remove(rv));
        assert(rendered_of(q2).remove(j).to_multiset() == b.remove(rv));
        assert(a.remove(rv) == b.remove(rv));
        assert(rendered_of(q1).contains(rv));
        assert(a.contains(rv));
        assert(rendered_of(q2).contains(rv));
        assert(b.contains(rv));
        assert forall|y: Seq<char>| a.count(y) == b.count(y) by {
            if y == rv {
                assert(a.remove(rv).count(rv) == b.remove(rv).count(rv));
            } else {
                assert(a.remove(rv).count(y) == b.remove(rv).count(y));
            }
        }
        assert(a =~= b);
    }
}

/// Two parameter sets that hold the same pairs, in whatever order, have the
/// same canonical serialization.
pub proof fn lemma_canonical_order_independent(
    q1: Seq<(Seq<char>, Seq<char>)>,
    q2: Seq<(Seq<char>, Seq<char>)>,
)
    requires
        q1.to_multiset() == q2.to_multiset(),
    ensures
        canonical_of(q1) == canonical_of(q2),
{
    lemma_rendered_multiset(q1, q2);
    lemma_lex_total_ordering();
    rendered_of(q1).lemma_sort_by_ensures(lex_leq_fn());
    rendered_of(q2).lemma_sort_by_ensures(lex_leq_fn());
    lemma_sorted_unique(
        rendered_of(q1).sort_by(lex_leq_fn()),
        rendered_of(q2).sort_by(lex_leq_fn()),
        lex_leq_fn(),
    );
    assert(rendered_of(q1).sort_by(lex_leq_fn()) == rendered_of(q2).sort_by(lex_leq_fn()));
}

/// The alternate region `th` gets `s_locale=zh_SG` and never an `area`
/// parameter; every other region gets `area=<region>` and never `s_locale`.
pub proof fn lemma_region_params_exclusive(area: Seq<char>, ep: int, access_key: Seq<char>)
    ensures
        area == ("th")@ ==> {
            let q = base_queries_spec(area, ep, access_key);
            &&& q[7] == (("s_locale")@, ("zh_SG")@)
            &&& has_key(q, ("s_locale")@)
            &&& !has_key(q, ("area")@)
        },
        area != ("th")@ ==> {
            let q = base_queries_spec(area, ep, access_key);
            &&& q[7] == (("area")@, area)
            &&& has_key(q, ("area")@)
            &&& !has_key(q, ("s_locale")@)
        },
{
    crate::query::reveal_base_keys();
    let q = base_queries_spec(area, ep, access_key);
    if area == ("th")@ {
        assert(q[7] == (("s_locale")@, ("zh_SG")@));
        assert(has_key(q, ("s_locale")@));
        assert forall|i: int| 0 <= i < q.len() implies (#[trigger] q[i]).0 != ("area")@ by {}
        assert(!has_key(q, ("area")@));
    } else {
        assert(q[7] == (("area")@, area));
        assert(has_key(q, ("area")@));
        assert forall|i: int| 0 <= i < q.len() implies (#[trigger] q[i]).0 != ("s_locale")@ by {}
        assert(!has_key(q, ("s_locale")@));
    }
}

proof fn lemma_update_map(s: Seq<(Seq<char>, Seq<char>)>, i: int, k: Seq<char>, v: Seq<char>)
    requires
        unique_keys(s),
        0 <= i < s.len(),
        s[i].0 == k,
    ensures
        map_of(s.update(i, (k, v))) == map_of(s).insert(k, v),
    decreases s.len(),
{
    let t = s.update(i, (k, v));
    if i == s.len() - 1 {
        assert(t.drop_last() =~= s.drop_last());
        assert(t.last() == (k, v));
        assert(map_of(t) == map_of(s.drop_last()).insert(k, v));
        assert(map_of(s) == map_of(s.drop_last()).insert(k, s.last().1));
        assert(map_of(s).insert(k, v) =~= map_of(s.drop_last()).insert(k, v));
    } else {
        assert(t.drop_last() =~= s.drop_last().update(i, (k, v)));
        assert(t.last() == s.last());
        lemma_unique_drop_last(s);
        assert(s.drop_last()[i] == s[i]);
        lemma_update_map(s.drop_last(), i, k, v);
        assert(s.last().0 != k);
        assert(map_of(t) == map_of(s.drop_last()).insert(k, v).insert(s.last().0, s.last().1));
        assert(map_of(s).insert(k, v)
            =~= map_of(s.drop_last()).insert(k, v).insert(s.last().0, s.last().1));
    }
}

proof fn lemma_unique_drop_last(s: Seq<(Seq<char>, Seq<char>)>)
    requires
        unique_keys(s),
        s.len() > 0,
    ensures
        unique_keys(s.drop_last()),
{
    assert forall|a: int, b: int| 0 <= a < b < s.drop_last().len()
        implies (#[trigger] s.drop_last()[a]).0 != (#[trigger] s.drop_last()[b]).0 by {
        assert(s.drop_last()[a] == s[a]);
        assert(s.drop_last()[b] == s[b]);
    }
}

/// Mapping-style insertion sets exactly the given key in the denoted
/// mapping, and keeps the keys unique.
pub proof fn lemma_pairs_insert_map(s: Seq<(Seq<char>, Seq<char>)>, k: Seq<char>, v: Seq<char>)
    requires
        unique_keys(s),
    ensures
        unique_keys(pairs_insert(s, k, v)),
        map_of(pairs_insert(s, k, v)) == map_of(s).insert(k, v),
{
    if has_key(s, k) {
        let i = key_index(s, k);
        assert(0 <= i < s.len() && s[i].0 == k);
        lemma_update_map(s, i, k, v);
        let t = s.update(i, (k, v));
        assert forall|a: int, b: int| 0 <= a < b < t.len()
            implies (#[trigger] t[a]).0 != (#[trigger] t[b]).0 by {
            assert(t[a].0 == s[a].0);
            assert(t[b].0 == s[b].0);
        }
    } else {
        let t = s.push((k, v));
        assert(t.drop_last() =~= s);
        assert(map_of(t) == map_of(s).insert(k, v));
        assert forall|a: int, b: int| 0 <= a < b < t.len()
            implies (#[trigger] t[a]).0 != (#[trigger] t[b]).0 by {
            if b < s.len() {
            } else {
                assert(t[b] == (k, v));
                assert(t[a] == s[a]);
            }
        }
    }
}

/// Dropping the `sign` entries of the pair sequence removes exactly the
/// `sign` key from the denoted mapping.
pub proof fn lemma_strip_map(s: Seq<(Seq<char>, Seq<char>)>)
    ensures
        map_of(strip_sign(s)) == map_of(s).remove(("sign")@),
    decreases s.len(),
{
    reveal(Seq::filter);
    if s.len() == 0 {
        assert(strip_sign(s) =~= s);
        assert(map_of(s).remove(("sign")@) =~= Map::<Seq<char>, Seq<char>>::empty());
    } else {
        lemma_strip_map(s.drop_last());
        if s.last().0 != ("sign")@ {
            assert(strip_sign(s) == strip_sign(s.drop_last()).push(s.last()));
            let t = strip_sign(s.drop_last()).push(s.last());
            assert(t.drop_last() =~= strip_sign(s.drop_last()));
            assert(map_of(t) == map_of(strip_sign(s.drop_last())).insert(s.last().0, s.last().1));
            assert(map_of(s).remove(("sign")@)
                =~= map_of(s.drop_last()).remove(("sign")@).insert(s.last().0, s.last().1));
        } else {
            assert(strip_sign(s) == strip_sign(s.drop_last()));
            assert(map_of(s).remove(("sign")@) =~= map_of(s.drop_last()).remove(("sign")@));
        }
    }
}

proof fn lemma_strip_update_sign(s: Seq<(Seq<char>, Seq<char>)>, i: int, v: Seq<char>)
    requires
        0 <= i < s.len(),
        s[i].0 == ("sign")@,
    ensures
        strip_sign(s.update(i, (("sign")@, v))) == strip_sign(s),
    decreases s.len(),
{
    reveal(Seq::filter);
    let t = s.update(i, (("sign")@, v));
    if i == s.len() - 1 {
        assert(t.drop_last() =~= s.drop_last());
        assert(t.last() == (("sign")@, v));
        assert(strip_sign(t) == strip_sign(t.drop_last()));
        assert(strip_sign(s) == strip_sign(s.drop_last()));
    } else {
        assert(t.drop_last() =~= s.drop_last().update(i, (("sign")@, v)));
        assert(t.last() == s.last());
        assert(s.drop_last()[i] == s[i]);
        lemma_strip_update_sign(s.drop_last(), i, v);
    }
}

/// Inserting a `sign` entry leaves the stripped pair sequence unchanged.
pub proof fn lemma_strip_insert_sign(s: Seq<(Seq<char>, Seq<char>)>, v: Seq<char>)
    ensures
        strip_sign(pairs_insert(s, ("sign")@, v)) == strip_sign(s),
{
    if has_key(s, ("sign")@) {
        let i = key_index(s, ("sign")@);
        assert(0 <= i < s.len() && s[i].0 == ("sign")@);
        lemma_strip_update_sign(s, i, v);
    } else {
        reveal(Seq::filter);
        let t = s.push((("sign")@, v));
        assert(t.drop_last() =~= s);
        assert(strip_sign(t) == strip_sign(s));
    }
}

proof fn lemma_strip_no_sign(s: Seq<(Seq<char>, Seq<char>)>)
    requires
        !has_key(s, ("sign")@),
    ensures
        strip_sign(s) == s,
    decreases s.len(),
{
    reveal(Seq::filter);
    if s.len() == 0 {
        assert(strip_sign(s) =~= s);
    } else {
        assert(s[s.len() - 1].0 != ("sign")@);
        assert(!has_key(s.drop_last(), ("sign")@)) by {
            if has_key(s.drop_last(), ("sign")@) {
                let i = choose|i: int|
                    0 <= i < s.drop_last().len() && (#[trigger] s.drop_last()[i]).0 == ("sign")@;
                assert(s[i].0 == ("sign")@);
            }
        }
        lemma_strip_no_sign(s.drop_last());
        assert(strip_sign(s) == strip_sign(s.drop_last()).push(s.last()));
        assert(strip_sign(s) =~= s);
    }
}

/// For an input that holds none of `appkey`, `ts` and `sign`, the signed
/// set minus its `sign` entry is exactly the input with `appkey` and `ts`
/// appended: every original pair appears unchanged, and so the canonical
/// serialization differs from the input's only by those two entries.
pub proof fn lemma_sign_adds_exactly_credentials(
    q: Seq<(Seq<char>, Seq<char>)>,
    k: Seq<char>,
    sec: Seq<char>,
    ts: u64,
)
    requires
        unique_keys(q),
        !has_key(q, ("appkey")@),
        !has_key(q, ("ts")@),
        !has_key(q, ("sign")@),
    ensures
        strip_sign(sign_at_spec(q, k, sec, ts))
            == q.push((("appkey")@, k)).push((("ts")@, dec_str(ts as nat))),
        canonical_of(strip_sign(sign_at_spec(q, k, sec, ts)))
            == canonical_of(q.push((("appkey")@, k)).push((("ts")@, dec_str(ts as nat)))),
{
    reveal_signing_keys();
    let tsv = dec_str(ts as nat);
    let i1 = pairs_insert(q, ("appkey")@, k);
    assert(i1 == q.push((("appkey")@, k)));
    assert(!has_key(i1, ("ts")@)) by {
        if has_key(i1, ("ts")@) {
            let i = choose|i: int| 0 <= i < i1.len() && (#[trigger] i1[i]).0 == ("ts")@;
            if i < q.len() {
                assert(q[i].0 == ("ts")@);
            } else {
                assert(i1[i] == (("appkey")@, k));
            }
        }
    }
    let i2 = pairs_insert(i1, ("ts")@, tsv);
    assert(i2 == i1.push((("ts")@, tsv)));
    assert(!has_key(i2, ("sign")@)) by {
        if has_key(i2, ("sign")@) {
            let i = choose|i: int| 0 <= i < i2.len() && (#[trigger] i2[i]).0 == ("sign")@;
            if i < q.len() {
                assert(q[i].0 == ("sign")@);
            } else if i == q.len() {
                assert(i2[i] == (("appkey")@, k));
            } else {
                assert(i2[i] == (("ts")@, tsv));
            }
        }
    }
    let sig = signature_of(strip_sign(i2), sec);
    let s3 = pairs_insert(i2, ("sign")@, sig);
    assert(s3 == i2.push((("sign")@, sig)));
    reveal(Seq::filter);
    assert(s3.drop_last() =~= i2);
    assert(s3.last() == (("sign")@, sig));
    assert(strip_sign(s3) == strip_sign(i2));
    lemma_strip_no_sign(i2);
    assert(strip_sign(sign_at_spec(q, k, sec, ts)) == i2);
}

proof fn lemma_insert_has(s: Seq<(Seq<char>, Seq<char>)>, k: Seq<char>, v: Seq<char>)
    ensures
        has_key(pairs_insert(s, k, v), k),
{
    let t = pairs_insert(s, k, v);
    if has_key(s, k) {
        let i = key_index(s, k);
        assert(0 <= i < s.len() && s[i].0 == k);
        assert(t[i] == (k, v));
    } else {
        assert(t[s.len() as int] == (k, v));
    }
}

proof fn lemma_insert_preserves_has(
    s: Seq<(Seq<char>, Seq<char>)>,
    k: Seq<char>,
    k2: Seq<char>,
    v: Seq<char>,
)
    requires
        has_key(s, k),
        k2 != k,
    ensures
        has_key(pairs_insert(s, k2, v), k),
{
    let i = choose|i: int| 0 <= i < s.len() && (#[trigger] s[i]).0 == k;
    let t = pairs_insert(s, k2, v);
    if has_key(s, k2) {
        let j = key_index(s, k2);
        assert(0 <= j < s.len() && s[j].0 == k2);
        assert(i != j);
        assert(t[i] == s[i]);
    } else {
        assert(t[i] == s[i]);
    }
}

proof fn lemma_map_of_value(s: Seq<(Seq<char>, Seq<char>)>, k: Seq<char>)
    requires
        unique_keys(s),
        has_key(s, k),
    ensures
        map_of(s).contains_key(k),
        map_of(s)[k] == s[key_index(s, k)].1,
    decreases s.len(),
{
    let i = key_index(s, k);
    assert(0 <= i < s.len() && s[i].0 == k);
    if i == s.len() - 1 {
        assert(map_of(s)[k] == s.last().1);
    } else {
        assert(s.last().0 != k);
        lemma_unique_drop_last(s);
        assert(s.drop_last()[i] == s[i]);
        assert(has_key(s.drop_last(), k));
        lemma_map_of_value(s.drop_last(), k);
        let j = key_index(s.drop_last(), k);
        assert(0 <= j < s.drop_last().len() && s.drop_last()[j].0 == k);
        assert(s.drop_last()[j] == s[j]);
        assert(j == i);
        assert(map_of(s)[k] == map_of(s.drop_last())[k]);
    }
}

proof fn lemma_insert_same_value(s: Seq<(Seq<char>, Seq<char>)>, k: Seq<char>)
    requires
        unique_keys(s),
        has_key(s, k),
    ensures
        pairs_insert(s, k, s[key_index(s, k)].1) == s,
{
    let i = key_index(s, k);
    assert(0 <= i < s.len() && s[i].0 == k);
    assert(s.update(i, (k, s[i].1)) =~= s);
}

proof fn reveal_signing_keys()
    ensures
        ("appkey")@.len() == 6,
        ("ts")@.len() == 2,
        ("sign")@.len() == 4,
{
    reveal_strlit("appkey");
    reveal_strlit("ts");
    reveal_strlit("sign");
}

/// Signing at a fixed timestamp changes the parameter mapping, apart from
/// its `sign` entry, only by setting `appkey` and `ts`: every other
/// parameter keeps its value, and none is dropped.
pub proof fn lemma_sign_changes_only_credentials(
    q: Seq<(Seq<char>, Seq<char>)>,
    k: Seq<char>,
    sec: Seq<char>,
    ts: u64,
)
    requires
        unique_keys(q),
    ensures
        map_of(strip_sign(sign_at_spec(q, k, sec, ts)))
            == map_of(strip_sign(q)).insert(("appkey")@, k).insert(("ts")@, dec_str(ts as nat)),
{
    reveal_signing_keys();
    let tsv = dec_str(ts as nat);
    let i1 = pairs_insert(q, ("appkey")@, k);
    let i2 = pairs_insert(i1, ("ts")@, tsv);
    let sig = signature_of(strip_sign(i2), sec);
    let s3 = pairs_insert(i2, ("sign")@, sig);
    lemma_pairs_insert_map(q, ("appkey")@, k);
    lemma_pairs_insert_map(i1, ("ts")@, tsv);
    lemma_pairs_insert_map(i2, ("sign")@, sig);
    lemma_strip_map(s3);
    lemma_strip_map(q);
    assert(map_of(strip_sign(s3))
        == map_of(q).insert(("appkey")@, k).insert(("ts")@, tsv).insert(("sign")@, sig).remove(
        ("sign")@));
    assert(map_of(strip_sign(s3))
        =~= map_of(q).remove(("sign")@).insert(("appkey")@, k).insert(("ts")@, tsv));
}

/// Fixing the timestamp, signing is idempotent: signing an already-signed
/// parameter set again, with the same credential pair and the same
/// timestamp, changes nothing at all.
pub proof fn lemma_sign_idempotent_at(
    q: Seq<(Seq<char>, Seq<char>)>,
    k: Seq<char>,
    sec: Seq<char>,
    ts: u64,
)
    requires
        unique_keys(q),
    ensures
        sign_at_spec(sign_at_spec(q, k, sec, ts), k, sec, ts) == sign_at_spec(q, k, sec, ts),
{
    reveal_signing_keys();
    let tsv = dec_str(ts as nat);
    let i1 = pairs_insert(q, ("appkey")@, k);
    let i2 = pairs_insert(i1, ("ts")@, tsv);
    let sig = signature_of(strip_sign(i2), sec);
    let s = pairs_insert(i2, ("sign")@, sig);
    lemma_pairs_insert_map(q, ("appkey")@, k);
    lemma_pairs_insert_map(i1, ("ts")@, tsv);
    lemma_pairs_insert_map(i2, ("sign")@, sig);

    // `appkey` still carries `k` in the signed set
    lemma_insert_has(q, ("appkey")@, k);
    lemma_insert_preserves_has(i1, ("appkey")@, ("ts")@, tsv);
    lemma_insert_preserves_has(i2, ("appkey")@, ("sign")@, sig);
    lemma_map_of_value(s, ("appkey")@);
    assert(map_of(s)[("appkey")@] == k);
    assert(s[key_index(s, ("appkey")@)].0 == ("appkey")@);
    lemma_insert_same_value(s, ("appkey")@);
    let j1 = pairs_insert(s, ("appkey")@, k);
    assert(j1 == s);

    // `ts` still carries the timestamp in the signed set
    lemma_insert_has(i1, ("ts")@, tsv);
    lemma_insert_preserves_has(i2, ("ts")@, ("sign")@, sig);
    lemma_map_of_value(s, ("ts")@);
    assert(map_of(s)[("ts")@] == tsv);
    lemma_insert_same_value(s, ("ts")@);
    let j2 = pairs_insert(j1, ("ts")@, tsv);
    assert(j2 == s);

    // the second signature equals the first
    lemma_strip_insert_sign(i2, sig);
    assert(strip_sign(j2) == strip_sign(i2));
    let sig2 = signature_of(strip_sign(j2), sec);
    assert(sig2 == sig);

    // re-inserting the same signature changes nothing
    lemma_insert_has(i2, ("sign")@, sig);
    lemma_map_of_value(s, ("sign")@);
    assert(map_of(s)[("sign")@] == sig);
    lemma_insert_same_value(s, ("sign")@);
    assert(pairs_insert(j2, ("sign")@, sig2) == s);
    assert(sign_at_spec(s, k, sec, ts) == s);
}

/// A success-range response whose body does not parse to a code but holds
/// the literal `"code":0,` marker is classified as a success, whatever else
/// the body holds.
pub proof fn lemma_fallback_marker_success(status: u16, body: Seq<char>, ms: nat)
    requires
        status_is_success(status),
        json_code_of(body) is None,
        contains_seq(body, code_zero_marker()),
    ensures
        classify_spec(status, body, ms) == (OutcomeModel::Success { ms }),
{
}

/// A response with HTTP status 500 is classified as a failure, and its
/// reason holds `status code: 500`, whatever the body.
pub proof fn lemma_status_500_failure(body: Seq<char>, ms: nat)
    ensures
        classify_spec(500, body, ms) matches OutcomeModel::Failure { reason }
            && contains_seq(reason, ("status code: 500")@),
{
    reveal_strlit("status code: ");
    reveal_strlit("status code: 500");
    assert(dec_str(500) =~= seq!['5', '0', '0']) by {
        assert(dec_str(5) =~= seq!['5']);
        assert(dec_str(50) =~= dec_str(5).push('0'));
        assert(dec_str(500) =~= dec_str(50).push('0'));
    }
    let reason = ("status code: ")@ + dec_str(500);
    assert(classify_spec(500, body, ms) == (OutcomeModel::Failure { reason }));
    assert(reason =~= ("status code: 500")@);
    assert(reason.subrange(0, ("status code: 500")@.len() as int) =~= ("status code: 500")@);
    assert(contains_seq(reason, ("status code: 500")@)) by {
        assert(0 <= 0int && 0 + ("status code: 500")@.len() <= reason.len()
            && reason.subrange(0, 0 + ("status code: 500")@.len() as int)
                == ("status code: 500")@);
    }
}

} // verus!
