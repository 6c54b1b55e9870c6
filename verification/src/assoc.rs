//! Association lists with distinct keys, viewed as maps.
//!
//! The engine stores each of its three indices as a vector of pairs. This
//! module gives such a sequence its map view — through a key view function
//! and a value view function, so one set of lemmas serves every index —
//! and proves how lookup, removal and insertion move between the two.

use vstd::prelude::*;

verus! {

/// The map that a sequence of pairs denotes, later entries shadowing
/// earlier ones (with distinct keys nothing shadows).
pub open spec fn assoc_map<KE, VE, K, V>(
    s: Seq<(KE, VE)>,
    kf: spec_fn(KE) -> K,
    vf: spec_fn(VE) -> V,
) -> Map<K, V>
    decreases s.len(),
{
    if s.len() == 0 {
        Map::empty()
    } else {
        assoc_map(s.drop_last(), kf, vf).insert(kf(s.last().0), vf(s.last().1))
    }
}

/// No two entries share a key.
pub open spec fn distinct_keys<KE, VE, K>(s: Seq<(KE, VE)>, kf: spec_fn(KE) -> K) -> bool {
    forall|i: int, j: int| #![trigger s[i], s[j]]
        0 <= i < j < s.len() ==> kf(s[i].0) != kf(s[j].0)
}

/// With distinct keys, each entry is in the map, under its key, with its
/// value.
pub proof fn lemma_assoc_map_index<KE, VE, K, V>(
    s: Seq<(KE, VE)>,
    kf: spec_fn(KE) -> K,
    vf: spec_fn(VE) -> V,
    i: int,
)
    requires
        distinct_keys(s, kf),
        0 <= i < s.len(),
    ensures
        assoc_map(s, kf, vf).dom().contains(kf(s[i].0)),
        assoc_map(s, kf, vf)[kf(s[i].0)] == vf(s[i].1),
    decreases s.len(),
{
    if i < s.len() - 1 {
        lemma_assoc_map_index(s.drop_last(), kf, vf, i);
    }
}

/// A key is in the map exactly when some entry carries it.
pub proof fn lemma_assoc_map_dom<KE, VE, K, V>(
    s: Seq<(KE, VE)>,
    kf: spec_fn(KE) -> K,
    vf: spec_fn(VE) -> V,
    k: K,
)
    ensures
        assoc_map(s, kf, vf).dom().contains(k) <==> exists|i: int|
            0 <= i < s.len() && kf(#[trigger] s[i].0) == k,
    decreases s.len(),
{
    if s.len() > 0 {
        lemma_assoc_map_dom(s.drop_last(), kf, vf, k);
        if kf(s.last().0) == k {
            assert(kf(s[s.len() - 1].0) == k);
        } else if exists|i: int| 0 <= i < s.len() && kf(#[trigger] s[i].0) == k {
            let i = choose|i: int| 0 <= i < s.len() && kf(#[trigger] s[i].0) == k;
            assert(kf(s.drop_last()[i].0) == k);
        }
    }
}

/// Removing the entry at `i` removes its key from the map and keeps the
/// keys distinct.
pub proof fn lemma_assoc_map_remove<KE, VE, K, V>(
    s: Seq<(KE, VE)>,
    kf: spec_fn(KE) -> K,
    vf: spec_fn(VE) -> V,
    i: int,
)
    requires
        distinct_keys(s, kf),
        0 <= i < s.len(),
    ensures
        distinct_keys(s.remove(i), kf),
        assoc_map(s.remove(i), kf, vf) == assoc_map(s, kf, vf).remove(kf(s[i].0)),
    decreases s.len(),
{
    let k = kf(s[i].0);
    assert forall|p: int, q: int| #![trigger s.remove(i)[p], s.remove(i)[q]]
        0 <= p < q < s.remove(i).len() implies kf(s.remove(i)[p].0) != kf(
        s.remove(i)[q].0,
    ) by {
        let p0 = if p < i { p } else { p + 1 };
        let q0 = if q < i { q } else { q + 1 };
        assert(s.remove(i)[p] == s[p0] && s.remove(i)[q] == s[q0]);
    }
    if i == s.len() - 1 {
        assert(s.remove(i) =~= s.drop_last());
        lemma_assoc_map_dom(s.drop_last(), kf, vf, k);
        assert(!assoc_map(s.drop_last(), kf, vf).dom().contains(k));
        assert(assoc_map(s.remove(i), kf, vf) =~= assoc_map(s, kf, vf).remove(k));
    } else {
        lemma_assoc_map_remove(s.drop_last(), kf, vf, i);
        assert(s.remove(i).drop_last() =~= s.drop_last().remove(i));
        assert(s.remove(i).last() == s.last());
        assert(assoc_map(s.remove(i), kf, vf) =~= assoc_map(s, kf, vf).remove(k));
    }
}

/// Appending an entry under a fresh key inserts it into the map and keeps
/// the keys distinct.
pub proof fn lemma_assoc_map_push<KE, VE, K, V>(
    s: Seq<(KE, VE)>,
    kf: spec_fn(KE) -> K,
    vf: spec_fn(VE) -> V,
    ke: KE,
    ve: VE,
)
    requires
        distinct_keys(s, kf),
        !assoc_map(s, kf, vf).dom().contains(kf(ke)),
    ensures
        distinct_keys(s.push((ke, ve)), kf),
        assoc_map(s.push((ke, ve)), kf, vf) == assoc_map(s, kf, vf).insert(kf(ke), vf(ve)),
{
    lemma_assoc_map_dom(s, kf, vf, kf(ke));
    let s2 = s.push((ke, ve));
    assert forall|p: int, q: int| #![trigger s2[p], s2[q]]
        0 <= p < q < s2.len() implies kf(s2[p].0) != kf(s2[q].0) by {
        if q < s.len() {
            assert(s2[p] == s[p] && s2[q] == s[q]);
        } else {
            assert(s2[q] == (ke, ve) && s2[p] == s[p]);
        }
    }
    assert(s2.drop_last() =~= s);
    assert(s2.last() == (ke, ve));
}

} // verus!
