//! The keying stage: deduplicate the referenced mesh identities and group
//! them under their structural signatures, in a canonical order.

use vstd::prelude::*;
use crate::types::{BatchError, InstancedMeshKey, MeshId, RenderMeshes, key_equal, key_less, key_lt, lemma_key_order_total};

verus! {

/// An identity sequence in strictly increasing order, hence duplicate-free.
pub open spec fn sorted_unique_ids(s: Seq<MeshId>) -> bool {
    forall|i: int, j: int| 0 <= i < j < s.len() ==> s[i] < s[j]
}

/// A signature sequence in strictly increasing key order, hence
/// duplicate-free.
pub open spec fn sorted_unique_keys(s: Seq<InstancedMeshKey>) -> bool {
    forall|i: int, j: int| 0 <= i < j < s.len() ==> key_lt(s[i], s[j])
}

/// Every referenced identity has a record in the mesh-data table.
pub open spec fn all_refs_present(refs: Seq<MeshId>, meshes: &RenderMeshes) -> bool {
    forall|i: int| 0 <= i < refs.len() ==> meshes.contains_id(refs[i])
}

/// `g` is exactly the group of signature `k`: ordered canonically, not
/// empty, and holding an identity exactly when it is referenced and its
/// record carries `k`.
pub open spec fn group_matches(
    k: InstancedMeshKey,
    g: Seq<MeshId>,
    refs: Seq<MeshId>,
    meshes: &RenderMeshes,
) -> bool {
    &&& sorted_unique_ids(g)
    &&& g.len() > 0
    &&& forall|m: MeshId|
        #[trigger] g.contains(m) <==> refs.contains(m) && meshes.spec_get(m).unwrap().key == k
}

/// `groups` is the keyed grouping of `refs`: groups in strictly increasing
/// key order, each group exactly the members of its key, and a group for
/// every referenced identity's key.
pub open spec fn is_keyed_grouping(
    groups: Seq<(InstancedMeshKey, Vec<MeshId>)>,
    refs: Seq<MeshId>,
    meshes: &RenderMeshes,
) -> bool {
    &&& forall|i: int, j: int|
        0 <= i < j < groups.len() ==> key_lt(groups[i].0, groups[j].0)
    &&& forall|i: int|
        0 <= i < groups.len() ==> group_matches(
            groups[i].0,
            #[trigger] groups[i].1@,
            refs,
            meshes,
        )
    &&& forall|m: MeshId|
        refs.contains(m) ==> exists|i: int|
            0 <= i < groups.len() && #[trigger] groups[i].0 == meshes.spec_get(m).unwrap().key
}

/// The first referenced identity without a record, if any: `id` stands at
/// position `i` of `refs`, has no record, and everything before it has one.
pub open spec fn first_missing(refs: Seq<MeshId>, meshes: &RenderMeshes, id: MeshId) -> bool {
    exists|i: int|
        {
            &&& 0 <= i < refs.len()
            &&& #[trigger] refs[i] == id
            &&& !meshes.contains_id(id)
            &&& forall|j: int| 0 <= j < i ==> meshes.contains_id(#[trigger] refs[j])
        }
}

fn insert_sorted_id(v: &mut Vec<MeshId>, x: MeshId)
    requires
        sorted_unique_ids(old(v)@),
    ensures
        sorted_unique_ids(final(v)@),
        forall|y: MeshId|
            #[trigger] final(v)@.contains(y) <==> old(v)@.contains(y) || y == x,
{
    let ghost s = v@;
    let mut p: usize = 0;
    while p < v.len() && v[p] < x
        invariant
            v@ == s,
            p <= s.len(),
            sorted_unique_ids(s),
            forall|j: int| 0 <= j < p ==> s[j] < x,
        decreases s.len() - p,
    {
        p = p + 1;
    }
    if p < v.len() && v[p] == x {
        proof {
            assert(s.contains(x)) by {
                assert(s[p as int] == x);
            }
        }
        return;
    }
    v.insert(p, x);
    proof {
        s.insert_ensures(p as int, x);
        let t = v@;
        assert forall|i: int, j: int| 0 <= i < j < t.len() implies t[i] < t[j] by {
            if j < p {
                assert(t[i] == s[i] && t[j] == s[j]);
            } else if i > p {
                assert(t[i] == s[i - 1] && t[j] == s[j - 1]);
            } else if i < p && j == p {
                assert(t[i] == s[i] && t[j] == x);
            } else if i == p {
                assert(t[i] == x && t[j] == s[j - 1]);
                assert(p < s.len() ==> s[p as int] > x);
                assert(s[p as int] <= s[j - 1]);
            } else {
                assert(i < p && j > p);
                assert(t[i] == s[i] && t[j] == s[j - 1]);
                assert(p < s.len() ==> x < s[p as int]);
                if j - 1 == p {
                    assert(t[j] == s[p as int]);
                }
            }
        }
        assert forall|y: MeshId| #[trigger] t.contains(y) implies s.contains(y) || y == x by {
            let k = choose|k: int| 0 <= k < t.len() && t[k] == y;
            if k < p {
                assert(s[k] == y);
            } else if k > p {
                assert(s[k - 1] == y);
            }
        }
        assert forall|y: MeshId| s.contains(y) || y == x implies #[trigger] t.contains(y) by {
            if y == x {
                assert(t[p as int] == x);
            } else {
                let k = choose|k: int| 0 <= k < s.len() && s[k] == y;
                if k < p {
                    assert(t[k] == y);
                } else {
                    assert(t[k + 1] == y);
                }
            }
        }
    }
}

fn insert_sorted_key(v: &mut Vec<InstancedMeshKey>, x: InstancedMeshKey)
    requires
        sorted_unique_keys(old(v)@),
    ensures
        sorted_unique_keys(final(v)@),
        forall|y: InstancedMeshKey|
            #[trigger] final(v)@.contains(y) <==> old(v)@.contains(y) || y == x,
{
    let ghost s = v@;
    let mut p: usize = 0;
    while p < v.len() && key_less(&v[p], &x)
        invariant
            v@ == s,
            p <= s.len(),
            sorted_unique_keys(s),
            forall|j: int| 0 <= j < p ==> key_lt(s[j], x),
        decreases s.len() - p,
    {
        p = p + 1;
    }
    if p < v.len() && key_equal(&v[p], &x) {
        proof {
            assert(s.contains(x)) by {
                assert(s[p as int] == x);
            }
        }
        return;
    }
    v.insert(p, x);
    proof {
        s.insert_ensures(p as int, x);
        if p < s.len() {
            lemma_key_order_total(s[p as int], x);
        }
        let t = v@;
        assert forall|i: int, j: int| 0 <= i < j < t.len() implies key_lt(t[i], t[j]) by {
            if j < p {
                assert(t[i] == s[i] && t[j] == s[j]);
            } else if i > p {
                assert(t[i] == s[i - 1] && t[j] == s[j - 1]);
            } else if i < p && j == p {
                assert(t[i] == s[i] && t[j] == x);
            } else if i == p {
                assert(t[i] == x && t[j] == s[j - 1]);
                assert(key_lt(x, s[p as int]));
                if j - 1 > p {
                    assert(key_lt(s[p as int], s[j - 1]));
                    lemma_key_lt_trans(x, s[p as int], s[j - 1]);
                }
            } else {
                assert(i < p && j > p);
                assert(t[i] == s[i] && t[j] == s[j - 1]);
                if j - 1 == p {
                    assert(t[j] == s[p as int]);
                    assert(key_lt(s[i], x) && key_lt(x, s[p as int]));
                    lemma_key_lt_trans(s[i], x, s[p as int]);
                }
            }
        }
        assert forall|y: InstancedMeshKey| #[trigger] t.contains(y) implies s.contains(y) || y == x by {
            let k = choose|k: int| 0 <= k < t.len() && t[k] == y;
            if k < p {
                assert(s[k] == y);
            } else if k > p {
                assert(s[k - 1] == y);
            }
        }
        assert forall|y: InstancedMeshKey| s.contains(y) || y == x implies #[trigger] t.contains(y) by {
            if y == x {
                assert(t[p as int] == x);
            } else {
                let k = choose|k: int| 0 <= k < s.len() && s[k] == y;
                if k < p {
                    assert(t[k] == y);
                } else {
                    assert(t[k + 1] == y);
                }
            }
        }
    }
}

/// Some identity among the first `i` of `refs` equals `y`.
pub open spec fn seen_before(refs: Seq<MeshId>, i: int, y: MeshId) -> bool {
    exists|j: int| 0 <= j < i && #[trigger] refs[j] == y
}

/// Some identity among the first `i` of `distinct` carries signature `k`.
pub open spec fn key_seen(
    distinct: Seq<MeshId>,
    meshes: &RenderMeshes,
    i: int,
    k: InstancedMeshKey,
) -> bool {
    exists|j: int|
        0 <= j < i && meshes.spec_get(#[trigger] distinct[j]).unwrap().key == k
}

proof fn lemma_contains_push<A>(s: Seq<A>, a: A)
    ensures
        forall|y: A| #[trigger] s.push(a).contains(y) <==> s.contains(y) || y == a,
{
    assert forall|y: A| #[trigger] s.push(a).contains(y) implies s.contains(y) || y == a by {
        let k = choose|k: int| 0 <= k < s.push(a).len() && s.push(a)[k] == y;
        if k < s.len() {
            assert(s[k] == y);
        }
    }
    assert forall|y: A| s.contains(y) || y == a implies #[trigger] s.push(a).contains(y) by {
        if y == a {
            assert(s.push(a)[s.len() as int] == y);
        } else {
            let k = choose|k: int| 0 <= k < s.len() && s[k] == y;
            assert(s.push(a)[k] == y);
        }
    }
}

/// Groups the referenced meshes by signature: deduplicates the identities,
/// looks each one up, and emits one group per distinct signature, groups
/// ordered by the key order and members ordered by identity. Fails on the
/// first referenced identity that has no record.
pub fn key_meshes(refs: &Vec<MeshId>, meshes: &RenderMeshes) -> (r: Result<
    Vec<(InstancedMeshKey, Vec<MeshId>)>,
    BatchError,
>)
    ensures
        match r {
            Ok(groups) => all_refs_present(refs@, meshes) && is_keyed_grouping(
                groups@,
                refs@,
                meshes,
            ),
            Err(e) => {
                &&& !all_refs_present(refs@, meshes)
                &&& match e {
                    BatchError::MissingMeshRecord(id) => first_missing(refs@, meshes, id),
                    _ => false,
                }
            },
        },
{
    let mut distinct: Vec<MeshId> = Vec::new();
    let n = refs.len();
    let mut i: usize = 0;
    while i < n
        invariant
            n == refs@.len(),
            i <= n,
            sorted_unique_ids(distinct@),
            forall|j: int| 0 <= j < i ==> meshes.contains_id(#[trigger] refs@[j]),
            forall|y: MeshId| #[trigger] distinct@.contains(y) <==> seen_before(refs@, i as int, y),
        decreases n - i,
    {
        let id = refs[i];
        if meshes.get(id).is_none() {
            proof {
                assert(refs@[i as int] == id);
                assert(!all_refs_present(refs@, meshes));
            }
            return Err(BatchError::MissingMeshRecord(id));
        }
        insert_sorted_id(&mut distinct, id);
        proof {
            assert forall|y: MeshId| #[trigger] distinct@.contains(y) implies seen_before(
                refs@,
                i + 1,
                y,
            ) by {
                if y == id {
                    assert(refs@[i as int] == y);
                } else {
                    let j = choose|j: int| 0 <= j < i && #[trigger] refs@[j] == y;
                    assert(refs@[j] == y);
                }
            }
            assert forall|y: MeshId| seen_before(refs@, i + 1, y) implies #[trigger] distinct@.contains(
                y,
            ) by {
                let j = choose|j: int| 0 <= j < i + 1 && #[trigger] refs@[j] == y;
                if j < i {
                    assert(seen_before(refs@, i as int, y));
                }
            }
        }
        i = i + 1;
    }
    proof {
        assert forall|y: MeshId| #[trigger] distinct@.contains(y) <==> refs@.contains(y) by {
            if seen_before(refs@, n as int, y) {
                let j = choose|j: int| 0 <= j < n && #[trigger] refs@[j] == y;
                assert(refs@.contains(y));
            }
            if refs@.contains(y) {
                let j = choose|j: int| 0 <= j < refs@.len() && refs@[j] == y;
                assert(refs@[j] == y);
                assert(seen_before(refs@, n as int, y));
            }
        }
        assert forall|j: int| 0 <= j < distinct@.len() implies meshes.contains_id(
            #[trigger] distinct@[j],
        ) by {
            assert(distinct@.contains(distinct@[j]));
            assert(refs@.contains(distinct@[j]));
            let x = choose|x: int| 0 <= x < refs@.len() && refs@[x] == distinct@[j];
            assert(meshes.contains_id(refs@[x]));
        }
    }

    let mut keys: Vec<InstancedMeshKey> = Vec::new();
    let dn = distinct.len();
    let mut di: usize = 0;
    while di < dn
        invariant
            dn == distinct@.len(),
            di <= dn,
            sorted_unique_keys(keys@),
            forall|j: int| 0 <= j < dn ==> meshes.contains_id(#[trigger] distinct@[j]),
            forall|k: InstancedMeshKey|
                #[trigger] keys@.contains(k) <==> key_seen(distinct@, meshes, di as int, k),
        decreases dn - di,
    {
        let id = distinct[di];
        let rec_opt = meshes.get(id);
        proof {
            assert(meshes.contains_id(distinct@[di as int]));
        }
        let rec = rec_opt.unwrap();
        let ghost k0 = rec.key;
        insert_sorted_key(&mut keys, rec.key);
        proof {
            assert forall|k: InstancedMeshKey| #[trigger] keys@.contains(k) implies key_seen(
                distinct@,
                meshes,
                di + 1,
                k,
            ) by {
                if k == k0 {
                    assert(meshes.spec_get(distinct@[di as int]).unwrap().key == k);
                } else {
                    let j = choose|j: int|
                        0 <= j < di && meshes.spec_get(#[trigger] distinct@[j]).unwrap().key == k;
                    assert(meshes.spec_get(distinct@[j]).unwrap().key == k);
                }
            }
            assert forall|k: InstancedMeshKey| key_seen(distinct@, meshes, di + 1, k) implies #[trigger] keys@.contains(
                k,
            ) by {
                let j = choose|j: int|
                    0 <= j < di + 1 && meshes.spec_get(#[trigger] distinct@[j]).unwrap().key == k;
                if j < di {
                    assert(key_seen(distinct@, meshes, di as int, k));
                }
            }
        }
        di = di + 1;
    }

    let kn = keys.len();
    let mut groups: Vec<(InstancedMeshKey, Vec<MeshId>)> = Vec::new();
    let mut ki: usize = 0;
    while ki < kn
        invariant
            kn == keys@.len(),
            ki <= kn,
            dn == distinct@.len(),
            sorted_unique_ids(distinct@),
            sorted_unique_keys(keys@),
            forall|j: int| 0 <= j < dn ==> meshes.contains_id(#[trigger] distinct@[j]),
            forall|y: MeshId| #[trigger] distinct@.contains(y) <==> refs@.contains(y),
            forall|k: InstancedMeshKey|
                #[trigger] keys@.contains(k) <==> key_seen(distinct@, meshes, dn as int, k),
            groups@.len() == ki,
            forall|i2: int| 0 <= i2 < ki ==> (#[trigger] groups@[i2]).0 == keys@[i2],
            forall|i2: int|
                0 <= i2 < ki ==> group_matches(
                    (#[trigger] groups@[i2]).0,
                    groups@[i2].1@,
                    refs@,
                    meshes,
                ),
        decreases kn - ki,
    {
        let k = keys[ki];
        let mut g: Vec<MeshId> = Vec::new();
        let mut gi: usize = 0;
        while gi < dn
            invariant
                dn == distinct@.len(),
                gi <= dn,
                sorted_unique_ids(distinct@),
                forall|j: int| 0 <= j < dn ==> meshes.contains_id(#[trigger] distinct@[j]),
                sorted_unique_ids(g@),
                forall|m: MeshId|
                    #[trigger] g@.contains(m) <==> exists|j: int|
                        0 <= j < gi && #[trigger] distinct@[j] == m && meshes.spec_get(
                            m,
                        ).unwrap().key == k,
            decreases dn - gi,
        {
            let id = distinct[gi];
            let rec_opt = meshes.get(id);
            proof {
                assert(meshes.contains_id(distinct@[gi as int]));
            }
            let rec = rec_opt.unwrap();
            if key_equal(&rec.key, &k) {
                proof {
                    lemma_contains_push(g@, id);
                    assert forall|m: MeshId| g@.contains(m) implies m < id by {
                        let j = choose|j: int|
                            0 <= j < gi && #[trigger] distinct@[j] == m && meshes.spec_get(
                                m,
                            ).unwrap().key == k;
                        assert(distinct@[j] < distinct@[gi as int]);
                    }
                    let t = g@.push(id);
                    assert forall|i2: int, j2: int| 0 <= i2 < j2 < t.len() implies t[i2] < t[j2] by {
                        if j2 < g@.len() {
                            assert(t[i2] == g@[i2] && t[j2] == g@[j2]);
                        } else {
                            assert(t[j2] == id);
                            assert(g@.contains(g@[i2]));
                            assert(t[i2] == g@[i2]);
                        }
                    }
                }
                g.push(id);
            }
            proof {
                let gs = g@;
                assert forall|m: MeshId| #[trigger] gs.contains(m) implies exists|j: int|
                    0 <= j < gi + 1 && #[trigger] distinct@[j] == m && meshes.spec_get(
                        m,
                    ).unwrap().key == k by {
                    if m == distinct@[gi as int] && meshes.spec_get(m).unwrap().key == k {
                        assert(distinct@[gi as int] == m);
                    } else {
                        let j = choose|j: int|
                            0 <= j < gi && #[trigger] distinct@[j] == m && meshes.spec_get(
                                m,
                            ).unwrap().key == k;
                        assert(distinct@[j] == m);
                    }
                }
                assert forall|m: MeshId|
                    (exists|j: int|
                        0 <= j < gi + 1 && #[trigger] distinct@[j] == m && meshes.spec_get(
                            m,
                        ).unwrap().key == k) implies #[trigger] gs.contains(m) by {
                    let j = choose|j: int|
                        0 <= j < gi + 1 && #[trigger] distinct@[j] == m && meshes.spec_get(
                            m,
                        ).unwrap().key == k;
                }
            }
            gi = gi + 1;
        }
        proof {
            assert(keys@.contains(k)) by {
                assert(keys@[ki as int] == k);
            }
            let j = choose|j: int|
                0 <= j < dn && meshes.spec_get(#[trigger] distinct@[j]).unwrap().key == k;
            assert(g@.contains(distinct@[j]));
            assert(g@.len() > 0);
            assert forall|m: MeshId| #[trigger] g@.contains(m) implies refs@.contains(m)
                && meshes.spec_get(m).unwrap().key == k by {
                let j2 = choose|j2: int|
                    0 <= j2 < dn && #[trigger] distinct@[j2] == m && meshes.spec_get(
                        m,
                    ).unwrap().key == k;
                assert(distinct@.contains(m));
            }
            assert forall|m: MeshId|
                refs@.contains(m) && meshes.spec_get(m).unwrap().key == k implies #[trigger] g@.contains(
                m,
            ) by {
                assert(distinct@.contains(m));
                let j2 = choose|j2: int| 0 <= j2 < dn && distinct@[j2] == m;
                assert(distinct@[j2] == m);
            }
            assert(group_matches(k, g@, refs@, meshes));
        }
        let ghost old_groups = groups@;
        groups.push((k, g));
        proof {
            assert(groups@ == old_groups.push((keys@[ki as int], g)));
            assert forall|i2: int| 0 <= i2 < ki + 1 implies (#[trigger] groups@[i2]).0
                == keys@[i2] by {
                if i2 < ki {
                    assert(groups@[i2] == old_groups[i2]);
                }
            }
        }
        ki = ki + 1;
    }
    proof {
        assert forall|i2: int, j2: int| 0 <= i2 < j2 < groups@.len() implies key_lt(
            groups@[i2].0,
            groups@[j2].0,
        ) by {
            assert(groups@[i2].0 == keys@[i2] && groups@[j2].0 == keys@[j2]);
        }
        assert forall|m: MeshId| refs@.contains(m) implies exists|i2: int|
            0 <= i2 < groups@.len() && #[trigger] groups@[i2].0 == meshes.spec_get(
            m,
        ).unwrap().key by {
            assert(distinct@.contains(m));
            let j = choose|j: int| 0 <= j < dn && distinct@[j] == m;
            assert(meshes.spec_get(#[trigger] distinct@[j]).unwrap().key == meshes.spec_get(
                m,
            ).unwrap().key);
            assert(key_seen(distinct@, meshes, dn as int, meshes.spec_get(m).unwrap().key));
            assert(keys@.contains(meshes.spec_get(m).unwrap().key));
            let i2 = choose|i2: int|
                0 <= i2 < keys@.len() && keys@[i2] == meshes.spec_get(m).unwrap().key;
            assert(groups@[i2].0 == keys@[i2]);
        }
    }
    Ok(groups)
}

/// `key_lt` is transitive.
pub proof fn lemma_key_lt_trans(a: InstancedMeshKey, b: InstancedMeshKey, c: InstancedMeshKey)
    requires
        key_lt(a, b),
        key_lt(b, c),
    ensures
        key_lt(a, c),
{
}

proof fn lemma_sorted_unique_seqs_equal<A>(s1: Seq<A>, s2: Seq<A>, lt: spec_fn(A, A) -> bool)
    requires
        forall|a: A, b: A| #[trigger] lt(a, b) ==> !lt(b, a) && a != b,
        forall|a: A, b: A| a != b ==> #[trigger] lt(a, b) || #[trigger] lt(b, a),
        forall|i: int, j: int| 0 <= i < j < s1.len() ==> lt(s1[i], s1[j]),
        forall|i: int, j: int| 0 <= i < j < s2.len() ==> lt(s2[i], s2[j]),
        forall|y: A| s1.contains(y) <==> s2.contains(y),
    ensures
        s1 == s2,
    decreases s1.len(),
{
    if s1.len() == 0 {
        if s2.len() > 0 {
            assert(s2.contains(s2[0]));
            assert(s1.contains(s2[0]));
        }
        assert(s1 =~= s2);
    } else {
        assert(s1.contains(s1[0]));
        assert(s2.contains(s1[0]));
        let j = choose|j: int| 0 <= j < s2.len() && s2[j] == s1[0];
        assert(s2.contains(s2[0]));
        assert(s1.contains(s2[0]));
        let i = choose|i: int| 0 <= i < s1.len() && s1[i] == s2[0];
        if i > 0 && j > 0 {
            assert(lt(s1[0], s1[i]));
            assert(lt(s2[0], s2[j]));
            assert(false);
        }
        assert(s1[0] == s2[0]);
        let t1 = s1.drop_first();
        let t2 = s2.drop_first();
        assert forall|y: A| #[trigger] t1.contains(y) implies t2.contains(y) by {
            let k = choose|k: int| 0 <= k < t1.len() && t1[k] == y;
            assert(s1[k + 1] == y);
            assert(lt(s1[0], y));
            assert(s1.contains(y));
            assert(s2.contains(y));
            let m = choose|m: int| 0 <= m < s2.len() && s2[m] == y;
            assert(m != 0);
            assert(t2[m - 1] == y);
        }
        assert forall|y: A| #[trigger] t2.contains(y) implies t1.contains(y) by {
            let k = choose|k: int| 0 <= k < t2.len() && t2[k] == y;
            assert(s2[k + 1] == y);
            assert(lt(s2[0], y));
            assert(s2.contains(y));
            assert(s1.contains(y));
            let m = choose|m: int| 0 <= m < s1.len() && s1[m] == y;
            assert(m != 0);
            assert(t1[m - 1] == y);
        }
        lemma_sorted_unique_seqs_equal(t1, t2, lt);
        assert forall|k: int| 0 <= k < s1.len() implies s1[k] == s2[k] by {
            if k > 0 {
                assert(t1[k - 1] == t2[k - 1]);
            }
        }
        assert(s1 =~= s2);
    }
}

/// For one signature and one reference set there is only one group: the
/// members and their order are fully determined.
pub proof fn lemma_group_unique(
    k: InstancedMeshKey,
    g1: Seq<MeshId>,
    g2: Seq<MeshId>,
    refs: Seq<MeshId>,
    meshes: &RenderMeshes,
)
    requires
        group_matches(k, g1, refs, meshes),
        group_matches(k, g2, refs, meshes),
    ensures
        g1 == g2,
{
    let ilt = |a: MeshId, b: MeshId| a < b;
    assert forall|x: int, y: int| 0 <= x < y < g1.len() implies ilt(g1[x], g1[y]) by {
        assert(sorted_unique_ids(g1));
    }
    assert forall|x: int, y: int| 0 <= x < y < g2.len() implies ilt(g2[x], g2[y]) by {
        assert(sorted_unique_ids(g2));
    }
    assert forall|y: MeshId| g1.contains(y) <==> g2.contains(y) by {
        assert(g1.contains(y) <==> refs.contains(y) && meshes.spec_get(y).unwrap().key == k);
        assert(g2.contains(y) <==> refs.contains(y) && meshes.spec_get(y).unwrap().key == k);
    }
    lemma_sorted_unique_seqs_equal(g1, g2, ilt);
}

/// Grouping is deterministic: any two keyed groupings of the same
/// reference set over the same mesh-data table have the same groups, with
/// the same keys, members, and order.
pub proof fn lemma_grouping_deterministic(
    g1: Seq<(InstancedMeshKey, Vec<MeshId>)>,
    g2: Seq<(InstancedMeshKey, Vec<MeshId>)>,
    refs: Seq<MeshId>,
    meshes: &RenderMeshes,
)
    requires
        is_keyed_grouping(g1, refs, meshes),
        is_keyed_grouping(g2, refs, meshes),
    ensures
        g1.len() == g2.len(),
        forall|i: int| 0 <= i < g1.len() ==> g1[i].0 == g2[i].0 && g1[i].1@ == g2[i].1@,
{
    let klt = |a: InstancedMeshKey, b: InstancedMeshKey| key_lt(a, b);
    let ilt = |a: MeshId, b: MeshId| a < b;
    assert forall|a: InstancedMeshKey, b: InstancedMeshKey| #[trigger] klt(a, b) implies !klt(b, a)
        && a != b by {
        lemma_key_order_total(a, b);
    }
    assert forall|a: InstancedMeshKey, b: InstancedMeshKey| a != b implies #[trigger] klt(a, b)
        || #[trigger] klt(b, a) by {
        lemma_key_order_total(a, b);
    }
    let keys1 = g1.map_values(|p: (InstancedMeshKey, Vec<MeshId>)| p.0);
    let keys2 = g2.map_values(|p: (InstancedMeshKey, Vec<MeshId>)| p.0);
    assert forall|y: InstancedMeshKey| #[trigger] keys1.contains(y) implies keys2.contains(y) by {
        let i = choose|i: int| 0 <= i < keys1.len() && keys1[i] == y;
        assert(g1[i].0 == y);
        assert(group_matches(g1[i].0, g1[i].1@, refs, meshes));
        assert(g1[i].1@.len() > 0);
        let m = g1[i].1@[0];
        assert(g1[i].1@.contains(m));
        assert(refs.contains(m) && meshes.spec_get(m).unwrap().key == y);
        let j = choose|j: int|
            0 <= j < g2.len() && #[trigger] g2[j].0 == meshes.spec_get(m).unwrap().key;
        assert(keys2[j] == y);
    }
    assert forall|y: InstancedMeshKey| #[trigger] keys2.contains(y) implies keys1.contains(y) by {
        let i = choose|i: int| 0 <= i < keys2.len() && keys2[i] == y;
        assert(g2[i].0 == y);
        assert(group_matches(g2[i].0, g2[i].1@, refs, meshes));
        assert(g2[i].1@.len() > 0);
        let m = g2[i].1@[0];
        assert(g2[i].1@.contains(m));
        assert(refs.contains(m) && meshes.spec_get(m).unwrap().key == y);
        let j = choose|j: int|
            0 <= j < g1.len() && #[trigger] g1[j].0 == meshes.spec_get(m).unwrap().key;
        assert(keys1[j] == y);
    }
    assert forall|i: int, j: int| 0 <= i < j < keys1.len() implies klt(keys1[i], keys1[j]) by {
        assert(key_lt(g1[i].0, g1[j].0));
    }
    assert forall|i: int, j: int| 0 <= i < j < keys2.len() implies klt(keys2[i], keys2[j]) by {
        assert(key_lt(g2[i].0, g2[j].0));
    }
    lemma_sorted_unique_seqs_equal(keys1, keys2, klt);
    assert(g1.len() == g2.len());
    assert forall|i: int| 0 <= i < g1.len() implies g1[i].0 == g2[i].0 && g1[i].1@
        == g2[i].1@ by {
        assert(keys1[i] == keys2[i]);
        assert(g1[i].0 == g2[i].0);
        assert(group_matches(g1[i].0, g1[i].1@, refs, meshes));
        assert(group_matches(g2[i].0, g2[i].1@, refs, meshes));
        let m1 = g1[i].1@;
        let m2 = g2[i].1@;
        assert forall|y: MeshId| m1.contains(y) <==> m2.contains(y) by {
            assert(m1.contains(y) <==> refs.contains(y) && meshes.spec_get(y).unwrap().key
                == g1[i].0);
            assert(m2.contains(y) <==> refs.contains(y) && meshes.spec_get(y).unwrap().key
                == g1[i].0);
        }
        assert forall|x: int, y: int| 0 <= x < y < m1.len() implies ilt(m1[x], m1[y]) by {
            assert(sorted_unique_ids(m1));
        }
        assert forall|x: int, y: int| 0 <= x < y < m2.len() implies ilt(m2[x], m2[y]) by {
            assert(sorted_unique_ids(m2));
        }
        lemma_sorted_unique_seqs_equal(m1, m2, ilt);
    }
}

} // verus!
