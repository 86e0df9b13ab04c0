//! Mathematical model of the classification: keys, groups, and the
//! accumulation of a stream of (key, entry) pairs into a group table.

use vstd::prelude::*;

verus! {

/// The attributes of one file-system entry that classification reads:
/// the base name, the full path (used only for reporting), and the byte size.
#[verifier::ext_equal]
pub struct EntryModel {
    pub name: Seq<char>,
    pub path: Seq<char>,
    pub size: u64,
}

/// A comparison key: the tuple of attributes that defines "duplicate"
/// under the active strategy.
#[verifier::ext_equal]
pub enum KeyModel {
    Name { name: Seq<char> },
    NameSize { name: Seq<char>, size: u64 },
    NameSizeHash { name: Seq<char>, size: u64, digest: Seq<u8> },
}

/// One group of the table: a key and the entries sharing it, in the order
/// in which they were inserted.
#[verifier::ext_equal]
pub struct GroupModel {
    pub key: KeyModel,
    pub members: Seq<EntryModel>,
}

/// Inserting one entry under its key: append to the first group carrying
/// the key, or open a new group at the end if the key is new.
pub open spec fn insert_group(gs: Seq<GroupModel>, k: KeyModel, e: EntryModel) -> Seq<GroupModel>
    decreases gs.len(),
{
    if gs.len() == 0 {
        seq![GroupModel { key: k, members: seq![e] }]
    } else if gs.first().key == k {
        seq![GroupModel { key: k, members: gs.first().members.push(e) }] + gs.drop_first()
    } else {
        seq![gs.first()] + insert_group(gs.drop_first(), k, e)
    }
}

/// The group table obtained by inserting every pair of the stream in order.
pub open spec fn group_pairs(pairs: Seq<(KeyModel, EntryModel)>) -> Seq<GroupModel>
    decreases pairs.len(),
{
    if pairs.len() == 0 {
        Seq::empty()
    } else {
        insert_group(group_pairs(pairs.drop_last()), pairs.last().0, pairs.last().1)
    }
}

/// The entries of the stream carrying key `k`, in stream order.
pub open spec fn members_for(pairs: Seq<(KeyModel, EntryModel)>, k: KeyModel) -> Seq<EntryModel>
    decreases pairs.len(),
{
    if pairs.len() == 0 {
        Seq::empty()
    } else {
        let pre = members_for(pairs.drop_last(), k);
        if pairs.last().0 == k {
            pre.push(pairs.last().1)
        } else {
            pre
        }
    }
}

/// Whether some group of `gs` carries key `k`.
pub open spec fn has_key(gs: Seq<GroupModel>, k: KeyModel) -> bool {
    exists|i: int| 0 <= i < gs.len() && gs[i].key == k
}

/// No two groups carry the same key.
pub open spec fn distinct_keys(gs: Seq<GroupModel>) -> bool {
    forall|i: int, j: int| 0 <= i < j < gs.len() ==> gs[i].key != gs[j].key
}

/// The groups with at least two members, in table order.
pub open spec fn dup_groups(gs: Seq<GroupModel>) -> Seq<GroupModel>
    decreases gs.len(),
{
    if gs.len() == 0 {
        Seq::empty()
    } else {
        let pre = dup_groups(gs.drop_last());
        if gs.last().members.len() >= 2 {
            pre.push(gs.last())
        } else {
            pre
        }
    }
}

/// Inserting under a key that no group carries appends a fresh singleton group.
pub proof fn lemma_insert_group_absent(gs: Seq<GroupModel>, k: KeyModel, e: EntryModel)
    requires
        !has_key(gs, k),
    ensures
        insert_group(gs, k, e) == gs.push(GroupModel { key: k, members: seq![e] }),
    decreases gs.len(),
{
    if gs.len() == 0 {
        assert(insert_group(gs, k, e) =~= gs.push(GroupModel { key: k, members: seq![e] }));
    } else {
        assert(gs[0] == gs.first());
        assert(gs.first().key != k);
        assert(!has_key(gs.drop_first(), k)) by {
            if has_key(gs.drop_first(), k) {
                let i = choose|i: int| 0 <= i < gs.drop_first().len() && gs.drop_first()[i].key
                    == k;
                assert(gs[i + 1].key == k);
            }
        }
        lemma_insert_group_absent(gs.drop_first(), k, e);
        assert(insert_group(gs, k, e) =~= gs.push(GroupModel { key: k, members: seq![e] }));
    }
}

/// Inserting under the key of group `j`, where no earlier group carries it,
/// appends the entry to that group and leaves the rest unchanged.
pub proof fn lemma_insert_group_found(gs: Seq<GroupModel>, k: KeyModel, e: EntryModel, j: int)
    requires
        0 <= j < gs.len(),
        gs[j].key == k,
        forall|i: int| 0 <= i < j ==> gs[i].key != k,
    ensures
        insert_group(gs, k, e) == gs.update(
            j,
            GroupModel { key: k, members: gs[j].members.push(e) },
        ),
    decreases j,
{
    if j == 0 {
        assert(gs.first().key == k);
        assert(insert_group(gs, k, e) =~= gs.update(
            0,
            GroupModel { key: k, members: gs[0].members.push(e) },
        ));
    } else {
        assert(gs[0] == gs.first());
        assert(gs.first().key != k);
        assert(gs.drop_first()[j - 1] == gs[j]);
        assert forall|i: int| 0 <= i < j - 1 implies gs.drop_first()[i].key != k by {
            assert(gs.drop_first()[i] == gs[i + 1]);
        }
        lemma_insert_group_found(gs.drop_first(), k, e, j - 1);
        assert(insert_group(gs, k, e) =~= gs.update(
            j,
            GroupModel { key: k, members: gs[j].members.push(e) },
        ));
    }
}

/// A key carried by no pair of the stream collects no members.
pub proof fn lemma_members_for_absent(pairs: Seq<(KeyModel, EntryModel)>, k: KeyModel)
    requires
        forall|i: int| 0 <= i < pairs.len() ==> (#[trigger] pairs[i]).0 != k,
    ensures
        members_for(pairs, k) == Seq::<EntryModel>::empty(),
    decreases pairs.len(),
{
    if pairs.len() > 0 {
        assert(pairs.last() == pairs[pairs.len() - 1]);
        assert forall|i: int| 0 <= i < pairs.drop_last().len() implies (#[trigger] pairs.drop_last()[i]).0
            != k by {
            assert(pairs.drop_last()[i] == pairs[i]);
        }
        lemma_members_for_absent(pairs.drop_last(), k);
    }
}

/// The accumulated table partitions the stream: group keys are pairwise
/// distinct, each group holds exactly the stream's entries for its key in
/// stream order, every group is nonempty, and a key has a group if and only
/// if some pair of the stream carries it.
pub proof fn lemma_group_pairs_partition(pairs: Seq<(KeyModel, EntryModel)>)
    ensures
        distinct_keys(group_pairs(pairs)),
        forall|g: int|
            0 <= g < group_pairs(pairs).len() ==> (#[trigger] group_pairs(pairs)[g]).members
                == members_for(pairs, group_pairs(pairs)[g].key),
        forall|g: int|
            0 <= g < group_pairs(pairs).len() ==> (#[trigger] group_pairs(pairs)[g]).members.len()
                >= 1,
        forall|i: int|
            0 <= i < pairs.len() ==> has_key(group_pairs(pairs), (#[trigger] pairs[i]).0),
        forall|k: KeyModel|
            #[trigger] has_key(group_pairs(pairs), k) ==> exists|i: int|
                0 <= i < pairs.len() && (#[trigger] pairs[i]).0 == k,
    decreases pairs.len(),
{
    if pairs.len() == 0 {
    } else {
        let pre = pairs.drop_last();
        let k = pairs.last().0;
        let e = pairs.last().1;
        lemma_group_pairs_partition(pre);
        let gp = group_pairs(pre);
        let res = group_pairs(pairs);
        assert(res == insert_group(gp, k, e));
        assert forall|kk: KeyModel| kk != k implies #[trigger] members_for(pairs, kk)
            == members_for(pre, kk) by {}
        assert(members_for(pairs, k) == members_for(pre, k).push(e));
        if has_key(gp, k) {
            let j = choose|j: int| 0 <= j < gp.len() && gp[j].key == k;
            assert forall|i: int| 0 <= i < j implies gp[i].key != k by {}
            lemma_insert_group_found(gp, k, e, j);
            let upd = GroupModel { key: k, members: gp[j].members.push(e) };
            assert(res == gp.update(j, upd));
            assert(gp[j].members == members_for(pre, k));
            assert forall|g: int| 0 <= g < res.len() implies (#[trigger] res[g]).members
                == members_for(pairs, res[g].key) by {
                if g == j {
                    assert(res[g] == upd);
                } else {
                    assert(res[g] == gp[g]);
                    assert(gp[g].key != k);
                }
            }
            assert forall|i: int|
                0 <= i < pairs.len() implies has_key(res, (#[trigger] pairs[i]).0) by {
                if i < pairs.len() - 1 {
                    assert(pairs[i] == pre[i]);
                    assert(has_key(gp, pre[i].0));
                    let w = choose|w: int| 0 <= w < gp.len() && gp[w].key == pre[i].0;
                    assert(res[w].key == gp[w].key || w == j);
                    if w == j {
                        assert(res[j].key == k);
                    }
                } else {
                    assert(res[j].key == k);
                }
            }
            assert forall|kk: KeyModel| #[trigger] has_key(res, kk) implies exists|i: int|
                0 <= i < pairs.len() && (#[trigger] pairs[i]).0 == kk by {
                let w = choose|w: int| 0 <= w < res.len() && res[w].key == kk;
                assert(gp[w].key == kk || w == j);
                if gp[w].key == kk {
                    assert(has_key(gp, kk));
                    let p = choose|p: int| 0 <= p < pre.len() && pre[p].0 == kk;
                    assert(pairs[p] == pre[p]);
                } else {
                    assert(pairs[pairs.len() - 1].0 == kk);
                }
            }
        } else {
            lemma_insert_group_absent(gp, k, e);
            let fresh = GroupModel { key: k, members: seq![e] };
            assert(res == gp.push(fresh));
            assert forall|i: int| 0 <= i < pre.len() implies (#[trigger] pre[i]).0 != k by {
                if pre[i].0 == k {
                    assert(has_key(gp, pre[i].0));
                }
            }
            lemma_members_for_absent(pre, k);
            assert(members_for(pairs, k) =~= seq![e]);
            assert forall|a: int, b: int| 0 <= a < b < res.len() implies res[a].key
                != res[b].key by {
                if b < gp.len() {
                    assert(res[a] == gp[a] && res[b] == gp[b]);
                } else {
                    assert(res[a] == gp[a] && res[b] == fresh);
                    assert(has_key(gp, gp[a].key));
                }
            }
            assert forall|g: int| 0 <= g < res.len() implies (#[trigger] res[g]).members
                == members_for(pairs, res[g].key) by {
                if g < gp.len() {
                    assert(res[g] == gp[g]);
                    assert(!has_key(gp, k));
                    assert(gp[g].key != k);
                } else {
                    assert(res[g] == fresh);
                }
            }
            assert forall|i: int|
                0 <= i < pairs.len() implies has_key(res, (#[trigger] pairs[i]).0) by {
                if i < pairs.len() - 1 {
                    assert(pairs[i] == pre[i]);
                    assert(has_key(gp, pre[i].0));
                    let w = choose|w: int| 0 <= w < gp.len() && gp[w].key == pre[i].0;
                    assert(res[w].key == pre[i].0);
                } else {
                    assert(res[gp.len() as int].key == k);
                }
            }
            assert forall|kk: KeyModel| #[trigger] has_key(res, kk) implies exists|i: int|
                0 <= i < pairs.len() && (#[trigger] pairs[i]).0 == kk by {
                let w = choose|w: int| 0 <= w < res.len() && res[w].key == kk;
                if w < gp.len() {
                    assert(has_key(gp, kk));
                    let p = choose|p: int| 0 <= p < pre.len() && pre[p].0 == kk;
                    assert(pairs[p] == pre[p]);
                } else {
                    assert(pairs[pairs.len() - 1].0 == kk);
                }
            }
        }
    }
}

/// Every pair of the stream lands among the members collected for its key.
pub proof fn lemma_members_for_contains(pairs: Seq<(KeyModel, EntryModel)>, i: int)
    requires
        0 <= i < pairs.len(),
    ensures
        members_for(pairs, pairs[i].0).contains(pairs[i].1),
    decreases pairs.len(),
{
    if i == pairs.len() - 1 {
        assert(pairs.last() == pairs[i]);
        let m = members_for(pairs, pairs[i].0);
        assert(m.last() == pairs[i].1);
        assert(m.contains(pairs[i].1));
    } else {
        assert(pairs.drop_last()[i] == pairs[i]);
        lemma_members_for_contains(pairs.drop_last(), i);
        let prem = members_for(pairs.drop_last(), pairs[i].0);
        let w = choose|w: int| 0 <= w < prem.len() && prem[w] == pairs[i].1;
        let m = members_for(pairs, pairs[i].0);
        if pairs.last().0 == pairs[i].0 {
            assert(m == prem.push(pairs.last().1));
        }
        assert(m[w] == pairs[i].1);
        assert(m.contains(pairs[i].1));
    }
}

/// Every duplicate group is a group of the table.
pub proof fn lemma_dup_groups_subset(gs: Seq<GroupModel>)
    ensures
        forall|i: int|
            0 <= i < dup_groups(gs).len() ==> gs.contains(#[trigger] dup_groups(gs)[i]),
    decreases gs.len(),
{
    if gs.len() > 0 {
        lemma_dup_groups_subset(gs.drop_last());
        let pre = gs.drop_last();
        let d = dup_groups(gs);
        assert forall|i: int| 0 <= i < d.len() implies gs.contains(#[trigger] d[i]) by {
            if gs.last().members.len() >= 2 && i == d.len() - 1 {
                assert(gs[gs.len() - 1] == d[i]);
            } else {
                assert(d[i] == dup_groups(pre)[i]);
                assert(pre.contains(d[i]));
                let w = choose|w: int| 0 <= w < pre.len() && pre[w] == d[i];
                assert(gs[w] == d[i]);
            }
        }
    }
}

/// Filtering to the duplicates keeps the keys pairwise distinct.
pub proof fn lemma_dup_groups_distinct(gs: Seq<GroupModel>)
    requires
        distinct_keys(gs),
    ensures
        distinct_keys(dup_groups(gs)),
    decreases gs.len(),
{
    if gs.len() > 0 {
        let pre = gs.drop_last();
        assert forall|i: int| 0 <= i < pre.len() implies pre[i] == gs[i] by {}
        lemma_dup_groups_distinct(pre);
        lemma_dup_groups_subset(pre);
        let d = dup_groups(gs);
        let dpre = dup_groups(pre);
        if gs.last().members.len() >= 2 {
            assert(d == dpre.push(gs.last()));
            assert forall|a: int, b: int| 0 <= a < b < d.len() implies d[a].key != d[b].key by {
                if b < d.len() - 1 {
                    assert(d[a] == dpre[a] && d[b] == dpre[b]);
                } else {
                    assert(d[a] == dpre[a]);
                    assert(pre.contains(dpre[a]));
                    let w = choose|w: int| 0 <= w < pre.len() && pre[w] == dpre[a];
                    assert(gs[w] == dpre[a]);
                    assert(gs[gs.len() - 1] == gs.last());
                    assert(gs[w].key != gs[gs.len() - 1].key);
                }
            }
        }
    }
}

/// A key has a group among the duplicates exactly when some group of the
/// table carries it with at least two members.
pub proof fn lemma_dup_groups_keys(gs: Seq<GroupModel>, k: KeyModel)
    ensures
        has_key(dup_groups(gs), k) <==> exists|j: int|
            0 <= j < gs.len() && (#[trigger] gs[j]).key == k && gs[j].members.len() >= 2,
    decreases gs.len(),
{
    if gs.len() == 0 {
    } else {
        lemma_dup_groups_keys(gs.drop_last(), k);
        let pre = gs.drop_last();
        let d = dup_groups(gs);
        let dpre = dup_groups(pre);
        assert(gs.last() == gs[gs.len() - 1]);
        assert forall|i: int| 0 <= i < pre.len() implies pre[i] == gs[i] by {}
        if has_key(d, k) {
            let w = choose|w: int| 0 <= w < d.len() && d[w].key == k;
            if gs.last().members.len() >= 2 {
                assert(d == dpre.push(gs.last()));
                if w < dpre.len() {
                    assert(has_key(dpre, k));
                } else {
                    assert(d[w] == gs.last());
                    assert(gs[gs.len() - 1].key == k && gs[gs.len() - 1].members.len() >= 2);
                }
            } else {
                assert(d == dpre);
                assert(has_key(dpre, k));
            }
        }
        if exists|j: int|
            0 <= j < gs.len() && (#[trigger] gs[j]).key == k && gs[j].members.len() >= 2 {
            let j = choose|j: int|
                0 <= j < gs.len() && (#[trigger] gs[j]).key == k && gs[j].members.len() >= 2;
            if j < gs.len() - 1 {
                assert(pre[j].key == k && pre[j].members.len() >= 2);
                assert(has_key(dpre, k));
                let w = choose|w: int| 0 <= w < dpre.len() && dpre[w].key == k;
                if gs.last().members.len() >= 2 {
                    assert(d[w] == dpre[w]);
                }
                assert(has_key(d, k));
            } else {
                assert(d == dpre.push(gs.last()));
                assert(d[d.len() - 1].key == k);
                assert(has_key(d, k));
            }
        }
    }
}

} // verus!
