//! The general properties of the classification, stated and proved against
//! the model that the pipeline's contracts use.

use vstd::prelude::*;
use crate::entry::RecordModel;
use crate::hashing::{concat_chunks, sha256_of};
use crate::model::{
    distinct_keys, dup_groups, group_pairs, has_key, lemma_dup_groups_keys,
    lemma_group_pairs_partition, lemma_members_for_absent, lemma_members_for_contains,
    members_for, EntryModel, KeyModel,
};
use crate::pipeline::{
    hash_key, hash_pairs, name_duplicates, name_key, name_pairs, name_size_key, name_size_pairs,
};
use crate::policy::{skips, SizePolicy};

verus! {

/// The name-only key for base name `n`.
pub open spec fn key_for_name(n: Seq<char>) -> KeyModel {
    KeyModel::Name { name: n }
}

/// The name-and-size key for base name `n` and size `z`.
pub open spec fn key_for_name_size(n: Seq<char>, z: u64) -> KeyModel {
    KeyModel::NameSize { name: n, size: z }
}

/// The entries of `s` whose base name is `n`, in arrival order.
pub open spec fn with_name(s: Seq<EntryModel>, n: Seq<char>) -> Seq<EntryModel>
    decreases s.len(),
{
    if s.len() == 0 {
        Seq::empty()
    } else {
        let pre = with_name(s.drop_last(), n);
        if s.last().name == n {
            pre.push(s.last())
        } else {
            pre
        }
    }
}

/// Under the name-only strategy, the members collected for the key of name
/// `n` are exactly the entries named `n`, in arrival order.
pub proof fn lemma_name_members(s: Seq<EntryModel>, n: Seq<char>)
    ensures
        members_for(name_pairs(s), KeyModel::Name { name: n }) == with_name(s, n),
    decreases s.len(),
{
    if s.len() == 0 {
        assert(name_pairs(s) =~= Seq::<(KeyModel, EntryModel)>::empty());
    } else {
        lemma_name_members(s.drop_last(), n);
        assert(name_pairs(s).drop_last() =~= name_pairs(s.drop_last()));
        assert(name_pairs(s).last() == (name_key(s.last()), s.last()));
    }
}

/// The name-only strategy partitions the entries by base name: group keys
/// are pairwise distinct, a group for name `n` exists exactly when some
/// entry is named `n`, that group holds exactly the entries named `n` in
/// arrival order, and a duplicate group for `n` exists exactly when at
/// least two entries are named `n`. Since the duplicate groups also carry
/// pairwise distinct keys, they correspond one to one to the names that
/// occur more than once.
pub proof fn lemma_name_grouping_is_partition(s: Seq<EntryModel>, n: Seq<char>)
    ensures
        distinct_keys(group_pairs(name_pairs(s))),
        distinct_keys(name_duplicates(s)),
        has_key(group_pairs(name_pairs(s)), key_for_name(n)) <==> (with_name(s, n).len() >= 1),
        forall|g: int|
            0 <= g < group_pairs(name_pairs(s)).len() && (#[trigger] group_pairs(name_pairs(s))[g]).key
                == key_for_name(n) ==> group_pairs(name_pairs(s))[g].members == with_name(s, n),
        has_key(name_duplicates(s), key_for_name(n)) <==> (with_name(s, n).len() >= 2),
        forall|g: int|
            0 <= g < name_duplicates(s).len() && (#[trigger] name_duplicates(s)[g]).key
                == key_for_name(n) ==> name_duplicates(s)[g].members == with_name(s, n),
{
    let pairs = name_pairs(s);
    let k = KeyModel::Name { name: n };
    let gp = group_pairs(pairs);
    lemma_group_pairs_partition(pairs);
    crate::model::lemma_dup_groups_distinct(gp);
    lemma_name_members(s, n);
    if has_key(gp, k) {
        let i = choose|i: int| 0 <= i < pairs.len() && (#[trigger] pairs[i]).0 == k;
        lemma_members_for_contains(pairs, i);
        assert(members_for(pairs, k).len() >= 1);
    }
    if with_name(s, n).len() >= 1 {
        if !has_key(gp, k) {
            assert forall|i: int| 0 <= i < pairs.len() implies (#[trigger] pairs[i]).0 != k by {
                if pairs[i].0 == k {
                    assert(has_key(gp, pairs[i].0));
                }
            }
            lemma_members_for_absent(pairs, k);
        }
    }
    lemma_dup_groups_keys(gp, k);
    if with_name(s, n).len() >= 2 {
        assert(has_key(gp, k));
        let g = choose|g: int| 0 <= g < gp.len() && gp[g].key == k;
        assert(gp[g].members == members_for(pairs, k));
        assert(gp[g].members.len() >= 2);
    }
    if has_key(dup_groups(gp), k) {
        let g = choose|g: int|
            0 <= g < gp.len() && (#[trigger] gp[g]).key == k && gp[g].members.len() >= 2;
        assert(gp[g].members == members_for(pairs, k));
    }
    crate::model::lemma_dup_groups_subset(gp);
    assert forall|g: int|
        0 <= g < name_duplicates(s).len() && (#[trigger] name_duplicates(s)[g]).key == key_for_name(
            n,
        ) implies name_duplicates(s)[g].members == with_name(s, n) by {
        assert(gp.contains(name_duplicates(s)[g]));
        let w = choose|w: int| 0 <= w < gp.len() && gp[w] == name_duplicates(s)[g];
        assert(gp[w].members == members_for(pairs, gp[w].key));
    }
}

/// Every member collected for a name-and-size key carries that name and
/// that size.
pub proof fn lemma_name_size_members_fields(s: Seq<EntryModel>, n: Seq<char>, z: u64)
    ensures
        forall|m: int|
            0 <= m < members_for(name_size_pairs(s), key_for_name_size(n, z)).len() ==> (
            #[trigger] members_for(name_size_pairs(s), key_for_name_size(n, z))[m]).name == n
                && members_for(name_size_pairs(s), key_for_name_size(n, z))[m].size == z,
    decreases s.len(),
{
    let k = key_for_name_size(n, z);
    if s.len() == 0 {
        assert(name_size_pairs(s) =~= Seq::<(KeyModel, EntryModel)>::empty());
    } else {
        lemma_name_size_members_fields(s.drop_last(), n, z);
        assert(name_size_pairs(s).drop_last() =~= name_size_pairs(s.drop_last()));
        assert(name_size_pairs(s).last() == (name_size_key(s.last()), s.last()));
        let pre = members_for(name_size_pairs(s.drop_last()), k);
        let cur = members_for(name_size_pairs(s), k);
        if name_size_key(s.last()) == k {
            assert(cur == pre.push(s.last()));
            assert(s.last().name == n && s.last().size == z);
            assert forall|m: int| 0 <= m < cur.len() implies (#[trigger] cur[m]).name == n
                && cur[m].size == z by {
                if m < pre.len() {
                    assert(cur[m] == pre[m]);
                } else {
                    assert(cur[m] == s.last());
                }
            }
        } else {
            assert(cur == pre);
        }
    }
}

/// The name-and-size strategy never merges two files of equal name but
/// different size: any two members of one group share one name and one
/// size.
pub proof fn lemma_name_size_separates(s: Seq<EntryModel>, g: int, a: int, b: int)
    requires
        0 <= g < group_pairs(name_size_pairs(s)).len(),
        0 <= a < group_pairs(name_size_pairs(s))[g].members.len(),
        0 <= b < group_pairs(name_size_pairs(s))[g].members.len(),
    ensures
        group_pairs(name_size_pairs(s))[g].members[a].name == group_pairs(name_size_pairs(s))[g].members[b].name,
        group_pairs(name_size_pairs(s))[g].members[a].size == group_pairs(name_size_pairs(s))[g].members[b].size,
{
    let pairs = name_size_pairs(s);
    let gp = group_pairs(pairs);
    lemma_group_pairs_partition(pairs);
    assert(has_key(gp, gp[g].key));
    let i = choose|i: int| 0 <= i < pairs.len() && (#[trigger] pairs[i]).0 == gp[g].key;
    assert(pairs[i] == (name_size_key(s[i]), s[i]));
    let n = s[i].name;
    let z = s[i].size;
    assert(gp[g].key == KeyModel::NameSize { name: n, size: z });
    lemma_name_size_members_fields(s, n, z);
    assert(gp[g].members == members_for(pairs, gp[g].key));
}

/// Equal content gives equal digests, so two records of equal name, size
/// and byte content carry the same hash key.
pub proof fn lemma_hash_same_content_same_key(r1: RecordModel, r2: RecordModel)
    requires
        r1.entry.name == r2.entry.name,
        r1.entry.size == r2.entry.size,
        r1.content == r2.content,
    ensures
        hash_key(r1) == hash_key(r2),
{
}

/// A record the policy admits contributes its pair to the hash stream.
pub proof fn lemma_hash_pairs_contains(p: SizePolicy, s: Seq<RecordModel>, i: int)
    requires
        0 <= i < s.len(),
        !skips(p, s[i].entry.size),
    ensures
        hash_pairs(p, s).contains((hash_key(s[i]), s[i].entry)),
    decreases s.len(),
{
    let pair = (hash_key(s[i]), s[i].entry);
    if i == s.len() - 1 {
        assert(s.last() == s[i]);
        let hp = hash_pairs(p, s);
        assert(hp.last() == pair);
        assert(hp.contains(pair));
    } else {
        assert(s.drop_last()[i] == s[i]);
        lemma_hash_pairs_contains(p, s.drop_last(), i);
        let pre = hash_pairs(p, s.drop_last());
        let w = choose|w: int| 0 <= w < pre.len() && pre[w] == pair;
        let hp = hash_pairs(p, s);
        if !skips(p, s.last().entry.size) {
            assert(hp == pre.push((hash_key(s.last()), s.last().entry)));
        }
        assert(hp[w] == pair);
        assert(hp.contains(pair));
    }
}

/// Two byte-identical records of equal name and size that the policy
/// admits land in one group: some group carries their common key and
/// holds both entries.
pub proof fn lemma_hash_groups_same_content(p: SizePolicy, s: Seq<RecordModel>, i: int, j: int)
    requires
        0 <= i < s.len(),
        0 <= j < s.len(),
        !skips(p, s[i].entry.size),
        !skips(p, s[j].entry.size),
        s[i].entry.name == s[j].entry.name,
        s[i].entry.size == s[j].entry.size,
        s[i].content == s[j].content,
    ensures
        exists|g: int|
            0 <= g < group_pairs(hash_pairs(p, s)).len() && (#[trigger] group_pairs(
                hash_pairs(p, s),
            )[g]).key == hash_key(s[i]) && group_pairs(hash_pairs(p, s))[g].members.contains(
                s[i].entry,
            ) && group_pairs(hash_pairs(p, s))[g].members.contains(s[j].entry),
{
    let pairs = hash_pairs(p, s);
    let gp = group_pairs(pairs);
    let k = hash_key(s[i]);
    lemma_group_pairs_partition(pairs);
    lemma_hash_pairs_contains(p, s, i);
    lemma_hash_pairs_contains(p, s, j);
    assert(hash_key(s[j]) == k);
    let wi = choose|w: int| 0 <= w < pairs.len() && pairs[w] == (hash_key(s[i]), s[i].entry);
    let wj = choose|w: int| 0 <= w < pairs.len() && pairs[w] == (hash_key(s[j]), s[j].entry);
    assert(has_key(gp, k)) by {
        assert(pairs[wi].0 == k);
    }
    let g = choose|g: int| 0 <= g < gp.len() && gp[g].key == k;
    assert(gp[g].members == members_for(pairs, k));
    lemma_members_for_contains(pairs, wi);
    lemma_members_for_contains(pairs, wj);
    assert(gp[g].members.contains(s[i].entry));
    assert(gp[g].members.contains(s[j].entry));
}

/// Two byte-identical records of equal name and size that the policy
/// admits and that name distinct files (different paths) make their
/// common key a reported duplicate.
pub proof fn lemma_hash_duplicates_reported(p: SizePolicy, s: Seq<RecordModel>, i: int, j: int)
    requires
        0 <= i < s.len(),
        0 <= j < s.len(),
        !skips(p, s[i].entry.size),
        !skips(p, s[j].entry.size),
        s[i].entry.name == s[j].entry.name,
        s[i].entry.size == s[j].entry.size,
        s[i].content == s[j].content,
        s[i].entry.path != s[j].entry.path,
    ensures
        has_key(crate::pipeline::hash_duplicates(p, s), hash_key(s[i])),
{
    lemma_hash_groups_same_content(p, s, i, j);
    let pairs = hash_pairs(p, s);
    let gp = group_pairs(pairs);
    let k = hash_key(s[i]);
    let g = choose|g: int|
        0 <= g < gp.len() && (#[trigger] gp[g]).key == k && gp[g].members.contains(s[i].entry)
            && gp[g].members.contains(s[j].entry);
    assert(s[i].entry != s[j].entry);
    let a = choose|a: int| 0 <= a < gp[g].members.len() && gp[g].members[a] == s[i].entry;
    let b = choose|b: int| 0 <= b < gp[g].members.len() && gp[g].members[b] == s[j].entry;
    assert(a != b);
    assert(gp[g].members.len() >= 2);
    lemma_dup_groups_keys(gp, k);
}

/// Records whose digests differ carry different hash keys, and no single
/// group carries both keys, so they land in different groups. That the
/// digests differ is the hypothesis: a hash collision would defeat it.
pub proof fn lemma_hash_groups_distinct_digest(p: SizePolicy, s: Seq<RecordModel>, i: int, j: int)
    requires
        0 <= i < s.len(),
        0 <= j < s.len(),
        sha256_of(s[i].content) != sha256_of(s[j].content),
    ensures
        hash_key(s[i]) != hash_key(s[j]),
        forall|g: int|
            0 <= g < group_pairs(hash_pairs(p, s)).len() ==> !((#[trigger] group_pairs(
                hash_pairs(p, s),
            )[g]).key == hash_key(s[i]) && group_pairs(hash_pairs(p, s))[g].key == hash_key(
                s[j],
            )),
{
}

/// The digest depends on the content alone: two chunkings whose pieces
/// concatenate to the same byte sequence yield the same digest.
pub proof fn lemma_digest_chunking_irrelevant(c1: Seq<Seq<u8>>, c2: Seq<Seq<u8>>)
    requires
        concat_chunks(c1) == concat_chunks(c2),
    ensures
        sha256_of(concat_chunks(c1)) == sha256_of(concat_chunks(c2)),
{
}

} // verus!
