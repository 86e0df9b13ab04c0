//! The classification pipeline: key extraction per strategy, accumulation
//! over the entry stream, and the duplicate report.

use vstd::prelude::*;
use crate::entry::{models_of, records_of, FileEntry, FileRecord, RecordModel};
use crate::hashing::{process, sha256_of};
use crate::keys::ComparisonKey;
use crate::model::{dup_groups, group_pairs, EntryModel, GroupModel, KeyModel};
use crate::policy::{skips, SizePolicy};
use crate::table::{groups_view, Group, GroupTable};

verus! {

/// The name-only key of an entry.
pub open spec fn name_key(e: EntryModel) -> KeyModel {
    KeyModel::Name { name: e.name }
}

/// The name-and-size key of an entry.
pub open spec fn name_size_key(e: EntryModel) -> KeyModel {
    KeyModel::NameSize { name: e.name, size: e.size }
}

/// The name, size and content-digest key of a record.
pub open spec fn hash_key(r: RecordModel) -> KeyModel {
    KeyModel::NameSizeHash { name: r.entry.name, size: r.entry.size, digest: sha256_of(r.content) }
}

/// The (key, entry) stream of the name-only strategy: one pair per entry,
/// nothing skipped.
pub open spec fn name_pairs(s: Seq<EntryModel>) -> Seq<(KeyModel, EntryModel)> {
    s.map_values(|e: EntryModel| (name_key(e), e))
}

/// The (key, entry) stream of the name-and-size strategy: one pair per
/// entry, nothing skipped.
pub open spec fn name_size_pairs(s: Seq<EntryModel>) -> Seq<(KeyModel, EntryModel)> {
    s.map_values(|e: EntryModel| (name_size_key(e), e))
}

/// The (key, entry) stream of the hash strategy: records excluded by the
/// size policy are dropped; every other record is keyed by name, size and
/// content digest.
pub open spec fn hash_pairs(p: SizePolicy, s: Seq<RecordModel>) -> Seq<(KeyModel, EntryModel)>
    decreases s.len(),
{
    if s.len() == 0 {
        Seq::empty()
    } else {
        let pre = hash_pairs(p, s.drop_last());
        if skips(p, s.last().entry.size) {
            pre
        } else {
            pre.push((hash_key(s.last()), s.last().entry))
        }
    }
}

/// The duplicate groups of the name-only strategy over a stream of entries.
pub open spec fn name_duplicates(s: Seq<EntryModel>) -> Seq<GroupModel> {
    dup_groups(group_pairs(name_pairs(s)))
}

/// The duplicate groups of the name-and-size strategy.
pub open spec fn name_size_duplicates(s: Seq<EntryModel>) -> Seq<GroupModel> {
    dup_groups(group_pairs(name_size_pairs(s)))
}

/// The duplicate groups of the hash strategy under a size policy.
pub open spec fn hash_duplicates(p: SizePolicy, s: Seq<RecordModel>) -> Seq<GroupModel> {
    dup_groups(group_pairs(hash_pairs(p, s)))
}

/// Groups the entries by base name and returns the groups with at least
/// two members, in first-arrival order, each holding its entries in
/// arrival order.
pub fn file_names(entries: &Vec<FileEntry>) -> (r: Vec<Group>)
    ensures
        groups_view(r@) == name_duplicates(models_of(entries@)),
{
    let mut table = GroupTable::new();
    let mut i: usize = 0;
    while i < entries.len()
        invariant
            i <= entries.len(),
            table@ == group_pairs(name_pairs(models_of(entries@.take(i as int)))),
        decreases entries.len() - i,
    {
        let e = &entries[i];
        let key = ComparisonKey::Name { name: e.name.clone() };
        proof {
            let prefix = name_pairs(models_of(entries@.take(i as int)));
            let next = name_pairs(models_of(entries@.take(i + 1 as int)));
            assert(next =~= prefix.push((name_key(entries@[i as int]@), entries@[i as int]@)));
            assert(next.drop_last() =~= prefix);
        }
        table.insert(key, e.duplicate());
        i += 1;
    }
    proof {
        assert(entries@.take(entries@.len() as int) =~= entries@);
    }
    table.into_duplicates()
}

/// Groups the entries by base name and byte size and returns the groups
/// with at least two members.
pub fn file_names_sizes(entries: &Vec<FileEntry>) -> (r: Vec<Group>)
    ensures
        groups_view(r@) == name_size_duplicates(models_of(entries@)),
{
    let mut table = GroupTable::new();
    let mut i: usize = 0;
    while i < entries.len()
        invariant
            i <= entries.len(),
            table@ == group_pairs(name_size_pairs(models_of(entries@.take(i as int)))),
        decreases entries.len() - i,
    {
        let e = &entries[i];
        let key = ComparisonKey::NameSize { name: e.name.clone(), size: e.size };
        proof {
            let prefix = name_size_pairs(models_of(entries@.take(i as int)));
            let next = name_size_pairs(models_of(entries@.take(i + 1 as int)));
            assert(next =~= prefix.push(
                (name_size_key(entries@[i as int]@), entries@[i as int]@),
            ));
            assert(next.drop_last() =~= prefix);
        }
        table.insert(key, e.duplicate());
        i += 1;
    }
    proof {
        assert(entries@.take(entries@.len() as int) =~= entries@);
    }
    table.into_duplicates()
}

/// Groups the records by base name, byte size and content digest, after
/// dropping the records the size policy excludes, and returns the groups
/// with at least two members.
pub fn file_hashes(records: &Vec<FileRecord>, policy: SizePolicy) -> (r: Vec<Group>)
    ensures
        groups_view(r@) == hash_duplicates(policy, records_of(records@)),
{
    let mut table = GroupTable::new();
    let mut i: usize = 0;
    while i < records.len()
        invariant
            i <= records.len(),
            table@ == group_pairs(hash_pairs(policy, records_of(records@.take(i as int)))),
        decreases records.len() - i,
    {
        let rec = &records[i];
        if !policy.should_skip(rec.entry.size) {
            let digest = process(rec.content.as_slice());
            let key = ComparisonKey::NameSizeHash {
                name: rec.entry.name.clone(),
                size: rec.entry.size,
                digest,
            };
            proof {
                assert(key@ == hash_key(records@[i as int]@));
            }
            table.insert(key, rec.entry.duplicate());
        }
        proof {
            let prefix = records_of(records@.take(i as int));
            let next = records_of(records@.take(i + 1 as int));
            assert(next.drop_last() =~= prefix);
            assert(next.last() == records@[i as int]@);
            let hp_pre = hash_pairs(policy, prefix);
            let hp_next = hash_pairs(policy, next);
            if skips(policy, records@[i as int]@.entry.size) {
                assert(hp_next == hp_pre);
            } else {
                let pair = (hash_key(records@[i as int]@), records@[i as int]@.entry);
                assert(hp_next == hp_pre.push(pair));
                assert(hp_next.drop_last() =~= hp_pre);
                assert(hp_next.last() == pair);
                assert(group_pairs(hp_next) == crate::model::insert_group(
                    group_pairs(hp_pre),
                    pair.0,
                    pair.1,
                ));
            }
        }
        i += 1;
    }
    proof {
        assert(records@.take(records@.len() as int) =~= records@);
    }
    table.into_duplicates()
}

} // verus!
