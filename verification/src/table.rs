//! The group accumulator: a table from comparison key to the ordered list
//! of entries sharing it, and the extraction of the duplicate groups.

use vstd::prelude::*;
use crate::entry::FileEntry;
use crate::keys::ComparisonKey;
use crate::model::{dup_groups, insert_group, GroupModel};

verus! {

/// One group: a key and the entries inserted under it, in arrival order.
pub struct Group {
    pub key: ComparisonKey,
    pub entries: Vec<FileEntry>,
}

impl View for Group {
    type V = GroupModel;

    open spec fn view(&self) -> GroupModel {
        GroupModel { key: self.key@, members: self.entries@.map_values(|e: FileEntry| e@) }
    }
}

/// The models of a sequence of groups, in order.
pub open spec fn groups_view(gs: Seq<Group>) -> Seq<GroupModel> {
    gs.map_values(|g: Group| g@)
}

/// The accumulated table. Groups appear in the order their keys were first
/// inserted; entries within a group appear in insertion order.
pub struct GroupTable {
    pub groups: Vec<Group>,
}

impl View for GroupTable {
    type V = Seq<GroupModel>;

    open spec fn view(&self) -> Seq<GroupModel> {
        groups_view(self.groups@)
    }
}

impl GroupTable {
    /// An empty table.
    pub fn new() -> (r: GroupTable)
        ensures
            r@ == Seq::<GroupModel>::empty(),
    {
        let r = GroupTable { groups: Vec::new() };
        proof {
            assert(r@ =~= Seq::<GroupModel>::empty());
        }
        r
    }

    /// Appends the entry to the first group carrying the key, or opens a
    /// new group at the end if no group carries it.
    pub fn insert(&mut self, key: ComparisonKey, entry: FileEntry)
        ensures
            final(self)@ == insert_group(old(self)@, key@, entry@),
    {
        let ghost gs0 = self@;
        let mut j: usize = 0;
        while j < self.groups.len()
            invariant
                j <= self.groups.len(),
                *self == *old(self),
                gs0 == self@,
                gs0.len() == self.groups@.len(),
                forall|i: int| 0 <= i < j ==> gs0[i].key != key@,
            decreases self.groups.len() - j,
        {
            if self.groups[j].key.key_equals(&key) {
                proof {
                    assert(gs0[j as int] == self.groups@[j as int]@);
                    assert(gs0[j as int].key == key@);
                    crate::model::lemma_insert_group_found(gs0, key@, entry@, j as int);
                }
                let mut g = self.groups.remove(j);
                g.entries.push(entry);
                self.groups.insert(j, g);
                proof {
                    assert(self@ =~~= gs0.update(
                        j as int,
                        GroupModel { key: key@, members: gs0[j as int].members.push(entry@) },
                    ));
                }
                return ;
            }
            j += 1;
        }
        proof {
            assert(!crate::model::has_key(gs0, key@));
            crate::model::lemma_insert_group_absent(gs0, key@, entry@);
        }
        let mut entries: Vec<FileEntry> = Vec::new();
        entries.push(entry);
        self.groups.push(Group { key, entries });
        proof {
            assert(self@ =~~= gs0.push(GroupModel { key: key@, members: seq![entry@] }));
        }
    }

    /// Consumes the table and returns the groups with at least two members,
    /// in table order.
    pub fn into_duplicates(self) -> (r: Vec<Group>)
        ensures
            groups_view(r@) == dup_groups(self@),
    {
        let ghost total = self@;
        let mut rest = self.groups;
        let mut out: Vec<Group> = Vec::new();
        let ghost mut k: int = 0;
        proof {
            assert(groups_view(rest@) =~= total.skip(0));
            assert(groups_view(out@) =~= dup_groups(total.take(0)));
        }
        while rest.len() > 0
            invariant
                0 <= k <= total.len(),
                rest@.len() == total.len() - k,
                groups_view(rest@) == total.skip(k),
                groups_view(out@) == dup_groups(total.take(k)),
            decreases rest.len(),
        {
            let ghost prev = rest@;
            let g = rest.remove(0);
            proof {
                assert(g@ == groups_view(prev)[0]);
                assert(total.skip(k)[0] == total[k]);
                assert(total.take(k + 1).drop_last() =~= total.take(k));
                assert(total.take(k + 1).last() == total[k]);
            }
            if g.entries.len() >= 2 {
                proof {
                    assert(g@.members.len() >= 2);
                }
                out.push(g);
                proof {
                    assert(groups_view(out@) =~= dup_groups(total.take(k)).push(total[k]));
                }
            } else {
                proof {
                    assert(g@.members.len() < 2);
                }
            }
            proof {
                assert forall|i: int| 0 <= i < rest@.len() implies #[trigger] groups_view(rest@)[i]
                    == total.skip(k + 1)[i] by {
                    assert(rest@[i] == prev[i + 1]);
                    assert(groups_view(prev)[i + 1] == total.skip(k)[i + 1]);
                }
                assert(groups_view(rest@) =~= total.skip(k + 1));
                k = k + 1;
            }
        }
        proof {
            assert(total.take(k) =~= total);
        }
        out
    }
}

} // verus!
