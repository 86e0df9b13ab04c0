//! Executable comparison keys and their equality test.

use vstd::prelude::*;
use crate::model::KeyModel;

verus! {

/// A comparison key, one variant per strategy. Two entries are duplicates
/// under a strategy exactly when their keys for it are equal in every field.
pub enum ComparisonKey {
    Name { name: String },
    NameSize { name: String, size: u64 },
    NameSizeHash { name: String, size: u64, digest: Vec<u8> },
}

impl View for ComparisonKey {
    type V = KeyModel;

    open spec fn view(&self) -> KeyModel {
        match self {
            ComparisonKey::Name { name } => KeyModel::Name { name: name@ },
            ComparisonKey::NameSize { name, size } => KeyModel::NameSize {
                name: name@,
                size: *size,
            },
            ComparisonKey::NameSizeHash { name, size, digest } => KeyModel::NameSizeHash {
                name: name@,
                size: *size,
                digest: digest@,
            },
        }
    }
}

/// Byte-vector equality, element by element.
fn bytes_eq(a: &Vec<u8>, b: &Vec<u8>) -> (r: bool)
    ensures
        r == (a@ == b@),
{
    if a.len() != b.len() {
        proof {
            if a@ == b@ {
                assert(a@.len() == b@.len());
            }
        }
        return false;
    }
    let mut i: usize = 0;
    while i < a.len()
        invariant
            a@.len() == b@.len(),
            i <= a.len(),
            forall|j: int| 0 <= j < i ==> a@[j] == b@[j],
        decreases a.len() - i,
    {
        if a[i] != b[i] {
            return false;
        }
        i += 1;
    }
    proof {
        assert(a@ =~= b@);
    }
    true
}

impl ComparisonKey {
    /// Exact key equality: same variant and equal in every field.
    pub fn key_equals(&self, other: &ComparisonKey) -> (r: bool)
        ensures
            r == (self@ == other@),
    {
        match (self, other) {
            (ComparisonKey::Name { name: a }, ComparisonKey::Name { name: b }) => *a == *b,
            (
                ComparisonKey::NameSize { name: a, size: x },
                ComparisonKey::NameSize { name: b, size: y },
            ) => *a == *b && *x == *y,
            (
                ComparisonKey::NameSizeHash { name: a, size: x, digest: d },
                ComparisonKey::NameSizeHash { name: b, size: y, digest: c },
            ) => *a == *b && *x == *y && bytes_eq(d, c),
            _ => false,
        }
    }
}

} // verus!
