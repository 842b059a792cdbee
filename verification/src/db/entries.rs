//! The entries of a secondary index: pairs of a key and the identifier of
//! the record filed under it, kept in order and without duplicates.

use vstd::prelude::*;

use crate::bytepack::extern_types::{Timestamp, Ulid};
use crate::bytepack::pack::Unpack;
use crate::db_core::defs::table::TableFieldDataView;
use crate::db_core::ty::FieldTyView;

verus! {

/// The key under which a record is filed: the identifier of the record it
/// refers to, or a point in time.
#[derive(Debug, Clone, Copy, PartialEq, Eq, Structural)]
pub enum IndexKey {
    Id(Ulid),
    Time(Timestamp),
}

/// One entry of an index.
#[derive(Debug, Clone, Copy, PartialEq, Eq, Structural)]
pub struct IndexEntry {
    pub key: IndexKey,
    pub record: Ulid,
}

impl IndexKey {
    /// The rank of the key: identifiers come before times; identifiers go
    /// by their number, times by their seconds.
    pub open spec fn rank(self) -> (int, int) {
        match self {
            IndexKey::Id(id) => (0, id.0 as int),
            IndexKey::Time(time) => (1, time.0 as int),
        }
    }

    /// Whether `self` comes before `other`.
    pub open spec fn before(self, other: IndexKey) -> bool {
        self.rank().0 < other.rank().0 || (self.rank().0 == other.rank().0 && self.rank().1
            < other.rank().1)
    }

    /// Whether `self` comes before `other`.
    pub fn less(&self, other: &IndexKey) -> (less: bool)
        ensures
            less == self.before(*other),
    {
        match (self, other) {
            (IndexKey::Id(a), IndexKey::Id(b)) => a.0 < b.0,
            (IndexKey::Id(_), IndexKey::Time(_)) => true,
            (IndexKey::Time(_), IndexKey::Id(_)) => false,
            (IndexKey::Time(a), IndexKey::Time(b)) => a.0 < b.0,
        }
    }

    /// Whether two keys are the same.
    pub fn same(&self, other: &IndexKey) -> (same: bool)
        ensures
            same == (*self == *other),
    {
        match (self, other) {
            (IndexKey::Id(a), IndexKey::Id(b)) => a.0 == b.0,
            (IndexKey::Time(a), IndexKey::Time(b)) => a.0 == b.0,
            _ => false,
        }
    }
}

impl IndexEntry {
    /// Whether `self` comes before `other`: by key, and under one key by
    /// the record's identifier.
    pub open spec fn before(self, other: IndexEntry) -> bool {
        self.key.before(other.key) || (self.key == other.key && self.record.0 < other.record.0)
    }

    /// Whether `self` comes before `other`.
    pub fn less(&self, other: &IndexEntry) -> (less: bool)
        ensures
            less == self.before(*other),
    {
        self.key.less(&other.key) || (self.key.same(&other.key) && self.record.0 < other.record.0)
    }

    /// Whether two entries are the same.
    pub fn same(&self, other: &IndexEntry) -> (same: bool)
        ensures
            same == (*self == *other),
    {
        self.key.same(&other.key) && self.record.0 == other.record.0
    }
}

/// The key under which a record of the given bytes is filed in an index
/// over `field`: the identifier that a reference holds, or the time that a
/// timestamp holds. Fields of other types have no key, nor have bytes that
/// do not decode.
pub open spec fn record_key(bytes: Seq<u8>, field: TableFieldDataView) -> Option<IndexKey> {
    match field.ty {
        FieldTyView::RecordId { .. } => match Ulid::unpacked(field.offset as nat, bytes) {
            Some(id) => Some(IndexKey::Id(id)),
            None => None,
        },
        FieldTyView::Timestamp => match Timestamp::unpacked(field.offset as nat, bytes) {
            Some(time) => Some(IndexKey::Time(time)),
            None => None,
        },
        _ => None,
    }
}

/// Whether the entries stand in order, each before the next. No entry then
/// occurs twice.
pub open spec fn entries_sorted(entries: Seq<IndexEntry>) -> bool {
    forall|i: int, j: int| 0 <= i < j < entries.len() ==> entries[i].before(entries[j])
}

/// The position of the first entry that does not come before `entry`.
pub fn entry_position(entries: &Vec<IndexEntry>, entry: &IndexEntry) -> (pos: usize)
    requires
        entries_sorted(entries@),
    ensures
        pos <= entries@.len(),
        forall|i: int| 0 <= i < pos ==> entries@[i].before(*entry),
        forall|i: int| pos <= i < entries@.len() ==> !entries@[i].before(*entry),
{
    let mut pos: usize = 0;
    while pos < entries.len() && entries[pos].less(entry)
        invariant
            pos <= entries@.len(),
            entries_sorted(entries@),
            forall|i: int| 0 <= i < pos ==> entries@[i].before(*entry),
        decreases entries@.len() - pos,
    {
        pos += 1;
    }
    proof {
        assert forall|i: int| pos <= i < entries@.len() implies !entries@[i].before(*entry) by {
            if i > pos {
                assert(entries@[pos as int].before(entries@[i]));
            }
        }
    }
    pos
}

/// Enters `entry`, unless it is there already.
pub fn insert_entry(entries: &mut Vec<IndexEntry>, entry: IndexEntry)
    requires
        entries_sorted(old(entries)@),
    ensures
        entries_sorted(final(entries)@),
        forall|e: IndexEntry|
            final(entries)@.contains(e) <==> old(entries)@.contains(e) || e == entry,
{
    let pos = entry_position(entries, &entry);
    if pos < entries.len() && entries[pos].same(&entry) {
        assert(entries@.contains(entry));
        return ;
    }
    entries.insert(pos, entry);
    proof {
        let before = old(entries)@;
        let after = entries@;
        assert(after.len() == before.len() + 1);
        assert(after[pos as int] == entry);
        assert forall|i: int| 0 <= i < pos implies after[i] == before[i] by {}
        assert forall|i: int| pos < i < after.len() implies after[i] == before[i - 1] by {}
        assert forall|e: IndexEntry| after.contains(e) implies before.contains(e) || e
            == entry by {
            let i = choose|i: int| 0 <= i < after.len() && after[i] == e;
            if i < pos {
                assert(before[i] == e);
            } else if i > pos {
                assert(before[i - 1] == e);
            }
        }
        assert forall|e: IndexEntry| before.contains(e) || e == entry implies after.contains(
            e,
        ) by {
            if e == entry {
                assert(after[pos as int] == e);
            } else {
                let i = choose|i: int| 0 <= i < before.len() && before[i] == e;
                if i < pos {
                    assert(after[i] == e);
                } else {
                    assert(after[i + 1] == e);
                }
            }
        }
        assert forall|i: int, j: int| 0 <= i < j < after.len() implies after[i].before(
            after[j],
        ) by {
            if j < pos {
            } else if j == pos {
            } else if i == pos {
                assert(!before[j - 1].before(entry));
                assert(before[j - 1] != entry) by {
                    if j - 1 > pos {
                        assert(before[pos as int].before(before[j - 1]));
                    }
                }
            } else if i < pos {
                assert(before[i].before(before[j - 1]));
            } else {
                assert(before[i - 1].before(before[j - 1]));
            }
        }
    }
}

/// Removes `entry`, if it is there.
pub fn remove_entry(entries: &mut Vec<IndexEntry>, entry: IndexEntry)
    requires
        entries_sorted(old(entries)@),
    ensures
        entries_sorted(final(entries)@),
        forall|e: IndexEntry|
            final(entries)@.contains(e) <==> old(entries)@.contains(e) && e != entry,
{
    let pos = entry_position(entries, &entry);
    if pos < entries.len() && entries[pos].same(&entry) {
        entries.remove(pos);
        proof {
            let before = old(entries)@;
            let after = entries@;
            assert(after.len() == before.len() - 1);
            assert forall|i: int| 0 <= i < pos implies after[i] == before[i] by {}
            assert forall|i: int| pos <= i < after.len() implies after[i] == before[i + 1] by {}
            assert forall|e: IndexEntry| after.contains(e) implies before.contains(e) && e
                != entry by {
                let i = choose|i: int| 0 <= i < after.len() && after[i] == e;
                if i < pos {
                    assert(before[i] == e);
                    assert(before[i].before(before[pos as int]));
                } else {
                    assert(before[i + 1] == e);
                    assert(before[pos as int].before(before[i + 1]));
                }
            }
            assert forall|e: IndexEntry| before.contains(e) && e != entry implies after.contains(
                e,
            ) by {
                let i = choose|i: int| 0 <= i < before.len() && before[i] == e;
                if i < pos {
                    assert(after[i] == e);
                } else {
                    assert(after[i - 1] == e);
                }
            }
            assert forall|i: int, j: int| 0 <= i < j < after.len() implies after[i].before(
                after[j],
            ) by {
                let a = if i < pos { i } else { i + 1 };
                let b = if j < pos { j } else { j + 1 };
                assert(before[a].before(before[b]));
            }
        }
    } else {
        proof {
            let before = old(entries)@;
            assert forall|e: IndexEntry| before.contains(e) implies e != entry by {
                let i = choose|i: int| 0 <= i < before.len() && before[i] == e;
                if i < pos {
                    assert(before[i].before(entry));
                } else if i > pos {
                    assert(before[pos as int].before(before[i]));
                    assert(!before[pos as int].before(entry));
                }
            }
        }
    }
}

/// Removes every entry filed under `key`, and returns the records that
/// they named, in order.
pub fn remove_key(entries: &mut Vec<IndexEntry>, key: IndexKey) -> (records: Vec<Ulid>)
    requires
        entries_sorted(old(entries)@),
    ensures
        entries_sorted(final(entries)@),
        forall|e: IndexEntry|
            final(entries)@.contains(e) <==> old(entries)@.contains(e) && e.key != key,
        forall|id: Ulid|
            records@.contains(id) <==> old(entries)@.contains(IndexEntry { key, record: id }),
        forall|i: int, j: int| 0 <= i < j < records@.len() ==> records@[i].0 < records@[j].0,
{
    let mut kept: Vec<IndexEntry> = Vec::new();
    let mut records: Vec<Ulid> = Vec::new();
    let mut i: usize = 0;
    while i < entries.len()
        invariant
            i <= entries@.len(),
            entries@ == old(entries)@,
            entries_sorted(entries@),
            entries_sorted(kept@),
            forall|e: IndexEntry|
                kept@.contains(e) <==> exists|k: int| 0 <= k < i && entries@[k] == e && e.key != key,
            forall|id: Ulid|
                records@.contains(id) <==> exists|k: int|
                    0 <= k < i && entries@[k] == (IndexEntry { key, record: id }),
            forall|a: int, b: int| 0 <= a < b < records@.len() ==> records@[a].0 < records@[b].0,
            forall|a: int| 0 <= a < kept@.len() ==> exists|k: int| 0 <= k < i && entries@[k] == #[trigger] kept@[a],
            forall|a: int| 0 <= a < records@.len() ==> exists|k: int| 0 <= k < i && entries@[k] == (IndexEntry { key, record: #[trigger] records@[a] }),
        decreases entries@.len() - i,
    {
        let entry = entries[i];
        let ghost kept_before = kept@;
        let ghost records_before = records@;
        if entry.key.same(&key) {
            records.push(entry.record);
            proof {
                assert(records@[records_before.len() as int] == entry.record);
                assert forall|id: Ulid| records@.contains(id) implies exists|k: int|
                    0 <= k < i + 1 && entries@[k] == (IndexEntry { key, record: id }) by {
                    let a = choose|a: int| 0 <= a < records@.len() && records@[a] == id;
                    if a < records_before.len() {
                        assert(records_before[a] == id);
                        assert(records_before.contains(id));
                    } else {
                        assert(entries@[i as int] == (IndexEntry { key, record: id }));
                    }
                }
                assert forall|id: Ulid|
                    (exists|k: int|
                        0 <= k < i + 1 && entries@[k] == (IndexEntry {
                            key,
                            record: id,
                        })) implies records@.contains(id) by {
                    let k = choose|k: int|
                        0 <= k < i + 1 && entries@[k] == (IndexEntry { key, record: id });
                    if k < i {
                        assert(records_before.contains(id));
                        let a = choose|a: int|
                            0 <= a < records_before.len() && records_before[a] == id;
                        assert(records@[a] == id);
                    } else {
                        assert(records@[records_before.len() as int] == id);
                    }
                }
                assert forall|a: int, b: int| 0 <= a < b < records@.len() implies records@[a].0
                    < records@[b].0 by {
                    if b == records_before.len() {
                        let k = choose|k: int|
                            0 <= k < i && entries@[k] == (IndexEntry {
                                key,
                                record: records_before[a],
                            });
                        assert(entries@[k].before(entries@[i as int]));
                    } else {
                        assert(records_before[a].0 < records_before[b].0);
                    }
                }
                assert forall|a: int| 0 <= a < records@.len() implies exists|k: int|
                    0 <= k < i + 1 && entries@[k] == (IndexEntry {
                        key,
                        record: #[trigger] records@[a],
                    }) by {
                    if a < records_before.len() {
                        assert(records@[a] == records_before[a]);
                        let k = choose|k: int|
                            0 <= k < i && entries@[k] == (IndexEntry {
                                key,
                                record: records_before[a],
                            });
                        assert(0 <= k < i + 1);
                    } else {
                        assert(entries@[i as int] == (IndexEntry {
                            key,
                            record: records@[a],
                        }));
                    }
                }
                assert forall|e: IndexEntry| kept@.contains(e) <==> exists|k: int|
                    0 <= k < i + 1 && entries@[k] == e && e.key != key by {
                    if kept@.contains(e) {
                        let k = choose|k: int| 0 <= k < i && entries@[k] == e && e.key != key;
                        assert(0 <= k < i + 1);
                    }
                    if exists|k: int| 0 <= k < i + 1 && entries@[k] == e && e.key != key {
                        let k = choose|k: int| 0 <= k < i + 1 && entries@[k] == e && e.key != key;
                        assert(k < i);
                    }
                }
                assert forall|a: int| 0 <= a < kept@.len() implies exists|k: int|
                    0 <= k < i + 1 && entries@[k] == #[trigger] kept@[a] by {
                    let k = choose|k: int| 0 <= k < i && entries@[k] == kept@[a];
                    assert(0 <= k < i + 1);
                }
            }
        } else {
            kept.push(entry);
            proof {
                assert(kept@[kept_before.len() as int] == entry);
                assert forall|e: IndexEntry| kept@.contains(e) implies exists|k: int|
                    0 <= k < i + 1 && entries@[k] == e && e.key != key by {
                    let a = choose|a: int| 0 <= a < kept@.len() && kept@[a] == e;
                    if a < kept_before.len() {
                        assert(kept_before[a] == e);
                        assert(kept_before.contains(e));
                        let k = choose|k: int| 0 <= k < i && entries@[k] == e && e.key != key;
                        assert(0 <= k < i + 1);
                    } else {
                        assert(entries@[i as int] == e);
                    }
                }
                assert forall|e: IndexEntry|
                    (exists|k: int|
                        0 <= k < i + 1 && entries@[k] == e && e.key != key) implies kept@.contains(
                    e,
                ) by {
                    let k = choose|k: int| 0 <= k < i + 1 && entries@[k] == e && e.key != key;
                    if k < i {
                        assert(kept_before.contains(e));
                        let a = choose|a: int| 0 <= a < kept_before.len() && kept_before[a] == e;
                        assert(kept@[a] == e);
                    } else {
                        assert(kept@[kept_before.len() as int] == e);
                    }
                }
                assert forall|a: int, b: int| 0 <= a < b < kept@.len() implies kept@[a].before(
                    kept@[b],
                ) by {
                    if b == kept_before.len() {
                        assert(kept@[a] == kept_before[a]);
                        let k = choose|k: int| 0 <= k < i && entries@[k] == kept_before[a];
                        assert(entries@[k].before(entries@[i as int]));
                    } else {
                        assert(kept_before[a].before(kept_before[b]));
                    }
                }
                assert forall|a: int| 0 <= a < kept@.len() implies exists|k: int|
                    0 <= k < i + 1 && entries@[k] == #[trigger] kept@[a] by {
                    if a < kept_before.len() {
                        assert(kept@[a] == kept_before[a]);
                        let k = choose|k: int| 0 <= k < i && entries@[k] == kept_before[a];
                        assert(0 <= k < i + 1);
                    } else {
                        assert(entries@[i as int] == kept@[a]);
                    }
                }
                assert forall|id: Ulid| records@.contains(id) <==> exists|k: int|
                    0 <= k < i + 1 && entries@[k] == (IndexEntry { key, record: id }) by {
                    if records@.contains(id) {
                        let k = choose|k: int|
                            0 <= k < i && entries@[k] == (IndexEntry { key, record: id });
                        assert(0 <= k < i + 1);
                    }
                    if exists|k: int|
                        0 <= k < i + 1 && entries@[k] == (IndexEntry { key, record: id }) {
                        let k = choose|k: int|
                            0 <= k < i + 1 && entries@[k] == (IndexEntry { key, record: id });
                        assert(k < i);
                    }
                }
                assert forall|a: int| 0 <= a < records@.len() implies exists|k: int|
                    0 <= k < i + 1 && entries@[k] == (IndexEntry {
                        key,
                        record: #[trigger] records@[a],
                    }) by {
                    let k = choose|k: int|
                        0 <= k < i && entries@[k] == (IndexEntry { key, record: records@[a] });
                    assert(0 <= k < i + 1);
                }
            }
        }
        i += 1;
    }
    proof {
        let before = old(entries)@;
        assert forall|e: IndexEntry| kept@.contains(e) <==> before.contains(e) && e.key
            != key by {
            if before.contains(e) && e.key != key {
                let k = choose|k: int| 0 <= k < before.len() && before[k] == e;
                assert(0 <= k < i && entries@[k] == e && e.key != key);
            }
        }
        assert forall|id: Ulid| records@.contains(id) <==> before.contains(
            IndexEntry { key, record: id },
        ) by {
            if before.contains(IndexEntry { key, record: id }) {
                let k = choose|k: int|
                    0 <= k < before.len() && before[k] == (IndexEntry { key, record: id });
                assert(0 <= k < i && entries@[k] == (IndexEntry { key, record: id }));
            }
        }
    }
    *entries = kept;
    records
}

} // verus!
