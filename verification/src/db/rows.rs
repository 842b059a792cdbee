//! The records of a table, kept in the order of their identifiers.

use vstd::prelude::*;

use crate::bytepack::extern_types::Ulid;
use crate::db_core::record::{RecordBytes, RecordBytesView};

verus! {

/// Whether the records stand in the order of their identifiers, each
/// before the next. No identifier then occurs twice.
pub open spec fn rows_sorted(rows: Seq<RecordBytesView>) -> bool {
    forall|i: int, j: int| 0 <= i < j < rows.len() ==> rows[i].id.0 < rows[j].id.0
}

/// Whether a record of the identifier given is among `rows`.
pub open spec fn has_row(rows: Seq<RecordBytesView>, id: Ulid) -> bool {
    exists|i: int| 0 <= i < rows.len() && rows[i].id == id
}

/// In sorted rows, a record is known by its identifier.
pub proof fn lemma_row_by_id(rows: Seq<RecordBytesView>, a: RecordBytesView, b: RecordBytesView)
    requires
        rows_sorted(rows),
        rows.contains(a),
        rows.contains(b),
        a.id == b.id,
    ensures
        a == b,
{
    let i = choose|i: int| 0 <= i < rows.len() && rows[i] == a;
    let j = choose|j: int| 0 <= j < rows.len() && rows[j] == b;
    if i < j {
        assert(rows[i].id.0 < rows[j].id.0);
    } else if j < i {
        assert(rows[j].id.0 < rows[i].id.0);
    }
}

/// The position of the first record whose identifier is not below `id`.
pub fn row_position(rows: &Vec<RecordBytes>, id: Ulid) -> (pos: usize)
    requires
        rows_sorted(rows.deep_view()),
    ensures
        pos <= rows@.len(),
        forall|i: int| 0 <= i < pos ==> rows.deep_view()[i].id.0 < id.0,
        forall|i: int| pos <= i < rows@.len() ==> rows.deep_view()[i].id.0 >= id.0,
{
    let ghost view = rows.deep_view();
    let mut pos: usize = 0;
    while pos < rows.len() && rows[pos].id().0 < id.0
        invariant
            pos <= rows@.len(),
            view == rows.deep_view(),
            view.len() == rows@.len(),
            rows_sorted(view),
            forall|i: int| 0 <= i < pos ==> view[i].id.0 < id.0,
        decreases rows@.len() - pos,
    {
        proof {
            assert(view[pos as int] == rows@[pos as int].deep_view());
        }
        pos += 1;
    }
    proof {
        if pos < rows.len() {
            assert(view[pos as int] == rows@[pos as int].deep_view());
        }
        assert forall|i: int| pos <= i < rows@.len() implies view[i].id.0 >= id.0 by {
            if i > pos {
                assert(view[pos as int].id.0 < view[i].id.0);
            }
        }
    }
    pos
}

/// The record of the identifier given.
pub fn find_row<'a>(rows: &'a Vec<RecordBytes>, id: Ulid) -> (found: Option<&'a RecordBytes>)
    requires
        rows_sorted(rows.deep_view()),
    ensures
        match found {
            Some(record) => record.deep_view().id == id && rows.deep_view().contains(
                record.deep_view(),
            ),
            None => !has_row(rows.deep_view(), id),
        },
{
    let pos = row_position(rows, id);
    let ghost view = rows.deep_view();
    if pos < rows.len() {
        proof {
            assert(view[pos as int] == rows@[pos as int].deep_view());
        }
        if rows[pos].id().0 == id.0 {
            return Some(&rows[pos]);
        }
    }
    proof {
        assert forall|i: int| 0 <= i < view.len() implies view[i].id != id by {
            if i > pos {
                assert(view[pos as int].id.0 < view[i].id.0);
            }
        }
    }
    None
}

/// Puts `record` among `rows`, where no record of its identifier is.
pub fn put_row(rows: &mut Vec<RecordBytes>, record: RecordBytes)
    requires
        rows_sorted(old(rows).deep_view()),
        !has_row(old(rows).deep_view(), record.deep_view().id),
    ensures
        rows_sorted(final(rows).deep_view()),
        final(rows)@.len() == old(rows)@.len() + 1,
        forall|r: RecordBytesView|
            final(rows).deep_view().contains(r) <==> old(rows).deep_view().contains(r) || r
                == record.deep_view(),
{
    let pos = row_position(rows, record.id());
    let ghost before = rows.deep_view();
    let ghost new = record.deep_view();
    rows.insert(pos, record);
    proof {
        let after = rows.deep_view();
        assert(after.len() == before.len() + 1);
        assert(after[pos as int] == new);
        assert forall|i: int| 0 <= i < pos implies after[i] == before[i] by {
            assert(rows@[i] == old(rows)@[i]);
        }
        assert forall|i: int| pos < i < after.len() implies after[i] == before[i - 1] by {
            assert(rows@[i] == old(rows)@[i - 1]);
        }
        assert forall|r: RecordBytesView| after.contains(r) implies before.contains(r) || r
            == new by {
            let i = choose|i: int| 0 <= i < after.len() && after[i] == r;
            if i < pos {
                assert(before[i] == r);
            } else if i > pos {
                assert(before[i - 1] == r);
            }
        }
        assert forall|r: RecordBytesView| before.contains(r) || r == new implies after.contains(
            r,
        ) by {
            if r == new {
                assert(after[pos as int] == r);
            } else {
                let i = choose|i: int| 0 <= i < before.len() && before[i] == r;
                if i < pos {
                    assert(after[i] == r);
                } else {
                    assert(after[i + 1] == r);
                }
            }
        }
        assert forall|i: int, j: int| 0 <= i < j < after.len() implies after[i].id.0
            < after[j].id.0 by {
            if j < pos {
            } else if j == pos {
            } else if i == pos {
                assert(before[j - 1].id != new.id);
            } else if i < pos {
                assert(before[i].id.0 < before[j - 1].id.0);
            } else {
                assert(before[i - 1].id.0 < before[j - 1].id.0);
            }
        }
    }
}

/// Takes the record of the identifier given out of `rows`.
pub fn take_row(rows: &mut Vec<RecordBytes>, id: Ulid) -> (taken: Option<RecordBytes>)
    requires
        rows_sorted(old(rows).deep_view()),
    ensures
        rows_sorted(final(rows).deep_view()),
        match taken {
            Some(record) => {
                &&& record.deep_view().id == id
                &&& old(rows).deep_view().contains(record.deep_view())
                &&& final(rows)@.len() + 1 == old(rows)@.len()
                &&& forall|r: RecordBytesView|
                    final(rows).deep_view().contains(r) <==> old(rows).deep_view().contains(r)
                        && r.id != id
            },
            None => !has_row(old(rows).deep_view(), id) && final(rows).deep_view() == old(
                rows,
            ).deep_view(),
        },
{
    let pos = row_position(rows, id);
    let ghost before = rows.deep_view();
    if pos < rows.len() {
        proof {
            assert(before[pos as int] == rows@[pos as int].deep_view());
        }
        if rows[pos].id().0 == id.0 {
            let record = rows.remove(pos);
            proof {
                let after = rows.deep_view();
                assert(after.len() == before.len() - 1);
                assert forall|i: int| 0 <= i < pos implies after[i] == before[i] by {
                    assert(rows@[i] == old(rows)@[i]);
                }
                assert forall|i: int| pos <= i < after.len() implies after[i] == before[i
                    + 1] by {
                    assert(rows@[i] == old(rows)@[i + 1]);
                }
                assert forall|r: RecordBytesView| after.contains(r) implies before.contains(r)
                    && r.id != id by {
                    let i = choose|i: int| 0 <= i < after.len() && after[i] == r;
                    if i < pos {
                        assert(before[i] == r);
                        assert(before[i].id.0 < before[pos as int].id.0);
                    } else {
                        assert(before[i + 1] == r);
                        assert(before[pos as int].id.0 < before[i + 1].id.0);
                    }
                }
                assert forall|r: RecordBytesView|
                    before.contains(r) && r.id != id implies after.contains(r) by {
                    let i = choose|i: int| 0 <= i < before.len() && before[i] == r;
                    if i < pos {
                        assert(after[i] == r);
                    } else {
                        assert(after[i - 1] == r);
                    }
                }
                assert forall|i: int, j: int| 0 <= i < j < after.len() implies after[i].id.0
                    < after[j].id.0 by {
                    let a = if i < pos { i } else { i + 1 };
                    let b = if j < pos { j } else { j + 1 };
                    assert(before[a].id.0 < before[b].id.0);
                }
                assert(before.contains(record.deep_view())) by {
                    assert(before[pos as int] == record.deep_view());
                }
            }
            return Some(record);
        }
    }
    proof {
        assert forall|i: int| 0 <= i < before.len() implies before[i].id != id by {
            if i > pos {
                assert(before[pos as int].id.0 < before[i].id.0);
            }
        }
    }
    None
}

} // verus!
