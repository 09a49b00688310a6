//! Tables kept as lists of rows with distinct primary keys.

use vstd::prelude::*;

verus! {

/// A row with a primary key.
pub trait Keyed: Sized {
    /// The primary key as a mathematical value.
    type Key;

    /// The row's contents as a mathematical value.
    type Row;

    /// The row's primary key.
    spec fn row_key(self) -> Self::Key;

    /// The row's contents, with sealed columns as `session_key` opens them.
    spec fn row_view(self, session_key: Seq<u8>) -> Self::Row;
}

/// Whether no two rows share a primary key.
pub open spec fn distinct_rows<R: Keyed>(rows: Seq<R>) -> bool {
    forall|i: int, j: int|
        0 <= i < j < rows.len() ==> (#[trigger] rows[i]).row_key() != (#[trigger] rows[j]).row_key()
}

/// The rows as a map from primary key to contents.
pub open spec fn as_map<R: Keyed>(rows: Seq<R>, session_key: Seq<u8>) -> Map<R::Key, R::Row>
    decreases rows.len(),
{
    if rows.len() == 0 {
        Map::empty()
    } else {
        as_map(rows.drop_last(), session_key).insert(
            rows.last().row_key(),
            rows.last().row_view(session_key),
        )
    }
}

/// Rows with the same keys and contents make the same map.
pub proof fn same_rows_same_map<R: Keyed>(a: Seq<R>, b: Seq<R>, session_key: Seq<u8>)
    requires
        a.len() == b.len(),
        forall|i: int| 0 <= i < a.len() ==> (#[trigger] a[i]).row_key() == b[i].row_key(),
        forall|i: int|
            0 <= i < a.len() ==> (#[trigger] a[i]).row_view(session_key) == b[i].row_view(
                session_key,
            ),
    ensures
        as_map(a, session_key) == as_map(b, session_key),
    decreases a.len(),
{
    if a.len() > 0 {
        same_rows_same_map(a.drop_last(), b.drop_last(), session_key);
    }
}

/// Whether some row has the key.
pub open spec fn has_row<R: Keyed>(rows: Seq<R>, key: R::Key) -> bool {
    exists|i: int| 0 <= i < rows.len() && (#[trigger] rows[i]).row_key() == key
}

/// The map has exactly the keys of the rows.
pub proof fn map_keys<R: Keyed>(rows: Seq<R>, session_key: Seq<u8>, key: R::Key)
    ensures
        as_map(rows, session_key).contains_key(key) == has_row(rows, key),
    decreases rows.len(),
{
    if rows.len() > 0 {
        let front = rows.drop_last();
        map_keys(front, session_key, key);
        if has_row(rows, key) {
            let i = choose|i: int| 0 <= i < rows.len() && (#[trigger] rows[i]).row_key() == key;
            if i < front.len() {
                assert(front[i].row_key() == key);
            }
        }
        if has_row(front, key) {
            let i = choose|i: int| 0 <= i < front.len() && (#[trigger] front[i]).row_key() == key;
            assert(rows[i].row_key() == key);
        }
        if rows.last().row_key() == key {
            assert(rows[rows.len() - 1].row_key() == key);
        }
    }
}

/// The map holds each row's contents under its key.
pub proof fn map_rows<R: Keyed>(rows: Seq<R>, session_key: Seq<u8>, i: int)
    requires
        distinct_rows(rows),
        0 <= i < rows.len(),
    ensures
        as_map(rows, session_key).contains_key(rows[i].row_key()),
        as_map(rows, session_key)[rows[i].row_key()] == rows[i].row_view(session_key),
    decreases rows.len(),
{
    let front = rows.drop_last();
    assert(distinct_rows(front)) by {
        assert forall|a: int, b: int| 0 <= a < b < front.len() implies (
        #[trigger] front[a]).row_key() != (#[trigger] front[b]).row_key() by {
            assert(rows[a].row_key() != rows[b].row_key());
        }
    }
    if i < front.len() {
        map_rows(front, session_key, i);
        assert(front[i] == rows[i]);
        assert(rows[i].row_key() != rows[rows.len() - 1].row_key());
    }
}

/// Appending a row with a new key inserts it into the map.
pub proof fn map_push<R: Keyed>(rows: Seq<R>, row: R, session_key: Seq<u8>)
    requires
        distinct_rows(rows),
        !has_row(rows, row.row_key()),
    ensures
        distinct_rows(rows.push(row)),
        as_map(rows.push(row), session_key) == as_map(rows, session_key).insert(
            row.row_key(),
            row.row_view(session_key),
        ),
{
    let after = rows.push(row);
    assert(after.drop_last() =~= rows);
    assert forall|a: int, b: int| 0 <= a < b < after.len() implies (#[trigger] after[a]).row_key()
        != (#[trigger] after[b]).row_key() by {
        if b == rows.len() {
            assert(rows[a].row_key() != row.row_key());
        } else {
            assert(rows[a].row_key() != rows[b].row_key());
        }
    }
}

/// Taking a row out removes its key from the map.
pub proof fn map_remove<R: Keyed>(rows: Seq<R>, i: int, session_key: Seq<u8>)
    requires
        distinct_rows(rows),
        0 <= i < rows.len(),
    ensures
        distinct_rows(rows.remove(i)),
        as_map(rows.remove(i), session_key) == as_map(rows, session_key).remove(rows[i].row_key()),
        !has_row(rows.remove(i), rows[i].row_key()),
{
    let after = rows.remove(i);
    assert forall|a: int, b: int| 0 <= a < b < after.len() implies (#[trigger] after[a]).row_key()
        != (#[trigger] after[b]).row_key() by {
        let a2 = if a < i {
            a
        } else {
            a + 1
        };
        let b2 = if b < i {
            b
        } else {
            b + 1
        };
        assert(rows[a2].row_key() != rows[b2].row_key());
    }
    let k = rows[i].row_key();
    assert forall|a: int| 0 <= a < after.len() implies (#[trigger] after[a]).row_key() != k by {
        let a2 = if a < i {
            a
        } else {
            a + 1
        };
        assert(after[a] == rows[a2]);
        if a2 < i {
            assert(rows[a2].row_key() != rows[i].row_key());
        } else {
            assert(rows[i].row_key() != rows[a2].row_key());
        }
    }
    let m = as_map(rows, session_key);
    let n = as_map(after, session_key);
    assert forall|key: R::Key| n.contains_key(key) == #[trigger] m.remove(k).contains_key(key) by {
        map_keys(rows, session_key, key);
        map_keys(after, session_key, key);
        if has_row(after, key) {
            let a = choose|a: int| 0 <= a < after.len() && (#[trigger] after[a]).row_key() == key;
            let a2 = if a < i {
                a
            } else {
                a + 1
            };
            assert(rows[a2].row_key() == key);
        }
        if has_row(rows, key) && key != k {
            let a2 = choose|a2: int| 0 <= a2 < rows.len() && (#[trigger] rows[a2]).row_key() == key;
            let a = if a2 < i {
                a2
            } else {
                a2 - 1
            };
            assert(after[a].row_key() == key);
        }
    }
    assert forall|key: R::Key| n.contains_key(key) implies n[key] == #[trigger] m.remove(k)[key] by {
        map_keys(after, session_key, key);
        let a = choose|a: int| 0 <= a < after.len() && (#[trigger] after[a]).row_key() == key;
        let a2 = if a < i {
            a
        } else {
            a + 1
        };
        assert(after[a] == rows[a2]);
        map_rows(after, session_key, a);
        map_rows(rows, session_key, a2);
    }
    assert(n =~= m.remove(k));
}

/// Removing a key that no row has changes nothing.
pub proof fn map_remove_absent<R: Keyed>(rows: Seq<R>, session_key: Seq<u8>, key: R::Key)
    requires
        !has_row(rows, key),
    ensures
        as_map(rows, session_key).remove(key) == as_map(rows, session_key),
{
    map_keys(rows, session_key, key);
    assert(as_map(rows, session_key).remove(key) =~= as_map(rows, session_key));
}

/// The row with that key.
pub open spec fn row_at<R: Keyed>(rows: Seq<R>, key: R::Key) -> R {
    rows[choose|i: int| 0 <= i < rows.len() && (#[trigger] rows[i]).row_key() == key]
}

/// With distinct keys, the row with a key is the one that has it.
pub proof fn row_is_unique<R: Keyed>(rows: Seq<R>, i: int)
    requires
        distinct_rows(rows),
        0 <= i < rows.len(),
    ensures
        row_at(rows, rows[i].row_key()) == rows[i],
{
    let key = rows[i].row_key();
    assert(rows[i].row_key() == key);
    let j = choose|j: int| 0 <= j < rows.len() && (#[trigger] rows[j]).row_key() == key;
    assert(rows[j].row_key() == rows[i].row_key());
}

} // verus!
