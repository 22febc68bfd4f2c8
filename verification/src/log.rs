//! Append-only tables with store-assigned ids.

use crate::model::Record;
use vstd::prelude::*;

verus! {

/// The largest id a log hands out.
pub const MAX_ID: i64 = 2_147_483_647;

/// Rows in the order in which they were appended, each under an id that
/// the log assigned. Ids grow with every append and are never reused.
pub struct Log<T> {
    rows: Vec<T>,
    next_id: i64,
}

/// Whether the ids of `rows` grow strictly from each row to the next.
pub open spec fn ids_increase<T: Record>(rows: Seq<T>) -> bool {
    forall|i: int, j: int| 0 <= i < j < rows.len() ==> rows[i].record_id() < rows[j].record_id()
}

/// Whether every id of `rows` is at least `low` and below `high`.
pub open spec fn ids_within<T: Record>(rows: Seq<T>, low: int, high: int) -> bool {
    forall|i: int| 0 <= i < rows.len() ==> low <= #[trigger] rows[i].record_id() < high
}

/// The invariant of a log with rows `rows` whose next id is `next_id`:
/// ids grow from row to row, start at 1 or above, and stay below the
/// next id, which is at most one past [`MAX_ID`].
pub open spec fn log_wf<T: Record>(rows: Seq<T>, next_id: i64) -> bool {
    &&& ids_increase(rows)
    &&& ids_within(rows, 1, next_id as int)
    &&& 1 <= next_id <= MAX_ID + 1
}

/// The id that follows the ids of `rows`: one more than the id of the
/// last row, or 1 when there is no row.
pub open spec fn next_id_after<T: Record>(rows: Seq<T>) -> int {
    if rows.len() == 0 {
        1
    } else {
        rows.last().record_id() + 1
    }
}

/// Whether some row of `rows` carries `id`.
pub open spec fn has_id<T: Record>(rows: Seq<T>, id: i64) -> bool {
    exists|i: int| 0 <= i < rows.len() && #[trigger] rows[i].record_id() == id
}

/// The row of `rows` that carries `id`, if there is one.
pub open spec fn row_with_id<T: Record>(rows: Seq<T>, id: i64) -> Option<T> {
    if has_id(rows, id) {
        Some(rows[choose|i: int| 0 <= i < rows.len() && #[trigger] rows[i].record_id() == id])
    } else {
        None
    }
}

/// Where ids grow, the row found at an index is the row with its id.
pub proof fn lemma_row_with_id<T: Record>(rows: Seq<T>, i: int)
    requires
        ids_increase(rows),
        0 <= i < rows.len(),
    ensures
        has_id(rows, rows[i].record_id()),
        row_with_id(rows, rows[i].record_id()) == Some(rows[i]),
{
    let id = rows[i].record_id();
    let j = choose|j: int| 0 <= j < rows.len() && #[trigger] rows[j].record_id() == id;
    if j < i {
        assert(rows[j].record_id() < rows[i].record_id());
    } else if i < j {
        assert(rows[i].record_id() < rows[j].record_id());
    }
}

/// With growing ids of at least 1, the row at index `i` has an id above `i`.
pub proof fn lemma_id_exceeds_index<T: Record>(rows: Seq<T>, i: int)
    requires
        ids_increase(rows),
        ids_within(rows, 1, i64::MAX as int + 1),
        0 <= i < rows.len(),
    ensures
        rows[i].record_id() > i,
    decreases i,
{
    if i > 0 {
        lemma_id_exceeds_index(rows, i - 1);
    }
}

/// A log has fewer rows than its next id says.
pub proof fn lemma_len_below_next_id<T: Record>(rows: Seq<T>, next_id: i64)
    requires
        log_wf(rows, next_id),
    ensures
        rows.len() < next_id,
        rows.len() <= MAX_ID,
{
    if rows.len() > 0 {
        lemma_id_exceeds_index(rows, rows.len() - 1);
    }
}

impl<T: Record> View for Log<T> {
    type V = Seq<T>;

    closed spec fn view(&self) -> Seq<T> {
        self.rows@
    }
}

impl<T: Record> Log<T> {
    /// The id that the next appended row receives.
    pub closed spec fn next_id(&self) -> i64 {
        self.next_id
    }

    /// The invariant of a log.
    pub open spec fn wf(&self) -> bool {
        log_wf(self@, self.next_id())
    }

    /// Whether the log has handed out its last id.
    pub open spec fn is_full(&self) -> bool {
        self.next_id() > MAX_ID
    }

    /// An empty log whose first id is 1.
    pub fn new() -> (log: Self)
        ensures
            log.wf(),
            log@ == Seq::<T>::empty(),
            log.next_id() == 1,
    {
        Log { rows: Vec::new(), next_id: 1 }
    }

    /// The log that holds `rows`, when their ids grow strictly and lie
    /// between 1 and [`MAX_ID`]. The next id then follows the last row's.
    pub fn from_rows(rows: Vec<T>) -> (result: Option<Self>)
        ensures
            result is Some <==> ids_increase(rows@) && ids_within(rows@, 1, MAX_ID + 1),
            result matches Some(log) ==> {
                &&& log.wf()
                &&& log@ == rows@
                &&& log.next_id() == next_id_after(rows@)
            },
    {
        let mut last: i64 = 0;
        let mut i: usize = 0;
        while i < rows.len()
            invariant
                0 <= i <= rows.len(),
                0 <= last <= MAX_ID,
                i == 0 ==> last == 0,
                i > 0 ==> last == rows@[i - 1].record_id(),
                ids_increase(rows@.take(i as int)),
                ids_within(rows@.take(i as int), 1, MAX_ID + 1),
            decreases rows.len() - i,
        {
            let id = rows[i].id();
            if id <= last || id > MAX_ID {
                proof {
                    if ids_increase(rows@) && ids_within(rows@, 1, MAX_ID + 1) {
                        if i > 0 {
                            assert(rows@[i - 1].record_id() < rows@[i as int].record_id());
                        }
                        assert(1 <= rows@[i as int].record_id());
                    }
                }
                return None;
            }
            proof {
                let before = rows@.take(i as int);
                let after = rows@.take(i + 1);
                assert forall|a: int, b: int| 0 <= a < b < after.len() implies after[a].record_id()
                    < after[b].record_id() by {
                    if b < i {
                        assert(before[a].record_id() < before[b].record_id());
                    } else if a < i {
                        if a < i - 1 {
                            assert(before[a].record_id() < before[i - 1].record_id());
                        }
                    }
                }
                assert forall|a: int| 0 <= a < after.len() implies 1 <= #[trigger] after[a].record_id()
                    < MAX_ID + 1 by {
                    if a < i {
                        assert(before[a].record_id() >= 1);
                    }
                }
            }
            last = id;
            i += 1;
        }
        let log = Log { rows, next_id: last + 1 };
        proof {
            assert(log@.take(log@.len() as int) == log@);
            assert forall|a: int| 0 <= a < log@.len() implies 1 <= #[trigger] log@[a].record_id()
                < log.next_id() by {
                if a < log@.len() - 1 {
                    assert(log@[a].record_id() < log@[log@.len() - 1].record_id());
                }
            }
        }
        Some(log)
    }

    /// The rows, oldest first.
    pub fn rows(&self) -> (rows: &Vec<T>)
        ensures
            rows@ == self@,
    {
        &self.rows
    }

    /// Number of rows.
    pub fn len(&self) -> (n: usize)
        ensures
            n == self@.len(),
    {
        self.rows.len()
    }

    /// The id that the next appended row receives, or `None` when the
    /// log is full.
    pub fn upcoming_id(&self) -> (result: Option<i64>)
        requires
            self.wf(),
        ensures
            result == if self.is_full() {
                None
            } else {
                Some(self.next_id())
            },
    {
        if self.next_id > MAX_ID {
            None
        } else {
            Some(self.next_id)
        }
    }

    /// Appends `row`, which carries the upcoming id.
    pub fn push(&mut self, row: T)
        requires
            old(self).wf(),
            !old(self).is_full(),
            row.record_id() == old(self).next_id(),
        ensures
            final(self).wf(),
            final(self)@ == old(self)@.push(row),
            final(self).next_id() == old(self).next_id() + 1,
    {
        self.rows.push(row);
        self.next_id = self.next_id + 1;
    }

    /// Puts `row` in the place of the row at index `at`, whose id it
    /// carries.
    pub fn replace(&mut self, at: usize, row: T)
        requires
            old(self).wf(),
            at < old(self)@.len(),
            row.record_id() == old(self)@[at as int].record_id(),
        ensures
            final(self).wf(),
            final(self)@ == old(self)@.update(at as int, row),
            final(self).next_id() == old(self).next_id(),
    {
        self.rows.set(at, row);
    }

    /// Takes the row at index `at` out of the log. Its id is not handed
    /// out again.
    pub fn remove(&mut self, at: usize) -> (row: T)
        requires
            old(self).wf(),
            at < old(self)@.len(),
        ensures
            final(self).wf(),
            final(self)@ == old(self)@.remove(at as int),
            row == old(self)@[at as int],
            final(self).next_id() == old(self).next_id(),
    {
        let row = self.rows.remove(at);
        proof {
            let before = old(self)@;
            let after = self@;
            assert forall|i: int, j: int| 0 <= i < j < after.len() implies after[i].record_id()
                < after[j].record_id() by {
                let a = if i < at {
                    i
                } else {
                    i + 1
                };
                let b = if j < at {
                    j
                } else {
                    j + 1
                };
                assert(before[a].record_id() < before[b].record_id());
            }
            assert forall|i: int| 0 <= i < after.len() implies 1 <= #[trigger] after[i].record_id()
                < self.next_id() by {
                let a = if i < at {
                    i
                } else {
                    i + 1
                };
                assert(1 <= before[a].record_id());
            }
        }
        row
    }

    /// The index of the row that carries `id`, if there is one.
    pub fn position(&self, id: i64) -> (result: Option<usize>)
        requires
            self.wf(),
        ensures
            result is Some <==> has_id(self@, id),
            result matches Some(i) ==> i < self@.len() && self@[i as int].record_id() == id
                && row_with_id(self@, id) == Some(self@[i as int]),
    {
        let mut low: usize = 0;
        let mut high: usize = self.rows.len();
        while low < high
            invariant
                0 <= low <= high <= self.rows@.len(),
                self.wf(),
                forall|i: int| 0 <= i < low ==> #[trigger] self.rows@[i].record_id() < id,
                forall|i: int|
                    high <= i < self.rows@.len() ==> #[trigger] self.rows@[i].record_id() > id,
            decreases high - low,
        {
            let middle = low + (high - low) / 2;
            let found = self.rows[middle].id();
            if found == id {
                proof {
                    lemma_row_with_id(self@, middle as int);
                }
                return Some(middle);
            } else if found < id {
                assert forall|i: int| 0 <= i < middle + 1 implies #[trigger] self.rows@[i].record_id()
                    < id by {
                    if i < middle {
                        assert(self.rows@[i].record_id() < self.rows@[middle as int].record_id());
                    }
                }
                low = middle + 1;
            } else {
                assert forall|i: int| middle <= i < self.rows@.len() implies #[trigger] self.rows@[i].record_id()
                    > id by {
                    if middle < i {
                        assert(self.rows@[middle as int].record_id() < self.rows@[i].record_id());
                    }
                }
                high = middle;
            }
        }
        None
    }
}

} // verus!
