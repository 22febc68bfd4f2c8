//! Ledger operations: appending movements and deriving balances.

use super::Store;
use crate::error::{EngineError, ValidationError};
use crate::ledger::{
    balance, egress_total, ingress_total, lemma_total_moved_bounds, lemma_total_moved_push,
    newest_first, quantities_positive, total_moved, up_to,
};
use crate::log::{lemma_len_below_next_id, MAX_ID};
use crate::model::{MovementKind, MovementTotals, StockMovement};
use vstd::prelude::*;

verus! {

impl Store {
    /// What appending `movement` returns: the id of the new movement, or
    /// the reason for which nothing is appended.
    pub open spec fn movement_outcome(&self, movement: StockMovement) -> Result<i64, EngineError> {
        if movement.quantity <= 0 {
            Err(EngineError::Validation(ValidationError::NonPositiveQuantity))
        } else if self.next_movement_id() > MAX_ID {
            Err(EngineError::Storage)
        } else {
            Ok(self.next_movement_id())
        }
    }

    /// Whether `post` and `result` are what appending `movement` to
    /// `pre` leaves behind.
    pub open spec fn movement_applied(
        pre: &Store,
        movement: StockMovement,
        post: &Store,
        result: Result<i64, EngineError>,
    ) -> bool {
        &&& result == pre.movement_outcome(movement)
        &&& match result {
            Ok(id) => {
                &&& post.movements() == pre.movements().push(StockMovement { id, ..movement })
                &&& post.next_movement_id() == id + 1
                &&& post.products() == pre.products()
                &&& post.next_product_id() == pre.next_product_id()
                &&& post.sales() == pre.sales()
                &&& post.next_sale_id() == pre.next_sale_id()
            },
            Err(_) => *post == *pre,
        }
    }

    /// Appends `movement` to the ledger and returns the id given to it.
    /// The id that `movement` arrives with is ignored.
    ///
    /// A quantity of zero or less is rejected, and so is any movement
    /// once the ledger has handed out its last id. A rejected movement
    /// leaves the store unchanged.
    pub fn add_stock_movement(&mut self, movement: StockMovement) -> (result: Result<
        i64,
        EngineError,
    >)
        requires
            old(self).wf(),
        ensures
            final(self).wf(),
            Store::movement_applied(old(self), movement, final(self), result),
    {
        if movement.quantity <= 0 {
            return Err(EngineError::Validation(ValidationError::NonPositiveQuantity));
        }
        match self.movements.upcoming_id() {
            None => Err(EngineError::Storage),
            Some(id) => {
                let mut stored = movement;
                stored.id = id;
                self.movements.push(stored);
                Ok(id)
            },
        }
    }

    /// The movements of the ledger, newest first: those of `product_id`,
    /// or all of them when no product is named. At most `limit` of them
    /// are returned when a limit is given.
    pub fn get_stock_movements(&self, product_id: Option<i64>, limit: Option<usize>) -> (result:
        Vec<&StockMovement>)
        ensures
            result@.map_values(|m: &StockMovement| *m) == up_to(
                newest_first(self.movements(), product_id),
                limit,
            ),
    {
        let rows = self.movements.rows();
        let cap: usize = match limit {
            Some(n) if n < rows.len() => n,
            _ => rows.len(),
        };
        let mut found: Vec<&StockMovement> = Vec::new();
        let mut i: usize = rows.len();
        assert(rows@.take(i as int) == rows@);
        while i > 0 && found.len() < cap
            invariant
                0 <= i <= rows.len(),
                rows@ == self.movements(),
                newest_first(rows@, product_id) == found@.map_values(|m: &StockMovement| *m)
                    + newest_first(rows@.take(i as int), product_id),
                found@.len() <= cap,
                found@.len() <= rows.len() - i,
            decreases i,
        {
            let row = &rows[i - 1];
            proof {
                assert(rows@.take(i as int).drop_last() == rows@.take(i - 1));
                assert(rows@.take(i as int).last() == rows@[i - 1]);
            }
            let ghost before = found@.map_values(|m: &StockMovement| *m);
            let wanted = match product_id {
                Some(p) => row.product_id == p,
                None => true,
            };
            if wanted {
                found.push(row);
                assert(found@.map_values(|m: &StockMovement| *m) == before.push(*row));
                assert(before.push(*row) + newest_first(rows@.take(i - 1), product_id) == before
                    + (seq![*row] + newest_first(rows@.take(i - 1), product_id)));
            }
            i -= 1;
        }
        proof {
            let all = newest_first(rows@, product_id);
            let shown = found@.map_values(|m: &StockMovement| *m);
            if i == 0 {
                assert(rows@.take(0) == Seq::<StockMovement>::empty());
                assert(all == shown);
            } else {
                assert(all.take(shown.len() as int) == shown);
            }
        }
        found
    }

    /// Ingress and egress totals of `product_id`, in one scan of the
    /// ledger.
    pub fn sum_by_type(&self, product_id: i64) -> (totals: MovementTotals)
        requires
            self.wf(),
        ensures
            totals.ingress_total == ingress_total(self.movements(), product_id),
            totals.egress_total == egress_total(self.movements(), product_id),
    {
        let rows = self.movements.rows();
        let mut ingress: i64 = 0;
        let mut egress: i64 = 0;
        let mut i: usize = 0;
        proof {
            lemma_len_below_next_id(self.movements(), self.next_movement_id());
        }
        while i < rows.len()
            invariant
                0 <= i <= rows.len(),
                rows@.len() <= MAX_ID,
                quantities_positive(rows@),
                ingress == total_moved(rows@.take(i as int), product_id, MovementKind::Ingress),
                egress == total_moved(rows@.take(i as int), product_id, MovementKind::Egress),
                0 <= ingress <= i * i32::MAX,
                0 <= egress <= i * i32::MAX,
            decreases rows.len() - i,
        {
            let row = &rows[i];
            proof {
                assert(rows@.take(i + 1) == rows@.take(i as int).push(rows@[i as int]));
                lemma_total_moved_push(
                    rows@.take(i as int),
                    rows@[i as int],
                    product_id,
                    MovementKind::Ingress,
                );
                lemma_total_moved_push(
                    rows@.take(i as int),
                    rows@[i as int],
                    product_id,
                    MovementKind::Egress,
                );
                assert(rows@[i as int].quantity > 0);
                assert((i + 1) * i32::MAX == i * i32::MAX + i32::MAX) by (nonlinear_arith);
                assert(i * i32::MAX <= MAX_ID * i32::MAX) by (nonlinear_arith)
                    requires
                        0 <= i <= MAX_ID,
                ;
            }
            if row.product_id == product_id {
                match row.kind {
                    MovementKind::Ingress => {
                        ingress = ingress + row.quantity as i64;
                    },
                    MovementKind::Egress => {
                        egress = egress + row.quantity as i64;
                    },
                }
            }
            i += 1;
        }
        assert(rows@.take(rows@.len() as int) == rows@);
        MovementTotals { ingress_total: ingress, egress_total: egress }
    }

    /// Current stock of `product_id`, derived from the ledger.
    pub fn balance_of(&self, product_id: i64) -> (stock: i64)
        requires
            self.wf(),
        ensures
            stock == balance(self.movements(), product_id),
    {
        let totals = self.sum_by_type(product_id);
        proof {
            lemma_len_below_next_id(self.movements(), self.next_movement_id());
            lemma_total_moved_bounds(self.movements(), product_id, MovementKind::Ingress);
            lemma_total_moved_bounds(self.movements(), product_id, MovementKind::Egress);
            assert(self.movements().len() * i32::MAX <= MAX_ID * i32::MAX) by (nonlinear_arith)
                requires
                    0 <= self.movements().len() <= MAX_ID,
            ;
        }
        totals.ingress_total - totals.egress_total
    }
}

} // verus!
