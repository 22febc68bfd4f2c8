//! What the stock ledger says about a product.
//!
//! These are the definitions that the contracts of the store refer to.
//! They read nothing but the sequence of movements, so the ledger alone
//! decides every balance.

use crate::model::{MovementKind, StockMovement};
use vstd::prelude::*;

verus! {

/// What `movement` adds to the `kind` total of `product_id`: its
/// quantity when it is a movement of that kind on that product, else 0.
pub open spec fn moved(movement: StockMovement, product_id: i64, kind: MovementKind) -> int {
    if movement.product_id == product_id && movement.kind == kind {
        movement.quantity as int
    } else {
        0
    }
}

/// Sum of the quantities of all `kind` movements of `product_id`.
pub open spec fn total_moved(log: Seq<StockMovement>, product_id: i64, kind: MovementKind) -> int
    decreases log.len(),
{
    if log.len() == 0 {
        0
    } else {
        total_moved(log.drop_last(), product_id, kind) + moved(log.last(), product_id, kind)
    }
}

/// Units of `product_id` that came in.
pub open spec fn ingress_total(log: Seq<StockMovement>, product_id: i64) -> int {
    total_moved(log, product_id, MovementKind::Ingress)
}

/// Units of `product_id` that went out.
pub open spec fn egress_total(log: Seq<StockMovement>, product_id: i64) -> int {
    total_moved(log, product_id, MovementKind::Egress)
}

/// Current stock of `product_id`: what came in less what went out.
pub open spec fn balance(log: Seq<StockMovement>, product_id: i64) -> int {
    ingress_total(log, product_id) - egress_total(log, product_id)
}

/// Whether `movement` passes the product filter: `None` lets every
/// movement pass, `Some(p)` only those of product `p`.
pub open spec fn concerns(movement: StockMovement, product_id: Option<i64>) -> bool {
    product_id matches Some(p) ==> movement.product_id == p
}

/// The movements of `log` that pass the product filter, newest first.
pub open spec fn newest_first(log: Seq<StockMovement>, product_id: Option<i64>) -> Seq<
    StockMovement,
>
    decreases log.len(),
{
    if log.len() == 0 {
        Seq::empty()
    } else if concerns(log.last(), product_id) {
        seq![log.last()] + newest_first(log.drop_last(), product_id)
    } else {
        newest_first(log.drop_last(), product_id)
    }
}

/// The first `limit` elements of `rows`, or all of `rows` when there
/// is no limit or the limit is not reached.
pub open spec fn up_to<T>(rows: Seq<T>, limit: Option<usize>) -> Seq<T> {
    match limit {
        Some(n) if n < rows.len() => rows.take(n as int),
        _ => rows,
    }
}

/// Whether every movement of `log` moves at least one unit.
pub open spec fn quantities_positive(log: Seq<StockMovement>) -> bool {
    forall|i: int| 0 <= i < log.len() ==> (#[trigger] log[i]).quantity > 0
}

/// Appending a movement adds its share to a total.
pub proof fn lemma_total_moved_push(
    log: Seq<StockMovement>,
    movement: StockMovement,
    product_id: i64,
    kind: MovementKind,
)
    ensures
        total_moved(log.push(movement), product_id, kind) == total_moved(log, product_id, kind)
            + moved(movement, product_id, kind),
{
    assert(log.push(movement).drop_last() == log);
}

/// A total of positive quantities lies between 0 and the largest
/// quantity times the number of movements.
pub proof fn lemma_total_moved_bounds(log: Seq<StockMovement>, product_id: i64, kind: MovementKind)
    requires
        quantities_positive(log),
    ensures
        0 <= total_moved(log, product_id, kind) <= log.len() * i32::MAX,
    decreases log.len(),
{
    if log.len() > 0 {
        assert(quantities_positive(log.drop_last())) by {
            assert forall|i: int| 0 <= i < log.drop_last().len() implies (#[trigger] log.drop_last()[i]).quantity
                > 0 by {
                assert(log[i].quantity > 0);
            }
        }
        lemma_total_moved_bounds(log.drop_last(), product_id, kind);
        assert(log.last().quantity > 0);
        assert(log.len() * i32::MAX == (log.len() - 1) * i32::MAX + i32::MAX) by (nonlinear_arith);
    }
}

} // verus!
