//! What it means for the ledger and the sales to agree.
//!
//! A sale is recorded together with an egress movement of the same
//! product and quantity, and only when stock covers it. So in a store
//! that was written through the engine alone, the egress movements of a
//! product take out at least as many units as were sold of it. A
//! balance below zero can only come from egress movements that were
//! appended by hand.

use crate::ledger::{balance, egress_total, lemma_total_moved_push};
use crate::model::{MovementKind, Sale, StockMovement};
use crate::reporting::product_entry;
use crate::tally::{lemma_sums_push, units_for, Entry};
use vstd::prelude::*;

verus! {

/// Every sale of `sales` as an entry under its product.
pub open spec fn sale_entries(sales: Seq<Sale>) -> Seq<Entry> {
    sales.map_values(|sale: Sale| product_entry(sale))
}

/// Units of `product_id` that were sold.
pub open spec fn sold_units(sales: Seq<Sale>, product_id: i64) -> int {
    units_for(sale_entries(sales), product_id)
}

/// `movement` as an entry under its product: the units it takes out.
pub open spec fn egress_entry(movement: StockMovement) -> Entry {
    Entry {
        key: movement.product_id,
        units: match movement.kind {
            MovementKind::Ingress => 0,
            MovementKind::Egress => movement.quantity,
        },
        amount: 0,
    }
}

/// Every movement of `log` as an entry of the units it takes out.
pub open spec fn egress_entries(log: Seq<StockMovement>) -> Seq<Entry> {
    log.map_values(|movement: StockMovement| egress_entry(movement))
}

/// Whether the stock of `product_id` is not below zero and its egress
/// movements cover what was sold of it.
pub open spec fn product_consistent(
    log: Seq<StockMovement>,
    sales: Seq<Sale>,
    product_id: i64,
) -> bool {
    &&& balance(log, product_id) >= 0
    &&& sold_units(sales, product_id) <= egress_total(log, product_id)
}

/// Whether ledger and sales agree for every product.
pub open spec fn is_consistent(log: Seq<StockMovement>, sales: Seq<Sale>) -> bool {
    forall|product_id: i64| #[trigger] product_consistent(log, sales, product_id)
}

/// The units of the egress entries of a product add up to its egress
/// total.
pub proof fn lemma_egress_units(log: Seq<StockMovement>, product_id: i64)
    ensures
        units_for(egress_entries(log), product_id) == egress_total(log, product_id),
    decreases log.len(),
{
    if log.len() > 0 {
        let earlier = log.drop_last();
        lemma_egress_units(earlier, product_id);
        assert(egress_entries(log) == egress_entries(earlier).push(egress_entry(log.last())));
        lemma_sums_push(egress_entries(earlier), egress_entry(log.last()), product_id);
    } else {
        assert(egress_entries(log).len() == 0);
    }
}

/// A further sale adds its quantity to the units sold of its product.
pub proof fn lemma_sold_units_push(sales: Seq<Sale>, sale: Sale, product_id: i64)
    ensures
        sold_units(sales.push(sale), product_id) == sold_units(sales, product_id)
            + if sale.product_id == product_id {
            sale.quantity as int
        } else {
            0int
        },
{
    assert(sale_entries(sales.push(sale)) == sale_entries(sales).push(product_entry(sale)));
    lemma_sums_push(sale_entries(sales), product_entry(sale), product_id);
}

/// An empty store is consistent.
pub proof fn lemma_empty_is_consistent()
    ensures
        is_consistent(Seq::<StockMovement>::empty(), Seq::<Sale>::empty()),
{
    assert forall|product_id: i64| #[trigger]
        product_consistent(
            Seq::<StockMovement>::empty(),
            Seq::<Sale>::empty(),
            product_id,
        ) by {
        assert(sale_entries(Seq::<Sale>::empty()).len() == 0);
    }
}

/// An ingress keeps ledger and sales consistent.
pub proof fn lemma_ingress_keeps_consistency(
    log: Seq<StockMovement>,
    sales: Seq<Sale>,
    movement: StockMovement,
)
    requires
        is_consistent(log, sales),
        movement.kind == MovementKind::Ingress,
        movement.quantity > 0,
    ensures
        is_consistent(log.push(movement), sales),
{
    assert forall|product_id: i64| #[trigger]
        product_consistent(log.push(movement), sales, product_id) by {
        assert(product_consistent(log, sales, product_id));
        lemma_total_moved_push(log, movement, product_id, MovementKind::Ingress);
        lemma_total_moved_push(log, movement, product_id, MovementKind::Egress);
    }
}

/// A sale that stock covers, recorded with its egress movement, keeps
/// ledger and sales consistent.
pub proof fn lemma_sale_keeps_consistency(
    log: Seq<StockMovement>,
    sales: Seq<Sale>,
    sale: Sale,
    debit: StockMovement,
)
    requires
        is_consistent(log, sales),
        0 < sale.quantity <= balance(log, sale.product_id),
        debit.kind == MovementKind::Egress,
        debit.product_id == sale.product_id,
        debit.quantity == sale.quantity,
    ensures
        is_consistent(log.push(debit), sales.push(sale)),
{
    assert forall|product_id: i64| #[trigger]
        product_consistent(log.push(debit), sales.push(sale), product_id) by {
        assert(product_consistent(log, sales, product_id));
        lemma_total_moved_push(log, debit, product_id, MovementKind::Ingress);
        lemma_total_moved_push(log, debit, product_id, MovementKind::Egress);
        lemma_sold_units_push(sales, sale, product_id);
    }
}

} // verus!
