//! What holds of the engine as a whole.
//!
//! Each lemma here is proved from the definitions and contracts of the
//! other modules. Together they say that the ledger decides every
//! balance, that a sale goes through exactly when stock covers it, and
//! that stock can be sold only once.

use crate::catalog::{opening_movement, opening_stock};
use crate::error::EngineError;
use crate::integrity::{
    is_consistent, lemma_ingress_keeps_consistency, lemma_sale_keeps_consistency,
};
use crate::ledger::{balance, lemma_total_moved_push};
use crate::log::MAX_ID;
use crate::model::{MovementKind, Product, Sale, SalesTotals, StockMovement};
use crate::reporting::{entries_by_product, SalesFilter};
use crate::store::Store;
use crate::tally::{total_amount, total_units};
use vstd::prelude::*;

verus! {

/// What `movement` does to the stock of `product_id`: it adds its
/// quantity when it is an ingress of that product, takes it away when
/// it is an egress, and leaves other products alone.
pub open spec fn stock_change(movement: StockMovement, product_id: i64) -> int {
    if movement.product_id != product_id {
        0
    } else {
        match movement.kind {
            MovementKind::Ingress => movement.quantity as int,
            MovementKind::Egress => -(movement.quantity as int),
        }
    }
}

/// The balance of a product is the plain left fold of its stock
/// changes over the ledger, starting from zero.
pub proof fn lemma_balance_is_fold(log: Seq<StockMovement>, product_id: i64)
    ensures
        balance(log, product_id) == log.fold_left(
            0int,
            |stock: int, movement: StockMovement| stock + stock_change(movement, product_id),
        ),
    decreases log.len(),
{
    if log.len() > 0 {
        lemma_balance_is_fold(log.drop_last(), product_id);
    }
}

/// Appending a movement changes the balance of its product by its
/// quantity, up for an ingress and down for an egress, and no other
/// balance.
pub proof fn lemma_balance_after_movement(
    log: Seq<StockMovement>,
    movement: StockMovement,
    product_id: i64,
)
    ensures
        balance(log.push(movement), product_id) == balance(log, product_id) + stock_change(
            movement,
            product_id,
        ),
{
    lemma_total_moved_push(log, movement, product_id, MovementKind::Ingress);
    lemma_total_moved_push(log, movement, product_id, MovementKind::Egress);
}

/// A dated sale of a positive quantity goes through exactly when the
/// balance of its product covers it. When it does, the balance drops by the
/// quantity sold, the ledger gains one egress movement of that product
/// and quantity and nothing else, the sales gain that one sale, and no
/// other product's balance moves. When it does not, nothing is written.
///
/// The store must have room for one more sale and one more movement.
pub proof fn lemma_sale_iff_covered(
    pre: Store,
    sale: Sale,
    post: Store,
    result: Result<i64, EngineError>,
    other: i64,
)
    requires
        pre.wf(),
        sale.quantity > 0,
        sale.is_dated(),
        pre.next_sale_id() <= MAX_ID,
        pre.next_movement_id() <= MAX_ID,
        Store::sale_applied(&pre, sale, &post, result),
        other != sale.product_id,
    ensures
        result is Ok <==> sale.quantity <= balance(pre.movements(), sale.product_id),
        result is Ok ==> {
            &&& balance(post.movements(), sale.product_id) == balance(
                pre.movements(),
                sale.product_id,
            ) - sale.quantity
            &&& balance(post.movements(), other) == balance(pre.movements(), other)
            &&& post.movements().len() == pre.movements().len() + 1
            &&& post.movements().drop_last() == pre.movements()
            &&& post.movements().last().kind == MovementKind::Egress
            &&& post.movements().last().product_id == sale.product_id
            &&& post.movements().last().quantity == sale.quantity
            &&& post.sales().len() == pre.sales().len() + 1
            &&& post.sales().drop_last() == pre.sales()
            &&& post.sales().last().product_id == sale.product_id
            &&& post.sales().last().quantity == sale.quantity
        },
        result is Err ==> {
            &&& post.movements() == pre.movements()
            &&& post.sales() == pre.sales()
            &&& result == Err::<i64, EngineError>(
                EngineError::InsufficientStock {
                    available: balance(pre.movements(), sale.product_id) as i64,
                    requested: sale.quantity as i64,
                },
            )
        },
{
    if result is Ok {
        let debit = pre.sale_debit(sale);
        lemma_balance_after_movement(pre.movements(), debit, sale.product_id);
        lemma_balance_after_movement(pre.movements(), debit, other);
        assert(pre.movements().push(debit).drop_last() == pre.movements());
        assert(pre.sales().push(Sale { id: result->Ok_0, ..sale }).drop_last() == pre.sales());
    }
}

/// The last unit is sold once. When two dated sales of one unit each
/// reach a product whose balance is one, the sale that is applied first goes
/// through, and the one applied after it is refused for want of stock,
/// being told that none is available.
///
/// The store must have room for one more sale and one more movement.
pub proof fn lemma_last_unit_sold_once(
    pre: Store,
    first: Sale,
    between: Store,
    first_result: Result<i64, EngineError>,
    second: Sale,
    post: Store,
    second_result: Result<i64, EngineError>,
)
    requires
        pre.wf(),
        balance(pre.movements(), first.product_id) == 1,
        first.product_id == second.product_id,
        first.quantity == 1,
        second.quantity == 1,
        first.is_dated(),
        second.is_dated(),
        pre.next_sale_id() <= MAX_ID,
        pre.next_movement_id() <= MAX_ID,
        Store::sale_applied(&pre, first, &between, first_result),
        Store::sale_applied(&between, second, &post, second_result),
    ensures
        first_result is Ok,
        second_result == Err::<i64, EngineError>(
            EngineError::InsufficientStock { available: 0, requested: 1 },
        ),
        post.movements() == between.movements(),
        post.sales() == between.sales(),
        balance(post.movements(), first.product_id) == 0,
{
    lemma_balance_after_movement(pre.movements(), pre.sale_debit(first), first.product_id);
}

/// However many sales are applied one after another, a balance that was
/// not negative before a sale is not negative after it: sales never
/// oversell.
pub proof fn lemma_sale_never_oversells(
    pre: Store,
    sale: Sale,
    post: Store,
    result: Result<i64, EngineError>,
    product_id: i64,
)
    requires
        pre.wf(),
        Store::sale_applied(&pre, sale, &post, result),
        balance(pre.movements(), product_id) >= 0,
    ensures
        balance(post.movements(), product_id) >= 0,
{
    if result is Ok {
        lemma_balance_after_movement(pre.movements(), pre.sale_debit(sale), product_id);
    }
}

/// A sale keeps ledger and sales in agreement, whether it goes through
/// or not: afterwards no balance is below zero and the egress movements
/// of every product still cover what was sold of it.
pub proof fn lemma_sale_keeps_store_consistent(
    pre: Store,
    sale: Sale,
    post: Store,
    result: Result<i64, EngineError>,
)
    requires
        pre.wf(),
        is_consistent(pre.movements(), pre.sales()),
        Store::sale_applied(&pre, sale, &post, result),
    ensures
        is_consistent(post.movements(), post.sales()),
{
    if let Ok(id) = result {
        lemma_sale_keeps_consistency(
            pre.movements(),
            pre.sales(),
            Sale { id, ..sale },
            pre.sale_debit(sale),
        );
    }
}

/// An ingress keeps ledger and sales in agreement, whether it is
/// appended or rejected.
pub proof fn lemma_ingress_keeps_store_consistent(
    pre: Store,
    movement: StockMovement,
    post: Store,
    result: Result<i64, EngineError>,
)
    requires
        pre.wf(),
        is_consistent(pre.movements(), pre.sales()),
        movement.kind == MovementKind::Ingress,
        Store::movement_applied(&pre, movement, &post, result),
    ensures
        is_consistent(post.movements(), post.sales()),
{
    if let Ok(id) = result {
        lemma_ingress_keeps_consistency(
            pre.movements(),
            pre.sales(),
            StockMovement { id, ..movement },
        );
    }
}

/// A new product keeps ledger and sales in agreement: its opening stock
/// comes in as an ingress.
pub proof fn lemma_product_keeps_store_consistent(
    pre: Store,
    product: Product,
    post: Store,
    result: Result<i64, EngineError>,
)
    requires
        pre.wf(),
        is_consistent(pre.movements(), pre.sales()),
        Store::product_applied(&pre, product, &post, result),
    ensures
        is_consistent(post.movements(), post.sales()),
{
    if let Ok(id) = result {
        if opening_stock(product) > 0 {
            lemma_ingress_keeps_consistency(
                pre.movements(),
                pre.sales(),
                opening_movement(Product { id, ..product }, pre.next_movement_id()),
            );
        }
    }
}

/// Reading the balance twice gives the same number. A read returns
/// what the ledger says of the product and changes nothing, so two
/// reads of a store that was not written to in between agree.
pub proof fn lemma_balance_reads_repeat(store: Store, product_id: i64, first: i64, second: i64)
    requires
        first == balance(store.movements(), product_id),
        second == balance(store.movements(), product_id),
    ensures
        first == second,
{
}

/// Reading the totals twice gives the same totals. A read returns the
/// sums over the sales that the filter counts and changes nothing, so
/// two reads of a store that was not written to in between agree.
pub proof fn lemma_totals_reads_repeat(
    store: Store,
    filter: SalesFilter,
    first: SalesTotals,
    second: SalesTotals,
)
    requires
        first.total_units == total_units(
            entries_by_product(store.products(), store.sales(), filter),
        ),
        first.total_revenue == total_amount(
            entries_by_product(store.products(), store.sales(), filter),
        ),
        second.total_units == total_units(
            entries_by_product(store.products(), store.sales(), filter),
        ),
        second.total_revenue == total_amount(
            entries_by_product(store.products(), store.sales(), filter),
        ),
    ensures
        first == second,
{
}

} // verus!
