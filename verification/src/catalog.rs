//! What the catalog demands of its products.

use crate::model::{MovementKind, Product, Sale, StockMovement};
use vstd::prelude::*;

verus! {

/// Whether `product` carries `sku`.
pub open spec fn has_sku(product: Product, sku: Seq<char>) -> bool {
    match product.sku {
        Some(own) => own@ == sku,
        None => false,
    }
}

/// Whether a product of `products` other than the one with id `except`
/// carries `sku`.
pub open spec fn sku_taken(products: Seq<Product>, sku: Seq<char>, except: i64) -> bool {
    exists|i: int|
        0 <= i < products.len() && (#[trigger] products[i]).id != except && has_sku(
            products[i],
            sku,
        )
}

/// Whether `sku` names a SKU that a product of `products` other than
/// the one with id `except` carries.
pub open spec fn sku_in_use(products: Seq<Product>, sku: Option<String>, except: i64) -> bool {
    match sku {
        Some(wanted) => sku_taken(products, wanted@, except),
        None => false,
    }
}

/// Whether `product` asks for a SKU that another product of `products`
/// carries.
pub open spec fn sku_clashes(products: Seq<Product>, product: Product) -> bool {
    sku_in_use(products, product.sku, product.id)
}

/// Whether no two products of `products` share a SKU.
pub open spec fn skus_unique(products: Seq<Product>) -> bool {
    forall|i: int|
        0 <= i < products.len() ==> !sku_clashes(products, #[trigger] products[i])
}

/// Whether every product of `products` has a name.
pub open spec fn names_present(products: Seq<Product>) -> bool {
    forall|i: int| 0 <= i < products.len() ==> (#[trigger] products[i]).name@.len() > 0
}

/// The units with which a new product starts: its target stock when
/// that is positive, else none.
pub open spec fn opening_stock(product: Product) -> int {
    match product.max_stock {
        Some(units) => if units > 0 {
            units as int
        } else {
            0
        },
        None => 0,
    }
}

/// The ingress movement that puts the opening stock of `product` on
/// the ledger under id `id`.
pub open spec fn opening_movement(product: Product, id: i64) -> StockMovement {
    StockMovement {
        id,
        product_id: product.id,
        kind: MovementKind::Ingress,
        quantity: opening_stock(product) as i32,
        note: None,
        created_by: None,
        created_at: None,
    }
}

/// Whether a movement or a sale refers to product `product_id`.
pub open spec fn is_referenced(
    movements: Seq<StockMovement>,
    sales: Seq<Sale>,
    product_id: i64,
) -> bool {
    ||| exists|i: int| 0 <= i < movements.len() && (#[trigger] movements[i]).product_id == product_id
    ||| exists|i: int| 0 <= i < sales.len() && (#[trigger] sales[i]).product_id == product_id
}

} // verus!
