//! The store: catalog, stock ledger and sales.

use crate::catalog::{has_sku, names_present, sku_clashes, skus_unique};
use crate::error::EngineError;
use crate::ledger::quantities_positive;
use crate::log::{ids_increase, ids_within, log_wf, next_id_after, Log, MAX_ID};
use crate::model::{Product, Sale, StockMovement};
use crate::reporting::sales_sound;
use vstd::prelude::*;

pub mod catalog;
pub mod integrity;
pub mod reports;
pub mod sales;
pub mod stock;

verus! {

/// Products, stock movements and sales, each in the order in which they
/// were written.
///
/// Movements and sales are append-only. Nothing in the store keeps a
/// stock counter: balances are always derived from the movements.
pub struct Store {
    products: Log<Product>,
    movements: Log<StockMovement>,
    sales: Log<Sale>,
}

/// Whether the three tables can stand in one store: in each the ids
/// grow from row to row between 1 and [`MAX_ID`], no two products share
/// a SKU, every product has a name, every movement and every sale has
/// a positive quantity, and every sale is dated with a day that exists.
pub open spec fn records_consistent(
    products: Seq<Product>,
    movements: Seq<StockMovement>,
    sales: Seq<Sale>,
) -> bool {
    &&& ids_increase(products)
    &&& ids_within(products, 1, MAX_ID + 1)
    &&& ids_increase(movements)
    &&& ids_within(movements, 1, MAX_ID + 1)
    &&& ids_increase(sales)
    &&& ids_within(sales, 1, MAX_ID + 1)
    &&& skus_unique(products)
    &&& names_present(products)
    &&& quantities_positive(movements)
    &&& sales_sound(sales)
}

/// Whether the catalog rows hold up: no shared SKU, no missing name.
fn products_hold(products: &Vec<Product>) -> (sound: bool)
    ensures
        sound == (skus_unique(products@) && names_present(products@)),
{
    let mut i: usize = 0;
    while i < products.len()
        invariant
            0 <= i <= products.len(),
            forall|a: int| 0 <= a < i ==> !sku_clashes(products@, #[trigger] products@[a]),
            forall|a: int| 0 <= a < i ==> (#[trigger] products@[a]).name@.len() > 0,
        decreases products.len() - i,
    {
        let product = &products[i];
        if product.name.as_str().is_empty() {
            assert(!(products@[i as int].name@.len() > 0));
            return false;
        }
        match &product.sku {
            None => {},
            Some(sku) => {
                let mut j: usize = 0;
                while j < products.len()
                    invariant
                        0 <= j <= products.len(),
                        0 <= i < products.len(),
                        *product == products@[i as int],
                        product.sku == Some(*sku),
                        forall|b: int|
                            0 <= b < j ==> !((#[trigger] products@[b]).id != product.id
                                && has_sku(products@[b], sku@)),
                    decreases products.len() - j,
                {
                    let other = &products[j];
                    if other.id != product.id {
                        let same = match &other.sku {
                            Some(theirs) => *theirs == *sku,
                            None => false,
                        };
                        if same {
                            assert(products@[j as int].id != product.id && has_sku(
                                products@[j as int],
                                sku@,
                            ));
                            assert(sku_clashes(products@, products@[i as int]));
                            return false;
                        }
                    }
                    j += 1;
                }
            },
        }
        i += 1;
    }
    true
}

/// Whether every movement moves at least one unit.
fn movements_hold(movements: &Vec<StockMovement>) -> (sound: bool)
    ensures
        sound == quantities_positive(movements@),
{
    let mut i: usize = 0;
    while i < movements.len()
        invariant
            0 <= i <= movements.len(),
            forall|a: int| 0 <= a < i ==> (#[trigger] movements@[a]).quantity > 0,
        decreases movements.len() - i,
    {
        if movements[i].quantity <= 0 {
            assert(!(movements@[i as int].quantity > 0));
            return false;
        }
        i += 1;
    }
    true
}

/// Whether every sale sells at least one unit and is dated.
fn sales_hold(sales: &Vec<Sale>) -> (sound: bool)
    ensures
        sound == sales_sound(sales@),
{
    let mut i: usize = 0;
    while i < sales.len()
        invariant
            0 <= i <= sales.len(),
            forall|a: int|
                0 <= a < i ==> (#[trigger] sales@[a]).quantity > 0 && sales@[a].is_dated(),
        decreases sales.len() - i,
    {
        let sale = &sales[i];
        if sale.quantity <= 0 || sale.date().is_none() {
            assert(!(sales@[i as int].quantity > 0 && sales@[i as int].is_dated()));
            return false;
        }
        i += 1;
    }
    true
}

impl Store {
    /// The catalog, ordered by product id.
    pub closed spec fn products(&self) -> Seq<Product> {
        self.products@
    }

    /// The stock ledger, oldest movement first.
    pub closed spec fn movements(&self) -> Seq<StockMovement> {
        self.movements@
    }

    /// The sales, oldest first.
    pub closed spec fn sales(&self) -> Seq<Sale> {
        self.sales@
    }

    /// The id that the next product receives.
    pub closed spec fn next_product_id(&self) -> i64 {
        self.products.next_id()
    }

    /// The id that the next movement receives.
    pub closed spec fn next_movement_id(&self) -> i64 {
        self.movements.next_id()
    }

    /// The id that the next sale receives.
    pub closed spec fn next_sale_id(&self) -> i64 {
        self.sales.next_id()
    }

    /// The invariant of the store. Every constructor establishes it and
    /// every operation keeps it.
    pub open spec fn wf(&self) -> bool {
        &&& log_wf(self.products(), self.next_product_id())
        &&& log_wf(self.movements(), self.next_movement_id())
        &&& log_wf(self.sales(), self.next_sale_id())
        &&& skus_unique(self.products())
        &&& names_present(self.products())
        &&& quantities_positive(self.movements())
        &&& sales_sound(self.sales())
    }

    /// An empty store.
    pub fn new() -> (store: Self)
        ensures
            store.wf(),
            store.products() == Seq::<Product>::empty(),
            store.movements() == Seq::<StockMovement>::empty(),
            store.sales() == Seq::<Sale>::empty(),
            store.next_product_id() == 1,
            store.next_movement_id() == 1,
            store.next_sale_id() == 1,
    {
        Store { products: Log::new(), movements: Log::new(), sales: Log::new() }
    }

    /// The store that holds the given tables, for instance as they were
    /// read back from disk. Each table continues with the id that
    /// follows its last row.
    ///
    /// Tables that contradict the data model are refused with
    /// [`EngineError::ConsistencyFault`].
    pub fn from_records(
        products: Vec<Product>,
        movements: Vec<StockMovement>,
        sales: Vec<Sale>,
    ) -> (result: Result<Store, EngineError>)
        ensures
            result is Ok <==> records_consistent(products@, movements@, sales@),
            result matches Ok(store) ==> {
                &&& store.wf()
                &&& store.products() == products@
                &&& store.movements() == movements@
                &&& store.sales() == sales@
                &&& store.next_product_id() == next_id_after(products@)
                &&& store.next_movement_id() == next_id_after(movements@)
                &&& store.next_sale_id() == next_id_after(sales@)
            },
            result matches Err(error) ==> error == EngineError::ConsistencyFault,
    {
        if !products_hold(&products) || !movements_hold(&movements) || !sales_hold(&sales) {
            return Err(EngineError::ConsistencyFault);
        }
        let products = match Log::from_rows(products) {
            Some(log) => log,
            None => {
                return Err(EngineError::ConsistencyFault);
            },
        };
        let movements = match Log::from_rows(movements) {
            Some(log) => log,
            None => {
                return Err(EngineError::ConsistencyFault);
            },
        };
        let sales = match Log::from_rows(sales) {
            Some(log) => log,
            None => {
                return Err(EngineError::ConsistencyFault);
            },
        };
        Ok(Store { products, movements, sales })
    }
}

} // verus!
