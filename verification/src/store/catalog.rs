//! Catalog operations: adding, changing and removing products.

use super::Store;
use crate::catalog::{
    has_sku, is_referenced, opening_movement, opening_stock, sku_clashes, sku_in_use,
};
use crate::error::{EngineError, ValidationError};
use crate::log::{has_id, MAX_ID};
use crate::model::{MovementKind, Product, Record, StockMovement};
use vstd::prelude::*;

verus! {

impl Store {
    /// The products of the catalog, ordered by id.
    pub fn get_products(&self) -> (products: &Vec<Product>)
        ensures
            products@ == self.products(),
    {
        self.products.rows()
    }

    /// Whether a product other than the one with id `except` carries
    /// the SKU `sku`.
    fn sku_is_in_use(&self, sku: &Option<String>, except: i64) -> (used: bool)
        ensures
            used == sku_in_use(self.products(), *sku, except),
    {
        match sku {
            None => false,
            Some(wanted) => {
                let rows = self.products.rows();
                let mut i: usize = 0;
                while i < rows.len()
                    invariant
                        0 <= i <= rows.len(),
                        rows@ == self.products(),
                        *sku == Some(*wanted),
                        forall|j: int|
                            0 <= j < i ==> !((#[trigger] rows@[j]).id != except && has_sku(
                                rows@[j],
                                wanted@,
                            )),
                    decreases rows.len() - i,
                {
                    let row = &rows[i];
                    if row.id != except {
                        let same = match &row.sku {
                            Some(other) => *other == *wanted,
                            None => false,
                        };
                        if same {
                            assert(rows@[i as int].id != except && has_sku(rows@[i as int], wanted@));
                            return true;
                        }
                    }
                    i += 1;
                }
                false
            },
        }
    }

    /// What adding `product` returns: the id of the new product, or the
    /// reason for which nothing is added.
    pub open spec fn product_outcome(&self, product: Product) -> Result<i64, EngineError> {
        if product.name@.len() == 0 {
            Err(EngineError::Validation(ValidationError::MissingField))
        } else if sku_in_use(self.products(), product.sku, 0) {
            Err(EngineError::Validation(ValidationError::DuplicateSku))
        } else if self.next_product_id() > MAX_ID || (opening_stock(product) > 0
            && self.next_movement_id() > MAX_ID) {
            Err(EngineError::Storage)
        } else {
            Ok(self.next_product_id())
        }
    }

    /// Whether `post` and `result` are what adding `product` to `pre`
    /// leaves behind: the product is appended, together with the
    /// ingress of its opening stock if it has one, or nothing has
    /// changed.
    pub open spec fn product_applied(
        pre: &Store,
        product: Product,
        post: &Store,
        result: Result<i64, EngineError>,
    ) -> bool {
        &&& result == pre.product_outcome(product)
        &&& match result {
            Ok(id) => {
                let stored = Product { id, ..product };
                &&& post.products() == pre.products().push(stored)
                &&& post.next_product_id() == id + 1
                &&& post.movements() == if opening_stock(product) > 0 {
                    pre.movements().push(opening_movement(stored, pre.next_movement_id()))
                } else {
                    pre.movements()
                }
                &&& post.next_movement_id() == if opening_stock(product) > 0 {
                    pre.next_movement_id() + 1
                } else {
                    pre.next_movement_id() as int
                }
                &&& post.sales() == pre.sales()
                &&& post.next_sale_id() == pre.next_sale_id()
            },
            Err(_) => *post == *pre,
        }
    }

    /// Adds `product` to the catalog and returns the id given to it. The
    /// id that `product` arrives with is ignored.
    ///
    /// A product without a name is rejected, and so is one whose SKU
    /// another product carries. A product with a positive target stock
    /// starts with that many units: the ledger receives one ingress
    /// movement for them. A rejected product leaves the store
    /// unchanged.
    pub fn add_product(&mut self, product: Product) -> (result: Result<i64, EngineError>)
        requires
            old(self).wf(),
        ensures
            final(self).wf(),
            Store::product_applied(old(self), product, final(self), result),
    {
        if product.name.as_str().is_empty() {
            return Err(EngineError::Validation(ValidationError::MissingField));
        }
        if self.sku_is_in_use(&product.sku, 0) {
            return Err(EngineError::Validation(ValidationError::DuplicateSku));
        }
        let id = match self.products.upcoming_id() {
            Some(id) => id,
            None => {
                return Err(EngineError::Storage);
            },
        };
        let opening: i32 = match product.max_stock {
            Some(units) => if units > 0 {
                units
            } else {
                0
            },
            None => 0,
        };
        let movement_id = if opening > 0 {
            match self.movements.upcoming_id() {
                Some(id) => Some(id),
                None => {
                    return Err(EngineError::Storage);
                },
            }
        } else {
            None
        };
        let mut stored = product;
        stored.id = id;
        proof {
            let before = self.products();
            let after = before.push(stored);
            assert forall|i: int| 0 <= i < after.len() implies !sku_clashes(
                after,
                #[trigger] after[i],
            ) by {
                if sku_clashes(after, after[i]) {
                    let sku = after[i].sku->0;
                    let j = choose|j: int|
                        0 <= j < after.len() && (#[trigger] after[j]).id != after[i].id && has_sku(
                            after[j],
                            sku@,
                        );
                    if i < before.len() && j < before.len() {
                        assert(before[j].id != before[i].id && has_sku(before[j], sku@));
                        assert(sku_clashes(before, before[i]));
                    } else if i < before.len() {
                        assert(before[i].record_id() >= 1);
                        assert(stored.sku == product.sku);
                        assert(has_sku(stored, sku@));
                        assert(before[i].id != 0 && has_sku(before[i], (stored.sku->0)@));
                    } else {
                        assert(before[j].record_id() >= 1);
                        assert(before[j].id != 0 && has_sku(before[j], sku@));
                    }
                }
            }
        }
        self.products.push(stored);
        match movement_id {
            Some(movement_id) => {
                self.movements.push(
                    StockMovement {
                        id: movement_id,
                        product_id: id,
                        kind: MovementKind::Ingress,
                        quantity: opening,
                        note: None,
                        created_by: None,
                        created_at: None,
                    },
                );
            },
            None => {},
        }
        Ok(id)
    }

    /// What changing a product to `product` returns.
    pub open spec fn update_outcome(&self, product: Product) -> Result<(), EngineError> {
        if product.name@.len() == 0 {
            Err(EngineError::Validation(ValidationError::MissingField))
        } else if has_id(self.products(), product.id) && sku_clashes(self.products(), product) {
            Err(EngineError::Validation(ValidationError::DuplicateSku))
        } else {
            Ok(())
        }
    }

    /// Puts `product` in the place of the product that carries its id.
    ///
    /// A product without a name is rejected, and so is one whose SKU
    /// another product carries; both leave the store unchanged. When
    /// the catalog has no product with that id, nothing changes and the
    /// call succeeds. The ledger is never touched: a new target stock
    /// moves no units.
    pub fn update_product(&mut self, product: Product) -> (result: Result<(), EngineError>)
        requires
            old(self).wf(),
        ensures
            final(self).wf(),
            result == old(self).update_outcome(product),
            final(self).movements() == old(self).movements(),
            final(self).sales() == old(self).sales(),
            final(self).next_product_id() == old(self).next_product_id(),
            final(self).next_movement_id() == old(self).next_movement_id(),
            final(self).next_sale_id() == old(self).next_sale_id(),
            final(self).products() == if result is Ok && has_id(old(self).products(), product.id) {
                old(self).products().update(
                    choose|i: int|
                        0 <= i < old(self).products().len() && (#[trigger] old(
                            self,
                        ).products()[i]).id == product.id,
                    product,
                )
            } else {
                old(self).products()
            },
    {
        if product.name.as_str().is_empty() {
            return Err(EngineError::Validation(ValidationError::MissingField));
        }
        let at = match self.products.position(product.id) {
            Some(at) => at,
            None => {
                return Ok(());
            },
        };
        if self.sku_is_in_use(&product.sku, product.id) {
            return Err(EngineError::Validation(ValidationError::DuplicateSku));
        }
        proof {
            let before = self.products();
            let after = before.update(at as int, product);
            let found = choose|i: int|
                0 <= i < before.len() && (#[trigger] before[i]).id == product.id;
            if found < at {
                assert(before[found].record_id() < before[at as int].record_id());
            } else if at < found {
                assert(before[at as int].record_id() < before[found].record_id());
            }
            assert forall|i: int| 0 <= i < after.len() implies !sku_clashes(
                after,
                #[trigger] after[i],
            ) by {
                if sku_clashes(after, after[i]) {
                    let sku = after[i].sku->0;
                    let j = choose|j: int|
                        0 <= j < after.len() && (#[trigger] after[j]).id != after[i].id && has_sku(
                            after[j],
                            sku@,
                        );
                    if i != at && j != at {
                        assert(before[j].id != before[i].id && has_sku(before[j], sku@));
                        assert(sku_clashes(before, before[i]));
                    } else if i == at {
                        assert(before[j].id != product.id && has_sku(before[j], sku@));
                    } else {
                        assert(has_sku(product, sku@));
                        assert(before[i].id != product.id && has_sku(
                            before[i],
                            (product.sku->0)@,
                        ));
                    }
                }
            }
        }
        self.products.replace(at, product);
        Ok(())
    }

    /// Whether a movement or a sale refers to product `product_id`.
    fn refers_to(&self, product_id: i64) -> (referenced: bool)
        ensures
            referenced == is_referenced(self.movements(), self.sales(), product_id),
    {
        let movements = self.movements.rows();
        let mut i: usize = 0;
        while i < movements.len()
            invariant
                0 <= i <= movements.len(),
                movements@ == self.movements(),
                forall|j: int| 0 <= j < i ==> (#[trigger] movements@[j]).product_id != product_id,
            decreases movements.len() - i,
        {
            if movements[i].product_id == product_id {
                assert(movements@[i as int].product_id == product_id);
                return true;
            }
            i += 1;
        }
        let sales = self.sales.rows();
        let mut k: usize = 0;
        while k < sales.len()
            invariant
                0 <= k <= sales.len(),
                sales@ == self.sales(),
                forall|j: int| 0 <= j < k ==> (#[trigger] sales@[j]).product_id != product_id,
            decreases sales.len() - k,
        {
            if sales[k].product_id == product_id {
                assert(sales@[k as int].product_id == product_id);
                return true;
            }
            k += 1;
        }
        false
    }

    /// What removing product `product_id` returns.
    pub open spec fn delete_outcome(&self, product_id: i64) -> Result<(), EngineError> {
        if has_id(self.products(), product_id) && is_referenced(
            self.movements(),
            self.sales(),
            product_id,
        ) {
            Err(EngineError::Validation(ValidationError::ProductInUse))
        } else {
            Ok(())
        }
    }

    /// Removes product `product_id` from the catalog.
    ///
    /// A product that a movement or a sale refers to stays: the call is
    /// rejected and the store is unchanged, so no entry of the ledger
    /// ever loses its product. When the catalog has no product with
    /// that id, nothing changes and the call succeeds.
    pub fn delete_product(&mut self, product_id: i64) -> (result: Result<(), EngineError>)
        requires
            old(self).wf(),
        ensures
            final(self).wf(),
            result == old(self).delete_outcome(product_id),
            final(self).movements() == old(self).movements(),
            final(self).sales() == old(self).sales(),
            final(self).next_product_id() == old(self).next_product_id(),
            final(self).next_movement_id() == old(self).next_movement_id(),
            final(self).next_sale_id() == old(self).next_sale_id(),
            final(self).products() == if result is Ok && has_id(old(self).products(), product_id) {
                old(self).products().remove(
                    choose|i: int|
                        0 <= i < old(self).products().len() && (#[trigger] old(
                            self,
                        ).products()[i]).id == product_id,
                )
            } else {
                old(self).products()
            },
    {
        let at = match self.products.position(product_id) {
            Some(at) => at,
            None => {
                return Ok(());
            },
        };
        if self.refers_to(product_id) {
            return Err(EngineError::Validation(ValidationError::ProductInUse));
        }
        proof {
            let before = self.products();
            let after = before.remove(at as int);
            let found = choose|i: int|
                0 <= i < before.len() && (#[trigger] before[i]).id == product_id;
            if found < at {
                assert(before[found].record_id() < before[at as int].record_id());
            } else if at < found {
                assert(before[at as int].record_id() < before[found].record_id());
            }
            assert forall|i: int| 0 <= i < after.len() implies !sku_clashes(
                after,
                #[trigger] after[i],
            ) by {
                if sku_clashes(after, after[i]) {
                    let sku = after[i].sku->0;
                    let j = choose|j: int|
                        0 <= j < after.len() && (#[trigger] after[j]).id != after[i].id && has_sku(
                            after[j],
                            sku@,
                        );
                    let a = if i < at {
                        i
                    } else {
                        i + 1
                    };
                    let b = if j < at {
                        j
                    } else {
                        j + 1
                    };
                    assert(before[b].id != before[a].id && has_sku(before[b], sku@));
                    assert(sku_clashes(before, before[a]));
                }
            }
            assert forall|i: int| 0 <= i < after.len() implies (#[trigger] after[i]).name@.len()
                > 0 by {
                let a = if i < at {
                    i
                } else {
                    i + 1
                };
                assert(before[a].name@.len() > 0);
            }
        }
        self.products.remove(at);
        Ok(())
    }
}

} // verus!
