//! The sale transaction: check the balance, then record the sale and
//! its stock debit together.

use super::Store;
use crate::error::{EngineError, ValidationError};
use crate::ledger::balance;
use crate::log::MAX_ID;
use crate::model::{MovementKind, Sale, StockMovement};
use vstd::prelude::*;

verus! {

impl Store {
    /// What recording `sale` returns: the id of the new sale, or the
    /// reason for which nothing is recorded.
    ///
    /// The quantity is compared with the balance that the ledger gives
    /// at that moment. Selling exactly the balance is allowed.
    pub open spec fn sale_outcome(&self, sale: Sale) -> Result<i64, EngineError> {
        let available = balance(self.movements(), sale.product_id);
        if sale.quantity <= 0 {
            Err(EngineError::Validation(ValidationError::NonPositiveQuantity))
        } else if !sale.is_dated() {
            Err(EngineError::Validation(ValidationError::MalformedDate))
        } else if sale.quantity > available {
            Err(
                EngineError::InsufficientStock {
                    available: available as i64,
                    requested: sale.quantity as i64,
                },
            )
        } else if self.next_sale_id() > MAX_ID || self.next_movement_id() > MAX_ID {
            Err(EngineError::Storage)
        } else {
            Ok(self.next_sale_id())
        }
    }

    /// The egress movement that debits the stock sold by `sale`. It is
    /// stamped with the time of the sale.
    pub open spec fn sale_debit(&self, sale: Sale) -> StockMovement {
        StockMovement {
            id: self.next_movement_id(),
            product_id: sale.product_id,
            kind: MovementKind::Egress,
            quantity: sale.quantity,
            note: None,
            created_by: sale.created_by,
            created_at: Some(sale.sale_date),
        }
    }

    /// Whether `post` and `result` are what recording `sale` in `pre`
    /// leaves behind: either the sale and its debit are both appended,
    /// or nothing has changed.
    pub open spec fn sale_applied(
        pre: &Store,
        sale: Sale,
        post: &Store,
        result: Result<i64, EngineError>,
    ) -> bool {
        &&& result == pre.sale_outcome(sale)
        &&& match result {
            Ok(id) => {
                &&& post.sales() == pre.sales().push(Sale { id, ..sale })
                &&& post.next_sale_id() == id + 1
                &&& post.movements() == pre.movements().push(pre.sale_debit(sale))
                &&& post.next_movement_id() == pre.next_movement_id() + 1
                &&& post.products() == pre.products()
                &&& post.next_product_id() == pre.next_product_id()
            },
            Err(_) => *post == *pre,
        }
    }

    /// Records `sale` and returns the id given to it. The id that `sale`
    /// arrives with is ignored.
    ///
    /// The sale is accepted when its quantity is positive, its timestamp
    /// begins with a day that exists, and the quantity does not exceed
    /// the current balance of the product. An accepted sale is
    /// appended together with one egress movement of the same product
    /// and quantity. A rejected sale leaves the store unchanged; when
    /// stock is short the error tells the balance that was found.
    pub fn add_sale(&mut self, sale: Sale) -> (result: Result<i64, EngineError>)
        requires
            old(self).wf(),
        ensures
            final(self).wf(),
            Store::sale_applied(old(self), sale, final(self), result),
    {
        if sale.quantity <= 0 {
            return Err(EngineError::Validation(ValidationError::NonPositiveQuantity));
        }
        if sale.date().is_none() {
            return Err(EngineError::Validation(ValidationError::MalformedDate));
        }
        let available = self.balance_of(sale.product_id);
        if sale.quantity as i64 > available {
            return Err(
                EngineError::InsufficientStock { available, requested: sale.quantity as i64 },
            );
        }
        let sale_id = match self.sales.upcoming_id() {
            Some(id) => id,
            None => {
                return Err(EngineError::Storage);
            },
        };
        let movement_id = match self.movements.upcoming_id() {
            Some(id) => id,
            None => {
                return Err(EngineError::Storage);
            },
        };
        let debit = StockMovement {
            id: movement_id,
            product_id: sale.product_id,
            kind: MovementKind::Egress,
            quantity: sale.quantity,
            note: None,
            created_by: sale.created_by,
            created_at: Some(sale.sale_date.clone()),
        };
        let mut stored = sale;
        stored.id = sale_id;
        self.sales.push(stored);
        self.movements.push(debit);
        Ok(sale_id)
    }
}

} // verus!
