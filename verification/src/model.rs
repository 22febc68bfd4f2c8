//! The records kept by the store and the rows returned by its reports.
//!
//! Money is counted in whole minor units (cents), so every sum is exact.

use crate::date::{day_of_text, Date};
use crate::error::{EngineError, ValidationError};
use crate::text::same_text;
use vstd::prelude::*;

verus! {

/// A row that carries the id under which a log stores it.
pub trait Record: Sized {
    /// The id of the row.
    spec fn record_id(&self) -> i64;

    /// The id of the row.
    fn id(&self) -> (id: i64)
        ensures
            id == self.record_id(),
    ;
}

/// Direction of a stock movement.
#[derive(Clone, Copy, Debug, PartialEq, Eq, Structural)]
pub enum MovementKind {
    /// Stock comes in.
    Ingress,
    /// Stock goes out.
    Egress,
}

impl MovementKind {
    /// The kind that `label` names: `ingreso` an ingress, `egreso` an
    /// egress. Any other label is rejected.
    pub open spec fn named(label: Seq<char>) -> Result<MovementKind, EngineError> {
        if label == "ingreso"@ {
            Ok(MovementKind::Ingress)
        } else if label == "egreso"@ {
            Ok(MovementKind::Egress)
        } else {
            Err(EngineError::Validation(ValidationError::UnknownMovementKind))
        }
    }

    /// The kind that `label` names, as the ledger is stored: `ingreso`
    /// for an ingress, `egreso` for an egress. Any other label is
    /// rejected.
    pub fn from_label(label: &str) -> (result: Result<MovementKind, EngineError>)
        ensures
            result == Self::named(label@),
    {
        if same_text(label, "ingreso") {
            Ok(MovementKind::Ingress)
        } else if same_text(label, "egreso") {
            Ok(MovementKind::Egress)
        } else {
            Err(EngineError::Validation(ValidationError::UnknownMovementKind))
        }
    }

    /// The label under which the kind is stored.
    pub fn label(&self) -> (label: &'static str)
        ensures
            label@ == match *self {
                MovementKind::Ingress => "ingreso"@,
                MovementKind::Egress => "egreso"@,
            },
            Self::named(label@) == Ok::<MovementKind, EngineError>(*self),
    {
        proof {
            reveal_strlit("ingreso");
            reveal_strlit("egreso");
            assert("ingreso"@.len() != "egreso"@.len());
        }
        match self {
            MovementKind::Ingress => "ingreso",
            MovementKind::Egress => "egreso",
        }
    }
}

/// One entry of the stock ledger. Once appended it is never changed.
#[derive(Clone, Debug, PartialEq, Eq)]
pub struct StockMovement {
    /// Assigned by the store when the movement is appended.
    pub id: i64,
    pub product_id: i64,
    pub kind: MovementKind,
    /// Units moved; always positive in a stored movement.
    pub quantity: i32,
    pub note: Option<String>,
    /// The user who caused the movement, if known.
    pub created_by: Option<i64>,
    /// When the movement was written, by the clock of the caller. The
    /// ledger is ordered by position, whatever this says.
    pub created_at: Option<String>,
}

/// A confirmed sale.
#[derive(Clone, Debug, PartialEq, Eq)]
pub struct Sale {
    /// Assigned by the store when the sale is recorded.
    pub id: i64,
    pub product_id: i64,
    /// Units sold; always positive in a stored sale.
    pub quantity: i32,
    /// What the customer paid for the sale, in minor units.
    pub sale_price: i64,
    /// Discount granted, in minor units.
    pub discount: Option<i64>,
    pub channel: Option<String>,
    /// When the sale was made: a day written as `YYYY-MM-DD`, which a
    /// time of day may follow. Only the day plays a part in the reports.
    pub sale_date: String,
    /// The user who recorded the sale, if known.
    pub created_by: Option<i64>,
}

/// A product of the catalog.
#[derive(Clone, Debug, PartialEq, Eq)]
pub struct Product {
    /// Assigned by the store when the product is added.
    pub id: i64,
    /// Stock keeping unit; no two products share one.
    pub sku: Option<String>,
    pub name: String,
    /// List price in minor units.
    pub sale_price: Option<i64>,
    pub brand: Option<String>,
    pub category: Option<String>,
    pub presentation: Option<String>,
    pub flavor: Option<String>,
    pub weight: Option<String>,
    pub image_path: Option<String>,
    pub expiry_date: Option<String>,
    pub lot_number: Option<String>,
    /// Reorder threshold: the product is low on stock when its balance is
    /// at or below it.
    pub min_stock: Option<i32>,
    /// Target stock. A new product starts with this many units.
    pub max_stock: Option<i32>,
    pub location: Option<String>,
    pub status: Option<String>,
}

impl Sale {
    /// Whether the timestamp of the sale begins with a day that exists.
    pub open spec fn is_dated(self) -> bool {
        day_of_text(self.sale_date@) is Some
    }

    /// The day on which the sale was made.
    pub open spec fn day(self) -> Date
        recommends
            self.is_dated(),
    {
        day_of_text(self.sale_date@)->0
    }

    /// The day on which the sale was made, or `None` when its timestamp
    /// does not begin with a day that exists.
    pub fn date(&self) -> (result: Option<Date>)
        ensures
            result == day_of_text(self.sale_date@),
    {
        Date::parse(self.sale_date.as_str())
    }
}

impl Record for StockMovement {
    open spec fn record_id(&self) -> i64 {
        self.id
    }

    fn id(&self) -> (id: i64) {
        self.id
    }
}

impl Record for Sale {
    open spec fn record_id(&self) -> i64 {
        self.id
    }

    fn id(&self) -> (id: i64) {
        self.id
    }
}

impl Record for Product {
    open spec fn record_id(&self) -> i64 {
        self.id
    }

    fn id(&self) -> (id: i64) {
        self.id
    }
}

/// Ingress and egress totals of one product.
#[derive(Clone, Copy, Debug, PartialEq, Eq, Structural)]
pub struct MovementTotals {
    pub ingress_total: i64,
    pub egress_total: i64,
}

/// Derived balance of one product.
#[derive(Clone, Copy, Debug, PartialEq, Eq, Structural)]
pub struct StockBalance {
    pub product_id: i64,
    pub current_stock: i64,
}

/// Units and revenue summed over a set of sales.
#[derive(Clone, Copy, Debug, PartialEq, Eq, Structural)]
pub struct SalesTotals {
    pub total_units: i64,
    /// In minor units.
    pub total_revenue: i128,
}

/// Sales of one product, summed.
#[derive(Clone, Debug, PartialEq, Eq)]
pub struct SalesByProduct {
    pub product_id: i64,
    /// Name of the product; empty when the catalog no longer has it.
    pub name: String,
    pub total_qty: i64,
    /// In minor units.
    pub total_revenue: i128,
}

/// Sales of one day, summed.
#[derive(Clone, Copy, Debug, PartialEq, Eq, Structural)]
pub struct SalesTrendPoint {
    pub date: Date,
    pub sales_count: i64,
    /// In minor units.
    pub total_revenue: i128,
}

} // verus!
