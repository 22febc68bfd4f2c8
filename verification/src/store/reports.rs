//! The reports: totals, ranking by product, trend by day, balances and
//! low stock. Each one reads the store and changes nothing.

use super::Store;
use crate::date::Date;
use crate::export::{inventory_report, inventory_report_text};
use crate::ledger::{balance, lemma_total_moved_bounds, quantities_positive, up_to};
use crate::log::{lemma_len_below_next_id, MAX_ID};
use crate::model::{
    MovementKind, Product, Sale, SalesByProduct, SalesTotals, SalesTrendPoint, StockBalance,
};
use crate::reporting::{
    catalog_balances, entries_by_day, entries_by_product, is_packed_day, lemma_day_groups,
    lemma_movement_units, low_stock_products, movement_entries, product_entry, product_name,
    ranking_of, report_products, reports_product, row_limit, sales_sound, stock_balance,
    stock_balances, trend_point, trend_points, trend_window, SalesFilter, SalesOrder,
    DEFAULT_RANKING_LIMIT, DEFAULT_TREND_DAYS,
};
use crate::tally::{
    find_group, groups, lemma_ranked_groups, rank, ranked, sheet, tally, total_amount, total_units,
    Entry, Group, Ranking,
};
use vstd::prelude::*;

verus! {

impl Store {
    /// Whether `filter` counts `sale`.
    fn admits_sale(&self, filter: &SalesFilter, sale: &Sale) -> (admitted: bool)
        requires
            self.wf(),
            sale.is_dated(),
        ensures
            admitted == filter.admits(self.products(), *sale),
    {
        let day = sale.date().unwrap();
        match &filter.start_date {
            Some(first) => {
                if !first.is_not_after(&day) {
                    return false;
                }
            },
            None => {},
        }
        match &filter.end_date {
            Some(last) => {
                if !day.is_not_after(last) {
                    return false;
                }
            },
            None => {},
        }
        match &filter.category {
            None => true,
            Some(wanted) => match self.products.position(sale.product_id) {
                None => false,
                Some(at) => match &self.products.rows()[at].category {
                    Some(name) => *name == *wanted,
                    None => false,
                },
            },
        }
    }

    /// Units and revenue summed over the sales that `filter` counts.
    pub fn get_sales_totals(&self, filter: &SalesFilter) -> (totals: SalesTotals)
        requires
            self.wf(),
        ensures
            totals.total_units == total_units(
                entries_by_product(self.products(), self.sales(), *filter),
            ),
            totals.total_revenue == total_amount(
                entries_by_product(self.products(), self.sales(), *filter),
            ),
    {
        let sales = self.sales.rows();
        let mut units: i64 = 0;
        let mut revenue: i128 = 0;
        let mut i: usize = 0;
        proof {
            lemma_len_below_next_id(self.sales(), self.next_sale_id());
        }
        while i < sales.len()
            invariant
                0 <= i <= sales.len(),
                sales@ == self.sales(),
                sales@.len() <= MAX_ID,
                self.wf(),
                units == total_units(entries_by_product(self.products(), sales@.take(i as int), *filter)),
                revenue == total_amount(
                    entries_by_product(self.products(), sales@.take(i as int), *filter),
                ),
                -i * 0x8000_0000 <= units <= i * 0x8000_0000,
                -i * 0x8000_0000_0000_0000 <= revenue <= i * 0x8000_0000_0000_0000,
            decreases sales.len() - i,
        {
            let sale = &sales[i];
            proof {
                assert(sales@.take(i + 1).drop_last() == sales@.take(i as int));
                assert(sales@.take(i + 1).last() == *sale);
                let earlier = entries_by_product(self.products(), sales@.take(i as int), *filter);
                assert(earlier.push(product_entry(*sale)).drop_last() == earlier);
                assert(i * 0x8000_0000 <= MAX_ID * 0x8000_0000) by (nonlinear_arith)
                    requires
                        0 <= i <= MAX_ID,
                ;
                assert(i * 0x8000_0000_0000_0000 <= MAX_ID * 0x8000_0000_0000_0000)
                    by (nonlinear_arith)
                    requires
                        0 <= i <= MAX_ID,
                ;
                assert((i + 1) * 0x8000_0000 == i * 0x8000_0000 + 0x8000_0000) by (nonlinear_arith);
                assert((i + 1) * 0x8000_0000_0000_0000 == i * 0x8000_0000_0000_0000
                    + 0x8000_0000_0000_0000) by (nonlinear_arith);
            }
            if self.admits_sale(filter, sale) {
                units = units + sale.quantity as i64;
                revenue = revenue + sale.sale_price as i128;
            }
            i += 1;
        }
        assert(sales@.take(sales@.len() as int) == sales@);
        SalesTotals { total_units: units, total_revenue: revenue }
    }

    /// The sales that `filter` counts, each as an entry under its
    /// product.
    fn collect_by_product(&self, filter: &SalesFilter) -> (entries: Vec<Entry>)
        requires
            self.wf(),
        ensures
            entries@ == entries_by_product(self.products(), self.sales(), *filter),
            entries@.len() <= MAX_ID,
    {
        let sales = self.sales.rows();
        let mut entries: Vec<Entry> = Vec::new();
        let mut i: usize = 0;
        proof {
            lemma_len_below_next_id(self.sales(), self.next_sale_id());
        }
        while i < sales.len()
            invariant
                0 <= i <= sales.len(),
                sales@ == self.sales(),
                sales@.len() <= MAX_ID,
                self.wf(),
                entries@ == entries_by_product(self.products(), sales@.take(i as int), *filter),
                entries@.len() <= i,
            decreases sales.len() - i,
        {
            let sale = &sales[i];
            proof {
                assert(sales@.take(i + 1).drop_last() == sales@.take(i as int));
                assert(sales@.take(i + 1).last() == *sale);
            }
            if self.admits_sale(filter, sale) {
                entries.push(
                    Entry { key: sale.product_id, units: sale.quantity, amount: sale.sale_price },
                );
            }
            i += 1;
        }
        assert(sales@.take(sales@.len() as int) == sales@);
        entries
    }

    /// The name under which the catalog has product `product_id`; empty
    /// when it has no such product.
    fn name_of(&self, product_id: i64) -> (name: String)
        requires
            self.wf(),
        ensures
            name@ == product_name(self.products(), product_id),
    {
        match self.products.position(product_id) {
            Some(at) => self.products.rows()[at].name.clone(),
            None => String::new(),
        }
    }

    /// Sales by product: for every product with at least one sale that
    /// `filter` counts, the units sold and the revenue, ordered as
    /// `order_by` asks, products with equal figures by ascending id.
    ///
    /// At most `limit` rows are returned, [`DEFAULT_RANKING_LIMIT`] when
    /// no limit is given, all rows when the limit is negative.
    pub fn get_sales_by_product(
        &self,
        filter: &SalesFilter,
        order_by: SalesOrder,
        limit: Option<i32>,
    ) -> (rows: Vec<SalesByProduct>)
        requires
            self.wf(),
        ensures
            report_products(
                rows@,
                up_to(
                    ranked(
                        groups(entries_by_product(self.products(), self.sales(), *filter)),
                        ranking_of(order_by),
                    ),
                    row_limit(limit),
                ),
                self.products(),
            ),
    {
        let entries = self.collect_by_product(filter);
        let sums = tally(&entries);
        let order = match order_by {
            SalesOrder::Revenue => Ranking::AmountDescending,
            SalesOrder::Quantity => Ranking::UnitsDescending,
        };
        let list = rank(&sums, order);
        let shown: usize = match limit {
            None => if (DEFAULT_RANKING_LIMIT as usize) < list.len() {
                DEFAULT_RANKING_LIMIT as usize
            } else {
                list.len()
            },
            Some(n) => if n >= 0 && (n as usize) < list.len() {
                n as usize
            } else {
                list.len()
            },
        };
        let ghost expected = up_to(list@, row_limit(limit));
        assert(expected == list@.take(shown as int));
        let mut rows: Vec<SalesByProduct> = Vec::new();
        let mut i: usize = 0;
        while i < shown
            invariant
                0 <= i <= shown <= list.len(),
                self.wf(),
                rows@.len() == i,
                forall|j: int|
                    0 <= j < i ==> reports_product(#[trigger] rows@[j], list@[j], self.products()),
            decreases shown - i,
        {
            let group = list[i];
            let name = self.name_of(group.key);
            rows.push(
                SalesByProduct {
                    product_id: group.key,
                    name,
                    total_qty: group.units,
                    total_revenue: group.amount,
                },
            );
            i += 1;
        }
        rows
    }

    /// Sales by day over the days from `today` back: for every day of
    /// the last `days` days and of today on which something was sold,
    /// the number of sales and the revenue, earliest day first. Days
    /// without sales do not appear.
    ///
    /// The trend looks back [`DEFAULT_TREND_DAYS`] days when `days` is
    /// `None`, and at today alone when `days` is negative.
    pub fn get_sales_trend(&self, today: Date, days: Option<i32>) -> (points: Vec<
        SalesTrendPoint,
    >)
        requires
            self.wf(),
        ensures
            points@ == trend_points(self.sales(), today.day_number() - trend_window(days)),
    {
        let window: i64 = match days {
            None => DEFAULT_TREND_DAYS as i64,
            Some(n) => if n < 0 {
                0
            } else {
                n as i64
            },
        };
        let first_day = today.to_day_number() - window;
        let sales = self.sales.rows();
        let mut entries: Vec<Entry> = Vec::new();
        let mut i: usize = 0;
        proof {
            lemma_len_below_next_id(self.sales(), self.next_sale_id());
        }
        while i < sales.len()
            invariant
                0 <= i <= sales.len(),
                sales@ == self.sales(),
                sales@.len() <= MAX_ID,
                sales_sound(sales@),
                entries@ == entries_by_day(sales@.take(i as int), first_day as int),
                entries@.len() <= i,
            decreases sales.len() - i,
        {
            let sale = &sales[i];
            proof {
                assert(sales@.take(i + 1).drop_last() == sales@.take(i as int));
                assert(sales@.take(i + 1).last() == *sale);
            }
            assert(sale.is_dated());
            let day = sale.date().unwrap();
            if day.to_day_number() >= first_day {
                entries.push(
                    Entry {
                        key: day.to_packed(),
                        units: sale.quantity,
                        amount: sale.sale_price,
                    },
                );
            }
            i += 1;
        }
        assert(sales@.take(sales@.len() as int) == sales@);
        let sums = tally(&entries);
        let list = rank(&sums, Ranking::KeyAscending);
        proof {
            lemma_day_groups(self.sales(), first_day as int);
        }
        let mut points: Vec<SalesTrendPoint> = Vec::new();
        let mut k: usize = 0;
        while k < list.len()
            invariant
                0 <= k <= list.len(),
                forall|j: int| 0 <= j < list@.len() ==> is_packed_day((#[trigger] list@[j]).key),
                points@ == list@.take(k as int).map_values(|group: Group| trend_point(group)),
            decreases list.len() - k,
        {
            let group = list[k];
            let date = Date::from_packed(group.key).unwrap();
            points.push(
                SalesTrendPoint { date, sales_count: group.count, total_revenue: group.amount },
            );
            assert(list@.take(k + 1) == list@.take(k as int).push(group));
            assert(points@ == list@.take(k + 1).map_values(|group: Group| trend_point(group)));
            k += 1;
        }
        assert(list@.take(list@.len() as int) == list@);
        points
    }

    /// The units that the ledger adds up to for every product it
    /// mentions, smallest product id first.
    pub(crate) fn balance_sheet(&self) -> (list: Vec<Group>)
        requires
            self.wf(),
        ensures
            list@ == ranked(groups(movement_entries(self.movements())), Ranking::KeyAscending),
            forall|i: int, j: int| 0 <= i < j < list@.len() ==> list@[i].key < list@[j].key,
    {
        let log = self.movements.rows();
        let mut entries: Vec<Entry> = Vec::new();
        let mut i: usize = 0;
        proof {
            lemma_len_below_next_id(self.movements(), self.next_movement_id());
        }
        while i < log.len()
            invariant
                0 <= i <= log.len(),
                log@ == self.movements(),
                log@.len() <= MAX_ID,
                quantities_positive(log@),
                entries@ == movement_entries(log@.take(i as int)),
            decreases log.len() - i,
        {
            let movement = &log[i];
            assert(movement.quantity > 0);
            let units = match movement.kind {
                MovementKind::Ingress => movement.quantity,
                MovementKind::Egress => -movement.quantity,
            };
            entries.push(Entry { key: movement.product_id, units, amount: 0 });
            assert(log@.take(i + 1) == log@.take(i as int).push(*movement));
            assert(entries@ == movement_entries(log@.take(i + 1)));
            i += 1;
        }
        assert(log@.take(log@.len() as int) == log@);
        sheet(&entries)
    }

    /// The balance of `product_id` as `sheet` has it.
    fn stock_in(&self, sheet: &Vec<Group>, product_id: i64) -> (stock: i64)
        requires
            self.wf(),
            sheet@ == ranked(groups(movement_entries(self.movements())), Ranking::KeyAscending),
            forall|i: int, j: int| 0 <= i < j < sheet@.len() ==> sheet@[i].key < sheet@[j].key,
        ensures
            stock == balance(self.movements(), product_id),
    {
        proof {
            lemma_len_below_next_id(self.movements(), self.next_movement_id());
            lemma_ranked_groups(
                movement_entries(self.movements()),
                Ranking::KeyAscending,
                product_id,
            );
            lemma_movement_units(self.movements(), product_id);
            assert(movement_entries(self.movements()).len() == self.movements().len());
        }
        match find_group(sheet, product_id) {
            Some(at) => sheet[at].units,
            None => 0,
        }
    }

    /// The balance of every product that the ledger mentions, smallest
    /// product id first. All balances come from one scan of the ledger.
    pub fn get_stock_balances(&self) -> (rows: Vec<StockBalance>)
        requires
            self.wf(),
        ensures
            rows@ == stock_balances(self.movements()),
    {
        let list = self.balance_sheet();
        let mut rows: Vec<StockBalance> = Vec::new();
        let mut k: usize = 0;
        while k < list.len()
            invariant
                0 <= k <= list.len(),
                rows@ == list@.take(k as int).map_values(|group: Group| stock_balance(group)),
            decreases list.len() - k,
        {
            let group = list[k];
            rows.push(StockBalance { product_id: group.key, current_stock: group.units });
            assert(list@.take(k + 1) == list@.take(k as int).push(group));
            assert(rows@ == list@.take(k + 1).map_values(|group: Group| stock_balance(group)));
            k += 1;
        }
        assert(list@.take(list@.len() as int) == list@);
        rows
    }

    /// The balance of every product of the catalog, in catalog order. A
    /// product without movements has a balance of zero.
    pub fn get_inventory(&self) -> (rows: Vec<StockBalance>)
        requires
            self.wf(),
        ensures
            rows@ == catalog_balances(self.products(), self.movements()),
    {
        let sheet = self.balance_sheet();
        let products = self.products.rows();
        let mut rows: Vec<StockBalance> = Vec::new();
        let mut i: usize = 0;
        while i < products.len()
            invariant
                0 <= i <= products.len(),
                products@ == self.products(),
                self.wf(),
                sheet@ == ranked(
                    groups(movement_entries(self.movements())),
                    Ranking::KeyAscending,
                ),
                forall|a: int, b: int| 0 <= a < b < sheet@.len() ==> sheet@[a].key < sheet@[b].key,
                rows@.len() == i,
                forall|j: int|
                    0 <= j < i ==> #[trigger] rows@[j] == catalog_balances(
                        self.products(),
                        self.movements(),
                    )[j],
            decreases products.len() - i,
        {
            let product = &products[i];
            let stock = self.stock_in(&sheet, product.id);
            rows.push(StockBalance { product_id: product.id, current_stock: stock });
            i += 1;
        }
        assert(rows@ == catalog_balances(self.products(), self.movements()));
        rows
    }

    /// The products that are low on stock, in catalog order: those with
    /// a reorder threshold whose balance is at or below it.
    pub fn low_stock(&self) -> (result: Vec<&Product>)
        requires
            self.wf(),
        ensures
            result@.map_values(|product: &Product| *product) == low_stock_products(
                self.products(),
                self.movements(),
            ),
    {
        let sheet = self.balance_sheet();
        let products = self.products.rows();
        let mut result: Vec<&Product> = Vec::new();
        let mut i: usize = 0;
        while i < products.len()
            invariant
                0 <= i <= products.len(),
                products@ == self.products(),
                self.wf(),
                sheet@ == ranked(
                    groups(movement_entries(self.movements())),
                    Ranking::KeyAscending,
                ),
                forall|a: int, b: int| 0 <= a < b < sheet@.len() ==> sheet@[a].key < sheet@[b].key,
                result@.map_values(|product: &Product| *product) == low_stock_products(
                    products@.take(i as int),
                    self.movements(),
                ),
            decreases products.len() - i,
        {
            let product = &products[i];
            let stock = self.stock_in(&sheet, product.id);
            let ghost before = result@.map_values(|product: &Product| *product);
            proof {
                assert(products@.take(i + 1).drop_last() == products@.take(i as int));
                assert(products@.take(i + 1).last() == *product);
            }
            let low = match product.min_stock {
                Some(threshold) => stock <= threshold as i64,
                None => false,
            };
            if low {
                result.push(product);
                assert(result@.map_values(|product: &Product| *product) == before.push(*product));
            }
            i += 1;
        }
        assert(products@.take(products@.len() as int) == products@);
        result
    }

    /// The inventory as comma-separated text: under a header, one line
    /// for each product of the catalog with its fields and, last, its
    /// current stock.
    pub fn export_inventory_report(&self) -> (text: String)
        requires
            self.wf(),
        ensures
            text@ == inventory_report_text(self.products(), self.movements()),
    {
        let stock = self.get_inventory();
        proof {
            lemma_len_below_next_id(self.movements(), self.next_movement_id());
            assert forall|i: int| 0 <= i < self.products().len() implies (#[trigger] stock@[i]).current_stock
                == balance(self.movements(), self.products()[i].id) by {
                let product_id = self.products()[i].id;
                lemma_total_moved_bounds(self.movements(), product_id, MovementKind::Ingress);
                lemma_total_moved_bounds(self.movements(), product_id, MovementKind::Egress);
                assert(self.movements().len() * i32::MAX <= MAX_ID * i32::MAX) by (nonlinear_arith)
                    requires
                        0 <= self.movements().len() <= MAX_ID,
                ;
            }
        }
        inventory_report(self.products.rows(), &stock, Ghost(self.movements()))
    }
}

} // verus!
