//! What the reports of the store say.
//!
//! Each report is defined here as a function of the catalog, the ledger
//! and the sales alone, so a report can only change when one of them
//! does.

use crate::date::{lemma_day_of_text, Date};
use crate::ledger::{balance, lemma_total_moved_push, quantities_positive};
use crate::log::{row_with_id, MAX_ID};
use crate::model::{
    MovementKind, Product, Sale, SalesByProduct, SalesTrendPoint, StockBalance, StockMovement,
};
use crate::tally::{
    count_for, goes_before, groups, lemma_counted_key_occurs, lemma_groups, lemma_groups_add_up,
    lemma_occurring_key_counted, lemma_rank_order_strict, lemma_ranked, lemma_ranked_groups,
    lemma_ranked_members, lemma_ranked_sums, lemma_sums_bounds, lemma_sums_push, ranked,
    sum_of_amounts, sum_of_counts, sum_of_units, total_amount, total_units, units_for, Entry, Group,
    Ranking,
};
use crate::text::same_text;
use vstd::prelude::*;

verus! {

/// Number of rows that the ranking by product shows when no limit is
/// given.
pub const DEFAULT_RANKING_LIMIT: i32 = 5;

/// Number of days that the trend looks back when none is given.
pub const DEFAULT_TREND_DAYS: i32 = 7;

/// Which sales a report counts.
#[derive(Clone, Debug, PartialEq, Eq)]
pub struct SalesFilter {
    /// First day counted; `None` leaves the range open at the start.
    pub start_date: Option<Date>,
    /// Last day counted; `None` leaves the range open at the end.
    pub end_date: Option<Date>,
    /// Count only sales of products of this category.
    pub category: Option<String>,
}

/// By what the ranking by product is ordered.
#[derive(Clone, Copy, Debug, PartialEq, Eq, Structural)]
pub enum SalesOrder {
    /// Highest revenue first.
    Revenue,
    /// Most units first.
    Quantity,
}

impl SalesOrder {
    /// The order that `label` asks for: by quantity for `qty`, by
    /// revenue for anything else and when no label is given.
    pub open spec fn named(label: Option<Seq<char>>) -> SalesOrder {
        if label == Some("qty"@) {
            SalesOrder::Quantity
        } else {
            SalesOrder::Revenue
        }
    }

    /// The order that `label` asks for: by quantity for `qty`, by
    /// revenue for anything else and when no label is given.
    pub fn from_label(label: Option<&str>) -> (order: SalesOrder)
        ensures
            order == Self::named(
                match label {
                    Some(text) => Some(text@),
                    None => None,
                },
            ),
    {
        match label {
            Some(text) => if same_text(text, "qty") {
                SalesOrder::Quantity
            } else {
                SalesOrder::Revenue
            },
            None => SalesOrder::Revenue,
        }
    }
}

/// Whether every sale of `sales` sells at least one unit and is dated
/// with a day that exists.
pub open spec fn sales_sound(sales: Seq<Sale>) -> bool {
    forall|i: int|
        0 <= i < sales.len() ==> (#[trigger] sales[i]).quantity > 0 && sales[i].is_dated()
}

/// Whether `key` is a day written as the number `YYYYMMDD`.
pub open spec fn is_packed_day(key: i64) -> bool {
    &&& 0 <= key <= 99_999_999
    &&& Date::is_calendar_day(key as int / 10000, key as int / 100 % 100, key as int % 100)
}

/// Whether `day` lies between `start` and `end`, both included. A bound
/// that is `None` is no bound.
pub open spec fn in_range(day: Date, start: Option<Date>, end: Option<Date>) -> bool {
    &&& match start {
        Some(first) => first.not_after(day),
        None => true,
    }
    &&& match end {
        Some(last) => day.not_after(last),
        None => true,
    }
}

/// Whether the catalog has product `product_id` and files it under
/// `category`.
pub open spec fn category_is(products: Seq<Product>, product_id: i64, category: Seq<char>) -> bool {
    match row_with_id(products, product_id) {
        Some(product) => match product.category {
            Some(name) => name@ == category,
            None => false,
        },
        None => false,
    }
}

/// The name under which the catalog has product `product_id`; empty
/// when it has no such product.
pub open spec fn product_name(products: Seq<Product>, product_id: i64) -> Seq<char> {
    match row_with_id(products, product_id) {
        Some(product) => product.name@,
        None => Seq::empty(),
    }
}

impl SalesFilter {
    /// Whether the filter counts `sale`: its day lies in the range, and
    /// its product is of the category when one is asked for.
    pub open spec fn admits(&self, products: Seq<Product>, sale: Sale) -> bool {
        &&& in_range(sale.day(), self.start_date, self.end_date)
        &&& match self.category {
            Some(category) => category_is(products, sale.product_id, category@),
            None => true,
        }
    }
}

/// `sale` as an entry under its product.
pub open spec fn product_entry(sale: Sale) -> Entry {
    Entry { key: sale.product_id, units: sale.quantity, amount: sale.sale_price }
}

/// `sale` as an entry under its day.
pub open spec fn day_entry(sale: Sale) -> Entry {
    Entry { key: sale.day().packed() as i64, units: sale.quantity, amount: sale.sale_price }
}

/// `movement` as an entry under its product: what it adds to the stock.
pub open spec fn movement_entry(movement: StockMovement) -> Entry {
    Entry {
        key: movement.product_id,
        units: match movement.kind {
            MovementKind::Ingress => movement.quantity,
            MovementKind::Egress => (-movement.quantity) as i32,
        },
        amount: 0,
    }
}

/// The sales that `filter` counts, each as an entry under its product.
pub open spec fn entries_by_product(
    products: Seq<Product>,
    sales: Seq<Sale>,
    filter: SalesFilter,
) -> Seq<Entry>
    decreases sales.len(),
{
    if sales.len() == 0 {
        Seq::empty()
    } else {
        let earlier = entries_by_product(products, sales.drop_last(), filter);
        if filter.admits(products, sales.last()) {
            earlier.push(product_entry(sales.last()))
        } else {
            earlier
        }
    }
}

/// The sales made on day number `first_day` or later, each as an entry
/// under its day.
pub open spec fn entries_by_day(sales: Seq<Sale>, first_day: int) -> Seq<Entry>
    decreases sales.len(),
{
    if sales.len() == 0 {
        Seq::empty()
    } else {
        let earlier = entries_by_day(sales.drop_last(), first_day);
        if sales.last().day().day_number() >= first_day {
            earlier.push(day_entry(sales.last()))
        } else {
            earlier
        }
    }
}

/// Every movement of `log` as an entry under its product.
pub open spec fn movement_entries(log: Seq<StockMovement>) -> Seq<Entry> {
    log.map_values(|movement: StockMovement| movement_entry(movement))
}

/// The order of groups that `order` asks for.
pub open spec fn ranking_of(order: SalesOrder) -> Ranking {
    match order {
        SalesOrder::Revenue => Ranking::AmountDescending,
        SalesOrder::Quantity => Ranking::UnitsDescending,
    }
}

/// How many rows the ranking shows at most: the default when no limit
/// is given, no bound when the limit is negative.
pub open spec fn row_limit(limit: Option<i32>) -> Option<usize> {
    match limit {
        None => Some(DEFAULT_RANKING_LIMIT as usize),
        Some(n) => if n < 0 {
            None
        } else {
            Some(n as usize)
        },
    }
}

/// How many days the trend looks back: the default when none is given,
/// none when the number is negative.
pub open spec fn trend_window(days: Option<i32>) -> int {
    match days {
        None => DEFAULT_TREND_DAYS as int,
        Some(n) => if n < 0 {
            0
        } else {
            n as int
        },
    }
}

/// Whether `row` reports `group` as the sales of a product.
pub open spec fn reports_product(row: SalesByProduct, group: Group, products: Seq<Product>) -> bool {
    &&& row.product_id == group.key
    &&& row.name@ == product_name(products, group.key)
    &&& row.total_qty == group.units
    &&& row.total_revenue == group.amount
}

/// Whether `rows` report the groups of `list`, one row for each group
/// and in the same order.
pub open spec fn report_products(
    rows: Seq<SalesByProduct>,
    list: Seq<Group>,
    products: Seq<Product>,
) -> bool {
    &&& rows.len() == list.len()
    &&& forall|i: int| 0 <= i < rows.len() ==> reports_product(#[trigger] rows[i], list[i], products)
}

/// `group` as the sales of a day.
pub open spec fn trend_point(group: Group) -> SalesTrendPoint {
    SalesTrendPoint {
        date: Date::unpacked(group.key as int),
        sales_count: group.count,
        total_revenue: group.amount,
    }
}

/// `group` as the stock of a product.
pub open spec fn stock_balance(group: Group) -> StockBalance {
    StockBalance { product_id: group.key, current_stock: group.units }
}

/// The sales of the days from `first_day` on, one point for each day on
/// which something was sold, earliest day first.
pub open spec fn trend_points(sales: Seq<Sale>, first_day: int) -> Seq<SalesTrendPoint> {
    ranked(groups(entries_by_day(sales, first_day)), Ranking::KeyAscending).map_values(
        |group: Group| trend_point(group),
    )
}

/// The balance of every product that the ledger mentions, smallest
/// product id first.
pub open spec fn stock_balances(log: Seq<StockMovement>) -> Seq<StockBalance> {
    ranked(groups(movement_entries(log)), Ranking::KeyAscending).map_values(
        |group: Group| stock_balance(group),
    )
}

/// Whether `product` is low on stock: it has a reorder threshold and
/// its balance is at or below it.
pub open spec fn is_low_on_stock(product: Product, log: Seq<StockMovement>) -> bool {
    match product.min_stock {
        Some(threshold) => balance(log, product.id) <= threshold,
        None => false,
    }
}

/// The products of `products` that are low on stock, in catalog order.
pub open spec fn low_stock_products(products: Seq<Product>, log: Seq<StockMovement>) -> Seq<
    Product,
>
    decreases products.len(),
{
    if products.len() == 0 {
        Seq::empty()
    } else {
        let earlier = low_stock_products(products.drop_last(), log);
        if is_low_on_stock(products.last(), log) {
            earlier.push(products.last())
        } else {
            earlier
        }
    }
}

/// The balance of every product of the catalog, in catalog order.
pub open spec fn catalog_balances(products: Seq<Product>, log: Seq<StockMovement>) -> Seq<
    StockBalance,
> {
    Seq::new(
        products.len(),
        |i: int|
            StockBalance {
                product_id: products[i].id,
                current_stock: balance(log, products[i].id) as i64,
            },
    )
}

/// The entries of the trend are keyed by days, and there are no more
/// of them than sales.
pub proof fn lemma_day_entries(sales: Seq<Sale>, first_day: int)
    requires
        sales_sound(sales),
    ensures
        entries_by_day(sales, first_day).len() <= sales.len(),
        forall|k: int|
            0 <= k < entries_by_day(sales, first_day).len() ==> is_packed_day(
                (#[trigger] entries_by_day(sales, first_day)[k]).key,
            ),
    decreases sales.len(),
{
    if sales.len() > 0 {
        let earlier = sales.drop_last();
        assert(sales_sound(earlier)) by {
            assert forall|i: int| 0 <= i < earlier.len() implies (#[trigger] earlier[i]).quantity
                > 0 && earlier[i].is_dated() by {
                assert(sales[i].quantity > 0);
            }
        }
        lemma_day_entries(earlier, first_day);
        let day = sales.last().day();
        assert(sales[sales.len() - 1].is_dated());
        lemma_day_of_text(sales.last().sale_date@);
        day.lemma_parts();
        assert(is_packed_day(day.packed() as i64));
    }
}

/// Every group of ranked day entries is keyed by a day.
pub proof fn lemma_day_groups(sales: Seq<Sale>, first_day: int)
    requires
        sales_sound(sales),
    ensures
        forall|i: int|
            0 <= i < ranked(
                groups(entries_by_day(sales, first_day)),
                Ranking::KeyAscending,
            ).len() ==> is_packed_day(
                (#[trigger] ranked(
                    groups(entries_by_day(sales, first_day)),
                    Ranking::KeyAscending,
                )[i]).key,
            ),
{
    let entries = entries_by_day(sales, first_day);
    let list = ranked(groups(entries), Ranking::KeyAscending);
    lemma_day_entries(sales, first_day);
    lemma_groups(entries);
    lemma_ranked_members(groups(entries), Ranking::KeyAscending);
    assert forall|i: int| 0 <= i < list.len() implies is_packed_day((#[trigger] list[i]).key) by {
        assert(groups(entries).contains(list[i]));
        let a = choose|a: int| 0 <= a < groups(entries).len() && groups(entries)[a] == list[i];
        assert(count_for(entries, groups(entries)[a].key) > 0);
        lemma_counted_key_occurs(entries, list[i].key);
        let j = choose|j: int| 0 <= j < entries.len() && (#[trigger] entries[j]).key == list[i].key;
        assert(is_packed_day(entries[j].key));
    }
}

/// The units that the movement entries of a product add up to are its
/// balance.
pub proof fn lemma_movement_units(log: Seq<StockMovement>, product_id: i64)
    requires
        quantities_positive(log),
    ensures
        units_for(movement_entries(log), product_id) == balance(log, product_id),
        count_for(movement_entries(log), product_id) == 0 ==> balance(log, product_id) == 0,
    decreases log.len(),
{
    if log.len() > 0 {
        let earlier = log.drop_last();
        assert(quantities_positive(earlier)) by {
            assert forall|i: int| 0 <= i < earlier.len() implies (#[trigger] earlier[i]).quantity
                > 0 by {
                assert(log[i].quantity > 0);
            }
        }
        lemma_movement_units(earlier, product_id);
        assert(log[log.len() - 1].quantity > 0);
        assert(movement_entries(log) == movement_entries(earlier).push(movement_entry(log.last())));
        lemma_sums_push(movement_entries(earlier), movement_entry(log.last()), product_id);
        assert(log == earlier.push(log.last()));
        lemma_total_moved_push(earlier, log.last(), product_id, MovementKind::Ingress);
        lemma_total_moved_push(earlier, log.last(), product_id, MovementKind::Egress);
        lemma_sums_bounds(movement_entries(earlier), product_id);
    } else {
        assert(movement_entries(log).len() == 0);
    }
}

/// The rows of the balance report are what the ledger says: each row
/// holds the balance of its product, the rows are ordered by product
/// id, and a product has a row exactly when the ledger mentions it.
pub proof fn lemma_stock_balances(log: Seq<StockMovement>)
    requires
        quantities_positive(log),
        log.len() <= MAX_ID,
    ensures
        forall|i: int|
            0 <= i < stock_balances(log).len() ==> (#[trigger] stock_balances(
                log,
            )[i]).current_stock == balance(log, stock_balances(log)[i].product_id),
        forall|i: int, j: int|
            0 <= i < j < stock_balances(log).len() ==> stock_balances(log)[i].product_id
                < stock_balances(log)[j].product_id,
        forall|k: int|
            0 <= k < log.len() ==> exists|i: int|
                0 <= i < stock_balances(log).len() && (#[trigger] stock_balances(
                    log,
                )[i]).product_id == (#[trigger] log[k]).product_id,
        forall|i: int|
            0 <= i < stock_balances(log).len() ==> exists|k: int|
                0 <= k < log.len() && (#[trigger] log[k]).product_id == (#[trigger] stock_balances(
                    log,
                )[i]).product_id,
{
    let entries = movement_entries(log);
    let list = ranked(groups(entries), Ranking::KeyAscending);
    let rows = stock_balances(log);
    lemma_groups(entries);
    lemma_ranked(groups(entries), Ranking::KeyAscending);
    lemma_ranked_members(groups(entries), Ranking::KeyAscending);
    lemma_rank_order_strict(list, Ranking::KeyAscending);
    assert forall|i: int| 0 <= i < rows.len() implies (#[trigger] rows[i]).current_stock
        == balance(log, rows[i].product_id) by {
        lemma_ranked_groups(entries, Ranking::KeyAscending, list[i].key);
        lemma_movement_units(log, list[i].key);
    }
    assert forall|i: int, j: int| 0 <= i < j < rows.len() implies rows[i].product_id
        < rows[j].product_id by {
        assert(goes_before(list[i], list[j], Ranking::KeyAscending));
    }
    assert forall|k: int| 0 <= k < log.len() implies exists|i: int|
        0 <= i < rows.len() && (#[trigger] rows[i]).product_id == (#[trigger] log[k]).product_id by {
        lemma_occurring_key_counted(entries, k);
        lemma_ranked_groups(entries, Ranking::KeyAscending, log[k].product_id);
        let i = choose|i: int| 0 <= i < list.len() && (#[trigger] list[i]).key == log[k].product_id;
        assert(rows[i].product_id == log[k].product_id);
    }
    assert forall|i: int| 0 <= i < rows.len() implies exists|k: int|
        0 <= k < log.len() && (#[trigger] log[k]).product_id == (#[trigger] rows[i]).product_id by {
        lemma_ranked_groups(entries, Ranking::KeyAscending, list[i].key);
        lemma_counted_key_occurs(entries, list[i].key);
        let k = choose|k: int| 0 <= k < entries.len() && (#[trigger] entries[k]).key == list[i].key;
        assert(log[k].product_id == rows[i].product_id);
    }
}

/// A report counts no more entries than there are sales.
pub proof fn lemma_entries_by_product_len(
    products: Seq<Product>,
    sales: Seq<Sale>,
    filter: SalesFilter,
)
    ensures
        entries_by_product(products, sales, filter).len() <= sales.len(),
    decreases sales.len(),
{
    if sales.len() > 0 {
        lemma_entries_by_product_len(products, sales.drop_last(), filter);
    }
}

/// The ranking by product and the totals agree: over all products of
/// the unlimited ranking, the units add up to the total units and the
/// revenues to the total revenue of the same filter. No sale is counted
/// twice and none is left out.
pub proof fn lemma_ranking_adds_up_to_totals(
    products: Seq<Product>,
    sales: Seq<Sale>,
    filter: SalesFilter,
    order: SalesOrder,
)
    requires
        sales.len() <= MAX_ID,
    ensures
        sum_of_units(
            ranked(groups(entries_by_product(products, sales, filter)), ranking_of(order)),
        ) == total_units(entries_by_product(products, sales, filter)),
        sum_of_amounts(
            ranked(groups(entries_by_product(products, sales, filter)), ranking_of(order)),
        ) == total_amount(entries_by_product(products, sales, filter)),
{
    let entries = entries_by_product(products, sales, filter);
    lemma_entries_by_product_len(products, sales, filter);
    lemma_groups_add_up(entries);
    lemma_ranked_sums(groups(entries), ranking_of(order));
}

/// The trend counts every sale of its window once: the sales counts of
/// its days add up to the number of sales made from `first_day` on, and
/// their revenues to the revenue of those sales.
pub proof fn lemma_trend_adds_up(sales: Seq<Sale>, first_day: int)
    requires
        sales_sound(sales),
        sales.len() <= MAX_ID,
    ensures
        sum_of_counts(
            ranked(groups(entries_by_day(sales, first_day)), Ranking::KeyAscending),
        ) == entries_by_day(sales, first_day).len(),
        sum_of_amounts(
            ranked(groups(entries_by_day(sales, first_day)), Ranking::KeyAscending),
        ) == total_amount(entries_by_day(sales, first_day)),
{
    let entries = entries_by_day(sales, first_day);
    lemma_day_entries(sales, first_day);
    lemma_groups_add_up(entries);
    lemma_ranked_sums(groups(entries), Ranking::KeyAscending);
}

/// The low-stock report lists exactly the products of the catalog
/// that have a reorder threshold and a balance at or below it. A
/// balance equal to the threshold counts as low.
pub proof fn lemma_low_stock(products: Seq<Product>, log: Seq<StockMovement>)
    ensures
        forall|product: Product| #[trigger]
            low_stock_products(products, log).contains(product) <==> products.contains(product)
                && is_low_on_stock(product, log),
    decreases products.len(),
{
    let listed = low_stock_products(products, log);
    if products.len() > 0 {
        let earlier = products.drop_last();
        let last = products.last();
        let before = low_stock_products(earlier, log);
        lemma_low_stock(earlier, log);
        assert forall|product: Product| #[trigger]
            listed.contains(product) <==> products.contains(product) && is_low_on_stock(
                product,
                log,
            ) by {
            if listed.contains(product) {
                let i = choose|i: int| 0 <= i < listed.len() && listed[i] == product;
                if i < before.len() {
                    assert(before[i] == product);
                    assert(before.contains(product));
                    let k = choose|k: int| 0 <= k < earlier.len() && earlier[k] == product;
                    assert(products[k] == product);
                } else {
                    assert(products[products.len() - 1] == product);
                }
            }
            if products.contains(product) && is_low_on_stock(product, log) {
                let k = choose|k: int| 0 <= k < products.len() && products[k] == product;
                if k < earlier.len() {
                    assert(earlier[k] == product);
                    assert(earlier.contains(product));
                    assert(before.contains(product));
                    let i = choose|i: int| 0 <= i < before.len() && before[i] == product;
                    assert(listed[i] == product);
                } else {
                    assert(listed[listed.len() - 1] == product);
                }
            }
        }
    }
}

} // verus!
