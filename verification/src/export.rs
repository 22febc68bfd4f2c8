//! The reports as comma-separated text.
//!
//! Every report is a header line followed by one line for each row.
//! Fields are written as they are and separated by commas; an absent
//! field is left empty. Amounts are written in major units with two
//! decimal places.

use crate::ledger::balance;
use crate::model::{Product, Sale, StockBalance, StockMovement};
use crate::text::{integer_text, money_text, push_integer, push_money};
use vstd::prelude::*;
use vstd::string::*;

verus! {

/// The first line of the sales report.
pub const SALES_HEADER: &'static str =
    "id,product_id,quantity,sale_price,discount,channel,sale_date,created_by\n";

/// The first line of the inventory report.
pub const INVENTORY_HEADER: &'static str = "id,sku,name,sale_price,brand,category,presentation,\
flavor,weight,expiry_date,lot_number,min_stock,max_stock,location,status,current_stock\n";

/// A text field that may be absent.
pub open spec fn optional_text(field: Option<String>) -> Seq<char> {
    match field {
        Some(text) => text@,
        None => Seq::empty(),
    }
}

/// A whole number that may be absent.
pub open spec fn optional_integer(field: Option<int>) -> Seq<char> {
    match field {
        Some(n) => integer_text(n),
        None => Seq::empty(),
    }
}

/// An amount in minor units that may be absent.
pub open spec fn optional_money(field: Option<i64>) -> Seq<char> {
    match field {
        Some(cents) => money_text(cents as int),
        None => Seq::empty(),
    }
}

/// `id` of a user or the like, if there is one.
pub open spec fn wide(field: Option<i64>) -> Option<int> {
    match field {
        Some(n) => Some(n as int),
        None => None,
    }
}

/// A threshold or the like, if there is one.
pub open spec fn narrow(field: Option<i32>) -> Option<int> {
    match field {
        Some(n) => Some(n as int),
        None => None,
    }
}

/// The line of the sales report for `sale`.
pub open spec fn sale_line(sale: Sale) -> Seq<char> {
    integer_text(sale.id as int) + seq![','] + integer_text(sale.product_id as int) + seq![',']
        + integer_text(sale.quantity as int) + seq![','] + money_text(sale.sale_price as int)
        + seq![','] + optional_money(sale.discount) + seq![','] + optional_text(sale.channel)
        + seq![','] + sale.sale_date@ + seq![','] + optional_integer(wide(sale.created_by))
        + seq!['\n']
}

/// The lines of the sales report for `rows`, in their order.
pub open spec fn sale_lines(rows: Seq<Sale>) -> Seq<char>
    decreases rows.len(),
{
    if rows.len() == 0 {
        Seq::empty()
    } else {
        sale_lines(rows.drop_last()) + sale_line(rows.last())
    }
}

/// The sales report for `rows`: the header and one line for each row.
pub open spec fn sales_report_text(rows: Seq<Sale>) -> Seq<char> {
    SALES_HEADER@ + sale_lines(
        rows,
    )
}

/// The line of the inventory report for `product` with `stock` units
/// in stock.
pub open spec fn inventory_line(product: Product, stock: int) -> Seq<char> {
    integer_text(product.id as int) + seq![','] + optional_text(product.sku) + seq![',']
        + product.name@ + seq![','] + optional_money(product.sale_price) + seq![',']
        + optional_text(product.brand) + seq![','] + optional_text(product.category) + seq![',']
        + optional_text(product.presentation) + seq![','] + optional_text(product.flavor)
        + seq![','] + optional_text(product.weight) + seq![','] + optional_text(
        product.expiry_date,
    ) + seq![','] + optional_text(product.lot_number) + seq![','] + optional_integer(
        narrow(product.min_stock),
    ) + seq![','] + optional_integer(narrow(product.max_stock)) + seq![','] + optional_text(
        product.location,
    ) + seq![','] + optional_text(product.status) + seq![','] + integer_text(stock) + seq!['\n']
}

/// The lines of the inventory report for `products`, in catalog order,
/// each with the balance that `log` gives for the product.
pub open spec fn inventory_lines(products: Seq<Product>, log: Seq<StockMovement>) -> Seq<char>
    decreases products.len(),
{
    if products.len() == 0 {
        Seq::empty()
    } else {
        inventory_lines(products.drop_last(), log) + inventory_line(
            products.last(),
            balance(log, products.last().id),
        )
    }
}

/// The inventory report: the header and one line for each product.
pub open spec fn inventory_report_text(products: Seq<Product>, log: Seq<StockMovement>) -> Seq<
    char,
> {
    INVENTORY_HEADER@
        + inventory_lines(products, log)
}

/// Appends the sign that separates fields.
fn push_comma(text: &mut String)
    ensures
        final(text)@ == old(text)@ + seq![','],
{
    proof {
        reveal_strlit(",");
    }
    text.append(",");
    assert(text@ == old(text)@ + seq![',']);
}

/// Appends the sign that ends a line.
fn push_line_end(text: &mut String)
    ensures
        final(text)@ == old(text)@ + seq!['\n'],
{
    proof {
        reveal_strlit("\n");
    }
    text.append("\n");
    assert(text@ == old(text)@ + seq!['\n']);
}

/// Appends a text field that may be absent.
fn push_optional_text(text: &mut String, field: &Option<String>)
    ensures
        final(text)@ == old(text)@ + optional_text(*field),
{
    match field {
        Some(value) => {
            text.append(value.as_str());
        },
        None => {
            assert(text@ == old(text)@ + Seq::<char>::empty());
        },
    }
}

/// Appends an amount that may be absent.
fn push_optional_money(text: &mut String, field: Option<i64>)
    ensures
        final(text)@ == old(text)@ + optional_money(field),
{
    match field {
        Some(cents) => {
            push_money(text, cents);
        },
        None => {
            assert(text@ == old(text)@ + Seq::<char>::empty());
        },
    }
}

/// Appends a whole number that may be absent.
fn push_optional_integer(text: &mut String, field: Option<i64>)
    ensures
        final(text)@ == old(text)@ + optional_integer(wide(field)),
{
    match field {
        Some(n) => {
            push_integer(text, n);
        },
        None => {
            assert(text@ == old(text)@ + Seq::<char>::empty());
        },
    }
}

/// `field` as a wide number.
fn widened(field: Option<i32>) -> (result: Option<i64>)
    ensures
        wide(result) == narrow(field),
{
    match field {
        Some(n) => Some(n as i64),
        None => None,
    }
}

/// The line of the sales report for `sale`.
fn write_sale_line(sale: &Sale) -> (line: String)
    ensures
        line@ == sale_line(*sale),
{
    let mut line = String::new();
    push_integer(&mut line, sale.id);
    push_comma(&mut line);
    push_integer(&mut line, sale.product_id);
    push_comma(&mut line);
    push_integer(&mut line, sale.quantity as i64);
    push_comma(&mut line);
    push_money(&mut line, sale.sale_price);
    push_comma(&mut line);
    push_optional_money(&mut line, sale.discount);
    push_comma(&mut line);
    push_optional_text(&mut line, &sale.channel);
    push_comma(&mut line);
    line.append(sale.sale_date.as_str());
    push_comma(&mut line);
    push_optional_integer(&mut line, sale.created_by);
    push_line_end(&mut line);
    assert(line@ =~= sale_line(*sale));
    line
}

/// The line of the inventory report for `product` with `stock` units
/// in stock.
fn write_inventory_line(product: &Product, stock: i64) -> (line: String)
    ensures
        line@ == inventory_line(*product, stock as int),
{
    let mut line = String::new();
    push_integer(&mut line, product.id);
    push_comma(&mut line);
    push_optional_text(&mut line, &product.sku);
    push_comma(&mut line);
    line.append(product.name.as_str());
    push_comma(&mut line);
    push_optional_money(&mut line, product.sale_price);
    push_comma(&mut line);
    push_optional_text(&mut line, &product.brand);
    push_comma(&mut line);
    push_optional_text(&mut line, &product.category);
    push_comma(&mut line);
    push_optional_text(&mut line, &product.presentation);
    push_comma(&mut line);
    push_optional_text(&mut line, &product.flavor);
    push_comma(&mut line);
    push_optional_text(&mut line, &product.weight);
    push_comma(&mut line);
    push_optional_text(&mut line, &product.expiry_date);
    push_comma(&mut line);
    push_optional_text(&mut line, &product.lot_number);
    push_comma(&mut line);
    push_optional_integer(&mut line, widened(product.min_stock));
    push_comma(&mut line);
    push_optional_integer(&mut line, widened(product.max_stock));
    push_comma(&mut line);
    push_optional_text(&mut line, &product.location);
    push_comma(&mut line);
    push_optional_text(&mut line, &product.status);
    push_comma(&mut line);
    push_integer(&mut line, stock);
    push_line_end(&mut line);
    assert(line@ =~= inventory_line(*product, stock as int));
    line
}

/// The sales report for `rows` as comma-separated text: the header and
/// one line for each row, in the order of `rows`.
pub fn sales_report(rows: &Vec<Sale>) -> (text: String)
    ensures
        text@ == sales_report_text(rows@),
{
    let mut text = String::new();
    text.append(SALES_HEADER);
    let ghost header = text@;
    assert(header + sale_lines(rows@.take(0)) == header);
    let mut i: usize = 0;
    while i < rows.len()
        invariant
            0 <= i <= rows.len(),
            text@ == header + sale_lines(rows@.take(i as int)),
        decreases rows.len() - i,
    {
        let line = write_sale_line(&rows[i]);
        proof {
            assert(rows@.take(i + 1).drop_last() == rows@.take(i as int));
            assert(rows@.take(i + 1).last() == rows@[i as int]);
            assert(header + sale_lines(rows@.take(i as int)) + line@ == header + (sale_lines(
                rows@.take(i as int),
            ) + line@));
        }
        text.append(line.as_str());
        i += 1;
    }
    assert(rows@.take(rows@.len() as int) == rows@);
    text
}

/// The inventory report as comma-separated text: the header and one
/// line for each product of `products`, which carries the stock that
/// `stock_of` has at the same index.
pub(crate) fn inventory_report(
    products: &Vec<Product>,
    stock_of: &Vec<StockBalance>,
    Ghost(log): Ghost<Seq<StockMovement>>,
) -> (text: String)
    requires
        stock_of@.len() == products@.len(),
        forall|i: int|
            0 <= i < products@.len() ==> (#[trigger] stock_of@[i]).current_stock == balance(
                log,
                products@[i].id,
            ),
    ensures
        text@ == inventory_report_text(products@, log),
{
    let mut text = String::new();
    text.append(
        INVENTORY_HEADER,
    );
    let ghost header = text@;
    assert(header + inventory_lines(products@.take(0), log) == header);
    let mut i: usize = 0;
    while i < products.len()
        invariant
            0 <= i <= products.len(),
            stock_of@.len() == products@.len(),
            forall|j: int|
                0 <= j < products@.len() ==> (#[trigger] stock_of@[j]).current_stock == balance(
                    log,
                    products@[j].id,
                ),
            text@ == header + inventory_lines(products@.take(i as int), log),
        decreases products.len() - i,
    {
        let line = write_inventory_line(&products[i], stock_of[i].current_stock);
        proof {
            assert(products@.take(i + 1).drop_last() == products@.take(i as int));
            assert(products@.take(i + 1).last() == products@[i as int]);
            assert(header + inventory_lines(products@.take(i as int), log) + line@ == header + (
            inventory_lines(products@.take(i as int), log) + line@));
        }
        text.append(line.as_str());
        i += 1;
    }
    assert(products@.take(products@.len() as int) == products@);
    text
}

} // verus!
