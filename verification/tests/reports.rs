use vitasport::date::Date;
use vitasport::model::{
    MovementKind, Product, Sale, SalesByProduct, SalesTotals, SalesTrendPoint, StockBalance,
    StockMovement,
};
use vitasport::reporting::{SalesFilter, SalesOrder};
use vitasport::store::Store;

fn day(year: u16, month: u8, day: u8) -> Date {
    Date::new(year, month, day).unwrap()
}

fn item(name: &str, category: Option<&str>, min_stock: Option<i32>) -> Product {
    Product {
        id: 0,
        sku: None,
        name: name.to_string(),
        sale_price: None,
        brand: None,
        category: category.map(|c| c.to_string()),
        presentation: None,
        flavor: None,
        weight: None,
        image_path: None,
        expiry_date: None,
        lot_number: None,
        min_stock,
        max_stock: None,
        location: None,
        status: None,
    }
}

fn stock(store: &mut Store, product_id: i64, quantity: i32) {
    store
        .add_stock_movement(StockMovement {
            id: 0,
            product_id,
            kind: MovementKind::Ingress,
            quantity,
            note: None,
            created_by: None,
            created_at: None,
        })
        .unwrap();
}

fn take_out(store: &mut Store, product_id: i64, quantity: i32) {
    store
        .add_stock_movement(StockMovement {
            id: 0,
            product_id,
            kind: MovementKind::Egress,
            quantity,
            note: None,
            created_by: None,
            created_at: None,
        })
        .unwrap();
}

fn sell(store: &mut Store, product_id: i64, quantity: i32, price: i64, on: Date) {
    store
        .add_sale(Sale {
            id: 0,
            product_id,
            quantity,
            sale_price: price,
            discount: None,
            channel: None,
            sale_date: on.to_text(),
            created_by: None,
        })
        .unwrap();
}

fn everything() -> SalesFilter {
    SalesFilter { start_date: None, end_date: None, category: None }
}

#[test]
fn totals_and_trend_scenario() {
    let mut store = Store::new();
    let p = store.add_product(item("P", Some("X"), None)).unwrap();
    stock(&mut store, p, 100);
    sell(&mut store, p, 2, 10_000, day(2024, 1, 1));
    sell(&mut store, p, 3, 5_000, day(2024, 1, 1));
    sell(&mut store, p, 1, 3_000, day(2024, 1, 2));

    let first_of_january = SalesFilter {
        start_date: Some(day(2024, 1, 1)),
        end_date: Some(day(2024, 1, 1)),
        category: None,
    };
    assert_eq!(
        store.get_sales_totals(&first_of_january),
        SalesTotals { total_units: 5, total_revenue: 15_000 }
    );

    let trend = store.get_sales_trend(day(2024, 1, 2), Some(2));
    assert_eq!(
        trend,
        vec![
            SalesTrendPoint { date: day(2024, 1, 1), sales_count: 2, total_revenue: 15_000 },
            SalesTrendPoint { date: day(2024, 1, 2), sales_count: 1, total_revenue: 3_000 },
        ]
    );
}

#[test]
fn totals_respect_range_and_category() {
    let mut store = Store::new();
    let a = store.add_product(item("A", Some("X"), None)).unwrap();
    let b = store.add_product(item("B", Some("Y"), None)).unwrap();
    let c = store.add_product(item("C", None, None)).unwrap();
    for id in [a, b, c, 50] {
        stock(&mut store, id, 1000);
    }
    sell(&mut store, a, 1, 100, day(2023, 12, 31));
    sell(&mut store, a, 2, 200, day(2024, 1, 1));
    sell(&mut store, b, 3, 400, day(2024, 1, 15));
    sell(&mut store, c, 4, 800, day(2024, 1, 31));
    sell(&mut store, 50, 5, 1600, day(2024, 2, 1));

    assert_eq!(
        store.get_sales_totals(&everything()),
        SalesTotals { total_units: 15, total_revenue: 3100 }
    );
    let january = SalesFilter {
        start_date: Some(day(2024, 1, 1)),
        end_date: Some(day(2024, 1, 31)),
        category: None,
    };
    assert_eq!(
        store.get_sales_totals(&january),
        SalesTotals { total_units: 9, total_revenue: 1400 }
    );
    let from_mid_january =
        SalesFilter { start_date: Some(day(2024, 1, 15)), end_date: None, category: None };
    assert_eq!(
        store.get_sales_totals(&from_mid_january),
        SalesTotals { total_units: 12, total_revenue: 2800 }
    );
    let until_new_year =
        SalesFilter { start_date: None, end_date: Some(day(2024, 1, 1)), category: None };
    assert_eq!(
        store.get_sales_totals(&until_new_year),
        SalesTotals { total_units: 3, total_revenue: 300 }
    );
    let only_x =
        SalesFilter { start_date: None, end_date: None, category: Some("X".to_string()) };
    assert_eq!(
        store.get_sales_totals(&only_x),
        SalesTotals { total_units: 3, total_revenue: 300 }
    );
    let x_in_january = SalesFilter {
        start_date: Some(day(2024, 1, 1)),
        end_date: Some(day(2024, 1, 31)),
        category: Some("X".to_string()),
    };
    assert_eq!(
        store.get_sales_totals(&x_in_january),
        SalesTotals { total_units: 2, total_revenue: 200 }
    );
    let unknown =
        SalesFilter { start_date: None, end_date: None, category: Some("Z".to_string()) };
    assert_eq!(
        store.get_sales_totals(&unknown),
        SalesTotals { total_units: 0, total_revenue: 0 }
    );
    let empty_range = SalesFilter {
        start_date: Some(day(2024, 3, 1)),
        end_date: Some(day(2024, 2, 1)),
        category: None,
    };
    assert_eq!(
        store.get_sales_totals(&empty_range),
        SalesTotals { total_units: 0, total_revenue: 0 }
    );
}

#[test]
fn revenue_is_summed_without_overflow() {
    let mut store = Store::new();
    stock(&mut store, 1, 10);
    sell(&mut store, 1, 1, i64::MAX, day(2024, 1, 1));
    sell(&mut store, 1, 1, i64::MAX, day(2024, 1, 1));
    sell(&mut store, 1, 1, 2, day(2024, 1, 1));
    let totals = store.get_sales_totals(&everything());
    assert_eq!(totals.total_units, 3);
    assert_eq!(totals.total_revenue, 18_446_744_073_709_551_616i128);
}

fn ranking_store() -> Store {
    let mut store = Store::new();
    let names = ["uno", "dos", "tres", "cuatro", "cinco", "seis", "siete"];
    for name in names {
        let id = store.add_product(item(name, Some("X"), None)).unwrap();
        stock(&mut store, id, 1000);
    }
    stock(&mut store, 40, 1000);
    // product, quantity, price
    let sales: [(i64, i32, i64); 10] = [
        (3, 1, 900),
        (1, 5, 100),
        (2, 2, 700),
        (3, 1, 100),
        (4, 9, 50),
        (5, 2, 700),
        (6, 4, 300),
        (40, 3, 1),
        (1, 5, 50),
        (7, 1, 1),
    ];
    for (product_id, quantity, price) in sales {
        sell(&mut store, product_id, quantity, price, day(2024, 4, 4));
    }
    store
}

fn ids(rows: &[SalesByProduct]) -> Vec<i64> {
    rows.iter().map(|row| row.product_id).collect()
}

#[test]
fn ranking_by_revenue() {
    let store = ranking_store();
    let rows = store.get_sales_by_product(&everything(), SalesOrder::Revenue, Some(-1));
    assert_eq!(ids(&rows), vec![3, 2, 5, 6, 1, 4, 7, 40]);
    assert_eq!(
        rows[0],
        SalesByProduct {
            product_id: 3,
            name: "tres".to_string(),
            total_qty: 2,
            total_revenue: 1000
        }
    );
    assert_eq!(
        rows[4],
        SalesByProduct { product_id: 1, name: "uno".to_string(), total_qty: 10, total_revenue: 150 }
    );
    assert_eq!(
        rows[7],
        SalesByProduct { product_id: 40, name: String::new(), total_qty: 3, total_revenue: 1 }
    );
}

#[test]
fn ranking_by_quantity() {
    let store = ranking_store();
    let rows = store.get_sales_by_product(&everything(), SalesOrder::Quantity, Some(-1));
    assert_eq!(ids(&rows), vec![1, 4, 6, 40, 2, 3, 5, 7]);
    let units: Vec<i64> = rows.iter().map(|row| row.total_qty).collect();
    assert_eq!(units, vec![10, 9, 4, 3, 2, 2, 2, 1]);
}

#[test]
fn ranking_limit() {
    let store = ranking_store();
    let by_default = store.get_sales_by_product(&everything(), SalesOrder::Revenue, None);
    assert_eq!(ids(&by_default), vec![3, 2, 5, 6, 1]);
    let three = store.get_sales_by_product(&everything(), SalesOrder::Revenue, Some(3));
    assert_eq!(ids(&three), vec![3, 2, 5]);
    let none = store.get_sales_by_product(&everything(), SalesOrder::Revenue, Some(0));
    assert!(none.is_empty());
    let many = store.get_sales_by_product(&everything(), SalesOrder::Revenue, Some(100));
    assert_eq!(many.len(), 8);
    let unbounded = store.get_sales_by_product(&everything(), SalesOrder::Revenue, Some(i32::MIN));
    assert_eq!(unbounded.len(), 8);
}

#[test]
fn ranking_leaves_out_products_without_matching_sales() {
    let mut store = Store::new();
    let sold = store.add_product(item("sold", Some("X"), None)).unwrap();
    let idle = store.add_product(item("idle", Some("X"), None)).unwrap();
    let other = store.add_product(item("other", Some("Y"), None)).unwrap();
    for id in [sold, idle, other] {
        stock(&mut store, id, 10);
    }
    sell(&mut store, sold, 1, 100, day(2024, 1, 1));
    sell(&mut store, other, 1, 500, day(2024, 1, 1));
    let _ = idle;

    let only_x =
        SalesFilter { start_date: None, end_date: None, category: Some("X".to_string()) };
    let rows = store.get_sales_by_product(&only_x, SalesOrder::Revenue, None);
    assert_eq!(ids(&rows), vec![sold]);
    let all = store.get_sales_by_product(&everything(), SalesOrder::Revenue, None);
    assert_eq!(ids(&all), vec![other, sold]);
}

#[test]
fn sales_order_labels() {
    assert_eq!(SalesOrder::from_label(Some("qty")), SalesOrder::Quantity);
    assert_eq!(SalesOrder::from_label(Some("revenue")), SalesOrder::Revenue);
    assert_eq!(SalesOrder::from_label(Some("QTY")), SalesOrder::Revenue);
    assert_eq!(SalesOrder::from_label(Some("")), SalesOrder::Revenue);
    assert_eq!(SalesOrder::from_label(None), SalesOrder::Revenue);
}

#[test]
fn trend_window() {
    let mut store = Store::new();
    stock(&mut store, 1, 1000);
    sell(&mut store, 1, 1, 7, day(2024, 3, 1));
    sell(&mut store, 1, 1, 11, day(2024, 2, 29));
    sell(&mut store, 1, 1, 13, day(2024, 2, 23));
    sell(&mut store, 1, 1, 17, day(2024, 2, 22));
    sell(&mut store, 1, 1, 19, day(2024, 3, 1));
    sell(&mut store, 1, 1, 23, day(2024, 3, 2));
    sell(&mut store, 1, 1, 29, day(2023, 12, 31));
    let today = day(2024, 3, 1);

    let week = store.get_sales_trend(today, None);
    assert_eq!(
        week,
        vec![
            SalesTrendPoint { date: day(2024, 2, 23), sales_count: 1, total_revenue: 13 },
            SalesTrendPoint { date: day(2024, 2, 29), sales_count: 1, total_revenue: 11 },
            SalesTrendPoint { date: day(2024, 3, 1), sales_count: 2, total_revenue: 26 },
            SalesTrendPoint { date: day(2024, 3, 2), sales_count: 1, total_revenue: 23 },
        ]
    );
    assert_eq!(store.get_sales_trend(today, Some(7)), week);
    assert_eq!(store.get_sales_trend(today, Some(8)).len(), 5);
    assert_eq!(store.get_sales_trend(today, Some(1)).len(), 3);
    let only_today = store.get_sales_trend(today, Some(0));
    assert_eq!(only_today.len(), 2);
    assert_eq!(only_today[0].date, day(2024, 3, 1));
    assert_eq!(store.get_sales_trend(today, Some(-5)), only_today);
    assert_eq!(store.get_sales_trend(today, Some(i32::MAX)).len(), 6);
    assert_eq!(store.get_sales_trend(day(2024, 3, 3), Some(0)), vec![]);
}

#[test]
fn low_stock_boundary() {
    let mut store = Store::new();
    let below = store.add_product(item("below", None, Some(10))).unwrap();
    let equal = store.add_product(item("equal", None, Some(10))).unwrap();
    let above = store.add_product(item("above", None, Some(10))).unwrap();
    let unwatched = store.add_product(item("unwatched", None, None)).unwrap();
    let untouched = store.add_product(item("untouched", None, Some(0))).unwrap();
    let stocked = store.add_product(item("stocked", None, Some(0))).unwrap();
    stock(&mut store, below, 8);
    stock(&mut store, equal, 12);
    take_out(&mut store, equal, 2);
    stock(&mut store, above, 11);
    stock(&mut store, stocked, 1);
    let _ = unwatched;

    let low: Vec<i64> = store.low_stock().iter().map(|p| p.id).collect();
    assert_eq!(low, vec![below, equal, untouched]);
    assert_eq!(store.balance_of(below), 8);
    assert_eq!(store.balance_of(equal), 10);

    store.add_sale(Sale {
        id: 0,
        product_id: above,
        quantity: 1,
        sale_price: 1,
        discount: None,
        channel: None,
        sale_date: "2024-01-01 09:00:00".to_string(),
        created_by: None,
    })
    .unwrap();
    let low: Vec<i64> = store.low_stock().iter().map(|p| p.id).collect();
    assert_eq!(low, vec![below, equal, above, untouched]);
}

#[test]
fn balances_of_all_products() {
    let mut store = Store::new();
    let a = store.add_product(item("a", None, None)).unwrap();
    let b = store.add_product(item("b", None, None)).unwrap();
    let c = store.add_product(item("c", None, None)).unwrap();
    stock(&mut store, c, 5);
    stock(&mut store, 90, 2);
    stock(&mut store, a, 7);
    take_out(&mut store, c, 6);
    take_out(&mut store, a, 7);
    stock(&mut store, c, 3);

    assert_eq!(
        store.get_stock_balances(),
        vec![
            StockBalance { product_id: a, current_stock: 0 },
            StockBalance { product_id: c, current_stock: 2 },
            StockBalance { product_id: 90, current_stock: 2 },
        ]
    );
    assert_eq!(
        store.get_inventory(),
        vec![
            StockBalance { product_id: a, current_stock: 0 },
            StockBalance { product_id: b, current_stock: 0 },
            StockBalance { product_id: c, current_stock: 2 },
        ]
    );
    for row in store.get_stock_balances() {
        assert_eq!(row.current_stock, store.balance_of(row.product_id));
    }
}

#[test]
fn ranking_and_trend_add_up_to_the_totals() {
    let store = ranking_store();
    let totals = store.get_sales_totals(&everything());
    assert_eq!(totals, SalesTotals { total_units: 33, total_revenue: 2902 });
    for order in [SalesOrder::Revenue, SalesOrder::Quantity] {
        let rows = store.get_sales_by_product(&everything(), order, Some(-1));
        assert_eq!(rows.iter().map(|row| row.total_qty).sum::<i64>(), totals.total_units);
        assert_eq!(rows.iter().map(|row| row.total_revenue).sum::<i128>(), totals.total_revenue);
    }
    let trend = store.get_sales_trend(day(2024, 4, 4), Some(0));
    assert_eq!(trend.iter().map(|point| point.sales_count).sum::<i64>(), 10);
    assert_eq!(trend.iter().map(|point| point.total_revenue).sum::<i128>(), totals.total_revenue);
}
