use vitasport::date::Date;
use vitasport::error::{EngineError, ValidationError};
use vitasport::model::{MovementKind, Product, Sale, StockMovement};
use vitasport::store::Store;

fn product(name: &str, min_stock: Option<i32>, max_stock: Option<i32>) -> Product {
    Product {
        id: 0,
        sku: None,
        name: name.to_string(),
        sale_price: None,
        brand: None,
        category: None,
        presentation: None,
        flavor: None,
        weight: None,
        image_path: None,
        expiry_date: None,
        lot_number: None,
        min_stock,
        max_stock,
        location: None,
        status: None,
    }
}

fn movement(product_id: i64, kind: MovementKind, quantity: i32) -> StockMovement {
    StockMovement {
        id: 0,
        product_id,
        kind,
        quantity,
        note: None,
        created_by: None,
        created_at: None,
    }
}

fn sale(product_id: i64, quantity: i32, sale_price: i64, day: (u16, u8, u8)) -> Sale {
    Sale {
        id: 0,
        product_id,
        quantity,
        sale_price,
        discount: None,
        channel: None,
        sale_date: format!("{:04}-{:02}-{:02}T10:30:00", day.0, day.1, day.2),
        created_by: None,
    }
}

#[test]
fn new_store_is_empty() {
    let store = Store::new();
    assert!(store.get_products().is_empty());
    assert!(store.get_stock_movements(None, None).is_empty());
    assert_eq!(store.balance_of(1), 0);
    assert!(store.get_stock_balances().is_empty());
}

#[test]
fn ingress_then_sales_scenario() {
    let mut store = Store::new();
    let p = store.add_product(product("P", None, None)).unwrap();
    assert_eq!(store.balance_of(p), 0);

    store.add_stock_movement(movement(p, MovementKind::Ingress, 28)).unwrap();
    assert_eq!(store.balance_of(p), 28);

    let refused = store.add_sale(sale(p, 30, 3000, (2024, 1, 1)));
    assert_eq!(refused, Err(EngineError::InsufficientStock { available: 28, requested: 30 }));
    assert_eq!(store.balance_of(p), 28);
    assert_eq!(store.get_stock_movements(Some(p), None).len(), 1);

    let accepted = store.add_sale(sale(p, 10, 1000, (2024, 1, 1)));
    assert_eq!(accepted, Ok(1));
    assert_eq!(store.balance_of(p), 18);

    let log = store.get_stock_movements(Some(p), None);
    assert_eq!(log.len(), 2);
    let egress: Vec<_> = log.iter().filter(|m| m.kind == MovementKind::Egress).collect();
    assert_eq!(egress.len(), 1);
    assert_eq!(egress[0].quantity, 10);
    assert_eq!(egress[0].product_id, p);
}

#[test]
fn balance_equals_naive_fold() {
    let mut store = Store::new();
    let steps: [(i64, MovementKind, i32); 9] = [
        (1, MovementKind::Ingress, 5),
        (2, MovementKind::Ingress, 7),
        (1, MovementKind::Egress, 3),
        (3, MovementKind::Egress, 4),
        (2, MovementKind::Ingress, 1),
        (1, MovementKind::Ingress, 2_000_000_000),
        (1, MovementKind::Ingress, 2_000_000_000),
        (2, MovementKind::Egress, 8),
        (1, MovementKind::Egress, 1),
    ];
    let mut naive: [i64; 4] = [0; 4];
    for (product_id, kind, quantity) in steps {
        store.add_stock_movement(movement(product_id, kind, quantity)).unwrap();
        match kind {
            MovementKind::Ingress => naive[product_id as usize] += quantity as i64,
            MovementKind::Egress => naive[product_id as usize] -= quantity as i64,
        }
        for id in 1..4 {
            assert_eq!(store.balance_of(id as i64), naive[id]);
        }
    }
    assert_eq!(store.balance_of(1), 4_000_000_001);
    assert_eq!(store.balance_of(2), 0);
    assert_eq!(store.balance_of(3), -4);
    let totals = store.sum_by_type(1);
    assert_eq!(totals.ingress_total, 4_000_000_005);
    assert_eq!(totals.egress_total, 4);
}

#[test]
fn sale_succeeds_iff_quantity_within_balance() {
    for balance in 0..6 {
        for quantity in 1..8 {
            let mut store = Store::new();
            if balance > 0 {
                store.add_stock_movement(movement(1, MovementKind::Ingress, balance)).unwrap();
            }
            let before = store.get_stock_movements(None, None).len();
            let result = store.add_sale(sale(1, quantity, 100, (2024, 5, 5)));
            assert_eq!(result.is_ok(), quantity <= balance);
            let after = store.get_stock_movements(None, None);
            if quantity <= balance {
                assert_eq!(store.balance_of(1), (balance - quantity) as i64);
                assert_eq!(after.len(), before + 1);
                assert_eq!(after[0].kind, MovementKind::Egress);
                assert_eq!(after[0].quantity, quantity);
                assert_eq!(after[0].product_id, 1);
            } else {
                assert_eq!(
                    result,
                    Err(EngineError::InsufficientStock {
                        available: balance as i64,
                        requested: quantity as i64,
                    })
                );
                assert_eq!(store.balance_of(1), balance as i64);
                assert_eq!(after.len(), before);
            }
        }
    }
}

#[test]
fn selling_exactly_the_balance_is_allowed() {
    let mut store = Store::new();
    store.add_stock_movement(movement(4, MovementKind::Ingress, 12)).unwrap();
    assert_eq!(store.add_sale(sale(4, 12, 500, (2024, 2, 29))), Ok(1));
    assert_eq!(store.balance_of(4), 0);
}

#[test]
fn last_unit_is_sold_once() {
    let mut store = Store::new();
    store.add_stock_movement(movement(9, MovementKind::Ingress, 1)).unwrap();
    let first = store.add_sale(sale(9, 1, 100, (2024, 3, 1)));
    let second = store.add_sale(sale(9, 1, 100, (2024, 3, 1)));
    assert_eq!(first, Ok(1));
    assert_eq!(second, Err(EngineError::InsufficientStock { available: 0, requested: 1 }));
    assert_eq!(store.balance_of(9), 0);
    assert_eq!(store.get_stock_movements(Some(9), None).len(), 2);
}

#[test]
fn reads_are_repeatable() {
    let mut store = Store::new();
    store.add_stock_movement(movement(1, MovementKind::Ingress, 40)).unwrap();
    store.add_sale(sale(1, 4, 1200, (2024, 1, 1))).unwrap();
    store.add_sale(sale(1, 6, 1800, (2024, 1, 2))).unwrap();
    let filter = vitasport::reporting::SalesFilter {
        start_date: None,
        end_date: None,
        category: None,
    };
    assert_eq!(store.balance_of(1), store.balance_of(1));
    assert_eq!(store.balance_of(1), 30);
    assert_eq!(store.get_sales_totals(&filter), store.get_sales_totals(&filter));
    assert_eq!(store.get_stock_balances(), store.get_stock_balances());
    assert_eq!(store.sum_by_type(1), store.sum_by_type(1));
}

#[test]
fn non_positive_movement_is_rejected() {
    let mut store = Store::new();
    for quantity in [0, -1, i32::MIN] {
        let result = store.add_stock_movement(movement(1, MovementKind::Ingress, quantity));
        assert_eq!(
            result,
            Err(EngineError::Validation(ValidationError::NonPositiveQuantity))
        );
    }
    assert!(store.get_stock_movements(None, None).is_empty());
}

#[test]
fn non_positive_sale_is_rejected_before_the_stock_check() {
    let mut store = Store::new();
    store.add_stock_movement(movement(1, MovementKind::Ingress, 5)).unwrap();
    for quantity in [0, -3] {
        let result = store.add_sale(sale(1, quantity, 100, (2024, 1, 1)));
        assert_eq!(
            result,
            Err(EngineError::Validation(ValidationError::NonPositiveQuantity))
        );
    }
    assert_eq!(store.balance_of(1), 5);
    assert_eq!(store.get_stock_movements(None, None).len(), 1);
}

#[test]
fn movement_ids_count_up_and_ignore_the_given_id() {
    let mut store = Store::new();
    let mut given = movement(1, MovementKind::Ingress, 2);
    given.id = 77;
    assert_eq!(store.add_stock_movement(given), Ok(1));
    assert_eq!(store.add_stock_movement(movement(1, MovementKind::Egress, 1)), Ok(2));
    let log = store.get_stock_movements(None, None);
    assert_eq!(log[0].id, 2);
    assert_eq!(log[1].id, 1);
}

#[test]
fn movements_are_listed_newest_first() {
    let mut store = Store::new();
    store.add_stock_movement(movement(1, MovementKind::Ingress, 10)).unwrap();
    store.add_stock_movement(movement(2, MovementKind::Ingress, 20)).unwrap();
    store.add_stock_movement(movement(1, MovementKind::Egress, 3)).unwrap();
    store.add_stock_movement(movement(2, MovementKind::Egress, 4)).unwrap();

    let all: Vec<i64> = store.get_stock_movements(None, None).iter().map(|m| m.id).collect();
    assert_eq!(all, vec![4, 3, 2, 1]);
    let of_one: Vec<i64> =
        store.get_stock_movements(Some(1), None).iter().map(|m| m.id).collect();
    assert_eq!(of_one, vec![3, 1]);
    let two: Vec<i64> = store.get_stock_movements(None, Some(2)).iter().map(|m| m.id).collect();
    assert_eq!(two, vec![4, 3]);
    let one_of_two: Vec<i64> =
        store.get_stock_movements(Some(2), Some(1)).iter().map(|m| m.id).collect();
    assert_eq!(one_of_two, vec![4]);
    assert!(store.get_stock_movements(None, Some(0)).is_empty());
    assert_eq!(store.get_stock_movements(None, Some(100)).len(), 4);
    assert!(store.get_stock_movements(Some(3), None).is_empty());
}

#[test]
fn sale_records_sale_and_debit_together() {
    let mut store = Store::new();
    store.add_stock_movement(movement(5, MovementKind::Ingress, 9)).unwrap();
    let mut request = sale(5, 4, 2500, (2024, 6, 30));
    request.created_by = Some(3);
    request.id = 999;
    assert_eq!(store.add_sale(request), Ok(1));
    let log = store.get_stock_movements(None, None);
    assert_eq!(
        *log[0],
        StockMovement {
            id: 2,
            product_id: 5,
            kind: MovementKind::Egress,
            quantity: 4,
            note: None,
            created_by: Some(3),
            created_at: Some("2024-06-30T10:30:00".to_string()),
        }
    );
}

#[test]
fn a_full_ledger_refuses_with_storage() {
    let last = StockMovement {
        id: 2_147_483_647,
        product_id: 1,
        kind: MovementKind::Ingress,
        quantity: 5,
        note: None,
        created_by: None,
        created_at: None,
    };
    let mut store = Store::from_records(vec![], vec![last], vec![]).unwrap();
    assert_eq!(
        store.add_stock_movement(movement(1, MovementKind::Ingress, 1)),
        Err(EngineError::Storage)
    );
    assert_eq!(store.add_sale(sale(1, 1, 100, (2024, 1, 1))), Err(EngineError::Storage));
    assert_eq!(store.balance_of(1), 5);
    assert_eq!(
        store.add_sale(sale(1, 6, 100, (2024, 1, 1))),
        Err(EngineError::InsufficientStock { available: 5, requested: 6 })
    );
}

#[test]
fn movement_kind_labels() {
    assert_eq!(MovementKind::from_label("ingreso"), Ok(MovementKind::Ingress));
    assert_eq!(MovementKind::from_label("egreso"), Ok(MovementKind::Egress));
    for label in ["", "Ingreso", "ingres", "ingresos", "salida", "egreso "] {
        assert_eq!(
            MovementKind::from_label(label),
            Err(EngineError::Validation(ValidationError::UnknownMovementKind))
        );
    }
    assert_eq!(MovementKind::Ingress.label(), "ingreso");
    assert_eq!(MovementKind::Egress.label(), "egreso");
}

#[test]
fn sale_with_a_malformed_date_is_rejected() {
    let mut store = Store::new();
    store.add_stock_movement(movement(1, MovementKind::Ingress, 5)).unwrap();
    for text in ["", "yesterday", "2024-02-30", "01/02/2024", "2024-1-2", "2023-02-29T10:00:00"] {
        let mut request = sale(1, 1, 100, (2024, 1, 1));
        request.sale_date = text.to_string();
        assert_eq!(
            store.add_sale(request),
            Err(EngineError::Validation(ValidationError::MalformedDate))
        );
    }
    assert_eq!(store.balance_of(1), 5);
    assert_eq!(store.get_stock_movements(None, None).len(), 1);

    let mut both = sale(1, 0, 100, (2024, 1, 1));
    both.sale_date = "never".to_string();
    assert_eq!(
        store.add_sale(both),
        Err(EngineError::Validation(ValidationError::NonPositiveQuantity))
    );
    let mut short = sale(1, 9, 100, (2024, 1, 1));
    short.sale_date = "never".to_string();
    assert_eq!(
        store.add_sale(short),
        Err(EngineError::Validation(ValidationError::MalformedDate))
    );
}

#[test]
fn sale_keeps_its_timestamp() {
    let mut store = Store::new();
    store.add_stock_movement(movement(1, MovementKind::Ingress, 5)).unwrap();
    let mut request = sale(1, 1, 100, (2024, 1, 1));
    request.sale_date = "2024-02-29T23:59:59.123Z".to_string();
    assert_eq!(request.date(), Date::new(2024, 2, 29));
    assert_eq!(store.add_sale(request), Ok(1));
    let trend = store.get_sales_trend(Date::new(2024, 2, 29).unwrap(), Some(0));
    assert_eq!(trend.len(), 1);
    assert_eq!(trend[0].date, Date::new(2024, 2, 29).unwrap());
}
