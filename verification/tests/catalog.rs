use vitasport::error::{EngineError, ValidationError};
use vitasport::model::{MovementKind, Product, Sale, StockMovement};
use vitasport::store::Store;

fn named(name: &str, sku: Option<&str>, max_stock: Option<i32>) -> Product {
    Product {
        id: 0,
        sku: sku.map(|s| s.to_string()),
        name: name.to_string(),
        sale_price: Some(1999),
        brand: None,
        category: None,
        presentation: None,
        flavor: None,
        weight: None,
        image_path: None,
        expiry_date: None,
        lot_number: None,
        min_stock: None,
        max_stock,
        location: None,
        status: None,
    }
}

#[test]
fn products_get_ids_in_order() {
    let mut store = Store::new();
    let mut first = named("whey", Some("W-1"), None);
    first.id = 500;
    assert_eq!(store.add_product(first), Ok(1));
    assert_eq!(store.add_product(named("creatine", Some("C-1"), None)), Ok(2));
    assert_eq!(store.add_product(named("bar", None, None)), Ok(3));
    assert_eq!(store.add_product(named("gel", None, None)), Ok(4));
    let listed: Vec<(i64, String)> =
        store.get_products().iter().map(|p| (p.id, p.name.clone())).collect();
    assert_eq!(
        listed,
        vec![
            (1, "whey".to_string()),
            (2, "creatine".to_string()),
            (3, "bar".to_string()),
            (4, "gel".to_string())
        ]
    );
    assert!(store.get_stock_movements(None, None).is_empty());
}

#[test]
fn new_product_starts_with_its_target_stock() {
    let mut store = Store::new();
    let id = store.add_product(named("whey", None, Some(25))).unwrap();
    assert_eq!(store.balance_of(id), 25);
    let log = store.get_stock_movements(None, None);
    assert_eq!(log.len(), 1);
    assert_eq!(
        *log[0],
        StockMovement {
            id: 1,
            product_id: id,
            kind: MovementKind::Ingress,
            quantity: 25,
            note: None,
            created_by: None,
            created_at: None,
        }
    );
    let none = store.add_product(named("bar", None, Some(0))).unwrap();
    let negative = store.add_product(named("gel", None, Some(-4))).unwrap();
    assert_eq!(store.balance_of(none), 0);
    assert_eq!(store.balance_of(negative), 0);
    assert_eq!(store.get_stock_movements(None, None).len(), 1);
}

#[test]
fn duplicate_sku_is_rejected() {
    let mut store = Store::new();
    store.add_product(named("whey", Some("W-1"), Some(3))).unwrap();
    let again = store.add_product(named("other whey", Some("W-1"), Some(9)));
    assert_eq!(again, Err(EngineError::Validation(ValidationError::DuplicateSku)));
    assert_eq!(store.get_products().len(), 1);
    assert_eq!(store.get_stock_movements(None, None).len(), 1);
    assert_eq!(store.add_product(named("other whey", Some("w-1"), None)), Ok(2));
    assert_eq!(store.add_product(named("no sku", None, None)), Ok(3));
    assert_eq!(store.add_product(named("no sku either", None, None)), Ok(4));
}

#[test]
fn product_without_a_name_is_rejected() {
    let mut store = Store::new();
    let result = store.add_product(named("", Some("W-1"), Some(5)));
    assert_eq!(result, Err(EngineError::Validation(ValidationError::MissingField)));
    assert!(store.get_products().is_empty());
    assert!(store.get_stock_movements(None, None).is_empty());
    let id = store.add_product(named("whey", None, None)).unwrap();
    let mut blank = named("", None, None);
    blank.id = id;
    assert_eq!(
        store.update_product(blank),
        Err(EngineError::Validation(ValidationError::MissingField))
    );
    assert_eq!(store.get_products()[0].name, "whey");
}

#[test]
fn update_replaces_the_product_and_moves_no_stock() {
    let mut store = Store::new();
    let whey = store.add_product(named("whey", Some("W-1"), Some(5))).unwrap();
    let bar = store.add_product(named("bar", Some("B-1"), None)).unwrap();

    let mut changed = named("whey isolate", Some("W-2"), Some(50));
    changed.id = whey;
    changed.category = Some("protein".to_string());
    assert_eq!(store.update_product(changed.clone()), Ok(()));
    assert_eq!(store.get_products()[0], changed);
    assert_eq!(store.get_products()[1].name, "bar");
    assert_eq!(store.balance_of(whey), 5);
    assert_eq!(store.get_stock_movements(None, None).len(), 1);

    let mut same_sku = named("whey isolate", Some("W-2"), None);
    same_sku.id = whey;
    assert_eq!(store.update_product(same_sku), Ok(()));

    let mut clash = named("bar", Some("W-2"), None);
    clash.id = bar;
    assert_eq!(
        store.update_product(clash),
        Err(EngineError::Validation(ValidationError::DuplicateSku))
    );
    assert_eq!(store.get_products()[1].sku, Some("B-1".to_string()));

    let mut absent = named("ghost", Some("W-2"), None);
    absent.id = 99;
    assert_eq!(store.update_product(absent), Ok(()));
    assert_eq!(store.get_products().len(), 2);
}

#[test]
fn product_with_history_cannot_be_deleted() {
    let mut store = Store::new();
    let stocked = store.add_product(named("stocked", None, Some(4))).unwrap();
    let idle = store.add_product(named("idle", None, None)).unwrap();
    let sold = store.add_product(named("sold", None, Some(2))).unwrap();
    store
        .add_sale(Sale {
            id: 0,
            product_id: sold,
            quantity: 1,
            sale_price: 100,
            discount: None,
            channel: None,
            sale_date: "2024-01-01".to_string(),
            created_by: None,
        })
        .unwrap();

    assert_eq!(
        store.delete_product(stocked),
        Err(EngineError::Validation(ValidationError::ProductInUse))
    );
    assert_eq!(
        store.delete_product(sold),
        Err(EngineError::Validation(ValidationError::ProductInUse))
    );
    assert_eq!(store.get_products().len(), 3);
    assert_eq!(store.delete_product(idle), Ok(()));
    let left: Vec<i64> = store.get_products().iter().map(|p| p.id).collect();
    assert_eq!(left, vec![stocked, sold]);
    assert_eq!(store.delete_product(idle), Ok(()));
    assert_eq!(store.delete_product(1234), Ok(()));
    assert_eq!(store.get_products().len(), 2);
    assert_eq!(store.add_product(named("next", None, None)), Ok(4));
}

#[test]
fn records_are_loaded_and_continued() {
    let mut first = named("whey", Some("W-1"), None);
    first.id = 3;
    let mut second = named("bar", None, None);
    second.id = 8;
    let movements = vec![
        StockMovement {
            id: 2,
            product_id: 3,
            kind: MovementKind::Ingress,
            quantity: 10,
            note: Some("opening".to_string()),
            created_by: Some(1),
            created_at: None,
        },
        StockMovement {
            id: 5,
            product_id: 3,
            kind: MovementKind::Egress,
            quantity: 4,
            note: None,
            created_by: None,
            created_at: None,
        },
    ];
    let sales = vec![Sale {
        id: 7,
        product_id: 3,
        quantity: 4,
        sale_price: 4000,
        discount: Some(100),
        channel: Some("shop".to_string()),
        sale_date: "2024-01-01".to_string(),
        created_by: None,
    }];
    let mut store = Store::from_records(vec![first, second], movements, sales).unwrap();
    assert_eq!(store.balance_of(3), 6);
    assert_eq!(store.add_product(named("gel", None, None)), Ok(9));
    assert_eq!(
        store.add_stock_movement(StockMovement {
            id: 0,
            product_id: 8,
            kind: MovementKind::Ingress,
            quantity: 1,
            note: None,
            created_by: None,
            created_at: None,
        }),
        Ok(6)
    );
    assert_eq!(
        store.add_sale(Sale {
            id: 0,
            product_id: 3,
            quantity: 6,
            sale_price: 1,
            discount: None,
            channel: None,
            sale_date: "2024-01-02".to_string(),
            created_by: None,
        }),
        Ok(8)
    );
    assert_eq!(store.balance_of(3), 0);
}

#[test]
fn inconsistent_records_are_refused() {
    let good = |id: i64, quantity: i32| StockMovement {
        id,
        product_id: 1,
        kind: MovementKind::Ingress,
        quantity,
        note: None,
        created_by: None,
        created_at: None,
    };
    let fault = Some(EngineError::ConsistencyFault);
    assert!(Store::from_records(vec![], vec![good(1, 1), good(2, 1)], vec![]).is_ok());
    assert_eq!(Store::from_records(vec![], vec![good(2, 1), good(1, 1)], vec![]).err(), fault);
    assert_eq!(Store::from_records(vec![], vec![good(1, 1), good(1, 1)], vec![]).err(), fault);
    assert_eq!(Store::from_records(vec![], vec![good(0, 1)], vec![]).err(), fault);
    assert_eq!(Store::from_records(vec![], vec![good(-1, 1)], vec![]).err(), fault);
    assert_eq!(Store::from_records(vec![], vec![good(2_147_483_648, 1)], vec![]).err(), fault);
    assert_eq!(Store::from_records(vec![], vec![good(1, 0)], vec![]).err(), fault);

    let mut a = named("a", Some("S"), None);
    a.id = 1;
    let mut b = named("b", Some("S"), None);
    b.id = 2;
    assert_eq!(Store::from_records(vec![a.clone(), b], vec![], vec![]).err(), fault);
    let mut nameless = named("", None, None);
    nameless.id = 2;
    assert_eq!(Store::from_records(vec![a.clone(), nameless], vec![], vec![]).err(), fault);
    let mut c = named("c", Some("T"), None);
    c.id = 1;
    assert_eq!(Store::from_records(vec![a.clone(), c], vec![], vec![]).err(), fault);

    let bad_sale = Sale {
        id: 1,
        product_id: 1,
        quantity: 0,
        sale_price: 1,
        discount: None,
        channel: None,
        sale_date: "2024-01-01".to_string(),
        created_by: None,
    };
    assert_eq!(Store::from_records(vec![], vec![], vec![bad_sale.clone()]).err(), fault);
    let mut undated = bad_sale;
    undated.quantity = 1;
    assert!(Store::from_records(vec![], vec![], vec![undated.clone()]).is_ok());
    undated.sale_date = "2024-13-01".to_string();
    assert_eq!(Store::from_records(vec![], vec![], vec![undated]).err(), fault);
}
