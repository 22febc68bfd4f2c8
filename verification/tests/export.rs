use vitasport::export::sales_report;
use vitasport::model::{MovementKind, Product, Sale, StockMovement};
use vitasport::store::Store;
use vitasport::text::{push_decimal, push_integer, push_money};

fn integer(n: i64) -> String {
    let mut text = String::new();
    push_integer(&mut text, n);
    text
}

fn money(cents: i64) -> String {
    let mut text = String::new();
    push_money(&mut text, cents);
    text
}

#[test]
fn whole_numbers_are_written_in_decimal() {
    for n in [0i64, 1, 9, 10, 11, 99, 100, 12345, -1, -10, -999, 4_000_000_001] {
        assert_eq!(integer(n), n.to_string());
    }
    assert_eq!(integer(i64::MAX), "9223372036854775807");
    assert_eq!(integer(i64::MIN), "-9223372036854775808");
    let mut text = String::from("n=");
    push_decimal(&mut text, u64::MAX);
    assert_eq!(text, "n=18446744073709551615");
    push_decimal(&mut text, 0);
    assert_eq!(text, "n=184467440737095516150");
}

#[test]
fn amounts_are_written_with_two_decimals() {
    assert_eq!(money(0), "0.00");
    assert_eq!(money(5), "0.05");
    assert_eq!(money(50), "0.50");
    assert_eq!(money(99), "0.99");
    assert_eq!(money(100), "1.00");
    assert_eq!(money(1999), "19.99");
    assert_eq!(money(123_456_789), "1234567.89");
    assert_eq!(money(-1), "-0.01");
    assert_eq!(money(-250), "-2.50");
    assert_eq!(money(i64::MAX), "92233720368547758.07");
    assert_eq!(money(i64::MIN), "-92233720368547758.08");
}

#[test]
fn sales_report_lines() {
    let rows = vec![
        Sale {
            id: 12,
            product_id: 3,
            quantity: 2,
            sale_price: 2550,
            discount: Some(150),
            channel: Some("tienda".to_string()),
            sale_date: "2024-01-02T10:00:00".to_string(),
            created_by: Some(4),
        },
        Sale {
            id: 11,
            product_id: 5,
            quantity: 1,
            sale_price: 900,
            discount: None,
            channel: None,
            sale_date: "2024-01-01".to_string(),
            created_by: None,
        },
    ];
    assert_eq!(
        sales_report(&rows),
        "id,product_id,quantity,sale_price,discount,channel,sale_date,created_by\n\
         12,3,2,25.50,1.50,tienda,2024-01-02T10:00:00,4\n\
         11,5,1,9.00,,,2024-01-01,\n"
    );
    assert_eq!(
        sales_report(&Vec::new()),
        "id,product_id,quantity,sale_price,discount,channel,sale_date,created_by\n"
    );
}

#[test]
fn inventory_report_lines() {
    let mut store = Store::new();
    let full = Product {
        id: 0,
        sku: Some("W-1".to_string()),
        name: "Whey".to_string(),
        sale_price: Some(4999),
        brand: Some("ON".to_string()),
        category: Some("Proteína".to_string()),
        presentation: Some("Bolsa".to_string()),
        flavor: Some("Vainilla".to_string()),
        weight: Some("2lb".to_string()),
        image_path: Some("img/whey.png".to_string()),
        expiry_date: Some("2025-06-30".to_string()),
        lot_number: Some("L-77".to_string()),
        min_stock: Some(5),
        max_stock: Some(40),
        location: Some("A1".to_string()),
        status: Some("activo".to_string()),
    };
    let bare = Product {
        id: 0,
        sku: None,
        name: "Barra".to_string(),
        sale_price: None,
        brand: None,
        category: None,
        presentation: None,
        flavor: None,
        weight: None,
        image_path: None,
        expiry_date: None,
        lot_number: None,
        min_stock: None,
        max_stock: None,
        location: None,
        status: None,
    };
    let whey = store.add_product(full).unwrap();
    let bar = store.add_product(bare).unwrap();
    store
        .add_stock_movement(StockMovement {
            id: 0,
            product_id: whey,
            kind: MovementKind::Egress,
            quantity: 7,
            note: None,
            created_by: None,
            created_at: None,
        })
        .unwrap();
    store
        .add_stock_movement(StockMovement {
            id: 0,
            product_id: bar,
            kind: MovementKind::Egress,
            quantity: 3,
            note: None,
            created_by: None,
            created_at: None,
        })
        .unwrap();
    assert_eq!(
        store.export_inventory_report(),
        "id,sku,name,sale_price,brand,category,presentation,flavor,weight,expiry_date,\
         lot_number,min_stock,max_stock,location,status,current_stock\n\
         1,W-1,Whey,49.99,ON,Proteína,Bolsa,Vainilla,2lb,2025-06-30,L-77,5,40,A1,activo,33\n\
         2,,Barra,,,,,,,,,,,,,-3\n"
    );
    assert_eq!(
        Store::new().export_inventory_report(),
        "id,sku,name,sale_price,brand,category,presentation,flavor,weight,expiry_date,\
         lot_number,min_stock,max_stock,location,status,current_stock\n"
    );
}
