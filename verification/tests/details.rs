use nocode::ast::{DbParam, InsertValue};
use nocode::json::Json;
use nocode::repositories::data_create_repo::PreparedDetailBatch;

fn float(s: &str) -> InsertValue {
    InsertValue::Param(DbParam::F64(s.to_string()))
}

fn item(material: i64, qty: &str, price: &str) -> Vec<(String, Json)> {
    vec![
        ("material_id".to_string(), Json::Int(material)),
        ("qty_ordered".to_string(), Json::Float(qty.to_string())),
        ("unit_price".to_string(), Json::Float(price.to_string())),
    ]
}

#[test]
fn test_repo_structure_compiles() {
    assert_eq!(1, 1);
}

#[test]
fn test_prepared_detail_batch_fk_injection_and_bulk_sql() {
    let mut batch = PreparedDetailBatch {
        field: "items".to_string(),
        target_table: "transaction_purchase_order_item".to_string(),
        foreign_key_column: "purchase_order_id".to_string(),
        fk_type_data: "int".to_string(),
        columns: vec![
            "purchase_order_id".to_string(),
            "material_id".to_string(),
            "qty_ordered".to_string(),
            "unit_price".to_string(),
        ],
        fk_index: 0,
        rows: vec![
            vec![
                InsertValue::Param(DbParam::Null),
                InsertValue::Param(DbParam::I64(10)),
                float("500.0"),
                float("15000.0"),
            ],
            vec![
                InsertValue::Param(DbParam::Null),
                InsertValue::Param(DbParam::I64(20)),
                float("250.0"),
                float("8000.0"),
            ],
        ],
        response_items: vec![item(10, "500.0", "15000.0"), item(20, "250.0", "8000.0")],
    };

    batch.stamp(&DbParam::I64(99), &Json::Int(99));

    for r in &batch.rows {
        match &r[0] {
            InsertValue::Param(DbParam::I64(n)) => assert_eq!(*n, 99),
            _ => panic!("Expected DbParam::I64(99)"),
        }
        assert_eq!(r.len(), 4);
    }
    for resp in &batch.response_items {
        let found = resp.iter().find(|(k, _)| k == "purchase_order_id").map(|(_, v)| v);
        assert_eq!(found, Some(&Json::Int(99)));
    }
}
