use nocode::auth::Claims;
use nocode::json::Json;
use nocode::model::{Column, TableSchema};
use nocode::seed::{convert_field_value, is_admin_role, parse_csv_data, split_sql_statements};

fn to_json(v: &serde_json::Value) -> Json {
    match v {
        serde_json::Value::Null => Json::Null,
        serde_json::Value::Bool(b) => Json::Bool(*b),
        serde_json::Value::Number(n) => match (n.as_i64(), n.as_u64()) {
            (Some(i), _) => Json::Int(i),
            (None, Some(u)) => Json::UInt(u),
            _ => Json::Float(n.to_string()),
        },
        serde_json::Value::String(s) => Json::Str(s.clone()),
        serde_json::Value::Array(items) => Json::Array(items.iter().map(to_json).collect()),
        serde_json::Value::Object(m) => {
            Json::Object(m.iter().map(|(k, v)| (k.clone(), to_json(v))).collect())
        }
    }
}

fn parse_all(texts: &[String]) -> Vec<Option<Json>> {
    texts
        .iter()
        .map(|t| serde_json::from_str::<serde_json::Value>(t).ok().map(|v| to_json(&v)))
        .collect()
}

fn rows_of(content: &str, schema: &TableSchema) -> Vec<Json> {
    let (texts, _) = parse_csv_data(content, schema, &Vec::new()).unwrap();
    let (_, rows) = parse_csv_data(content, schema, &parse_all(&texts)).unwrap();
    rows.into_iter().map(Json::Object).collect()
}

fn text(s: &str) -> Json {
    Json::Str(s.to_string())
}

#[test]
fn test_split_sql_statements_simple() {
    let sql = "INSERT INTO users (name) VALUES ('Alice'); INSERT INTO users (name) VALUES ('Bob');";
    let statements = split_sql_statements(sql);
    assert_eq!(statements.len(), 2);
    assert_eq!(statements[0], "INSERT INTO users (name) VALUES ('Alice')");
    assert_eq!(statements[1], "INSERT INTO users (name) VALUES ('Bob')");
}

#[test]
fn test_split_sql_statements_with_semicolon_in_string() {
    let sql = "INSERT INTO users (name, bio) VALUES ('Alice', 'Hello; world!'); INSERT INTO users (name) VALUES ('Bob');";
    let statements = split_sql_statements(sql);
    assert_eq!(statements.len(), 2);
    assert_eq!(statements[0], "INSERT INTO users (name, bio) VALUES ('Alice', 'Hello; world!')");
    assert_eq!(statements[1], "INSERT INTO users (name) VALUES ('Bob')");
}

#[test]
fn test_split_sql_statements_with_comments() {
    let sql = r#"
            -- This is a comment; with a semicolon
            INSERT INTO users (name) VALUES ('Alice');
            /* Multi-line comment;
               with semicolons; */
            INSERT INTO users (name) VALUES ('Bob');
        "#;
    let statements = split_sql_statements(sql);
    assert_eq!(statements.len(), 2);
    assert_eq!(statements[0], "INSERT INTO users (name) VALUES ('Alice')");
    assert_eq!(statements[1], "INSERT INTO users (name) VALUES ('Bob')");
}

#[test]
fn quotes_of_one_kind_hide_those_of_another() {
    let statements = split_sql_statements("a '\";' b; `;'` c; \"--\" d -- e");
    assert_eq!(statements, vec!["a '\";' b", "`;'` c", "\"--\" d"]);
}

#[test]
fn comment_marks_may_touch() {
    assert_eq!(split_sql_statements("/*/;*/x;/**/;-"), vec!["x", "-"]);
    assert_eq!(split_sql_statements(" ;; \n ; "), Vec::<String>::new());
}

#[test]
fn test_is_admin_role() {
    let admin_claims1 = Claims {
        rl: "admin/1".to_string(),
        ..Claims::default()
    };
    assert!(is_admin_role(&admin_claims1));

    let admin_claims2 = Claims {
        rl: "Admin".to_string(),
        ..Claims::default()
    };
    assert!(is_admin_role(&admin_claims2));

    let admin_claims3 = Claims {
        rl: "ADMIN/99".to_string(),
        ..Claims::default()
    };
    assert!(is_admin_role(&admin_claims3));

    let admin_claims4 = Claims {
        rl: "127".to_string(),
        ..Claims::default()
    };
    assert!(is_admin_role(&admin_claims4));

    let admin_claims5 = Claims {
        rl: "*/127".to_string(),
        ..Claims::default()
    };
    assert!(is_admin_role(&admin_claims5));

    let admin_claims6 = Claims {
        rl: "user/2,admin/1".to_string(),
        ..Claims::default()
    };
    assert!(is_admin_role(&admin_claims6));

    let admin_claims7 = Claims {
        rl: "Administrator".to_string(),
        ..Claims::default()
    };
    assert!(is_admin_role(&admin_claims7));

    let admin_claims8 = Claims {
        rl: "user/2,administrator/1".to_string(),
        ..Claims::default()
    };
    assert!(is_admin_role(&admin_claims8));

    let non_admin = Claims {
        rl: "user/1,viewer/2".to_string(),
        ..Claims::default()
    };
    assert!(!is_admin_role(&non_admin));

    let empty_claims = Claims {
        rl: "".to_string(),
        ..Claims::default()
    };
    assert!(!is_admin_role(&empty_claims));
}

#[test]
fn test_parse_csv_data_with_column_types() {
    let schema = TableSchema {
        table: "products".to_string(),
        columns: vec![
            Column {
                name: "id".to_string(),
                type_data: "bigint".to_string(),
                auto_increment: true,
                nullable: false,
                ..Default::default()
            },
            Column {
                name: "name".to_string(),
                type_data: "varchar(100)".to_string(),
                auto_increment: false,
                nullable: false,
                ..Default::default()
            },
            Column {
                name: "price".to_string(),
                type_data: "decimal(10,2)".to_string(),
                auto_increment: false,
                nullable: false,
                ..Default::default()
            },
            Column {
                name: "is_active".to_string(),
                type_data: "boolean".to_string(),
                auto_increment: false,
                nullable: false,
                ..Default::default()
            },
            Column {
                name: "metadata".to_string(),
                type_data: "json".to_string(),
                auto_increment: false,
                nullable: true,
                ..Default::default()
            },
            Column {
                name: "deleted_at".to_string(),
                type_data: "datetime".to_string(),
                auto_increment: false,
                nullable: true,
                ..Default::default()
            },
        ],
        ..Default::default()
    };

    let csv_text = "id,name,price,is_active,metadata,deleted_at\n\
                        1,Widget A,19.99,true,\"{\"\"tag\"\":\"\"sample\"\"}\",\n\
                        ,Widget B,25.50,false,NULL,NULL";

    let rows = rows_of(csv_text, &schema);
    assert_eq!(rows.len(), 2);

    let price = |row: &Json| match row.get("price") {
        Some(Json::Float(t)) => t.parse::<f64>().unwrap(),
        other => panic!("no price: {:?}", other),
    };
    assert_eq!(rows[0].get("id"), Some(&Json::Int(1)));
    assert_eq!(rows[0].get("name"), Some(&text("Widget A")));
    assert_eq!(price(&rows[0]), 19.99);
    assert_eq!(rows[0].get("is_active"), Some(&Json::Bool(true)));
    assert_eq!(
        rows[0].get("metadata"),
        Some(&Json::Object(vec![("tag".to_string(), text("sample"))]))
    );
    assert_eq!(rows[0].get("deleted_at"), Some(&Json::Null));

    assert_eq!(rows[1].get("id"), None);
    assert_eq!(rows[1].get("name"), Some(&text("Widget B")));
    assert_eq!(price(&rows[1]), 25.5);
    assert_eq!(rows[1].get("is_active"), Some(&Json::Bool(false)));
    assert_eq!(rows[1].get("metadata"), Some(&Json::Null));
    assert_eq!(rows[1].get("deleted_at"), Some(&Json::Null));
}

#[test]
fn test_parse_csv_data_without_schema_fallback() {
    let schema = TableSchema::default();
    let csv_text = "id,name,value\n1,Alpha,100\n2,Beta,200";
    let rows = rows_of(csv_text, &schema);
    assert_eq!(rows.len(), 2);
    assert_eq!(rows[0].get("id"), Some(&Json::Int(1)));
    assert_eq!(rows[0].get("name"), Some(&text("Alpha")));
    assert_eq!(rows[1].get("value"), Some(&Json::Int(200)));
}

#[test]
fn numerals_without_a_finite_value_stay_texts() {
    let column = Column { type_data: "double".to_string(), ..Default::default() };
    for raw in ["1e999", "inf"] {
        let text = Json::Str(raw.to_string());
        assert_eq!(convert_field_value(raw, Some(&column), &None), text);
        assert_eq!(convert_field_value(raw, None, &None), text);
    }
    assert_eq!(convert_field_value("1e9", Some(&column), &None), Json::Float("1e9".to_string()));
}

#[test]
fn statements_that_are_joined_are_split_again() {
    for script in ["", ";;", " a ;b; ;'x;y' z", "a;`b;c", "a \"b;\";c  ; 'd ' "] {
        let statements = split_sql_statements(script);
        assert_eq!(split_sql_statements(&statements.join(";")), statements);
    }
}

#[test]
fn rows_follow_the_records_of_a_file() {
    let schema = TableSchema {
        columns: vec![
            Column { name: "Id".to_string(), type_data: "int".to_string(), auto_increment: true, ..Default::default() },
            Column { name: "Name".to_string(), type_data: "varchar".to_string(), ..Default::default() },
        ],
        ..Default::default()
    };
    let (_, rows) = parse_csv_data("id, NAME ,other,\n1,b,x,y\n2,a,,\n", &schema, &Vec::new()).unwrap();
    let keys: Vec<Vec<&str>> = rows.iter().map(|r| r.iter().map(|f| f.0.as_str()).collect()).collect();
    assert_eq!(keys, vec![vec!["Id", "Name", "other"], vec!["Id", "Name", "other"]]);
    assert_eq!(rows[0][1].1, Json::Str("b".to_string()));
    assert_eq!(rows[1][1].1, Json::Str("a".to_string()));
    let only_id = TableSchema { columns: vec![Column { name: "id".to_string(), auto_increment: true, ..Default::default() }], ..Default::default() };
    let (_, rows) = parse_csv_data("id\nnull\n7\n", &only_id, &Vec::new()).unwrap();
    assert_eq!(rows.len(), 1);
}
