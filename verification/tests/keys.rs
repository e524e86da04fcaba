use nocode::ast::{DbParam, Filter, Val};
use nocode::json::Json;
use nocode::model::Column;
use nocode::pk_utils::{
    build_pk_filter, dbparam_from_str_and_type, json_value_from_str_and_type, parse_pk_values,
};
use nocode::validation::dbparam_from_value_and_type;

#[test]
fn test_parse_pk_values() {
    assert_eq!(parse_pk_values("123"), vec!["123"]);
    assert_eq!(parse_pk_values("123~456"), vec!["123", "456"]);
    assert_eq!(parse_pk_values("abc~def~ghi"), vec!["abc", "def", "ghi"]);
}

#[test]
fn pk_utils_test_build_pk_filter_single() {
    let pk_cols = vec!["id".to_string()];
    let pk_vals = vec!["1".to_string()];
    let filter = build_pk_filter(&pk_cols, &pk_vals).unwrap();
    match filter {
        Filter::Eq(col, val) => {
            assert_eq!(col, "id");
            assert!(matches!(val, Val::Str(v) if v == "1"));
        }
        _ => panic!("Expected QF::Eq"),
    }
}

#[test]
fn pk_utils_test_build_pk_filter_composite() {
    let pk_cols = vec!["id1".to_string(), "id2".to_string()];
    let pk_vals = vec!["1".to_string(), "2".to_string()];
    let filter = build_pk_filter(&pk_cols, &pk_vals).unwrap();
    match filter {
        Filter::And(filters) => assert_eq!(filters.len(), 2),
        _ => panic!("Expected QF::And"),
    }
}

#[test]
fn pk_utils_test_build_pk_filter_mismatch() {
    let pk_cols = vec!["id1".to_string()];
    let pk_vals = vec!["1".to_string(), "2".to_string()];
    let result = build_pk_filter(&pk_cols, &pk_vals);
    assert!(result.is_err());
}

#[test]
fn test_dbparam_from_str_and_type() {
    assert!(matches!(dbparam_from_str_and_type("12", "int"), DbParam::I64(12)));
    assert!(matches!(
        dbparam_from_str_and_type("12.5", "decimal"),
        DbParam::F64(v) if (v.parse::<f64>().unwrap() - 12.5).abs() < f64::EPSILON
    ));
    assert!(matches!(dbparam_from_str_and_type("abc", "varchar"), DbParam::Str(v) if v == "abc"));
}

#[test]
fn test_json_value_from_str_and_type() {
    assert_eq!(json_value_from_str_and_type("12", "int"), Json::Int(12));
    assert!(matches!(
        json_value_from_str_and_type("12.5", "money"),
        Json::Float(v) if v.parse::<f64>().unwrap() == 12.5
    ));
    assert_eq!(json_value_from_str_and_type("abc", "varchar"), Json::Str("abc".to_string()));
}

#[test]
fn test_parse_pk_values_repo_uses_shared_util() {
    assert_eq!(parse_pk_values("123"), vec!["123"]);
    assert_eq!(parse_pk_values("123~456"), vec!["123", "456"]);
    assert_eq!(parse_pk_values("abc~def~ghi"), vec!["abc", "def", "ghi"]);
}

#[test]
fn data_update_repo_test_build_pk_filter_single() {
    let pk_cols = vec!["id".to_string()];
    let pk_vals = vec!["1".to_string()];
    let filter = build_pk_filter(&pk_cols, &pk_vals).unwrap();

    match filter {
        Filter::Eq(col, val) => {
            assert_eq!(col, "id");
            if let Val::Str(v) = val {
                assert_eq!(v, "1");
            } else {
                panic!("Expected QV::Str");
            }
        }
        _ => panic!("Expected QF::Eq"),
    }
}

#[test]
fn data_update_repo_test_build_pk_filter_composite() {
    let pk_cols = vec!["id1".to_string(), "id2".to_string()];
    let pk_vals = vec!["1".to_string(), "2".to_string()];
    let filter = build_pk_filter(&pk_cols, &pk_vals).unwrap();

    match filter {
        Filter::And(filters) => {
            assert_eq!(filters.len(), 2);
            match &filters[0] {
                Filter::Eq(col, val) => {
                    assert_eq!(col, "id1");
                    if let Val::Str(v) = val {
                        assert_eq!(v, "1");
                    } else {
                        panic!("Expected QV::Str");
                    }
                }
                _ => panic!("Expected QF::Eq"),
            }
            match &filters[1] {
                Filter::Eq(col, val) => {
                    assert_eq!(col, "id2");
                    if let Val::Str(v) = val {
                        assert_eq!(v, "2");
                    } else {
                        panic!("Expected QV::Str");
                    }
                }
                _ => panic!("Expected QF::Eq"),
            }
        }
        _ => panic!("Expected QF::And"),
    }
}

#[test]
fn data_update_repo_test_build_pk_filter_mismatch() {
    let pk_cols = vec!["id1".to_string()];
    let pk_vals = vec!["1".to_string(), "2".to_string()];
    let result = build_pk_filter(&pk_cols, &pk_vals);
    assert!(result.is_err());
}

#[test]
fn test_dbparam_from_value() {
    let v_int = Json::Int(123);
    let p_int = dbparam_from_value_and_type(&v_int, None);
    if let DbParam::Str(s) = p_int {
        assert_eq!(s, "123");
    } else {
        panic!("Expected Str");
    }

    let col_int = Column {
        name: "age".to_string(),
        type_data: "int".to_string(),
        ..Default::default()
    };
    let p_int_typed = dbparam_from_value_and_type(&v_int, Some(&col_int));
    if let DbParam::I64(n) = p_int_typed {
        assert_eq!(n, 123);
    } else {
        panic!("Expected I64");
    }

    let v_float = Json::Float("12.34".to_string());
    let col_float = Column {
        name: "price".to_string(),
        type_data: "decimal".to_string(),
        ..Default::default()
    };
    let p_float_typed = dbparam_from_value_and_type(&v_float, Some(&col_float));
    if let DbParam::F64(f) = p_float_typed {
        assert!((f.parse::<f64>().unwrap() - 12.34).abs() < f64::EPSILON);
    } else {
        panic!("Expected F64");
    }
}

#[test]
fn a_key_path_without_columns_is_refused() {
    let err = build_pk_filter(&[], &[]).unwrap_err();
    assert_eq!(err, "No primary key columns defined");
}

#[test]
fn a_key_path_of_the_wrong_length_says_so() {
    let cols = vec!["a".to_string(), "b".to_string()];
    let vals = vec!["1".to_string()];
    let err = build_pk_filter(&cols, &vals).unwrap_err();
    assert_eq!(err, "Primary key mismatch: expected 2 values for 1 columns");
}

#[test]
fn joining_the_parts_of_a_key_gives_the_path_back() {
    for path in ["", "~", "a", "a~b", "~a~~b~"] {
        assert_eq!(parse_pk_values(path).join("~"), path);
    }
}

#[test]
fn texts_stay_texts_where_they_are_no_numbers() {
    assert_eq!(dbparam_from_str_and_type("abc", "INT"), DbParam::Str("abc".to_string()));
    assert_eq!(dbparam_from_str_and_type("+7", "BIGINT"), DbParam::I64(7));
    assert_eq!(dbparam_from_str_and_type("x", "Money"), DbParam::Str("x".to_string()));
}
