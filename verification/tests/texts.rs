use nocode::caching::{build_cache_key, build_key_suffix, sort_texts};
use nocode::idgen::{build_number_url, fetch_next_number_from_endpoint, plan_id, read_next_number, roman_month, write_number, Today};
use nocode::json::{get_in, set_in, Json};
use nocode::importing::{calculate_max_id, read_last_number};
use nocode::pk_utils::json_value_from_str_and_type;
use nocode::number::{finite_numeral, float_numeral, show_float, i64_text, parse_i32, parse_i64, parse_u64, parse_usize, u64_text};
use nocode::text::{
    bytes_in, cut, cut_bytes, joined, keep, rcut, replaced, same_ignoring_case, split_text,
    stripped, trimmed,
};
use nocode::validation::dbparam_from_value_and_type;

fn text(s: &str) -> Json {
    Json::Str(s.to_string())
}

fn today() -> Today {
    Today { year: "2026".to_string(), month: "06".to_string(), day: "09".to_string() }
}

#[test]
fn splitting_and_joining_are_inverse() {
    for s in ["", ",", "a,b", ",a,,b,", "ä,ö"] {
        assert_eq!(joined(&split_text(s, ','), ","), s);
        for piece in split_text(s, ',') {
            assert!(!piece.contains(','));
        }
    }
}

#[test]
fn texts_are_replaced_from_the_left() {
    assert_eq!(replaced("aaa", "aa", "b"), "ba");
    assert_eq!(replaced("abc", "", "-"), "-a-b-c-");
    assert_eq!(replaced("abc", "x", "-"), "abc");
}

#[test]
fn kept_texts_hold_letters_digits_and_the_listed_signs() {
    assert_eq!(keep("a'; drop_t.x -- é1", "_."), "adrop_t.xé1");
}

#[test]
fn texts_are_cut_at_marks_and_at_bytes() {
    assert_eq!(cut("a=b=c", "="), Some(("a".to_string(), "b=c".to_string())));
    assert_eq!(rcut("a b c", ' '), Some(("a b".to_string(), "c".to_string())));
    assert_eq!(bytes_in("é1"), 3);
    assert_eq!(cut_bytes("é1", 1), None);
    assert_eq!(cut_bytes("é1", 2), Some(("é".to_string(), "1".to_string())));
}

#[test]
fn white_space_and_quotes_are_taken_off() {
    assert_eq!(trimmed(" \t\u{a0}x y\n"), "x y");
    assert_eq!(stripped("\"\"a\"b\"", '"'), "a\"b");
    assert!(same_ignoring_case("NuLL", "null"));
    assert!(!same_ignoring_case("É", "é"));
}

#[test]
fn integers_are_read_and_written() {
    assert_eq!(parse_i64("-9223372036854775808"), Some(i64::MIN));
    assert_eq!(parse_i64("9223372036854775808"), None);
    assert_eq!(parse_i64("+007"), Some(7));
    assert_eq!(parse_i64(" 7"), None);
    assert_eq!(parse_i32("2147483648"), None);
    assert_eq!(parse_usize("-1"), None);
    assert_eq!(parse_u64("18446744073709551615"), Some(u64::MAX));
    assert_eq!(i64_text(i64::MIN), "-9223372036854775808");
    assert_eq!(u64_text(0), "0");
    for n in [-10, -1, 0, 9, 10, 12345] {
        assert_eq!(parse_i64(&i64_text(n)), Some(n));
    }
}

#[test]
fn numerals_of_floats_are_those_that_std_reads() {
    for s in [
        "1", "1.", ".5", "-1.5e3", "1e+9", "inf", "-Infinity", "NaN", "", ".", "e5", "1e", "0x1",
        "1_0", " 1", "+.5E-3", "infin",
    ] {
        assert_eq!(float_numeral(s), s.parse::<f64>().is_ok(), "{}", s);
    }
}

#[test]
fn numerals_of_finite_floats_are_those_with_a_finite_value() {
    let limit = nocode::number::FLOAT_LIMIT;
    let below = format!("{}1", &limit[..308]);
    let fraction = format!("{}.999", below);
    let scaled = format!("0.000{}e3", below);
    let small = format!("{}e-400", "9".repeat(700));
    let zeros = format!("{}e-99999999999999999999999", "0".repeat(40));
    let more = [limit, &below, &fraction, &scaled, &small, &zeros];
    let some = [
        "1", "-1.5e3", "1e308", "1e309", "-1e309", "1.7976931348623157e308", "1.7976931348623158e308",
        "1.7976931348623159e308", "0e999", "0.0e99999999999999999999999", "1e99999999999999999999999",
        "1e-99999999999999999999999", "inf", "nan", "x", "", "00000000001e308",
    ];
    for s in some.iter().chain(more.iter()) {
        let finite = s.parse::<f64>().map_or(false, |f| f.is_finite());
        assert_eq!(finite_numeral(s), finite, "{}", s);
    }
}

#[test]
fn floats_are_shown_as_std_displays_them() {
    for f in [
        0.0, -0.0, 5.0, -5.5, 0.1, 1e-7, 1.5e-300, 5e-324, 1e16, 1e21, 123456789.125, 1.7976931348623157e308,
    ] {
        let numeral = serde_json::Number::from_f64(f).unwrap().to_string();
        assert_eq!(show_float(&numeral), f.to_string(), "{}", numeral);
    }
    assert_eq!(show_float("inf"), "inf");
    assert_eq!(show_float("1e999"), "1e999");
}

#[test]
fn floats_without_a_finite_value_are_null_in_json() {
    for s in ["inf", "nan", "1e999"] {
        assert_eq!(json_value_from_str_and_type(s, "float"), Json::Null);
    }
    assert_eq!(json_value_from_str_and_type("2.5", "float"), Json::Float("2.5".to_string()));
}

#[test]
fn greatest_identifiers_are_shown() {
    let rows = vec![Json::Object(vec![("max_id".to_string(), Json::Float("5.0".to_string()))])];
    assert_eq!(calculate_max_id(&rows, false), "5");
    assert_eq!(read_last_number(&calculate_max_id(&rows, false)), 5);
    assert_eq!(calculate_max_id(&rows, true), "0");
    let shown = |n: u64| {
        let rows = vec![Json::Object(vec![("max_id".to_string(), Json::UInt(n))])];
        calculate_max_id(&rows, false)
    };
    assert_eq!(shown(9_223_372_036_854_775_807), "9223372036854775807");
    assert_eq!(shown(9_223_372_036_854_775_808), "9223372036854776000");
    assert_eq!(shown(9_999_999_999_999_999_999), "10000000000000000000");
    assert_eq!(shown(u64::MAX), "18446744073709552000");
    assert_eq!(read_last_number(&shown(u64::MAX)), 0);
}

#[test]
fn json_is_written_without_spaces() {
    let v = Json::Object(vec![
        ("a\"\n".to_string(), Json::Array(vec![Json::Int(-1), Json::Null, Json::Bool(true)])),
        ("é".to_string(), text("x\u{1}\\")),
    ]);
    let expected = "{\"a\\\"\\n\":[-1,null,true],\"é\":\"x\\u0001\\\\\"}";
    assert_eq!(v.text(), expected);
    assert_eq!(serde_json::from_str::<serde_json::Value>(expected).unwrap().to_string(), expected);
}

#[test]
fn what_is_set_is_got() {
    let mut fields = vec![("a".to_string(), Json::Int(1)), ("b".to_string(), Json::Int(2))];
    set_in(&mut fields, "a", text("x"));
    set_in(&mut fields, "c", Json::Null);
    assert_eq!(get_in(&fields, "a"), Some(&text("x")));
    assert_eq!(get_in(&fields, "b"), Some(&Json::Int(2)));
    assert_eq!(get_in(&fields, "c"), Some(&Json::Null));
    assert_eq!(fields.len(), 3);
}

#[test]
fn texts_are_sorted_by_their_characters() {
    let list: Vec<String> = ["b=1", "a=2", "a=10", "é=0"].iter().map(|s| s.to_string()).collect();
    assert_eq!(sort_texts(&list), vec!["a=10", "a=2", "b=1", "é=0"]);
}

#[test]
fn keys_of_a_cache_do_not_depend_on_the_order_of_parameters() {
    let a = vec![("x".to_string(), Json::Int(1)), ("a".to_string(), text("q"))];
    let b = vec![("a".to_string(), text("q")), ("x".to_string(), Json::Int(1))];
    assert_eq!(build_key_suffix(&a), "a=\"q\"&x=1");
    assert_eq!(build_key_suffix(&a), build_key_suffix(&b));
    assert_eq!(build_cache_key("p", ""), "p");
    assert_eq!(build_cache_key("p", "a=1"), "p:a=1");
}

#[test]
fn months_have_roman_numerals() {
    assert_eq!(roman_month("01"), "I");
    assert_eq!(roman_month("09"), "IX");
    assert_eq!(roman_month("12"), "XII");
    assert_eq!(roman_month("13"), "");
}

#[test]
fn identifiers_follow_their_tokens() {
    let tokens: Vec<String> =
        ["000ID", "CC", "%Y", "%mROMAWI", "{request.unit}"].iter().map(|s| s.to_string()).collect();
    let body = Json::Object(vec![("unit".to_string(), text("U\"7"))]);
    let plan = plan_id(&tokens, &body, &today());
    assert_eq!(plan.prefix(), "CC/2026/VI/U\\7");
    assert_eq!(plan.finish(42), Some("042/CC/2026/VI/U\\7".to_string()));
}

#[test]
fn an_identifier_without_room_for_its_number_is_none() {
    let tokens: Vec<String> = ["", "", "00ID"].iter().map(|s| s.to_string()).collect();
    assert_eq!(plan_id(&tokens, &Json::Null, &today()).finish(1), None);
}

#[test]
fn running_numbers_go_up() {
    assert_eq!(read_next_number("CC/2026/009", 3), Some(10));
    assert_eq!(read_next_number("x", 3), Some(1));
    assert_eq!(read_next_number("abc", 3), Some(1));
    assert_eq!(read_next_number("a\u{e9}", 1), None);
    assert_eq!(write_number(7, 3), "007");
    assert_eq!(write_number(-7, 4), "-007");
    assert_eq!(write_number(12345, 3), "12345");
}

#[test]
fn prefixes_are_encoded_for_addresses() {
    assert_eq!(build_number_url("http://h/n", "SO/2026 ä"), "http://h/n?prefix=SO%2F2026%20%C3%A4");
    assert_eq!(build_number_url("http://h/n?a=1", "x-._~"), "http://h/n?a=1&prefix=x-._~");
}

#[test]
fn running_numbers_of_a_service_are_read() {
    let next = |v: Option<&Json>| fetch_next_number_from_endpoint(v, "data", "CC/2026/06");
    assert_eq!(next(Some(&Json::Int(9))), Ok(9));
    assert_eq!(next(Some(&text(" 0009/CC/2026/06 "))), Ok(9));
    assert_eq!(next(None), Err("ID endpoint response missing field 'data'".to_string()));
    assert_eq!(next(Some(&text("x"))), Err("ID endpoint field 'data' is not a number: x".to_string()));
    assert_eq!(
        next(Some(&Json::Float("1.5".to_string()))),
        Err("ID endpoint field 'data' is not an integer: 1.5".to_string())
    );
    assert_eq!(
        next(Some(&Json::Bool(true))),
        Err("ID endpoint field 'data' has unsupported type: true".to_string())
    );
}

#[test]
fn types_of_columns_are_read_in_any_case() {
    let c = nocode::model::Column {
        type_data: "BIGINT UNSIGNED".to_string(),
        ..Default::default()
    };
    let p = dbparam_from_value_and_type(&text("12"), Some(&c));
    assert_eq!(p, nocode::ast::DbParam::I64(12));
}
