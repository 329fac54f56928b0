use aero_sensor_broker::data_manipulation::MyDataPoint;
use aero_sensor_broker::errors::{AppError, ParseError};
use aero_sensor_broker::json::{parse_json, Json};
use aero_sensor_broker::parser::{
    data_point_from_item, parse, parse_at, parse_number, parse_sensor_data, parse_sensor_data_at,
    parse_sensor_triple, parse_sensor_triple_at, SensorSyntax,
};

fn location(name: &str) -> Vec<(String, String)> {
    vec![("location".to_string(), name.to_string())]
}

fn value(point: &MyDataPoint) -> f64 {
    f64::from_bits(point.get_field_value().unwrap())
}

#[test]
fn triple_yields_three_readings() {
    let points = parse_sensor_triple_at("<20.5|55.0|12.0>", "greenhouse", 1234).unwrap();
    assert_eq!(points.len(), 3);
    assert_eq!(points[0].get_measurement(), "temperature");
    assert_eq!(value(&points[0]), 20.5);
    assert_eq!(points[1].get_measurement(), "humidity");
    assert_eq!(value(&points[1]), 55.0);
    assert_eq!(points[2].get_measurement(), "air_quality");
    assert_eq!(value(&points[2]), 12.0);
    for point in &points {
        assert_eq!(point.get_timestamp(), Some(1234));
        assert_eq!(point.get_tags(), location("greenhouse"));
        assert!(point.is_complete());
    }
}

#[test]
fn triple_read_by_the_clock_shares_one_timestamp() {
    let points = parse_sensor_triple("<20.5|55.0|12.0>", "greenhouse").unwrap();
    assert_eq!(points.len(), 3);
    let first = points[0].get_timestamp();
    assert!(first.unwrap() > 1_600_000_000_000);
    assert_eq!(points[1].get_timestamp(), first);
    assert_eq!(points[2].get_timestamp(), first);
    assert_eq!(value(&points[0]), 20.5);
}

#[test]
fn triple_takes_integers_and_negative_numbers() {
    let points = parse_sensor_triple_at("<-3|0|1e2>", "lab", 1).unwrap();
    assert_eq!(value(&points[0]), -3.0);
    assert_eq!(value(&points[1]), 0.0);
    assert_eq!(value(&points[2]), 100.0);
}

#[test]
fn triple_without_delimiters_is_rejected() {
    for raw in ["", "<", ">", "20.5|55.0|12.0", "<20.5|55.0|12.0", "20.5|55.0|12.0>", "[1|2|3]"] {
        assert_eq!(
            parse_sensor_triple_at(raw, "lab", 1).unwrap_err(),
            ParseError::MissingDelimiters,
            "{:?}",
            raw
        );
    }
}

#[test]
fn triple_with_another_number_of_fields_is_rejected() {
    for raw in ["<>", "<1>", "<1|2>", "<1|2|3|4>", "<|||>"] {
        assert_eq!(
            parse_sensor_triple_at(raw, "lab", 1).unwrap_err(),
            ParseError::WrongFieldCount,
            "{:?}",
            raw
        );
    }
}

#[test]
fn triple_with_a_malformed_number_is_rejected() {
    for raw in ["<a|2|3>", "<1|two|3>", "<1|2|>", "<||>", "<1|2|3x>", "<1|\"2\"|3>", "<1|[2]|3>"] {
        assert_eq!(
            parse_sensor_triple_at(raw, "lab", 1).unwrap_err(),
            ParseError::InvalidNumber,
            "{:?}",
            raw
        );
    }
}

#[test]
fn number_is_read_as_a_double() {
    assert_eq!(parse_number("20.5"), Some(20.5f64.to_bits()));
    assert_eq!(parse_number("7"), Some(7.0f64.to_bits()));
    assert_eq!(parse_number("-0.25"), Some((-0.25f64).to_bits()));
    assert_eq!(parse_number("abc"), None);
    assert_eq!(parse_number(""), None);
    assert_eq!(parse_number("true"), None);
}

#[test]
fn list_yields_one_reading_for_each_element() {
    let raw = r#"[{"type":"temperature","value":20.5,"timestamp":1700000000000},
                  {"type":"humidity","value":55}]"#;
    let points = parse_sensor_data_at(raw, "attic", 99).unwrap();
    assert_eq!(points.len(), 2);
    assert_eq!(points[0].get_measurement(), "temperature");
    assert_eq!(value(&points[0]), 20.5);
    assert_eq!(points[0].get_timestamp(), Some(1_700_000_000_000));
    assert_eq!(points[0].get_tags(), location("attic"));
    assert_eq!(points[1].get_measurement(), "humidity");
    assert_eq!(value(&points[1]), 55.0);
    assert_eq!(points[1].get_timestamp(), Some(99));
    assert_eq!(points[1].get_tags(), location("attic"));
}

#[test]
fn list_read_by_the_clock_keeps_given_timestamps() {
    let raw = r#"[{"type":"temperature","value":1.5,"timestamp":42},{"type":"humidity","value":2}]"#;
    let points = parse_sensor_data(raw.to_string(), "attic").unwrap();
    assert_eq!(points[0].get_timestamp(), Some(42));
    assert!(points[1].get_timestamp().unwrap() > 1_600_000_000_000);
}

#[test]
fn timestamp_that_is_no_integer_counts_as_absent() {
    let raw = r#"[{"type":"t","value":1,"timestamp":1.5},{"type":"t","value":1,"timestamp":"7"}]"#;
    let points = parse_sensor_data_at(raw, "attic", 99).unwrap();
    assert_eq!(points[0].get_timestamp(), Some(99));
    assert_eq!(points[1].get_timestamp(), Some(99));
}

#[test]
fn empty_list_yields_nothing() {
    assert!(parse_sensor_data_at("[]", "attic", 1).unwrap().is_empty());
}

#[test]
fn text_that_is_no_json_is_rejected() {
    for raw in ["", "{", "[1,", "<1|2|3>", "nonsense"] {
        assert_eq!(
            parse_sensor_data_at(raw, "attic", 1).unwrap_err(),
            ParseError::InvalidJson,
            "{:?}",
            raw
        );
    }
}

#[test]
fn document_that_is_no_array_is_rejected() {
    for raw in ["{}", "1", "\"text\"", "null", r#"{"type":"t","value":1}"#] {
        assert_eq!(
            parse_sensor_data_at(raw, "attic", 1).unwrap_err(),
            ParseError::NotAnArray,
            "{:?}",
            raw
        );
    }
}

#[test]
fn element_without_a_type_fails_the_whole_parse() {
    for raw in [
        r#"[{"type":"t","value":1},{"value":2}]"#,
        r#"[{"type":5,"value":2}]"#,
        r#"[7]"#,
        r#"[{}]"#,
    ] {
        assert_eq!(
            parse_sensor_data_at(raw, "attic", 1).unwrap_err(),
            ParseError::MissingType,
            "{:?}",
            raw
        );
    }
}

#[test]
fn element_without_a_value_fails_the_whole_parse() {
    for raw in [
        r#"[{"type":"t","value":1},{"type":"t"}]"#,
        r#"[{"type":"t","value":"1"}]"#,
        r#"[{"type":"t","value":null}]"#,
    ] {
        assert_eq!(
            parse_sensor_data_at(raw, "attic", 1).unwrap_err(),
            ParseError::InvalidValue,
            "{:?}",
            raw
        );
    }
}

#[test]
fn first_fault_decides_the_error() {
    let raw = r#"[{"type":"t"},{"value":1}]"#;
    assert_eq!(parse_sensor_data_at(raw, "attic", 1).unwrap_err(), ParseError::InvalidValue);
    let raw = r#"[{"value":1},{"type":"t"}]"#;
    assert_eq!(parse_sensor_data_at(raw, "attic", 1).unwrap_err(), ParseError::MissingType);
}

#[test]
fn syntax_selects_the_parser() {
    let triple = parse_at(SensorSyntax::DelimitedTriple, "<1|2|3>", "lab", 5).unwrap();
    assert_eq!(triple.len(), 3);
    let list = parse_at(SensorSyntax::TaggedList, r#"[{"type":"t","value":1}]"#, "lab", 5).unwrap();
    assert_eq!(list.len(), 1);
    assert_eq!(
        parse_at(SensorSyntax::TaggedList, "<1|2|3>", "lab", 5).unwrap_err(),
        ParseError::InvalidJson
    );
    assert_eq!(
        parse_at(SensorSyntax::DelimitedTriple, "[]", "lab", 5).unwrap_err(),
        ParseError::MissingDelimiters
    );
    assert_eq!(parse(SensorSyntax::DelimitedTriple, "<1|2|3>", "lab").unwrap().len(), 3);
}

#[test]
fn item_is_read_by_its_members() {
    let document = parse_json(r#"{"type":"co2","value":400.5,"timestamp":-7,"extra":[1,{"a":null}]}"#).unwrap();
    let point = data_point_from_item(&document, "lab", 1).unwrap();
    assert_eq!(point.get_measurement(), "co2");
    assert_eq!(value(&point), 400.5);
    assert_eq!(point.get_timestamp(), Some(-7));
}

#[test]
fn json_tree_holds_what_the_text_spells() {
    let document = parse_json(r#"{"b":[1,2.5,"x",true,null],"a":{"n":-3}}"#).unwrap();
    let list = document.get("b").unwrap().as_array().unwrap();
    assert_eq!(list.len(), 5);
    assert_eq!(list[0].as_i64(), Some(1));
    assert_eq!(list[0].as_double(), Some(1.0f64.to_bits()));
    assert_eq!(list[1].as_i64(), None);
    assert_eq!(list[1].as_double(), Some(2.5f64.to_bits()));
    assert_eq!(list[2].as_str(), Some("x"));
    assert!(matches!(list[3], Json::Bool(true)));
    assert!(matches!(list[4], Json::Null));
    assert_eq!(document.get("a").unwrap().get("n").unwrap().as_i64(), Some(-3));
    assert!(document.get("c").is_none());
    assert!(list[0].get("a").is_none());
    assert!(document.as_array().is_none());
    assert!(parse_json("{").is_none());
}

#[test]
fn parse_error_has_an_account() {
    assert_eq!(ParseError::NotAnArray.message(), "Expected a JSON array");
    assert_eq!(ParseError::MissingType.message(), "Missing 'type' field");
    assert_eq!(ParseError::InvalidValue.message(), "Invalid 'value' field");
    assert_eq!(ParseError::WrongFieldCount.to_app_error().description(), "Expected three fields");
    for error in [
        ParseError::InvalidJson,
        ParseError::MissingDelimiters,
        ParseError::InvalidNumber,
    ] {
        assert!(!error.message().is_empty());
        assert_eq!(error.to_app_error().description(), error.message());
    }
}

#[test]
fn app_error_keeps_its_message() {
    let err = AppError::new("sink unreachable");
    assert_eq!(err.description(), "sink unreachable");
}
