use aero_sensor_broker::arduino::{
    decode_reading, find_and_validate_arduino, is_pong, is_time_acknowledged, is_valid_data,
    normalize_product_name, read_data_step, set_time, trim, ReadStep,
};
use aero_sensor_broker::routes::handle_health;
use aero_sensor_broker::text::{chars_of, format_decimal, str_contains, str_lt};

#[test]
fn product_name_is_normalized() {
    assert_eq!(normalize_product_name("Arduino Uno"), "arduinouno");
    assert_eq!(normalize_product_name("ARDUINO_Nano-33 BLE"), "arduinonano33ble");
    assert_eq!(normalize_product_name(" -_"), "");
    assert_eq!(normalize_product_name(""), "");
    assert_eq!(normalize_product_name("Ünö–R3"), "ünö–r3");
}

#[test]
fn device_is_the_first_port_with_its_product() {
    let products = vec![
        None,
        Some("FT232R USB UART".to_string()),
        Some("arduino-uno".to_string()),
        Some("Arduino Uno".to_string()),
    ];
    assert_eq!(find_and_validate_arduino(&products, "Arduino_UNO"), Some(2));
    assert_eq!(find_and_validate_arduino(&products, "ft232r usb uart"), Some(1));
    assert_eq!(find_and_validate_arduino(&products, "Arduino Mega"), None);
    assert_eq!(find_and_validate_arduino(&Vec::new(), "Arduino Uno"), None);
}

#[test]
fn message_is_valid_when_every_element_has_type_and_value() {
    assert!(is_valid_data(r#"[{"type":"temperature","value":20.5}]"#));
    assert!(is_valid_data(r#"[{"type":1,"value":null,"timestamp":3},{"value":1,"type":"h"}]"#));
    assert!(is_valid_data("[]"));
    assert!(!is_valid_data(r#"[{"type":"temperature"}]"#));
    assert!(!is_valid_data(r#"[{"value":20.5}]"#));
    assert!(!is_valid_data(r#"[{"type":"t","value":1}, 5]"#));
    assert!(!is_valid_data(r#"{"type":"t","value":1}"#));
    assert!(!is_valid_data("<20.5|55.0|12.0>"));
    assert!(!is_valid_data(""));
}

#[test]
fn read_step_follows_the_attempt() {
    assert!(matches!(read_data_step(None), ReadStep::Wait));
    assert!(matches!(read_data_step(Some("garbage".to_string())), ReadStep::Retry));
    let message = r#"[{"type":"t","value":1}]"#;
    match read_data_step(Some(message.to_string())) {
        ReadStep::Deliver(data) => assert_eq!(data, message),
        other => panic!("{:?}", other),
    }
}

#[test]
fn reading_is_decoded_and_trimmed() {
    assert_eq!(decode_reading(b"  [1,2]\r\n".to_vec()), Some("[1,2]".to_string()));
    assert_eq!(decode_reading(Vec::new()), Some(String::new()));
    assert_eq!(decode_reading("\u{a0}gr\u{fc}n \t".as_bytes().to_vec()), Some("gr\u{fc}n".to_string()));
    assert_eq!(decode_reading(vec![0xff, 0xfe]), None);
}

#[test]
fn trim_removes_white_space_at_both_ends_only() {
    assert_eq!(trim("  a b \n"), "a b");
    assert_eq!(trim("a"), "a");
    assert_eq!(trim(" \t\r\n"), "");
    assert_eq!(trim(""), "");
    assert_eq!(trim("\u{2003}x\u{3000}"), "x");
}

#[test]
fn pong_is_recognized() {
    assert!(is_pong("PONG"));
    assert!(is_pong("PONG\r\n"));
    assert!(is_pong("  PONG "));
    assert!(!is_pong("pong"));
    assert!(!is_pong("PONG!"));
    assert!(!is_pong(""));
}

#[test]
fn set_time_sends_command_and_timestamp() {
    assert_eq!(
        set_time(1_700_000_000_123),
        ("SET_TIME\n".to_string(), "1700000000123\n".to_string())
    );
    assert_eq!(set_time(-5).1, "-5\n");
}

#[test]
fn time_acknowledgement_is_recognized() {
    assert!(is_time_acknowledged("New timestamp received and set: 1700000000123", 1_700_000_000_123));
    assert!(is_time_acknowledged("ok\nNew timestamp received and set: 42\n\0\0", 42));
    assert!(is_time_acknowledged("New timestamp received and set: 421", 42));
    assert!(!is_time_acknowledged("New timestamp received and set: 41", 42));
    assert!(!is_time_acknowledged("New timestamp received and set: ", 42));
    assert!(!is_time_acknowledged("", 42));
}

#[test]
fn decimal_spelling_matches_the_standard_one() {
    for n in [0, 1, 9, 10, 11, 99, 100, 12345, -1, -10, -907, i64::MAX, i64::MIN, i64::MIN + 1] {
        assert_eq!(format_decimal(n), n.to_string());
    }
}

#[test]
fn search_finds_the_needle_anywhere() {
    assert!(str_contains("haystack", "hay"));
    assert!(str_contains("haystack", "stack"));
    assert!(str_contains("haystack", "yst"));
    assert!(str_contains("haystack", ""));
    assert!(str_contains("", ""));
    assert!(str_contains("aab", "ab"));
    assert!(!str_contains("haystack", "needle"));
    assert!(!str_contains("hay", "haystack"));
    assert!(!str_contains("", "a"));
    assert!(str_contains("gr\u{fc}n", "\u{fc}n"));
}

#[test]
fn names_are_ordered_as_strings_are() {
    let names = ["", "a", "A", "ab", "b", "temperature", "temp", "\u{e9}", "z", "humidity", "\u{1f600}"];
    for a in names {
        for b in names {
            assert_eq!(str_lt(a, b), a < b, "{:?} {:?}", a, b);
        }
    }
}

#[test]
fn chars_are_listed_in_order() {
    assert_eq!(chars_of("a\u{fc}b"), vec!['a', '\u{fc}', 'b']);
    assert!(chars_of("").is_empty());
}

#[test]
fn health_is_good_only_when_both_are() {
    assert_eq!(handle_health(true, true), "healthy");
    assert_eq!(handle_health(true, false), "unhealthy");
    assert_eq!(handle_health(false, true), "unhealthy");
    assert_eq!(handle_health(false, false), "unhealthy");
}
