use ozendb::numbers::parse_i64;
use ozendb::value::json_string;

#[test]
fn integers_parse_as_std_parses_them() {
    for text in ["0", "42", "+7", "-7", "007", "9223372036854775807", "-9223372036854775808", "9223372036854775808",
        "-9223372036854775809", "99999999999999999999999", "", "-", "+", "1 ", " 1", "12a", "1.0", "--1", "٣"] {
        assert_eq!(parse_i64(text), text.parse::<i64>().ok(), "{text:?}");
    }
}

#[test]
fn strings_are_written_as_serde_json_writes_them() {
    for text in ["plain", "say \"hi\"", "back\\slash", "tab\there", "line\nbreak\r", "\u{1}\u{1f}\u{7f}", "é€🎉", "\u{8}\u{c}", ""] {
        assert_eq!(json_string(text), serde_json::to_string(text).unwrap(), "{text:?}");
    }
}
