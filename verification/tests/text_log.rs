use core_engine::log::{format_line, Level};
use core_engine::text::u64_to_decimal;

#[test]
fn log_line_is_one_escaped_json_object() {
    let line = format_line(12, Level::Warn, "say \"hi\"\n", &[("node", "a\\b".to_string())]);

    assert_eq!(line, "{\"ts\":12,\"level\":\"warn\",\"msg\":\"say \\\"hi\\\"\\n\",\"node\":\"a\\\\b\"}");
}

#[test]
fn decimals_are_written_in_base_ten() {
    assert_eq!(u64_to_decimal(0), "0");
    assert_eq!(u64_to_decimal(1234), "1234");
    assert_eq!(u64_to_decimal(u64::MAX), "18446744073709551615");
}
