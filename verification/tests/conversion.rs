use beat_times::pipeline::{convert, ConvertError};
use beat_times::reader::{parse_line, parse_millis, Beat};
use beat_times::timestamp::{millis_to_string, u64_to_string};

#[test]
fn millis_to_string_convetrs_ok() {
    assert_eq!(millis_to_string(12).unwrap_or_default(), "00:00:00.012");
    assert_eq!(millis_to_string(123).unwrap_or_default(), "00:00:00.123");
    assert_eq!(
        millis_to_string((60 * 2 + 3) * 1000 + 123).unwrap_or_default(),
        "00:02:03.123"
    );
    assert_eq!(
        millis_to_string((3600 * 22 + 60 * 54 + 31) * 1000 + 60).unwrap_or_default(),
        "22:54:31.060"
    );
    assert_eq!(
        millis_to_string((86400 * 2 + 3600 * 3 + 60 * 41 + 11) * 1000 + 60).unwrap_or_default(),
        ""
    );
    assert_eq!(millis_to_string(0).unwrap_or_default(), "");
}

#[test]
fn millis_to_string_rejects_out_of_range() {
    assert!(millis_to_string(0).is_none());
    assert!(millis_to_string(86_400_001).is_none());
    assert!(millis_to_string(u128::MAX).is_none());
    assert!(millis_to_string(1).is_some());
    assert!(millis_to_string(86_400_000).is_some());
}

#[test]
fn millis_to_string_wraps_full_day_to_midnight() {
    assert_eq!(millis_to_string(86_400_000).unwrap(), "00:00:00.000");
}

#[test]
fn formatted_string_re_derives_its_millis() {
    for &m in &[1u128, 12, 999, 1000, 123_123, 81_271_060, 86_399_999] {
        let s = millis_to_string(m).unwrap();
        assert_eq!(s.len(), 12);
        let h: u128 = s[0..2].parse().unwrap();
        let mi: u128 = s[3..5].parse().unwrap();
        let se: u128 = s[6..8].parse().unwrap();
        let ms: u128 = s[9..12].parse().unwrap();
        assert_eq!(h * 3_600_000 + mi * 60_000 + se * 1_000 + ms, m);
    }
}

#[test]
fn one_record_converts_end_to_end() {
    let r = convert("1.5\t2.0\tA");
    assert_eq!(r.unwrap(), "00:00:01.500 0\n");
}

#[test]
fn one_record_with_trailing_newline_converts_the_same() {
    let r = convert("1.5\t2.0\tA\n");
    assert_eq!(r.unwrap(), "00:00:01.500 0\n");
}

#[test]
fn one_record_with_crlf_converts_the_same() {
    let r = convert("1.5\t2.0\tA\r\n");
    assert_eq!(r.unwrap(), "00:00:01.500 0\n");
}

#[test]
fn two_fields_fail_with_parse_error_at_index_zero() {
    let r = convert("1.5\t2.0");
    assert_eq!(r.unwrap_err(), ConvertError::Parse { index: 0 });
}

#[test]
fn several_records_keep_their_order_and_indices() {
    let r = convert("1.5\t2.0\tA\n2.25\t3.0\tB\n0.012\t1.0\tC\n");
    assert_eq!(r.unwrap(), "00:00:01.500 0\n00:00:02.250 1\n00:00:00.012 2\n");
}

#[test]
fn failure_on_a_later_record_names_its_index() {
    let r = convert("1.5\t2.0\tA\nnot-a-number\t3.0\tB\n");
    assert_eq!(r.unwrap_err(), ConvertError::Parse { index: 1 });
}

#[test]
fn zero_start_time_fails_with_range_error() {
    let r = convert("0.0\t1.0\tA");
    assert_eq!(r.unwrap_err(), ConvertError::Range { index: 0 });
}

#[test]
fn start_time_just_over_a_day_fails_with_range_error() {
    let r = convert("86400.001\t0.0\tA");
    assert_eq!(r.unwrap_err(), ConvertError::Range { index: 0 });
}

#[test]
fn start_time_of_exactly_a_day_wraps_to_midnight() {
    let r = convert("86400.0\t0.0\tA");
    assert_eq!(r.unwrap(), "00:00:00.000 0\n");
}

#[test]
fn enormous_start_time_fails_with_range_error() {
    let r = convert("999999999999999999999999.0\t0.0\tA");
    assert_eq!(r.unwrap_err(), ConvertError::Range { index: 0 });
}

#[test]
fn empty_input_yields_empty_output() {
    assert_eq!(convert("").unwrap(), "");
}

#[test]
fn blank_line_fails_with_parse_error() {
    let r = convert("1.5\t2.0\tA\n\n");
    assert_eq!(r.unwrap_err(), ConvertError::Parse { index: 1 });
}

#[test]
fn negative_start_time_fails_with_parse_error() {
    let r = convert("-1.5\t2.0\tA");
    assert_eq!(r.unwrap_err(), ConvertError::Parse { index: 0 });
}

#[test]
fn parse_millis_truncates_fractional_milliseconds() {
    assert_eq!(parse_millis("1.2345").unwrap(), 1234);
    assert_eq!(parse_millis("0.0009").unwrap(), 0);
    assert_eq!(parse_millis("1.5").unwrap(), 1500);
}

#[test]
fn parse_millis_accepts_bare_and_fractional_forms() {
    assert_eq!(parse_millis("2").unwrap(), 2000);
    assert_eq!(parse_millis("1.").unwrap(), 1000);
    assert_eq!(parse_millis(".5").unwrap(), 500);
    assert_eq!(parse_millis("0").unwrap(), 0);
}

#[test]
fn parse_millis_rejects_malformed_numerals() {
    assert!(parse_millis("").is_none());
    assert!(parse_millis(".").is_none());
    assert!(parse_millis("1e3").is_none());
    assert!(parse_millis("-1").is_none());
    assert!(parse_millis("1.2.3").is_none());
    assert!(parse_millis("1 ").is_none());
}

#[test]
fn parse_millis_saturates_above_one_day() {
    assert_eq!(parse_millis("86400.001").unwrap(), 86_400_001);
    assert_eq!(parse_millis("86401").unwrap(), 86_400_001);
    assert_eq!(parse_millis("18446744073709551616").unwrap(), 86_400_001);
}

#[test]
fn parse_line_reads_all_three_fields() {
    let b = parse_line("1.5\t2.0\tA").unwrap();
    assert_eq!(
        b,
        Beat { start_millis: 1500, stop_millis: 2000, b_type: 'A' }
    );
}

#[test]
fn parse_line_rejects_wrong_field_counts_and_shapes() {
    assert!(parse_line("1.5\t2.0").is_none());
    assert!(parse_line("1.5\t2.0\tA\t9").is_none());
    assert!(parse_line("1.5\t2.0\tAB").is_none());
    assert!(parse_line("1.5\t2.0\t").is_none());
    assert!(parse_line("1.5\tx\tA").is_none());
    assert!(parse_line("").is_none());
}

#[test]
fn u64_to_string_writes_plain_decimal() {
    assert_eq!(u64_to_string(0), "0");
    assert_eq!(u64_to_string(10), "10");
    assert_eq!(u64_to_string(907), "907");
}
