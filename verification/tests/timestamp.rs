use disaity::timestamp::{
    format_duration, format_duration_human, format_queue_duration, parse_timestamp,
    parse_timestamp_checked,
};

fn err(s: &str) -> Result<u64, String> {
    Err(s.to_string())
}

#[test]
fn colon_minutes_seconds() {
    assert_eq!(parse_timestamp("1:20"), Ok(80));
}

#[test]
fn colon_hours_minutes_seconds() {
    assert_eq!(parse_timestamp("1:02:30"), Ok(3750));
}

#[test]
fn plain_integer_is_seconds() {
    assert_eq!(parse_timestamp("90"), Ok(90));
}

#[test]
fn unit_suffixes() {
    assert_eq!(parse_timestamp("1m20s"), Ok(80));
    assert_eq!(parse_timestamp("1h2m3s"), Ok(3723));
    assert_eq!(parse_timestamp("45s"), Ok(45));
    assert_eq!(parse_timestamp("2h"), Ok(7200));
}

#[test]
fn trimmed_and_lower_cased() {
    assert_eq!(parse_timestamp("  2M  "), Ok(120));
    assert_eq!(parse_timestamp("1H30S"), Ok(3630));
    assert_eq!(parse_timestamp(" 1 : 20 "), Ok(80));
}

#[test]
fn numbers_separated_by_spaces_add_up() {
    assert_eq!(parse_timestamp("90 30"), Ok(120));
    assert_eq!(parse_timestamp("1m 20"), Ok(80));
}

#[test]
fn plus_sign_in_colon_part() {
    assert_eq!(parse_timestamp("+5:10"), Ok(310));
}

#[test]
fn empty_input() {
    assert_eq!(parse_timestamp(""), err("Empty time string"));
    assert_eq!(parse_timestamp("   "), err("Empty time string"));
}

#[test]
fn colon_parts_out_of_range() {
    assert_eq!(
        parse_timestamp("1:60"),
        err("Minutes/seconds must be less than 60 in colon format (use `90s` for 90 seconds).")
    );
    assert_eq!(
        parse_timestamp("1:75:00"),
        err("Minutes/seconds must be less than 60 in colon format (use `90s` for 90 seconds).")
    );
}

#[test]
fn too_many_colon_parts() {
    assert_eq!(
        parse_timestamp("1:2:3:4"),
        err("Unsupported colon format. Use MM:SS or HH:MM:SS.")
    );
}

#[test]
fn invalid_colon_part_reports_it() {
    assert_eq!(parse_timestamp("a:20"), err("Invalid number in time part: `a`"));
    assert_eq!(parse_timestamp("1:x"), err("Invalid number in time part: `x`"));
    assert_eq!(parse_timestamp("1: "), err("Invalid number in time part: ``"));
}

#[test]
fn zero_forms() {
    assert_eq!(parse_timestamp("0"), Ok(0));
    assert_eq!(parse_timestamp("0s"), Ok(0));
    assert_eq!(parse_timestamp("00"), Ok(0));
    assert_eq!(parse_timestamp("000"), Ok(0));
    assert_eq!(parse_timestamp("007"), Ok(7));
    assert_eq!(
        parse_timestamp("0 0"),
        err("Couldn't parse time. Try `1:20`, `80s`, or `1m20s`.")
    );
}

#[test]
fn unexpected_character() {
    assert_eq!(
        parse_timestamp("5x"),
        err("Unexpected character `x` in time string")
    );
}

#[test]
fn number_too_large() {
    assert_eq!(
        parse_timestamp("18446744073709551616"),
        err("Invalid number: 18446744073709551616")
    );
}

#[test]
fn unit_overflow() {
    assert_eq!(parse_timestamp("18446744073709551615h"), err("overflow"));
    assert_eq!(parse_timestamp("18446744073709551615s1s"), err("overflow"));
}

#[test]
fn checked_parse_reports_colon_overflow() {
    assert_eq!(parse_timestamp_checked("5124095576030432:00:00"), None);
    assert_eq!(parse_timestamp_checked("1:20"), Some(Ok(80)));
    assert_eq!(
        parse_timestamp_checked("18446744073709551615h"),
        Some(Err("overflow".to_string()))
    );
    assert_eq!(
        parse_timestamp_checked("5124095576030431:00:00"),
        Some(Ok(5124095576030431 * 3600))
    );
}

#[test]
fn human_clock_rendering() {
    assert_eq!(format_duration_human(3750), "1:02:30");
    assert_eq!(format_duration_human(80), "1:20");
    assert_eq!(format_duration_human(5), "0:05");
    assert_eq!(format_duration_human(36000), "10:00:00");
}

#[test]
fn track_length_rendering() {
    assert_eq!(format_duration(Some(65)), "01:05");
    assert_eq!(format_duration(Some(6000)), "100:00");
    assert_eq!(format_duration(Some(0)), "00:00");
    assert_eq!(format_duration(None), "Live/Unknown");
}

#[test]
fn queue_length_rendering() {
    assert_eq!(format_queue_duration(Some(65)), "1:05");
    assert_eq!(format_queue_duration(Some(600)), "10:00");
    assert_eq!(format_queue_duration(None), "??:??");
}

#[test]
fn parse_then_render_round_trip() {
    let secs = parse_timestamp("1:02:30").unwrap();
    assert_eq!(format_duration_human(secs), "1:02:30");
}

#[test]
fn case_and_surrounding_space_are_ignored() {
    assert_eq!(parse_timestamp("1M20S"), parse_timestamp("1m20s"));
    assert_eq!(parse_timestamp("  1m20s  "), Ok(80));
    assert_eq!(parse_timestamp("\t1:02:30 "), Ok(3750));
}

#[test]
fn unit_texts_add_up() {
    assert_eq!(parse_timestamp("1h"), Ok(3600));
    assert_eq!(parse_timestamp("30m"), Ok(1800));
    assert_eq!(parse_timestamp("1h30m"), Ok(5400));
    assert_eq!(parse_timestamp("2m10"), Ok(130));
}

#[test]
fn unit_texts_add_up_across_case_and_spaces() {
    assert_eq!(parse_timestamp("1H "), Ok(3600));
    assert_eq!(parse_timestamp(" 30m"), Ok(1800));
    assert_eq!(parse_timestamp("1H  30m"), Ok(5400));
    assert_eq!(parse_timestamp("  90  "), parse_timestamp("90"));
}
