use hsmusicifier::duration::{get_duration_in_seconds, parse_number};

#[test]
fn duration_of_minutes_and_seconds() {
    assert_eq!(get_duration_in_seconds("0:00"), 0);
    assert_eq!(get_duration_in_seconds("3:25"), 205);
    assert_eq!(get_duration_in_seconds("12:05"), 725);
    assert_eq!(get_duration_in_seconds("0:59"), 59);
}

#[test]
fn duration_of_hours_minutes_and_seconds() {
    assert_eq!(get_duration_in_seconds("1:02:03"), 3723);
    assert_eq!(get_duration_in_seconds("0:00:01"), 1);
    assert_eq!(get_duration_in_seconds("2:00:00"), 7200);
}

#[test]
fn duration_of_another_count_of_parts_is_zero() {
    assert_eq!(get_duration_in_seconds("45"), 0);
    assert_eq!(get_duration_in_seconds("1:2:3:4"), 0);
    assert_eq!(get_duration_in_seconds(""), 0);
}

#[test]
fn duration_with_a_part_that_is_no_number_is_zero() {
    assert_eq!(get_duration_in_seconds("a:10"), 0);
    assert_eq!(get_duration_in_seconds("1:"), 0);
    assert_eq!(get_duration_in_seconds(":30"), 0);
    assert_eq!(get_duration_in_seconds("1:-5"), 0);
    assert_eq!(get_duration_in_seconds(" 1:00"), 0);
    assert_eq!(get_duration_in_seconds("1:0x"), 0);
}

#[test]
fn duration_does_not_cap_minutes_or_seconds() {
    assert_eq!(get_duration_in_seconds("90:75"), 5475);
    assert_eq!(get_duration_in_seconds("+1:30"), 90);
}

#[test]
fn duration_beyond_the_range_is_zero() {
    assert_eq!(get_duration_in_seconds("18446744073709551615:00"), 0);
    assert_eq!(get_duration_in_seconds("0:18446744073709551615"), u64::MAX);
    assert_eq!(get_duration_in_seconds("1:18446744073709551615"), 0);
    assert_eq!(get_duration_in_seconds("0:18446744073709551616"), 0);
}

#[test]
fn number_agrees_with_std() {
    for text in ["0", "7", "007", "+5", "", "+", "-1", "1 ", "12a", "18446744073709551615",
        "18446744073709551616", "99999999999999999999999", "++1", "٣"]
    {
        assert_eq!(parse_number(text), text.parse::<u64>().ok(), "{:?}", text);
    }
}
