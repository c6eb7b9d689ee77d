use deepmind_patches::calendar::{civil_date, date_text, timestamp_text, year_of_century};

#[test]
fn civil_dates() {
    assert_eq!(civil_date(0), (1970, 1, 1));
    assert_eq!(civil_date(86_399), (1970, 1, 1));
    assert_eq!(civil_date(86_400), (1970, 1, 2));
    // 2000-02-29 and 2000-03-01, across a leap day in a leap century.
    assert_eq!(civil_date(951_782_400), (2000, 2, 29));
    assert_eq!(civil_date(951_868_800), (2000, 3, 1));
    // 2026-09-21T10:31:07Z.
    assert_eq!(civil_date(1_789_986_667), (2026, 9, 21));
    assert_eq!(civil_date(4_102_444_800), (2100, 1, 1));
}

#[test]
fn timestamps_are_rfc3339_to_the_second() {
    assert_eq!(timestamp_text(1_789_986_667), "2026-09-21T10:31:07Z");
    assert_eq!(timestamp_text(0), "1970-01-01T00:00:00Z");
    assert_eq!(date_text(951_782_400), "2000-02-29");
    assert_eq!(year_of_century(1_789_986_667), 26);
    assert_eq!(year_of_century(4_102_444_800), 0);
}

#[test]
fn a_century_year_without_a_leap_day() {
    // 2100-02-28 is followed by 2100-03-01.
    assert_eq!(civil_date(4_107_456_000), (2100, 2, 28));
    assert_eq!(civil_date(4_107_542_400), (2100, 3, 1));
    // The last second of a year.
    assert_eq!(civil_date(1_767_225_599), (2025, 12, 31));
}
