use policysql::formats::{
    basic_date, basic_datetime, basic_email, basic_uuid, valid_date, valid_datetime, valid_email,
    valid_uuid,
};

#[test]
fn dates_follow_the_calendar() {
    assert!(basic_date("2024-02-29"));
    assert!(!basic_date("2023-02-29"));
    assert!(basic_date("2000-02-29"));
    assert!(!basic_date("1900-02-29"));
    assert!(!basic_date("2024-04-31"));
    assert!(!basic_date("2024-13-01"));
    assert!(!basic_date("2024-1-01"));
    assert!(valid_date("2024-12-31"));
    assert!(!valid_date("2024-00-10"));
}

#[test]
fn datetimes_need_a_valid_clock_and_offset_rule() {
    assert!(basic_datetime("2024-01-02 03:04:05", false));
    assert!(basic_datetime("2024-01-02T03:04:05.123", false));
    assert!(!basic_datetime("2024-01-02T24:00:00", false));
    assert!(!basic_datetime("2024-01-02T03:04:05Z", false));
    assert!(basic_datetime("2024-01-02T03:04:05Z", true));
    assert!(basic_datetime("2024-01-02T03:04:05+05:30", true));
    assert!(!basic_datetime("2024-01-02T03:04:05+24:00", true));
    assert!(!basic_datetime("2024-01-02T03:04:05z", true));
    assert!(valid_datetime("2024-01-02T03:04:05z", true));
    assert!(!valid_datetime("2024-01-02T03:04:05.", false));
}

#[test]
fn uuids_are_hyphenated_hex() {
    assert!(basic_uuid("123e4567-e89b-12d3-a456-426614174000"));
    assert!(valid_uuid("123E4567-E89B-12D3-A456-426614174000"));
    assert!(!basic_uuid("123e4567e89b12d3a456426614174000"));
    assert!(!valid_uuid("123e4567-e89b-12d3-a456-42661417400g"));
}

#[test]
fn emails_split_at_the_first_at_sign() {
    assert!(basic_email("a@b.c"));
    assert!(!basic_email("@b.c"));
    assert!(!basic_email("a@bc"));
    assert!(valid_email("user@example.com"));
    assert!(!valid_email("user@.example.com"));
    assert!(!valid_email("user@example.com."));
    assert!(!valid_email("us er@example.com"));
    assert!(!valid_email("userexample.com"));
}
