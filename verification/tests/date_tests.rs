use viewer::date::{civil_from_days, serial_parts_to_string};

#[test]
fn civil_from_days_known_dates() {
    assert_eq!(civil_from_days(0), (1970, 1, 1));
    assert_eq!(civil_from_days(-1), (1969, 12, 31));
    assert_eq!(civil_from_days(19723), (2024, 1, 1));
    assert_eq!(civil_from_days(11016), (2000, 2, 29));
    assert_eq!(civil_from_days(11017), (2000, 3, 1));
    assert_eq!(civil_from_days(-719468), (0, 3, 1));
    assert_eq!(civil_from_days(-719469), (0, 2, 29));
    assert_eq!(civil_from_days(-25509), (1900, 2, 28));
    assert_eq!(civil_from_days(-25508), (1900, 3, 1));
}

#[test]
fn civil_from_days_walks_through_a_leap_year() {
    // 2024-02-28, -29, 2024-03-01
    assert_eq!(civil_from_days(19781), (2024, 2, 28));
    assert_eq!(civil_from_days(19782), (2024, 2, 29));
    assert_eq!(civil_from_days(19783), (2024, 3, 1));
    assert_eq!(civil_from_days(20088), (2024, 12, 31));
}

#[test]
fn civil_from_days_far_range() {
    let (y, m, d) = civil_from_days(i64::MAX - 719_468);
    assert!(y > 0 && (1..=12).contains(&m) && (1..=31).contains(&d));
    let (y, m, d) = civil_from_days(i64::MIN);
    assert!(y < 0 && (1..=12).contains(&m) && (1..=31).contains(&d));
}

#[test]
fn serial_time_only() {
    assert_eq!(serial_parts_to_string(true, 0, 3600 + 120), "01:02");
    assert_eq!(serial_parts_to_string(true, 0, 0), "00:00");
    assert_eq!(serial_parts_to_string(true, 0, 86_400), "24:00");
}

#[test]
fn serial_dates() {
    assert_eq!(serial_parts_to_string(false, 45000, 0), "2023-03-15");
    assert_eq!(serial_parts_to_string(false, 45000, 43_200), "2023-03-15 12:00");
    assert_eq!(serial_parts_to_string(false, 1, 0), "1899-12-31");
    assert_eq!(serial_parts_to_string(false, 0, 59), "1899-12-30 00:00");
    assert_eq!(serial_parts_to_string(false, 2_932_896, 0), "9929-12-29");
}

#[test]
fn serial_epoch_is_1970() {
    // serial 25569 is 1970-01-01, day 0 of civil_from_days
    assert_eq!(serial_parts_to_string(false, 25_569, 0), "1970-01-01");
    assert_eq!(civil_from_days(25_569 - 25_569), (1970, 1, 1));
    assert_eq!(serial_parts_to_string(false, 25_569, 30), "1970-01-01 00:00");
}
