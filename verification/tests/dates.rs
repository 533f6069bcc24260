use grid::dates::{civil_from_days, excel_serial_to_string};

#[test]
fn civil_dates() {
    assert_eq!(civil_from_days(0), (1970, 1, 1));
    assert_eq!(civil_from_days(-1), (1969, 12, 31));
    assert_eq!(civil_from_days(59), (1970, 3, 1));
    assert_eq!(civil_from_days(11016), (2000, 2, 29));
    assert_eq!(civil_from_days(19723), (2024, 1, 1));
    assert_eq!(civil_from_days(19782), (2024, 2, 29));
    assert_eq!(civil_from_days(-719468), (0, 3, 1));
    assert_eq!(civil_from_days(-719469), (0, 2, 29));
    assert_eq!(civil_from_days(-25567), (1900, 1, 1));
    assert_eq!(civil_from_days(-25509), (1900, 2, 28));
    assert_eq!(civil_from_days(-25508), (1900, 3, 1));
}

#[test]
fn far_dates() {
    let (y, m, d) = civil_from_days(i64::MAX - 719_468);
    assert!(y > 25_000_000_000_000_000 && (1..=12).contains(&m) && (1..=31).contains(&d));
    let (y, _, _) = civil_from_days(i64::MIN);
    assert!(y < -25_000_000_000_000_000);
}

#[test]
fn days_follow_each_other() {
    let mut previous = civil_from_days(-800_000);
    for z in -799_999..800_000 {
        let date = civil_from_days(z);
        assert!(previous < date);
        let (y, m, d) = date;
        assert!(
            (y, m, d) == (previous.0, previous.1, previous.2 + 1)
                || (y, m, d) == (previous.0, previous.1 + 1, 1)
                || (y, m, d) == (previous.0 + 1, 1, 1)
        );
        previous = date;
    }
}

#[test]
fn spreadsheet_dates() {
    assert_eq!(excel_serial_to_string(Some(25569), 0), "1970-01-01");
    assert_eq!(excel_serial_to_string(Some(45292), 0), "2024-01-01");
    assert_eq!(excel_serial_to_string(Some(45292), 45000), "2024-01-01 12:30");
    assert_eq!(excel_serial_to_string(Some(1), 59), "1899-12-31 00:00");
    assert_eq!(excel_serial_to_string(None, 27000), "07:30");
    assert_eq!(excel_serial_to_string(None, 0), "00:00");
    assert_eq!(excel_serial_to_string(None, 86400), "24:00");
    assert_eq!(excel_serial_to_string(Some(2958466), 0), "10000-01-01");
}
