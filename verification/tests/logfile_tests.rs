use rapidcron::logfile::{date_stamp, log_file_name};

#[test]
fn date_stamp_pads_with_zeros() {
    assert_eq!(date_stamp(2024, 3, 7), "2024-03-07");
    assert_eq!(date_stamp(1999, 12, 31), "1999-12-31");
    assert_eq!(date_stamp(987, 10, 1), "0987-10-01");
    assert_eq!(date_stamp(0, 0, 0), "0000-00-00");
    assert_eq!(date_stamp(5, 5, 5), "0005-05-05");
}

#[test]
fn date_stamp_writes_long_and_negative_years_in_full() {
    assert_eq!(date_stamp(12345, 1, 2), "12345-01-02");
    assert_eq!(date_stamp(-5, 1, 2), "-005-01-02");
    assert_eq!(date_stamp(-1234, 1, 2), "-1234-01-02");
    assert_eq!(date_stamp(i32::MAX, 255, 100), "2147483647-255-100");
    assert_eq!(date_stamp(i32::MIN, 9, 10), "-2147483648-09-10");
}

#[test]
fn date_stamp_agrees_with_the_formatter() {
    let years = [i32::MIN, -10_000, -9_999, -1_000, -999, -100, -99, -10, -9, -1, 0, 1, 9, 10, 99,
        100, 999, 1_000, 2_026, 9_999, 10_000, 99_999, i32::MAX];
    for y in years {
        for m in [0u8, 1, 9, 10, 12, 99, 100, 255] {
            for d in [0u8, 1, 9, 10, 28, 31, 99, 100, 255] {
                assert_eq!(date_stamp(y, m, d), format!("{:04}-{:02}-{:02}", y, m, d));
            }
        }
    }
}

#[test]
fn log_file_is_named_after_the_day() {
    assert_eq!(log_file_name(2026, 10, 28), "2026-10-28.log");
    assert_eq!(log_file_name(2024, 2, 9), "2024-02-09.log");
}
