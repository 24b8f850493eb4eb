use tracklog::backup::new_backup_archive_name;
use tracklog::clock::{
    compact_stamp, now_iso, padded_text, rfc3339_text, utc_now, utc_time_of, year_string, UtcTime,
};

fn at(year: i32, nanosecond: u32) -> UtcTime {
    UtcTime { year, month: 3, day: 7, hour: 9, minute: 5, second: 2, nanosecond }
}

#[test]
fn compact_stamps() {
    assert_eq!(compact_stamp(&at(2024, 0)), "20240307-090502");
    assert_eq!(compact_stamp(&at(987, 0)), "09870307-090502");
    assert_eq!(compact_stamp(&at(12345, 0)), "+123450307-090502");
    assert_eq!(compact_stamp(&at(-44, 0)), "-00440307-090502");
}

#[test]
fn rfc3339_stamps() {
    assert_eq!(rfc3339_text(&at(2024, 0)), "2024-03-07T09:05:02+00:00");
    assert_eq!(rfc3339_text(&at(2024, 120_000_000)), "2024-03-07T09:05:02.120+00:00");
    assert_eq!(rfc3339_text(&at(2024, 5_000)), "2024-03-07T09:05:02.000005+00:00");
    assert_eq!(rfc3339_text(&at(2024, 7)), "2024-03-07T09:05:02.000000007+00:00");
}

#[test]
fn padding_and_years() {
    assert_eq!(padded_text(7, 2), "07");
    assert_eq!(padded_text(123, 2), "123");
    assert_eq!(year_string(0), "0000");
    assert_eq!(year_string(10000), "+10000");
    assert_eq!(year_string(-1), "-0001");
}

#[test]
fn clock_readings_are_well_formed() {
    let t = utc_now();
    assert!(t.year >= 2020);
    assert!((1..=12).contains(&t.month));
    let iso = now_iso();
    assert!(iso.ends_with("+00:00"));
    assert_eq!(&iso[4..5], "-");
    assert_eq!(&iso[10..11], "T");
    let name = new_backup_archive_name();
    assert!(name.starts_with("tracklog-backup-"));
    assert!(name.ends_with(".zip"));
    let stamp = &name["tracklog-backup-".len()..name.len() - 4];
    assert_eq!(stamp.len(), 15);
    assert_eq!(&stamp[8..9], "-");
    assert!(stamp.chars().enumerate().all(|(i, c)| i == 8 || c.is_ascii_digit()));
}

#[test]
fn clock_readings_become_dates() {
    let t = utc_time_of(Ok((365 * 86400 + 3661, 5)));
    assert_eq!((t.year, t.month, t.day, t.hour, t.minute, t.second, t.nanosecond), (1971, 1, 1, 1, 1, 1, 5));
    let before = utc_time_of(Err((1, 0)));
    assert_eq!((before.year, before.month, before.day, before.hour, before.minute, before.second), (1969, 12, 31, 23, 59, 59));
    let fraction = utc_time_of(Err((0, 500)));
    assert_eq!((fraction.second, fraction.nanosecond), (59, 999_999_500));
    let huge = utc_time_of(Ok((u64::MAX, 0)));
    assert_eq!((huge.year, huge.month, huge.day, huge.hour), (1970, 1, 1, 0));
    assert_eq!(rfc3339_text(&utc_time_of(Ok((1_700_000_000, 0)))), "2023-11-14T22:13:20+00:00");
    assert_eq!(compact_stamp(&utc_time_of(Ok((1_700_000_000, 0)))), "20231114-221320");
}
