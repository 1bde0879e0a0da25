use capture_core::stamp::TimeParts;
use capture_core::stamp::local_time_now;
use capture_core::stamp::recording_filename;

fn parts(year: i32, month: u32, day: u32, hour: u32, minute: u32, second: u32) -> TimeParts {
    TimeParts { year, month, day, hour, minute, second }
}

#[test]
fn filename_from_ordinary_time() {
    let name = recording_filename(&parts(2026, 1, 2, 3, 4, 5));
    assert_eq!(name, "recording_20260102_030405.wav");
}

#[test]
fn filename_pads_every_field() {
    let name = recording_filename(&parts(999, 12, 31, 23, 59, 59));
    assert_eq!(name, "recording_09991231_235959.wav");
    let name = recording_filename(&parts(7, 10, 9, 0, 0, 0));
    assert_eq!(name, "recording_00071009_000000.wav");
}

#[test]
fn filename_with_wide_and_negative_years() {
    let name = recording_filename(&parts(12345, 6, 7, 8, 9, 10));
    assert_eq!(name, "recording_123450607_080910.wav");
    let name = recording_filename(&parts(-44, 3, 15, 12, 0, 1));
    assert_eq!(name, "recording_-00440315_120001.wav");
}

#[test]
fn clock_returns_calendar_ranges() {
    let t = local_time_now();
    assert!((1..=12).contains(&t.month));
    assert!((1..=31).contains(&t.day));
    assert!(t.hour <= 23);
    assert!(t.minute <= 59);
    assert!(t.second <= 59);
    // A wall clock on a deployed machine reads a contemporary year.
    assert!(t.year >= 2020);
}
