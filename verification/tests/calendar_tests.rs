use xmahjong::calendar::{current_date_string, days_to_date, format_date};

#[test]
fn epoch_is_first_of_january_1970() {
    assert_eq!(days_to_date(0), (1970, 1, 1));
    assert_eq!(days_to_date(1), (1970, 1, 2));
    assert_eq!(days_to_date(31), (1970, 2, 1));
    assert_eq!(days_to_date(364), (1970, 12, 31));
    assert_eq!(days_to_date(365), (1971, 1, 1));
}

#[test]
fn leap_days_are_counted() {
    assert_eq!(days_to_date(19723), (2024, 1, 1));
    assert_eq!(days_to_date(19781), (2024, 2, 28));
    assert_eq!(days_to_date(19782), (2024, 2, 29));
    assert_eq!(days_to_date(19783), (2024, 3, 1));
    assert_eq!(days_to_date(10956), (1999, 12, 31));
    assert_eq!(days_to_date(11016), (2000, 2, 29));
    assert_eq!(days_to_date(11017), (2000, 3, 1));
}

// 2100 is not a leap year: February ends on the 28th.
#[test]
fn century_years_skip_the_leap_day() {
    // Days from 1970-01-01 to 2100-03-01.
    let march_first_2100 = 47541u64;
    assert_eq!(days_to_date(march_first_2100 - 1), (2100, 2, 28));
    assert_eq!(days_to_date(march_first_2100), (2100, 3, 1));
}

#[test]
fn dates_are_written_zero_padded() {
    assert_eq!(format_date(2024, 3, 5), "2024-03-05");
    assert_eq!(format_date(987, 11, 30), "0987-11-30");
    assert_eq!(format_date(12345, 1, 1), "12345-01-01");
}

#[test]
fn today_has_the_date_shape() {
    let today = current_date_string();
    assert_eq!(today.len(), 10);
    let bytes = today.as_bytes();
    assert_eq!(bytes[4], b'-');
    assert_eq!(bytes[7], b'-');
    assert!(today[..4].parse::<u32>().unwrap() >= 2024);
}

/// The day after `date` by the Gregorian calendar.
fn day_after(date: (u32, u32, u32)) -> (u32, u32, u32) {
    let (y, m, d) = date;
    let leap = y % 4 == 0 && (y % 100 != 0 || y % 400 == 0);
    let len = match m {
        2 => if leap { 29 } else { 28 },
        4 | 6 | 9 | 11 => 30,
        _ => 31,
    };
    if d < len {
        (y, m, d + 1)
    } else if m < 12 {
        (y, m + 1, 1)
    } else {
        (y + 1, 1, 1)
    }
}

#[test]
fn consecutive_day_numbers_give_consecutive_dates() {
    for n in (0u64..800).chain(10900..11100).chain(47400..47600) {
        assert_eq!(days_to_date(n + 1), day_after(days_to_date(n)), "day {}", n);
    }
    assert_eq!(days_to_date(10957), (2000, 1, 1));
}
