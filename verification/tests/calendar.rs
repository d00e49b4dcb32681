use backup_retention::calendar::{MAX_YEAR, MIN_YEAR};
use backup_retention::{CalendarDate, Weekday};

fn leap(year: i64) -> bool {
    year.rem_euclid(4) == 0 && (year.rem_euclid(100) != 0 || year.rem_euclid(400) == 0)
}

fn month_length(year: i64, month: u32) -> u32 {
    match month {
        2 if leap(year) => 29,
        2 => 28,
        4 | 6 | 9 | 11 => 30,
        _ => 31,
    }
}

fn counted_from_year_one(year: i64, month: u32, day: u32) -> i64 {
    let past = year - 1;
    let years = 365 * past + past.div_euclid(4) - past.div_euclid(100) + past.div_euclid(400);
    let months: i64 = (1..month).map(|m| month_length(year, m) as i64).sum();
    years + months + day as i64
}

fn after_monday(offset: i64) -> Weekday {
    [
        Weekday::Mon,
        Weekday::Tue,
        Weekday::Wed,
        Weekday::Thu,
        Weekday::Fri,
        Weekday::Sat,
        Weekday::Sun,
    ][offset as usize]
}

#[test]
fn new_makes_the_days_that_the_calendar_has() {
    let date = CalendarDate::new(2020, 12, 17).unwrap();
    assert_eq!((date.year(), date.month(), date.day()), (2020, 12, 17));
    assert!(CalendarDate::new(2015, 3, 14).is_some());
    assert!(CalendarDate::new(-4, 2, 29).is_some());
    assert!(CalendarDate::new(2020, 2, 29).is_some());
    assert!(CalendarDate::new(2000, 2, 29).is_some());
}

#[test]
fn new_makes_no_day_that_the_calendar_lacks() {
    assert_eq!(CalendarDate::new(2020, 13, 1), None);
    assert_eq!(CalendarDate::new(2015, 0, 14), None);
    assert_eq!(CalendarDate::new(2015, 1, 0), None);
    assert_eq!(CalendarDate::new(2015, 2, 29), None);
    assert_eq!(CalendarDate::new(1900, 2, 29), None);
    assert_eq!(CalendarDate::new(2023, 4, 31), None);
    assert_eq!(CalendarDate::new(2023, 1, 32), None);
    assert_eq!(CalendarDate::new(2023, u32::MAX, 1), None);
    assert_eq!(CalendarDate::new(2023, 1, u32::MAX), None);
}

#[test]
fn new_agrees_with_the_lengths_of_the_months() {
    for year in [-401, -400, -100, -4, -1, 0, 1, 4, 100, 400, 1900, 2000, 2020, 2021, 2100] {
        for month in 0..=13 {
            for day in 0..=32 {
                let exists =
                    1 <= month && month <= 12 && 1 <= day && day <= month_length(year, month);
                assert_eq!(
                    CalendarDate::new(year as i32, month, day).is_some(),
                    exists,
                    "{}-{}-{}",
                    year,
                    month,
                    day
                );
            }
        }
    }
}

#[test]
fn new_stops_at_the_first_and_the_last_year() {
    assert_eq!(MIN_YEAR, -262_143);
    assert_eq!(MAX_YEAR, 262_142);
    assert!(CalendarDate::new(MIN_YEAR, 1, 1).is_some());
    assert!(CalendarDate::new(MAX_YEAR, 12, 31).is_some());
    assert_eq!(CalendarDate::new(MIN_YEAR - 1, 12, 31), None);
    assert_eq!(CalendarDate::new(MAX_YEAR + 1, 1, 1), None);
    assert_eq!(CalendarDate::new(400_000, 1, 1), None);
    assert_eq!(CalendarDate::new(-400_000, 1, 1), None);
    assert_eq!(CalendarDate::new(i32::MAX, 1, 1), None);
    assert_eq!(CalendarDate::new(i32::MIN, 1, 1), None);
}

#[test]
fn weekday_of_known_days() {
    assert_eq!(CalendarDate::new(2020, 12, 17).unwrap().weekday(), Weekday::Thu);
    assert_eq!(CalendarDate::new(2020, 12, 7).unwrap().weekday(), Weekday::Mon);
    assert_eq!(CalendarDate::new(2015, 9, 8).unwrap().weekday(), Weekday::Tue);
    assert_eq!(CalendarDate::new(-308, 3, 14).unwrap().weekday(), Weekday::Fri);
    assert_eq!(CalendarDate::new(1, 1, 1).unwrap().weekday(), Weekday::Mon);
    assert_eq!(CalendarDate::new(0, 12, 31).unwrap().weekday(), Weekday::Sun);
    assert_eq!(CalendarDate::new(1970, 1, 1).unwrap().weekday(), Weekday::Thu);
    assert_eq!(CalendarDate::new(2000, 1, 1).unwrap().weekday(), Weekday::Sat);
    assert_eq!(CalendarDate::new(2024, 2, 29).unwrap().weekday(), Weekday::Thu);
}

#[test]
fn day_number_of_known_days() {
    assert_eq!(CalendarDate::new(1, 1, 1).unwrap().day_number(), 1);
    assert_eq!(CalendarDate::new(2, 1, 1).unwrap().day_number(), 366);
    assert_eq!(CalendarDate::new(0, 1, 1).unwrap().day_number(), -365);
    assert_eq!(CalendarDate::new(0, 12, 31).unwrap().day_number(), 0);
    assert_eq!(CalendarDate::new(1970, 1, 1).unwrap().day_number(), 719_163);
    assert_eq!(CalendarDate::new(2020, 12, 17).unwrap().day_number(), 737_776);
    assert_eq!(CalendarDate::new(2020, 12, 10).unwrap().day_number(), 737_769);
}

#[test]
fn day_number_counts_every_day_once() {
    let mut expected = CalendarDate::new(1895, 1, 1).unwrap().day_number();
    for year in 1895..=2105 {
        for month in 1..=12 {
            for day in 1..=31 {
                if let Some(date) = CalendarDate::new(year, month, day) {
                    assert_eq!(date.day_number(), expected, "{:?}", date);
                    expected += 1;
                }
            }
        }
    }
}

#[test]
fn day_number_and_weekday_follow_the_count_from_year_one() {
    let mut years: Vec<i64> = (-410..=410).collect();
    years.extend(1580..=1620);
    years.extend(1890..=2110);
    years.extend(9990..=9999);
    years.extend([MIN_YEAR as i64, MIN_YEAR as i64 + 1, -100_000, 100_000, MAX_YEAR as i64]);
    for year in years {
        for month in 1..=12 {
            for day in 1..=month_length(year, month) {
                let date = CalendarDate::new(year as i32, month, day).unwrap();
                let counted = counted_from_year_one(year, month, day);
                assert_eq!(date.day_number() as i64, counted, "{:?}", date);
                assert_eq!(date.weekday(), after_monday((counted - 1).rem_euclid(7)), "{:?}", date);
            }
        }
    }
}

#[test]
fn weekdays_follow_one_another() {
    let week = [
        Weekday::Thu,
        Weekday::Fri,
        Weekday::Sat,
        Weekday::Sun,
        Weekday::Mon,
        Weekday::Tue,
        Weekday::Wed,
    ];
    for day in 17..=30 {
        let date = CalendarDate::new(2020, 12, day).unwrap();
        assert_eq!(date.weekday(), week[((day - 17) % 7) as usize]);
    }
}
