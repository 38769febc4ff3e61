use dates_str::errors::DateErrors;
use dates_str::impls::Into;
use dates_str::{DateStr, Day, Month, Year};

fn date(year: u64, month: u8, day: u8) -> DateStr {
    DateStr::new(
        Year::new(year),
        Month::new(month).unwrap(),
        Day::new(day).unwrap(),
    )
    .unwrap()
}

#[test]
fn test_iso_str() {
    let some_date: DateStr = DateStr::from_iso_str("2022-11-16");
    assert_eq!(some_date.to_string(), "2022-11-16".to_owned());
}

#[test]
fn trait_to_date() {
    let date: DateStr = "2023-01-02".to_datestr();
    assert_eq!(
        date,
        DateStr::new(
            Year::new(2023),
            Month::new(1).unwrap(),
            Day::new(2).unwrap()
        )
        .unwrap()
    );
}

#[test]
#[should_panic]
fn check_feb_day_oobp() {
    let _date: DateStr = "2023-02-30".to_datestr();
}

#[test]
#[should_panic]
fn check_31_day_oobp() {
    let _date: DateStr = "2023-04-31".to_datestr();
}

#[test]
#[should_panic]
fn check_32_day_oobp() {
    let _date: DateStr = "2023-01-32".to_datestr();
}

#[test]
#[should_panic]
fn check_month_oobp() {
    let _date: DateStr = "2023-55-02".to_datestr();
}

#[test]
fn check_day_oob() {
    let date: Result<DateStr, DateErrors> = "2023-12-32".try_to_datestr();
    assert!(date.is_err());
}

#[test]
fn check_month_oob() {
    let date: Result<DateStr, DateErrors> = "2023-55-02".try_to_datestr();
    assert!(date.is_err());
}

#[test]
fn check_negative_day_oob() {
    let date: Result<DateStr, DateErrors> = "2023-12--3".try_to_datestr();
    assert!(date.is_err());
}

#[test]
fn check_negative_month_oob() {
    let date: Result<DateStr, DateErrors> = "2023--11-02".try_to_datestr();
    assert!(date.is_err());
}

#[test]
fn check_zero_day_oob() {
    let date: Result<DateStr, DateErrors> = "2023-12-0".try_to_datestr();
    assert!(date.is_err());
}

#[test]
fn check_zero_month_oob() {
    let date: Result<DateStr, DateErrors> = "2023-0-02".try_to_datestr();
    assert!(date.is_err());
}

#[test]
fn month_accepts_one_to_twelve_and_keeps_the_number() {
    for value in 1..=12u8 {
        assert_eq!(Month::new(value).unwrap().value(), value);
    }
}

#[test]
fn month_refuses_every_other_number_and_names_it() {
    for value in 0..=255u8 {
        if (1..=12).contains(&value) {
            continue;
        }
        match Month::new(value) {
            Err(DateErrors::InvalidMonth { month }) => assert_eq!(month, value),
            other => panic!("{:?}", other),
        }
    }
}

#[test]
fn day_accepts_one_to_thirty_one_and_refuses_the_rest() {
    for value in 0..=255u8 {
        match Day::new(value) {
            Ok(day) => {
                assert!((1..=31).contains(&value));
                assert_eq!(day.value(), value);
            }
            Err(DateErrors::InvalidDay { day }) => {
                assert!(!(1..=31).contains(&value));
                assert_eq!(day, value);
            }
            Err(other) => panic!("{:?}", other),
        }
    }
}

#[test]
fn year_takes_any_number() {
    assert_eq!(Year::new(0).value(), 0);
    assert_eq!(Year::new(12345).value(), 12345);
    assert_eq!(Year::new(u64::MAX).value(), u64::MAX);
}

#[test]
fn long_months_take_every_day() {
    for month in [1u8, 3, 5, 7, 8, 10, 12] {
        for day in 1..=31u8 {
            let made = DateStr::new(
                Year::new(2023),
                Month::new(month).unwrap(),
                Day::new(day).unwrap(),
            )
            .unwrap();
            assert_eq!(made.year().value(), 2023);
            assert_eq!(made.month().value(), month);
            assert_eq!(made.day().value(), day);
        }
    }
}

#[test]
fn february_has_twenty_nine_days() {
    assert!(DateStr::new(Year::new(2023), Month::new(2).unwrap(), Day::new(29).unwrap()).is_ok());
    match DateStr::new(Year::new(2023), Month::new(2).unwrap(), Day::new(30).unwrap()) {
        Err(DateErrors::InvalidDay { day }) => assert_eq!(day, 30),
        other => panic!("{:?}", other),
    }
    match DateStr::new(Year::new(2024), Month::new(2).unwrap(), Day::new(31).unwrap()) {
        Err(DateErrors::InvalidDay { day }) => assert_eq!(day, 31),
        other => panic!("{:?}", other),
    }
}

#[test]
fn short_months_have_thirty_days() {
    for month in [4u8, 6, 9, 11] {
        assert!(DateStr::new(
            Year::new(2023),
            Month::new(month).unwrap(),
            Day::new(30).unwrap()
        )
        .is_ok());
        match DateStr::new(
            Year::new(2023),
            Month::new(month).unwrap(),
            Day::new(31).unwrap(),
        ) {
            Err(DateErrors::InvalidDay { day }) => assert_eq!(day, 31),
            other => panic!("{:?}", other),
        }
    }
}

#[test]
fn a_count_of_months_is_no_month_of_a_date() {
    let (_, no_months) = Day::new(1).unwrap() + Day::new(1).unwrap();
    assert_eq!(no_months.value(), 0);
    match DateStr::new(Year::new(2023), no_months, Day::new(1).unwrap()) {
        Err(DateErrors::InvalidMonth { month }) => assert_eq!(month, 0),
        other => panic!("{:?}", other),
    }
    let (no_day, _) = Day::new(7).unwrap() - Day::new(7).unwrap();
    assert_eq!(no_day.value(), 0);
    match DateStr::new(Year::new(2023), Month::new(1).unwrap(), no_day) {
        Err(DateErrors::InvalidDay { day }) => assert_eq!(day, 0),
        other => panic!("{:?}", other),
    }
}

#[test]
fn check_date_constraints_follows_the_table() {
    for month in 0..=13u8 {
        for day in 0..=32u8 {
            let last = match month {
                2 => 29,
                4 | 6 | 9 | 11 => 30,
                _ => 31,
            };
            let month_ok = (1..=12).contains(&month);
            let day_ok = month_ok && 1 <= day && day <= last;
            assert_eq!(
                DateStr::check_date_constraints(month, day),
                (month_ok, day_ok)
            );
        }
    }
}

#[test]
fn reading_gives_back_what_writing_was_given() {
    for year in [0u64, 1, 9, 10, 999, 2023, 10000, u64::MAX] {
        for month in 1..=12u8 {
            for day in 1..=31u8 {
                let made = DateStr::new(
                    Year::new(year),
                    Month::new(month).unwrap(),
                    Day::new(day).unwrap(),
                );
                if let Ok(made) = made {
                    let text = made.to_string();
                    assert_eq!(DateStr::from_iso_str(&text), made);
                    assert_eq!(DateStr::try_from_iso_str(&text).unwrap(), made);
                    assert_eq!(DateStr::try_from(text.clone()).unwrap(), made);
                    assert_eq!(text.to_datestr(), made);
                    assert_eq!(text.try_to_datestr().unwrap(), made);
                }
            }
        }
    }
}

#[test]
fn writing_pads_month_and_day_but_not_the_year() {
    assert_eq!(date(2023, 1, 2).to_string(), "2023-01-02");
    assert_eq!(date(7, 12, 31).to_string(), "7-12-31");
    assert_eq!(date(0, 10, 9).to_string(), "0-10-09");
    assert_eq!(
        date(u64::MAX, 6, 30).to_string(),
        "18446744073709551615-06-30"
    );
    assert_eq!(String::from(date(2022, 11, 16)), "2022-11-16");
}

#[test]
fn parts_write_themselves_without_padding() {
    assert_eq!(Year::new(2023).to_string(), "2023");
    assert_eq!(Year::new(0).to_string(), "0");
    assert_eq!(Month::new(3).unwrap().to_string(), "3");
    assert_eq!(Month::new(12).unwrap().to_string(), "12");
    assert_eq!(Day::new(9).unwrap().to_string(), "9");
    assert_eq!(Day::new(31).unwrap().to_string(), "31");
}

#[test]
fn reading_takes_fields_without_padding_and_with_zeros() {
    assert_eq!(DateStr::from_iso_str("2023-1-2"), date(2023, 1, 2));
    assert_eq!(DateStr::from_iso_str("02023-001-002"), date(2023, 1, 2));
    assert_eq!(DateStr::from_iso_str("0-3-1"), date(0, 3, 1));
}

#[test]
fn reading_looks_at_the_first_three_fields_only() {
    assert_eq!(
        DateStr::try_from_iso_str("2023-01-02-99").unwrap(),
        date(2023, 1, 2)
    );
    assert_eq!(DateStr::from_iso_str("2023-01-02-"), date(2023, 1, 2));
    assert_eq!(
        DateStr::try_from("2023-01-02-x-y".to_owned()).unwrap(),
        date(2023, 1, 2)
    );
}

#[test]
fn from_iso_str_takes_an_unreadable_year_for_zero() {
    assert_eq!(DateStr::from_iso_str("year-05-06"), date(0, 5, 6));
    assert_eq!(DateStr::from_iso_str("-05-06"), date(0, 5, 6));
    assert_eq!(
        DateStr::from_iso_str("18446744073709551616-05-06"),
        date(0, 5, 6)
    );
}

#[test]
fn try_from_iso_str_names_the_field_that_is_no_number() {
    let cases = [
        ("year-05-06", "year"),
        ("-05-06", ""),
        ("+2023-05-06", "+2023"),
        ("18446744073709551616-05-06", "18446744073709551616"),
        ("2023--11-02", ""),
        ("2023-1x-02", "1x"),
        ("2023-256-02", "256"),
        ("2023-12--3", ""),
        ("2023-12- 3", " 3"),
        ("2023-12-999", "999"),
        ("2023-12-", ""),
    ];
    for (text, field) in cases {
        match DateStr::try_from_iso_str(text) {
            Err(DateErrors::InvalidParsing(named)) => assert_eq!(named, field, "{}", text),
            other => panic!("{}: {:?}", text, other),
        }
    }
}

#[test]
fn try_from_iso_str_names_the_month_out_of_range() {
    for (text, expected) in [("2023-55-02", 55u8), ("2023-0-02", 0), ("2023-13-40", 13)] {
        match DateStr::try_from_iso_str(text) {
            Err(DateErrors::InvalidMonth { month }) => assert_eq!(month, expected),
            other => panic!("{}: {:?}", text, other),
        }
    }
}

#[test]
fn try_from_iso_str_names_the_day_out_of_range() {
    let cases = [
        ("2023-12-32", 32u8),
        ("2023-12-0", 0),
        ("2023-02-30", 30),
        ("2023-04-31", 31),
        ("2023-01-255", 255),
    ];
    for (text, expected) in cases {
        match DateStr::try_from_iso_str(text) {
            Err(DateErrors::InvalidDay { day }) => assert_eq!(day, expected),
            other => panic!("{}: {:?}", text, other),
        }
    }
}

#[test]
fn try_from_iso_str_looks_at_the_year_first_and_the_day_last() {
    assert!(matches!(
        DateStr::try_from_iso_str("x-55-99"),
        Err(DateErrors::InvalidParsing(_))
    ));
    assert!(matches!(
        DateStr::try_from_iso_str("2023-55-x"),
        Err(DateErrors::InvalidMonth { month: 55 })
    ));
    assert!(matches!(
        DateStr::try_from_iso_str("2023-x-99"),
        Err(DateErrors::InvalidParsing(_))
    ));
}

#[test]
fn try_from_reads_like_try_from_iso_str() {
    assert_eq!(
        DateStr::try_from("2022-12-31".to_owned()).unwrap(),
        date(2022, 12, 31)
    );
    assert!(matches!(
        DateStr::try_from("2023-02-30".to_owned()),
        Err(DateErrors::InvalidDay { day: 30 })
    ));
    assert!(matches!(
        DateStr::try_from("2023-55-02".to_owned()),
        Err(DateErrors::InvalidMonth { month: 55 })
    ));
    match DateStr::try_from("2023-ab-02".to_owned()) {
        Err(DateErrors::InvalidParsing(named)) => assert_eq!(named, "ab"),
        other => panic!("{:?}", other),
    }
}

#[test]
fn try_from_names_a_whole_text_without_three_fields() {
    for text in ["", "2023", "2023-01", "20230102", "2023/01/02"] {
        match DateStr::try_from(text.to_owned()) {
            Err(DateErrors::InvalidParsing(named)) => assert_eq!(named, text),
            other => panic!("{}: {:?}", text, other),
        }
    }
}

#[test]
fn has_date_fields_counts_the_dashes() {
    for text in ["2023-01-02", "--", "a-b-c-d", "2023--11-02", "x-y-"] {
        assert!(DateStr::has_date_fields(text), "{}", text);
    }
    for text in ["", "2023", "2023-01", "-", "2023/01/02", "2023_01-02"] {
        assert!(!DateStr::has_date_fields(text), "{}", text);
    }
}

#[test]
fn strings_read_like_slices() {
    let text = String::from("2023-01-02");
    assert_eq!(text.to_datestr(), date(2023, 1, 2));
    assert_eq!(text.try_to_datestr().unwrap(), date(2023, 1, 2));
    assert!(String::from("2023-13-02").try_to_datestr().is_err());
}
