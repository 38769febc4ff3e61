use dates_str::errors::DateErrors;
use dates_str::{DateFormat, DateStr};

#[test]
fn date_fmt() {
    let some_date: DateStr = DateStr::from_iso_str("2022-12-28");
    let some_formatter: DateFormat = DateFormat::from_string("dd-mm-yyyy", None).unwrap();
    let fmt_date: String = some_date.format(some_formatter);
    assert_eq!(fmt_date.to_string(), "28-12-2022".to_owned());
}

#[test]
fn date_lowercase_fmt() {
    let some_date: DateStr = DateStr::from_iso_str("2022-12-28");
    let some_formatter: DateFormat = DateFormat::from_string("dd-mm-yyyy", None).unwrap();
    let fmt_date: String = some_date.try_format(some_formatter).unwrap();
    assert_eq!(fmt_date.to_string(), "28-12-2022".to_owned());
}

#[test]
fn formatter_error() {
    let some_formatter: Result<DateFormat, DateErrors> =
        DateFormat::from_string("dd-mm-yyay", None);
    assert!(some_formatter.is_err());
}

#[test]
fn format_puts_day_month_and_year_in_their_places() {
    let date = DateStr::from_iso_str("2022-12-29");
    let format = DateFormat::from_string("dd-mm-yyyy", None).unwrap();
    assert_eq!(date.format(format), "29-12-2022");
}

#[test]
fn a_format_is_kept_in_upper_case() {
    let format = DateFormat::from_string("dd-mm-yyyy", None).unwrap();
    assert_eq!(format.formatter, "DD-MM-YYYY");
    let format = DateFormat::from_string("YYYY-MM-DD", None).unwrap();
    assert_eq!(format.formatter, "YYYY-MM-DD");
    let format = DateFormat::from_string("Yyyy-mM-dD", None).unwrap();
    assert_eq!(format.formatter, "YYYY-MM-DD");
    let format = DateFormat::from_string("dd/mm/yyyy/stra\u{df}e", Some('/')).unwrap();
    assert_eq!(format.formatter, "DD/MM/YYYY/STRASSE");
}

#[test]
fn a_format_without_its_separator_is_refused() {
    assert!(matches!(
        DateFormat::from_string("2020_10_20", Some('/')),
        Err(DateErrors::FormatDateError)
    ));
    assert!(matches!(
        DateFormat::from_string("dd_mm_yyyy", None),
        Err(DateErrors::FormatDateError)
    ));
    assert!(matches!(
        DateFormat::from_string("dd-mm-yyyy", Some('_')),
        Err(DateErrors::FormatDateError)
    ));
}

#[test]
fn a_format_needs_each_of_the_three_fields() {
    for template in ["", "yyyy", "yyyy-mm", "mm-dd", "yyyy-dd", "yyyy-mm-d", "yy-mm-dd", "yyyymmdd"] {
        assert!(
            matches!(
                DateFormat::from_string(template, None),
                Err(DateErrors::FormatDateError)
            ),
            "{}",
            template
        );
    }
}

#[test]
fn the_separator_can_be_chosen() {
    let date = DateStr::from_iso_str("2022-12-29");
    let format = DateFormat::from_string("dd_mm_yyyy", Some('_')).unwrap();
    assert_eq!(date.format(format), "29_12_2022");
    let format = DateFormat::from_string("mm/dd/yyyy", Some('/')).unwrap();
    assert_eq!(date.format(format), "12/29/2022");
    let format = DateFormat::from_string("yyyy\u{b7}mm\u{b7}dd", Some('\u{b7}')).unwrap();
    assert_eq!(date.format(format), "2022\u{b7}12\u{b7}29");
}

#[test]
fn other_pieces_are_let_through() {
    let date = DateStr::from_iso_str("2022-12-29");
    let format = DateFormat::from_string("on-dd-mm-yyyy-yyyy", None).unwrap();
    assert_eq!(format.formatter, "ON-DD-MM-YYYY-YYYY");
    assert_eq!(date.format(format), "ON-29-12-2022-2022");
}

#[test]
fn format_does_not_pad() {
    let date = DateStr::from_iso_str("0987-01-02");
    let format = DateFormat::from_string("yyyy-mm-dd", None).unwrap();
    assert_eq!(date.format(format), "987-1-2");
    assert_eq!(date.to_string(), "987-01-02");
}

#[test]
fn format_takes_any_template() {
    let date = DateStr::from_iso_str("2022-12-29");
    let plain = DateFormat {
        formatter: String::from("no field"),
    };
    assert_eq!(date.format(plain), "no field");
    let crowded = DateFormat {
        formatter: String::from("YYYYYMMMDDD dd"),
    };
    assert_eq!(date.format(crowded), "2022Y12M29D dd");
    let empty = DateFormat {
        formatter: String::new(),
    };
    assert_eq!(date.try_format(empty).unwrap(), "");
}

#[test]
fn from_upper_pieces_looks_for_the_three_fields_among_the_pieces() {
    let pieces = |texts: &[&str]| -> Vec<Vec<char>> {
        texts.iter().map(|t| t.chars().collect()).collect()
    };
    let made =
        DateFormat::from_upper_pieces(String::from("anything"), &pieces(&["DD", "X", "YYYY", "MM"]))
            .unwrap();
    assert_eq!(made.formatter, "anything");
    assert!(matches!(
        DateFormat::from_upper_pieces(String::from("YYYY-MM-DD"), &pieces(&["YYYY", "MM"])),
        Err(DateErrors::FormatDateError)
    ));
    assert!(matches!(
        DateFormat::from_upper_pieces(String::from("YYYY-MM-DD"), &pieces(&["yyyy", "MM", "DD"])),
        Err(DateErrors::FormatDateError)
    ));
    assert!(matches!(
        DateFormat::from_upper_pieces(String::from("YYYY-MM-DD"), &pieces(&[])),
        Err(DateErrors::FormatDateError)
    ));
}
