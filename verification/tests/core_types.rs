use oxis::data::StubSource;
use oxis::date::{parse_date, Date, DateParseError};
use oxis::error::OxisError;
use oxis::money::Currency;
use oxis::output::Column;
use oxis::series::{DateRange, TimeSeries};
use oxis::text::decimal;

#[test]
fn time_series_rejects_mismatched_lengths() {
    let d = Date::new(2024, 1, 1).unwrap();
    assert!(TimeSeries::new(vec![d], vec![1.0, 2.0]).is_err());
    assert!(TimeSeries::new(vec![d, d], vec![1.0, 2.0]).is_ok());
}

#[test]
fn date_range_requires_order() {
    let a = Date::new(2024, 1, 1).unwrap();
    let b = Date::new(2024, 6, 1).unwrap();
    assert!(DateRange::new(a, b).is_ok());
    assert!(DateRange::new(b, a).is_err());
}

#[test]
fn currency_normalizes_and_validates() {
    assert_eq!(Currency::new("usd").unwrap().code(), "USD");
    assert!(Currency::new("US").is_none());
    assert!(Currency::new("US1").is_none());
}

#[test]
fn stub_source_implements_the_boundary() {
    assert_eq!(StubSource.name(), "stub");
}

#[test]
fn stub_source_reports_a_data_source_error() {
    let a = Date::new(2024, 1, 1).unwrap();
    let r: Result<Vec<f64>, OxisError> = StubSource.ohlcv("AAPL", DateRange::new(a, a).unwrap());
    match r {
        Err(OxisError::DataSource(m)) => assert!(m.contains("not implemented")),
        _ => panic!("expected a data-source error"),
    }
}

#[test]
fn time_series_mismatch_message_names_both_lengths() {
    let d = Date::new(2024, 1, 1).unwrap();
    let err = TimeSeries::new(vec![d; 12], vec![0u8; 3]).unwrap_err();
    assert!(matches!(err, OxisError::InvalidInput(_)));
    assert_eq!(err.message(), "time series index/values length mismatch: 12 vs 3");
}

#[test]
fn time_series_len_and_emptiness() {
    let d = Date::new(2023, 12, 31).unwrap();
    let ts = TimeSeries::new(vec![d, d, d], vec![1, 2, 3]).unwrap();
    assert_eq!(ts.len(), 3);
    assert!(!ts.is_empty());
    let empty: TimeSeries<i32> = TimeSeries::new(vec![], vec![]).unwrap();
    assert_eq!(empty.len(), 0);
    assert!(empty.is_empty());
}

#[test]
fn date_range_accepts_a_single_day() {
    let a = Date::new(2024, 2, 29).unwrap();
    let r = DateRange::new(a, a).unwrap();
    assert_eq!(r.start, a);
    assert_eq!(r.end, a);
}

#[test]
fn date_range_orders_by_year_then_month_then_day() {
    let a = Date::new(2023, 12, 31).unwrap();
    let b = Date::new(2024, 1, 1).unwrap();
    let c = Date::new(2024, 1, 2).unwrap();
    assert!(DateRange::new(a, b).is_ok());
    assert!(DateRange::new(b, c).is_ok());
    assert!(DateRange::new(c, a).is_err());
    assert_eq!(DateRange::new(c, b).unwrap_err().message(), "date range start after end");
}

#[test]
fn dates_follow_the_gregorian_calendar() {
    assert!(Date::new(2024, 2, 29).is_ok());
    assert!(Date::new(2023, 2, 29).is_err());
    assert!(Date::new(1900, 2, 29).is_err());
    assert!(Date::new(2000, 2, 29).is_ok());
    assert!(Date::new(2024, 4, 31).is_err());
    assert!(Date::new(2024, 13, 1).is_err());
    assert!(Date::new(2024, 0, 1).is_err());
    assert!(Date::new(2024, 1, 0).is_err());
    let d = Date::new(-44, 3, 15).unwrap();
    assert_eq!((d.year(), d.month(), d.day()), (-44, 3, 15));
}

#[test]
fn iso_dates_parse() {
    let d = parse_date("2024-03-15").unwrap();
    assert_eq!((d.year(), d.month(), d.day()), (2024, 3, 15));
    let d = parse_date("+2025-+1-07").unwrap();
    assert_eq!((d.year(), d.month(), d.day()), (2025, 1, 7));
}

#[test]
fn iso_date_errors_name_the_bad_field() {
    assert!(matches!(parse_date("2024-03"), Err(DateParseError::Shape)));
    assert!(matches!(parse_date("2024-03-15-01"), Err(DateParseError::Shape)));
    assert!(matches!(parse_date("20x4-03-15"), Err(DateParseError::Year)));
    assert!(matches!(parse_date("-2024-03-15"), Err(DateParseError::Shape)));
    assert!(matches!(parse_date("2024-300-15"), Err(DateParseError::Month)));
    assert!(matches!(parse_date("2024-03-"), Err(DateParseError::Day)));
    assert!(matches!(parse_date("2024-02-30"), Err(DateParseError::Calendar(_))));
    assert!(matches!(parse_date("99999999999-01-01"), Err(DateParseError::Year)));
}

#[test]
fn currency_code_round_trips() {
    let c = Currency::new("eUr").unwrap();
    assert_eq!(c, Currency(*b"EUR"));
    assert_eq!(Currency::new(c.code()), Some(c));
    assert!(Currency::new("€UR").is_none());
    assert!(Currency::new("USDX").is_none());
}

#[test]
fn currency_code_of_invalid_bytes_is_placeholder() {
    assert_eq!(Currency([0xff, 0xfe, 0xfd]).code(), "???");
}

#[test]
fn column_keeps_its_name() {
    assert_eq!(Column::new("price").name, "price");
}

#[test]
fn decimal_formatting() {
    assert_eq!(decimal(0), "0");
    assert_eq!(decimal(7), "7");
    assert_eq!(decimal(1000), "1000");
    assert_eq!(decimal(18446744073709551615), "18446744073709551615");
}

#[test]
fn numerical_error_carries_its_message() {
    let e = OxisError::numerical("brent: did not converge");
    assert!(matches!(e, OxisError::Numerical(_)));
    assert_eq!(e.message(), "brent: did not converge");
}

#[test]
fn error_text_names_the_kind() {
    assert_eq!(OxisError::invalid_input("strike must be > 0").to_text(), "invalid input: strike must be > 0");
    assert_eq!(OxisError::data_source("offline").to_text(), "data source error: offline");
    assert_eq!(OxisError::numerical("newton: did not converge").to_text(), "numerical error: newton: did not converge");
}

#[test]
fn time_series_compare_by_contents() {
    let d = |day: u8| Date::new(2024, 1, day).unwrap();
    let a = TimeSeries::new(vec![d(2), d(3)], vec![1.5_f64, 2.5]).unwrap();
    let b = TimeSeries::new(vec![d(2), d(3)], vec![1.5_f64, 2.5]).unwrap();
    let c = TimeSeries::new(vec![d(2), d(4)], vec![1.5_f64, 2.5]).unwrap();
    assert_eq!(a, b);
    assert_ne!(a, c);
}
