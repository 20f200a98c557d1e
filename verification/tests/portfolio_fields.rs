use oxis::date::DateParseError;
use oxis::portfolio::{cashflow_parts, holding_fields, row_fields, CashflowError};
use oxis::text::{rsplit_once_str, split_str, trim_str};

#[test]
fn split_matches_str_split() {
    for s in ["", "a", "a:b", ":a::b:", "x:y:z:w", "é:ü"] {
        let ours = split_str(s, ':');
        let std: Vec<String> = s.split(':').map(|p| p.to_string()).collect();
        assert_eq!(ours, std);
    }
}

#[test]
fn trim_matches_str_trim() {
    for s in ["", "  ", " a ", "\t\u{3000}b c\u{a0}\n", "x"] {
        assert_eq!(trim_str(s), s.trim());
    }
}

#[test]
fn rsplit_once_matches_std() {
    for s in ["", "a", "a:b", "2024-01-02:1000", "a:b:c", ":"] {
        let ours = rsplit_once_str(s, ':');
        let std = s.rsplit_once(':').map(|(a, b)| (a.to_string(), b.to_string()));
        assert_eq!(ours, std);
    }
}

#[test]
fn holding_specs_need_four_fields() {
    assert_eq!(
        holding_fields("AAPL:10:150:175").unwrap(),
        vec!["AAPL", "10", "150", "175"]
    );
    assert!(holding_fields("AAPL:10:150").is_none());
    assert!(holding_fields("AAPL:10:150:175:1").is_none());
}

#[test]
fn cashflows_split_at_the_last_colon() {
    let (d, amount) = cashflow_parts("2024-01-15:-1000.5").unwrap();
    assert_eq!((d.year(), d.month(), d.day()), (2024, 1, 15));
    assert_eq!(amount, "-1000.5");
    assert!(matches!(cashflow_parts("2024-01-15"), Err(CashflowError::Shape)));
    assert!(matches!(
        cashflow_parts("2024-13-01:5"),
        Err(CashflowError::Date(DateParseError::Calendar(_)))
    ));
    assert!(matches!(
        cashflow_parts("2024-xx-01:5"),
        Err(CashflowError::Date(DateParseError::Month))
    ));
}

#[test]
fn matrix_rows_are_split_and_trimmed() {
    assert_eq!(row_fields(" 0.04, 0.01 ,0.02"), vec!["0.04", "0.01", "0.02"]);
    assert_eq!(row_fields(""), vec![""]);
}
