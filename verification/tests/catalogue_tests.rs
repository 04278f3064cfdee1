use search_aggregator::catalogue::parse_currency;
use search_aggregator::catalogue::Currency;
use search_aggregator::catalogue::MyError;

#[test]
fn currency_names_parse() {
    assert_eq!(Currency::Eur, parse_currency("eur").unwrap());
    assert_eq!(Currency::Usd, parse_currency("usd").unwrap());
    assert_eq!(Currency::Rub, parse_currency("rub").unwrap());
}

#[test]
fn unknown_currency_is_unsupported() {
    match parse_currency("chf") {
        Err(MyError::UnsupportedCurrency) => {}
        _ => panic!("expected UnsupportedCurrency"),
    }
    assert!(parse_currency("EUR").is_err());
    assert!(parse_currency("").is_err());
}

#[test]
fn error_status_codes() {
    assert_eq!(422, MyError::UserCreationError.status_code());
    assert_eq!(422, MyError::ItemInsertError.status_code());
    assert_eq!(422, MyError::UnsupportedCurrency.status_code());
    assert_eq!(500, MyError::ServerError("boom".to_string()).status_code());
    assert_eq!(401, MyError::UserNotFound.status_code());
}
