use search_aggregator::market::Market;
use search_aggregator::market::MarketError;
use search_aggregator::market::Stock;
use search_aggregator::market::DEFAULT_PRICE;

fn company_a() -> String {
    "A".to_string()
}

#[test]
pub fn test_create_company_ok() {
    let mut market = Market::new();
    market.add_company(company_a()).unwrap();
}

#[test]
pub fn market_test_create_company_twice() {
    let mut market = Market::new();
    market.add_company(company_a()).unwrap();
    market.add_company(company_a()).expect_err("");
}

#[test]
pub fn market_add_get_stock_ok() {
    let mut market = Market::new();
    market.add_company(company_a()).unwrap();
    market.add_stock(&company_a()).unwrap();
    let stock = market.get_stock(&company_a()).unwrap();
    assert_eq!(
        stock,
        Stock {
            price: DEFAULT_PRICE,
            number: 1
        }
    );
}

#[test]
pub fn market_add_stock_unknown_company() {
    let mut market = Market::new();
    market.add_stock(&company_a()).expect_err("");
}

#[test]
pub fn market_buy_sell_stock_ok() {
    let mut market = Market::new();
    market.add_company(company_a()).unwrap();
    market.add_stock(&company_a()).unwrap();
    market.buy(&company_a(), DEFAULT_PRICE).unwrap();
    let price = market.sell(&company_a()).unwrap();
    assert_eq!(price, DEFAULT_PRICE);
}

#[test]
pub fn market_buy_no_stocks_left() {
    let mut market = Market::new();
    market.add_company(company_a()).unwrap();
    market.buy(&company_a(), DEFAULT_PRICE).expect_err("");
}

#[test]
pub fn market_buy_wrong_price() {
    let mut market = Market::new();
    market.add_company(company_a()).unwrap();
    market.add_stock(&company_a()).unwrap();
    market.buy(&company_a(), DEFAULT_PRICE + 1).expect_err("");
}

#[test]
pub fn market_sell_at_changed_price_ok() {
    let mut market = Market::new();
    market.add_company(company_a()).unwrap();
    market.add_stock(&company_a()).unwrap();
    market.buy(&company_a(), DEFAULT_PRICE).unwrap();

    let new_price = market.change_stock_price(&company_a()).unwrap();
    let price = market.sell(&company_a()).unwrap();
    assert_eq!(price, new_price);
}

#[test]
pub fn market_changed_price_stays_in_drawing_range() {
    let mut market = Market::new();
    market.add_company(company_a()).unwrap();
    let new_price = market.change_stock_price(&company_a()).unwrap();
    assert!(1 <= new_price && new_price < 100);
    let stock = market.get_stock(&company_a()).unwrap();
    assert_eq!(stock.price, new_price);
}

#[test]
pub fn market_error_variants_have_messages() {
    assert_eq!(
        "company with given name already exists",
        MarketError::CompanyAlreadyExists.message()
    );
    assert_eq!(
        "company with given name not found",
        MarketError::CompanyNotFound.message()
    );
    assert_eq!("no stocks left", MarketError::NoStocksLeft.message());
    assert_eq!(
        "suggested and real stock prices don't match",
        MarketError::WrongPrice.message()
    );
}

#[test]
pub fn market_errors_are_the_expected_variants() {
    let mut market = Market::new();
    market.add_company(company_a()).unwrap();
    assert_eq!(
        Err(MarketError::CompanyAlreadyExists),
        market.add_company(company_a())
    );
    assert_eq!(
        Err(MarketError::CompanyNotFound),
        market.add_stock(&"B".to_string())
    );
    assert_eq!(
        Err(MarketError::NoStocksLeft),
        market.buy(&company_a(), DEFAULT_PRICE)
    );
    market.add_stock(&company_a()).unwrap();
    assert_eq!(
        Err(MarketError::WrongPrice),
        market.buy(&company_a(), DEFAULT_PRICE + 3)
    );
}
