use search_aggregator::account::AccountService;
use search_aggregator::account::Sold;
use search_aggregator::account::StockView;

fn user() -> String {
    "alice".to_string()
}

fn quotes(entries: &[(&str, usize, usize)]) -> Vec<StockView> {
    entries
        .iter()
        .map(|(company, number, price)| StockView {
            company: company.to_string(),
            number: *number,
            price: *price,
        })
        .collect()
}

#[test]
fn account_add_user_twice_is_refused() {
    let mut service = AccountService::new();
    service.add_user(user()).unwrap();
    assert_eq!(
        Err("user already exists".to_string()),
        service.add_user(user())
    );
}

#[test]
fn account_replenish_unknown_user() {
    let mut service = AccountService::new();
    assert_eq!(
        Err("user not found".to_string()),
        service.replenish(user(), 100)
    );
}

#[test]
fn account_buy_needs_enough_money() {
    let mut service = AccountService::new();
    service.add_user(user()).unwrap();
    service.replenish(user(), 5).unwrap();
    assert_eq!(
        Err("Not enough money".to_string()),
        service.buy_stock(user(), "A".to_string(), 10)
    );
    service.replenish(user(), 5).unwrap();
    service.buy_stock(user(), "A".to_string(), 10).unwrap();
}

#[test]
fn account_view_stocks_prices_portfolio() {
    let mut service = AccountService::new();
    service.add_user(user()).unwrap();
    service.replenish(user(), 100).unwrap();
    service.buy_stock(user(), "A".to_string(), 10).unwrap();
    service.buy_stock(user(), "A".to_string(), 10).unwrap();
    service.buy_stock(user(), "B".to_string(), 30).unwrap();

    let prices = quotes(&[("A", 5, 12), ("B", 0, 40)]);
    let views = service.view_stocks(user(), &prices).unwrap();
    assert_eq!(2, views.len());
    assert_eq!("A", views[0].company);
    assert_eq!(12, views[0].price);
    assert_eq!(2, views[0].number);
    assert_eq!("B", views[1].company);
    assert_eq!(40, views[1].price);
    assert_eq!(1, views[1].number);
}

#[test]
fn account_view_stocks_needs_every_quote() {
    let mut service = AccountService::new();
    service.add_user(user()).unwrap();
    service.replenish(user(), 100).unwrap();
    service.buy_stock(user(), "A".to_string(), 10).unwrap();
    let prices = quotes(&[("B", 0, 40)]);
    assert_eq!(
        Err("price not available".to_string()),
        service.view_stocks(user(), &prices)
    );
}

#[test]
fn account_total_value_sums_price_times_count() {
    let mut service = AccountService::new();
    service.add_user(user()).unwrap();
    service.replenish(user(), 100).unwrap();
    service.buy_stock(user(), "A".to_string(), 10).unwrap();
    service.buy_stock(user(), "A".to_string(), 10).unwrap();
    service.buy_stock(user(), "B".to_string(), 30).unwrap();
    let prices = quotes(&[("A", 5, 12), ("B", 0, 40)]);
    assert_eq!(Ok(2 * 12 + 40), service.get_total_stocks_value(user(), &prices));
}

#[test]
fn account_sell_returns_money_and_stock() {
    let mut service = AccountService::new();
    service.add_user(user()).unwrap();
    service.replenish(user(), 10).unwrap();
    service.buy_stock(user(), "A".to_string(), 10).unwrap();
    assert_eq!(
        Err("Not enough stocks".to_string()),
        service.sell_stock(user(), "B".to_string(), Sold { price: 15 })
    );
    service
        .sell_stock(user(), "A".to_string(), Sold { price: 15 })
        .unwrap();
    assert_eq!(
        Err("Not enough stocks".to_string()),
        service.sell_stock(user(), "A".to_string(), Sold { price: 15 })
    );
    let prices = quotes(&[("A", 1, 15)]);
    assert_eq!(Ok(0), service.get_total_stocks_value(user(), &prices));
}
