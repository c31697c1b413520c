use tradebot::model::{Market, Order, OrderKey, OrderKind, OrderState, Orderbook, Position, Stock, Timestamp};
use tradebot::text::UNIT;

fn at(seconds: i64) -> Timestamp {
    Timestamp { seconds, nanos: 0, offset_seconds: 0 }
}

fn order(figi: &str) -> Order {
    Order { figi: figi.to_string(), kind: OrderKind::Buy, price: 5 * UNIT, quantity: 3 }
}

fn acked(id: &str, figi: &str) -> OrderState {
    OrderState { order_id: id.to_string(), order: order(figi), executed: 0 }
}

fn stock(figi: &str, ticker: &str, name: &str) -> Stock {
    Stock { name: name.to_string(), figi: figi.to_string(), ticker: ticker.to_string(), isin: None, min_increment: 100, lot: 10 }
}

#[test]
fn unknown_instrument_gets_a_stub() {
    let m = Market::new();
    let s = m.stock("F1");
    assert_eq!(s.name, "F1");
    assert_eq!(s.ticker, "F1");
    assert_eq!(s.figi, "F1");
    assert_eq!(s.lot, 1);
    assert_eq!(s.min_increment, UNIT / 100);
    assert!(s.isin.is_none());
}

#[test]
fn catalog_replaces_by_figi() {
    let mut m = Market::new();
    m.update_stocks(vec![stock("F1", "AAA", "Old"), stock("F2", "BBB", "Two")]);
    m.update_stocks(vec![stock("F1", "AAA", "New")]);
    assert_eq!(m.stock("F1").name, "New");
    assert_eq!(m.stock("F2").name, "Two");
    assert_eq!(m.stocks.len(), 2);
}

#[test]
fn orders_are_replaced_by_the_full_list() {
    let mut m = Market::new();
    m.set_position("A", Position { lots: 1, balance: 1 });
    m.update_orders(vec![acked("1", "A"), acked("2", "B")]);
    assert_eq!(m.state("A").unwrap().inwork_orders.len(), 1);
    assert_eq!(m.state("B").unwrap().inwork_orders.len(), 1);
    m.update_orders(vec![acked("3", "B"), acked("4", "B")]);
    assert_eq!(m.state("A").unwrap().inwork_orders.len(), 0);
    let b = m.state("B").unwrap();
    assert_eq!(b.inwork_orders.len(), 2);
    assert_eq!(b.inwork_orders[0].0, "3");
    assert_eq!(b.inwork_orders[1].0, "4");
    assert_eq!(m.state("A").unwrap().position.balance, 1);
}

#[test]
fn latest_book_and_portfolio_win() {
    let mut m = Market::new();
    m.set_orderbook("A", Orderbook { time: at(1), bids: vec![(1, 1)], asks: vec![] });
    m.update_portfolio(vec![("A".to_string(), Position { lots: 1, balance: 10 })], vec![]);
    m.set_orderbook("A", Orderbook { time: at(2), bids: vec![(2, 1)], asks: vec![] });
    m.update_portfolio(
        vec![("A".to_string(), Position { lots: 2, balance: 20 }), ("A".to_string(), Position { lots: 3, balance: 30 })],
        vec![],
    );
    let a = m.state("A").unwrap();
    assert_eq!(a.orderbook.time, at(2));
    assert_eq!(a.orderbook.bids, vec![(2, 1)]);
    assert_eq!(a.position, Position { lots: 3, balance: 30 });
    assert_eq!(m.state.len(), 1);
}

#[test]
fn portfolio_lists_nonzero_balances() {
    let mut m = Market::new();
    m.update_stocks(vec![stock("F1", "AAA", "Alpha")]);
    m.update_positons(vec![
        ("F1".to_string(), Position { lots: 1, balance: 10 }),
        ("F2".to_string(), Position { lots: 0, balance: 0 }),
        ("F3".to_string(), Position { lots: 2, balance: -4 }),
    ]);
    let p = m.portfolio();
    assert_eq!(p.len(), 2);
    assert_eq!(p[0].0.name, "Alpha");
    assert_eq!(p[0].1.balance, 10);
    assert_eq!(p[1].0.name, "F3");
    assert_eq!(p[1].1.balance, -4);
}

#[test]
fn new_orders_come_and_go() {
    let mut m = Market::new();
    let k1 = OrderKey { stamp: 7, seq: 0 };
    let k2 = OrderKey { stamp: 7, seq: 1 };
    m.add_new_order(k1, order("A"));
    m.add_new_order(k2, order("A"));
    assert_eq!(m.state("A").unwrap().new_orders.len(), 2);
    assert!(m.state("A").unwrap().has_orders());
    m.acknowledge(k1, acked("9", "A"));
    let a = m.state("A").unwrap();
    assert_eq!(a.new_orders.len(), 1);
    assert_eq!(a.inwork_orders.len(), 1);
    m.remove_new_order("A", k2);
    m.update_orders(vec![]);
    assert!(!m.state("A").unwrap().has_orders());
}

#[test]
fn candles_are_appended() {
    let mut m = Market::new();
    let c = tradebot::model::Candle { open: 1, close: 2, low: 1, high: 3, volume: 4, time: at(5) };
    m.add_candles("A", vec![c]);
    m.add_candles("A", vec![c, c]);
    assert_eq!(m.state("A").unwrap().candles.len(), 3);
}

#[test]
fn default_orderbook_is_at_y2000() {
    let b = Orderbook::default();
    assert_eq!(b.time.seconds, 946_684_800);
    assert!(b.bids.is_empty() && b.asks.is_empty());
}
