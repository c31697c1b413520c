use tradebot::fixed_amount::FixedAmount;
use tradebot::model::{Market, Order, OrderKey, OrderKind, Orderbook, Position, Timestamp};
use tradebot::strategy::{ConfigErrorKind, Decision, Strategy, StrategyKind};
use tradebot::text::UNIT;
use tradebot::trailing_stop::TrailingStop;

fn at(seconds: i64) -> Timestamp {
    Timestamp { seconds, nanos: 0, offset_seconds: 0 }
}

fn book(bid: u64, ask: u64) -> Orderbook {
    Orderbook { time: at(1), bids: vec![(bid, 10)], asks: vec![(ask, 10)] }
}

fn market_with(figi: &str, balance: i64, bid: u64, ask: u64) -> Market {
    let mut m = Market::new();
    m.set_position(figi, Position { lots: 0, balance });
    m.set_orderbook(figi, book(bid, ask));
    m
}

fn configured_fixed(figi: &str, target: &str) -> FixedAmount {
    let mut s = FixedAmount::new(figi.to_string());
    s.configure("target", target.to_string()).unwrap();
    s.configure("buy_threshold", "0.001".to_string()).unwrap();
    s.configure("sell_threshold", "0.001".to_string()).unwrap();
    s.configure("factor", "1".to_string()).unwrap();
    s
}

fn only_order(ds: &[Decision]) -> &Order {
    assert_eq!(ds.len(), 1);
    match &ds[0] {
        Decision::Order(o) => o,
    }
}

#[test]
fn fixed_amount_sells_overshoot() {
    let mut s = configured_fixed("X", "10000");
    let m = market_with("X", 110, 100 * UNIT, 101 * UNIT);
    let ds = s.make_decision(&m);
    let o = only_order(&ds);
    assert_eq!(o.kind, OrderKind::Sell);
    assert_eq!(o.quantity, 10);
    assert_eq!(o.price, 100 * UNIT);
    assert_eq!(o.figi, "X");
    assert_eq!(s.balance, 10 * 100 * UNIT as i64);
}

#[test]
fn fixed_amount_buys_undershoot() {
    let mut s = configured_fixed("X", "10000");
    s.balance = 12345;
    let m = market_with("X", 0, 100 * UNIT, 101 * UNIT);
    let ds = s.make_decision(&m);
    let o = only_order(&ds);
    assert_eq!(o.kind, OrderKind::Buy);
    assert_eq!(o.quantity, 100);
    assert_eq!(o.price, 101 * UNIT);
    assert_eq!(s.balance, 0);
    assert!(!s.first_buy);
}

#[test]
fn fixed_amount_second_buy_spends_balance() {
    let mut s = configured_fixed("X", "10000");
    let m = market_with("X", 0, 100 * UNIT, 101 * UNIT);
    s.make_decision(&m);
    let ds = s.make_decision(&m);
    let o = only_order(&ds);
    assert_eq!(o.quantity, 100);
    assert_eq!(s.balance, -(100 * 101 * UNIT as i64));
}

#[test]
fn fixed_amount_inside_thresholds_does_nothing() {
    let mut s = configured_fixed("X", "10000");
    let m = market_with("X", 100, 100 * UNIT, 100 * UNIT);
    assert!(s.make_decision(&m).is_empty());
}

#[test]
fn fixed_amount_waits_for_orders_in_flight() {
    let mut s = configured_fixed("X", "10000");
    let mut m = market_with("X", 110, 100 * UNIT, 101 * UNIT);
    let pending = Order { figi: "X".to_string(), kind: OrderKind::Sell, price: 100 * UNIT, quantity: 1 };
    m.add_new_order(OrderKey { stamp: 1, seq: 0 }, pending);
    let before_sell = s.corrected_sell;
    assert!(s.make_decision(&m).is_empty());
    assert_eq!(s.corrected_sell, before_sell);
}

#[test]
fn fixed_amount_without_book_or_state_does_nothing() {
    let mut s = configured_fixed("X", "10000");
    assert!(s.make_decision(&Market::new()).is_empty());
    let mut m = Market::new();
    m.set_position("X", Position { lots: 1, balance: 110 });
    assert!(s.make_decision(&m).is_empty());
}

#[test]
fn fixed_amount_factor_moves_thresholds() {
    let mut s = configured_fixed("X", "10000");
    s.configure("factor", "2".to_string()).unwrap();
    let m = market_with("X", 110, 100 * UNIT, 101 * UNIT);
    s.make_decision(&m);
    assert_eq!(s.corrected_sell, 2 * 10_000);
    assert_eq!(s.corrected_buy, 5_000);
}

#[test]
fn fixed_amount_configure_errors() {
    let mut s = FixedAmount::new("X".to_string());
    assert_eq!(s.configure("nope", "1".to_string()).unwrap_err().kind, ConfigErrorKind::InvalidParam);
    assert_eq!(s.configure("target", "ten".to_string()).unwrap_err().kind, ConfigErrorKind::ParseNumber);
    assert_eq!(s.target, 10_000 * UNIT);
    s.configure("figi", "Y".to_string()).unwrap();
    assert_eq!(s.figi, "Y");
}

#[test]
fn fixed_amount_balance_is_percent_of_target() {
    let mut s = configured_fixed("X", "10000");
    s.balance = (2500 * UNIT) as i64;
    assert_eq!(s.balance(), 25);
    s.balance = -((2500 * UNIT) as i64);
    assert_eq!(s.balance(), -25);
}

#[test]
fn trailing_stop_triggers() {
    let mut s = TrailingStop::default();
    s.configure("figi", "X".to_string()).unwrap();
    s.configure("stop_treshold", "0.05".to_string()).unwrap();
    s.configure("quantity", "5".to_string()).unwrap();
    let mut m = Market::new();
    let mut out = Vec::new();
    for bid in [100u64, 105, 110, 104] {
        m.set_orderbook("X", book(bid * UNIT, (bid + 1) * UNIT));
        out.push(s.make_decision(&m));
    }
    assert!(out[0].is_empty() && out[1].is_empty() && out[2].is_empty());
    let o = only_order(&out[3]);
    assert_eq!(o.kind, OrderKind::Sell);
    assert_eq!(o.quantity, 5);
    assert_eq!(o.price, 104 * UNIT);
    for bid in [90u64, 120, 50] {
        m.set_orderbook("X", book(bid * UNIT, (bid + 1) * UNIT));
        assert!(s.make_decision(&m).is_empty());
    }
}

#[test]
fn trailing_stop_small_drop_holds() {
    let mut s = TrailingStop::default();
    s.configure("figi", "X".to_string()).unwrap();
    s.configure("quantity", "5".to_string()).unwrap();
    let mut m = Market::new();
    m.set_orderbook("X", book(100 * UNIT, 101 * UNIT));
    s.make_decision(&m);
    m.set_orderbook("X", book(96 * UNIT, 97 * UNIT));
    assert!(s.make_decision(&m).is_empty());
    assert_eq!(s.best_price, 100 * UNIT);
    assert!(!s.finished);
}

#[test]
fn trailing_stop_configure_errors() {
    let mut s = TrailingStop::default();
    assert_eq!(s.configure("quantity", "1.5".to_string()).unwrap_err().kind, ConfigErrorKind::ParseInteger);
    assert_eq!(s.configure("quantity", "4294967296".to_string()).unwrap_err().kind, ConfigErrorKind::ParseInteger);
    assert_eq!(s.configure("target", "1".to_string()).unwrap_err().kind, ConfigErrorKind::InvalidParam);
}

#[test]
fn strategy_kinds_by_name() {
    let v = StrategyKind::variants();
    assert_eq!(v.len(), 2);
    assert_eq!(v[0].0, "Fixed amount");
    assert_eq!(v[1].0, "Trailing stop");
    assert!(matches!(v[0].1, StrategyKind::FixedAmount(_)));
    assert_eq!(v[1].1.params().len(), 3);
    assert_eq!(v[0].1.params()[0].0, "figi");
}

#[test]
fn strategy_kind_dispatches() {
    let mut k = StrategyKind::FixedAmount(FixedAmount::new("X".to_string()));
    k.configure("target", "10000".to_string()).unwrap();
    k.configure("sell_threshold", "0.001".to_string()).unwrap();
    let m = market_with("X", 110, 100 * UNIT, 101 * UNIT);
    let ds = k.make_decision(&m);
    assert_eq!(only_order(&ds).quantity, 10);
}
