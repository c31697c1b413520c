use tradebot::fixed_amount::FixedAmount;
use tradebot::model::{Order, OrderKind, OrderState, Orderbook, Position, Stock, Timestamp};
use tradebot::rest::{ErrX, Request as RestRequest, Response as RestResponse};
use tradebot::strategy::{Strategy, StrategyKind};
use tradebot::streaming::{Request as StreamingRequest, Response as StreamingResponse, ResponseType};
use tradebot::text::UNIT;
use tradebot::trader::{Outgoing, Request, Response, Trader, ORDERBOOK_DEPTH};

fn fixed(figi: &str) -> StrategyKind {
    let mut s = FixedAmount::new(figi.to_string());
    s.configure("target", "10000".to_string()).unwrap();
    StrategyKind::FixedAmount(s)
}

fn book_event(figi: &str, bid: u64, ask: u64) -> StreamingResponse {
    StreamingResponse {
        time: Timestamp { seconds: 9, nanos: 0, offset_seconds: 10800 },
        kind: ResponseType::Orderbook { figi: figi.to_string(), depth: 1, bids: vec![(bid, 1)], asks: vec![(ask, 1)] },
    }
}

fn trader_with_sell_signal() -> Trader<StrategyKind> {
    let mut t: Trader<StrategyKind> = Trader::new();
    t.process_request(Request::AddStrategy("s1".to_string(), fixed("X")));
    t.update_market_from_rest(RestResponse::Portfolio {
        positions: vec![("X".to_string(), Position { lots: 11, balance: 110 })],
        orders: vec![],
    });
    t.update_market_from_streaming(book_event("X", 100 * UNIT, 101 * UNIT));
    t
}

#[test]
fn startup_and_tick_requests() {
    let t: Trader<StrategyKind> = Trader::new();
    assert!(matches!(t.start_requests()[..], [RestRequest::Instruments]));
    assert!(matches!(t.on_tick(), RestRequest::Portfolio));
}

#[test]
fn strategies_are_added_listed_and_removed() {
    let mut t: Trader<StrategyKind> = Trader::new();
    match t.process_request(Request::AddStrategy("s1".to_string(), fixed("X"))) {
        Some(Response::Strategies(v)) => {
            assert_eq!(v.len(), 1);
            assert_eq!(v[0].0, "s1");
        }
        _ => panic!("expected the strategies"),
    }
    t.process_request(Request::AddStrategy("s2".to_string(), fixed("Y")));
    t.process_request(Request::AddStrategy("s1".to_string(), fixed("Z")));
    match t.process_request(Request::Strategies) {
        Some(Response::Strategies(v)) => {
            assert_eq!(v.len(), 2);
            assert!(matches!(&v[0].1, StrategyKind::FixedAmount(f) if f.figi == "Z"));
        }
        _ => panic!("expected the strategies"),
    }
    assert!(t.process_request(Request::RemoveStrategy("s1".to_string())).is_none());
    assert!(t.process_request(Request::RemoveStrategy("nope".to_string())).is_none());
    assert_eq!(t.strategies.len(), 1);
    assert_eq!(t.strategies[0].0, "s2");
}

#[test]
fn portfolio_reply_subscribes_orderbooks() {
    let mut t: Trader<StrategyKind> = Trader::new();
    let out = t.update_market_from_rest(RestResponse::Portfolio {
        positions: vec![("A".to_string(), Position { lots: 10, balance: 1000 }), ("B".to_string(), Position { lots: 0, balance: 0 })],
        orders: vec![],
    });
    assert_eq!(out.len(), 2);
    assert!(matches!(&out[0], Outgoing::Streaming(StreamingRequest::OrderbookSubscribe { figi, depth }) if figi == "A" && *depth == ORDERBOOK_DEPTH));
    assert!(matches!(&out[1], Outgoing::Streaming(StreamingRequest::OrderbookSubscribe { figi, .. }) if figi == "B"));
    match t.process_request(Request::Portfolio) {
        Some(Response::Portfolio(p)) => {
            assert_eq!(p.len(), 1);
            assert_eq!(p[0].0.name, "A");
            assert_eq!(p[0].1.balance, 1000);
        }
        _ => panic!("expected the portfolio"),
    }
}

#[test]
fn catalog_reply_is_passed_on() {
    let mut t: Trader<StrategyKind> = Trader::new();
    let st = Stock { name: "Alpha".to_string(), figi: "F".to_string(), ticker: "AAA".to_string(), isin: None, min_increment: 1, lot: 1 };
    let out = t.update_market_from_rest(RestResponse::Stocks(vec![st]));
    assert!(matches!(&out[..], [Outgoing::Reply(Response::Stocks(v))] if v[0].ticker == "AAA"));
    assert_eq!(t.market.stock("F").name, "Alpha");
}

#[test]
fn limit_orders_get_distinct_keys_and_wait_for_reply() {
    let mut t = trader_with_sell_signal();
    t.process_request(Request::AddStrategy("s2".to_string(), fixed("X")));
    let sent = t.run_strategies(77);
    assert_eq!(sent.len(), 2);
    let (k0, k1) = match (&sent[0], &sent[1]) {
        (RestRequest::LimitOrder(a, o), RestRequest::LimitOrder(b, _)) => {
            assert_eq!(o.kind, OrderKind::Sell);
            assert_eq!(o.quantity, 10);
            (*a, *b)
        }
        _ => panic!("expected limit orders"),
    };
    assert_ne!(k0, k1);
    assert_eq!(k0.stamp, 77);
    assert_eq!(t.market.state("X").unwrap().new_orders.len(), 2);
    assert!(t.run_strategies(78).is_empty());

    t.update_market_from_rest(RestResponse::Candles { figi: "X".to_string(), candles: vec![] });
    t.update_market_from_streaming(book_event("X", 1, 2));
    t.update_market_from_rest(RestResponse::Portfolio { positions: vec![], orders: vec![] });
    assert_eq!(t.market.state("X").unwrap().new_orders.len(), 2);

    let order = Order { figi: "X".to_string(), kind: OrderKind::Sell, price: 100 * UNIT, quantity: 10 };
    t.update_market_from_rest(RestResponse::Order(k0, OrderState { order_id: "b1".to_string(), order: order.clone(), executed: 0 }));
    let x = t.market.state("X").unwrap();
    assert_eq!(x.new_orders.len(), 1);
    assert_eq!(x.inwork_orders.len(), 1);
    t.update_market_from_rest(RestResponse::Failed(RestRequest::LimitOrder(k1, order), ErrX::new("rejected".to_string())));
    assert_eq!(t.market.state("X").unwrap().new_orders.len(), 0);
}

#[test]
fn orderbook_event_replaces_book() {
    let mut t: Trader<StrategyKind> = Trader::new();
    t.update_market_from_streaming(book_event("X", 5, 6));
    t.update_market_from_streaming(book_event("X", 7, 8));
    let b: &Orderbook = &t.market.state("X").unwrap().orderbook;
    assert_eq!(b.bids, vec![(7, 1)]);
    assert_eq!(b.time.offset_seconds, 10800);
    let info = StreamingResponse {
        time: Timestamp { seconds: 1, nanos: 0, offset_seconds: 0 },
        kind: ResponseType::Error { request_id: None, error: "x".to_string() },
    };
    t.update_market_from_streaming(info);
    assert_eq!(t.market.state.len(), 1);
}
