use tradebot::model::{Order, OrderKey, OrderKind, OrderState, Position, Stock, Timestamp};
use tradebot::rest::{instruments_reply, limit_order_reply, reply, ErrX, Request as RestRequest, Response as RestResponse};
use tradebot::streaming::{Frame, FrameAction, Interval, Request, Response, ResponseType, Streaming, TickAction};
use tradebot::text::UNIT;

fn book_sub(figi: &str, depth: u32) -> Request {
    Request::OrderbookSubscribe { figi: figi.to_string(), depth }
}

fn figi_of(r: &Request) -> &str {
    match r {
        Request::CandleSubscribe { figi, .. }
        | Request::CandleUnsubscribe { figi, .. }
        | Request::OrderbookSubscribe { figi, .. }
        | Request::OrderbookUnsubscribe { figi, .. }
        | Request::InfoSubscribe { figi }
        | Request::InfoUnsubsribe { figi } => figi,
    }
}

#[test]
fn subscribe_unsubscribe_round_trip() {
    let mut s = Streaming::new();
    let sent = s.on_command(book_sub("X", 4));
    assert!(matches!(sent, Request::OrderbookSubscribe { depth: 4, .. }));
    let sent = s.on_command(Request::OrderbookUnsubscribe { figi: "X".to_string(), depth: 4 });
    assert!(matches!(sent, Request::OrderbookUnsubscribe { depth: 4, .. }));
    let replay = s.on_reconnected();
    assert!(replay.iter().all(|r| figi_of(r) != "X"));
    assert!(replay.is_empty());
}

#[test]
fn reconnect_replays_exactly_the_subscriptions() {
    let mut s = Streaming::new();
    s.on_command(book_sub("A", 10));
    s.on_command(Request::CandleSubscribe { figi: "B".to_string(), interval: Interval::MIN5 });
    s.on_command(Request::InfoSubscribe { figi: "C".to_string() });
    s.on_command(book_sub("A", 10));
    s.on_command(Request::InfoUnsubsribe { figi: "C".to_string() });
    s.on_command(Request::CandleUnsubscribe { figi: "B".to_string(), interval: Interval::HOUR });
    let replay = s.on_reconnected();
    assert_eq!(replay.len(), 2);
    assert!(matches!(&replay[0], Request::OrderbookSubscribe { figi, depth: 10 } if figi == "A"));
    assert!(matches!(&replay[1], Request::CandleSubscribe { figi, interval: Interval::MIN5 } if figi == "B"));
}

#[test]
fn two_ticks_without_pong_reconnect() {
    let mut s = Streaming::new();
    assert_eq!(s.on_timer(), TickAction::SendPing);
    s.on_command(book_sub("A", 1));
    assert!(matches!(s.on_frame(Frame::Text("{}".to_string())), FrameAction::Deliver(_)));
    assert!(matches!(s.on_frame(Frame::Ping(vec![1, 2])), FrameAction::Reply(d) if d == vec![1, 2]));
    assert_eq!(s.on_timer(), TickAction::Reconnect);
    s.on_reconnected();
    assert_eq!(s.on_timer(), TickAction::SendPing);
}

#[test]
fn pong_keeps_the_connection() {
    let mut s = Streaming::new();
    assert_eq!(s.on_timer(), TickAction::SendPing);
    assert!(matches!(s.on_frame(Frame::Pong), FrameAction::Ignore));
    assert_eq!(s.on_timer(), TickAction::SendPing);
    assert!(matches!(s.on_frame(Frame::Close), FrameAction::Reconnect));
    assert!(matches!(s.on_frame(Frame::Failed), FrameAction::Reconnect));
    assert!(matches!(s.on_frame(Frame::Binary), FrameAction::Ignore));
}

#[test]
fn failed_call_returns_the_request() {
    let r = reply(RestRequest::Portfolio, Err(ErrX::new("boom".to_string())));
    assert!(matches!(r, RestResponse::Failed(RestRequest::Portfolio, e) if e.msg == "boom"));
    let ok = reply(RestRequest::Portfolio, Ok(RestResponse::Stocks(vec![])));
    assert!(matches!(ok, RestResponse::Stocks(v) if v.is_empty()));
}

#[test]
fn limit_order_reply_keeps_the_key() {
    let key = OrderKey { stamp: 3, seq: 4 };
    let o = Order { figi: "A".to_string(), kind: OrderKind::Sell, price: UNIT, quantity: 2 };
    match limit_order_reply(key, o.clone(), Ok(("id-1".to_string(), 1))) {
        RestResponse::Order(k, OrderState { order_id, executed, .. }) => {
            assert_eq!(k, key);
            assert_eq!(order_id, "id-1");
            assert_eq!(executed, 1);
        }
        _ => panic!("expected an acknowledgement"),
    }
    match limit_order_reply(key, o, Err(ErrX::new("no".to_string()))) {
        RestResponse::Failed(RestRequest::LimitOrder(k, order), _) => {
            assert_eq!(k, key);
            assert_eq!(order.quantity, 2);
        }
        _ => panic!("expected a failure"),
    }
}

#[test]
fn instruments_are_concatenated() {
    let s = |f: &str| Stock { name: f.to_string(), figi: f.to_string(), ticker: f.to_string(), isin: None, min_increment: 1, lot: 1 };
    match instruments_reply(vec![s("a")], vec![s("b")], vec![], vec![s("c"), s("d")]) {
        RestResponse::Stocks(v) => {
            let names: Vec<&str> = v.iter().map(|x| x.name.as_str()).collect();
            assert_eq!(names, vec!["a", "b", "c", "d"]);
        }
        _ => panic!("expected stocks"),
    }
}

#[test]
fn streaming_response_carries_book() {
    let r = Response {
        time: Timestamp { seconds: 1, nanos: 2, offset_seconds: 0 },
        kind: ResponseType::Orderbook { figi: "A".to_string(), depth: 2, bids: vec![(1, 2)], asks: vec![(3, 4)] },
    };
    assert!(matches!(r.kind, ResponseType::Orderbook { depth: 2, .. }));
    let _ = Position::default();
}
