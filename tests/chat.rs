use tradebot::chat::{
    portfolio_text, stocks_by_ticker, Action, Context, Event, ResponseMessage, State, Storage, TraderHandle,
};
use tradebot::fixed_amount::FixedAmount;
use tradebot::model::{Market, Position, Stock};
use tradebot::persistent::SavedState;
use tradebot::strategy::{Strategy, StrategyKind};
use tradebot::trader::{Request as TraderRequest, Response as TraderResponse, Trader};

fn stock(figi: &str, ticker: &str, name: &str) -> Stock {
    Stock { name: name.to_string(), figi: figi.to_string(), ticker: ticker.to_string(), isin: None, min_increment: 1, lot: 1 }
}

fn is_reply(a: &Action, f: fn(&ResponseMessage) -> bool) -> bool {
    matches!(a, Action::Reply(m) if f(m))
}

#[test]
fn message_events() {
    assert!(matches!(Event::from_message("hello".to_string(), vec![]), Event::Text(t) if t == "hello"));
    assert!(matches!(Event::from_message("/start".to_string(), vec![(true, 0, 6)]), Event::Start));
    assert!(matches!(
        Event::from_message("x /bogus /finish".to_string(), vec![(false, 0, 1), (true, 2, 6), (true, 9, 7)]),
        Event::Finish
    ));
    assert!(matches!(Event::from_message("@bob".to_string(), vec![(false, 0, 4)]), Event::Unknown));
    assert!(matches!(Event::from_message("/portfolio".to_string(), vec![(true, 0, 10)]), Event::Portfolio));
    assert!(matches!(Event::from_message("/strategy".to_string(), vec![(true, 0, 9)]), Event::Strategy));
    assert!(matches!(Event::from_message("/strategies".to_string(), vec![(true, 0, 11)]), Event::Strategies));
    assert!(matches!(Event::from_callback(Some("k".to_string())), Event::Select(k) if k == "k"));
    assert!(matches!(Event::from_callback(None), Event::Unknown));
}

#[test]
fn command_offsets_count_utf16_units() {
    // "😀" takes two UTF-16 units, "é" one.
    assert!(matches!(Event::from_message("😀 /start".to_string(), vec![(true, 3, 6)]), Event::Start));
    assert!(matches!(Event::from_message("é /finish".to_string(), vec![(true, 2, 7)]), Event::Finish));
    assert!(matches!(Event::from_message("😀/start".to_string(), vec![(true, 1, 7)]), Event::Unknown));
    assert!(matches!(Event::from_message("/start".to_string(), vec![(true, 0, 60)]), Event::Start));
}

#[test]
fn dialogue_creates_a_strategy() {
    let mut st = Storage::new();
    let acts = st.on_event(Event::Portfolio);
    assert!(is_reply(&acts[0], |m| matches!(m, ResponseMessage::Dummy)));
    let acts = st.on_event(Event::Start);
    assert!(matches!(st.state(), State::WaitingToken));
    assert!(is_reply(&acts[0], |m| matches!(m, ResponseMessage::RequestToken)));
    let acts = st.on_event(Event::Text("T".to_string()));
    assert!(matches!(&acts[0], Action::StartTrader(t) if t == "T"));
    assert_eq!(st.state().token(), Some("T"));
    let acts = st.on_event(Event::Portfolio);
    assert!(matches!(&acts[0], Action::ToTrader(TraderRequest::Portfolio)));
    assert!(is_reply(&acts[1], |m| matches!(m, ResponseMessage::InProgress)));
    st.on_event(Event::Strategy);
    assert!(matches!(st.state(), State::ChoosingStrategy(_)));
    let acts = st.on_event(Event::Select("No such kind".to_string()));
    assert!(is_reply(&acts[0], |m| matches!(m, ResponseMessage::Dummy)));
    st.on_event(Event::Select("Fixed amount".to_string()));
    assert!(matches!(st.state(), State::WaitingStrategyName(_, StrategyKind::FixedAmount(_))));
    let acts = st.on_event(Event::Text("s1".to_string()));
    assert!(is_reply(&acts[0], |m| matches!(m, ResponseMessage::SelectStrategyParam(p) if p.len() == 5)));
    st.on_event(Event::Select("target".to_string()));
    let acts = st.on_event(Event::Text("many".to_string()));
    assert!(matches!(&acts[0], Action::Reply(ResponseMessage::Failed(m)) if m == "Oops... need a number"));
    assert!(matches!(st.state(), State::WaitingStrategyParam(_, _)));
    st.on_event(Event::Text("2500.5".to_string()));
    assert!(matches!(st.state(), State::ChoosingStrategyParam(_, _)));
    let acts = st.on_event(Event::Finish);
    match &acts[0] {
        Action::ToTrader(TraderRequest::AddStrategy(name, StrategyKind::FixedAmount(f))) => {
            assert_eq!(name, "s1");
            assert_eq!(f.target, 2_500_500_000);
        }
        _ => panic!("expected the new strategy"),
    }
    assert!(is_reply(&acts[1], |m| matches!(m, ResponseMessage::StrategyAdded)));
    assert!(matches!(st.state(), State::Connected(h) if h.token == "T"));
}

#[test]
fn ticker_parameter_resolves_the_instrument() {
    let mut st = Storage::new();
    st.on_trader(TraderResponse::Stocks(vec![stock("F1", "AAA", "Alpha"), stock("F2", "BBB", "Beta")]));
    st.set_state(State::create(TraderHandle::create("T".to_string())));
    st.on_event(Event::Strategy);
    st.on_event(Event::Select("Trailing stop".to_string()));
    st.on_event(Event::Text("guard".to_string()));
    st.on_event(Event::Select("ticker".to_string()));
    let acts = st.on_event(Event::Text("ZZZ".to_string()));
    assert!(matches!(&acts[0], Action::Reply(ResponseMessage::Failed(m)) if m == "Oops... ticker not found"));
    let acts = st.on_event(Event::Text("BBB".to_string()));
    assert!(matches!(&acts[0], Action::Send(m) if m == "Found: Beta"));
    match st.state() {
        State::ChoosingStrategyParam(_, ns) => {
            assert!(matches!(&ns.strategy, StrategyKind::TrailingStop(t) if t.figi == "F2"));
            assert_eq!(ns.name, "guard");
        }
        _ => panic!("expected the parameter choice"),
    }
    st.on_event(Event::Select("colour".to_string()));
    let acts = st.on_event(Event::Text("red".to_string()));
    assert!(matches!(&acts[0], Action::Reply(ResponseMessage::Failed(m)) if m == "Oops... no such parameter"));
}

#[test]
fn portfolio_roundtrip() {
    let mut t: Trader<StrategyKind> = Trader::new();
    t.market.update_positons(vec![("A".to_string(), Position { lots: 10, balance: 1000 })]);
    let mut st = Storage::new();
    st.on_event(Event::Start);
    let acts = st.on_event(Event::Text("T".to_string()));
    assert!(matches!(&acts[0], Action::StartTrader(_)));
    let acts = st.on_event(Event::Portfolio);
    let request = match acts.into_iter().next() {
        Some(Action::ToTrader(r)) => r,
        _ => panic!("expected a trader request"),
    };
    let response = t.process_request(request).unwrap();
    let acts = st.on_trader(response);
    match &acts[0] {
        Action::Send(text) => {
            assert!(text.contains("A: 1000"));
            assert_eq!(text, "Your portfolio:\n\tA: 1000\n");
        }
        _ => panic!("expected the portfolio text"),
    }
}

#[test]
fn restart_restoration() {
    let mut strategies = Vec::new();
    strategies.push(("s1".to_string(), StrategyKind::FixedAmount(FixedAmount::new("F".to_string()))));
    let saved = SavedState::new("T".to_string(), strategies);
    let (storage, requests) = Storage::restored(&saved);
    assert_eq!(storage.state().token(), Some("T"));
    let mut t: Trader<StrategyKind> = Trader::new();
    for r in requests {
        t.process_request(r);
    }
    match t.process_request(TraderRequest::Strategies) {
        Some(TraderResponse::Strategies(v)) => {
            assert_eq!(v.len(), 1);
            assert_eq!(v[0].0, "s1");
            assert!(matches!(&v[0].1, StrategyKind::FixedAmount(f) if f.figi == "F"));
        }
        _ => panic!("expected the strategies"),
    }
}

#[test]
fn strategies_reply_is_saved() {
    let mut st = Storage::new();
    let acts = st.on_trader(TraderResponse::Strategies(vec![]));
    assert!(acts.is_empty());
    st.set_state(State::create(TraderHandle::create("tok".to_string())));
    let v = vec![("a".to_string(), StrategyKind::FixedAmount(FixedAmount::new("F".to_string())))];
    let acts = st.on_trader(TraderResponse::Strategies(v));
    match &acts[0] {
        Action::Persist(saved) => {
            assert_eq!(saved.token(), "tok");
            assert_eq!(saved.strategies().len(), 1);
        }
        _ => panic!("expected a save"),
    }
    assert!(st.context.strategy("a").is_some());
    assert!(st.context.strategy("b").is_none());
    let acts = st.on_trader_stopped();
    assert!(matches!(st.state(), State::New));
    assert!(is_reply(&acts[0], |m| matches!(m, ResponseMessage::TraderStopped)));
}

#[test]
fn rendering() {
    let ctx = Context::new();
    let m = ctx.render(&ResponseMessage::SelectStrategyParam(StrategyKind::variants()[1].1.params()));
    assert_eq!(m.buttons[0], ("Ticker of the instrument".to_string(), "ticker".to_string()));
    assert_eq!(m.buttons[2].1, "quantity");
    assert!(ctx.render(&ResponseMessage::InProgress).typing);
    assert_eq!(ctx.render(&ResponseMessage::Failed("x".to_string())).text, "x");
    assert_eq!(ctx.render(&ResponseMessage::SelectStrategy).buttons.len(), 2);
    let info = ctx.render(&ResponseMessage::StrategyInfo("s".to_string(), StrategyKind::variants()[0].1.clone()));
    assert!(info.text.starts_with("Strategy s\nFixed amount"));
    assert!(info.text.ends_with("Balance: 0%"));
}

#[test]
fn tickers_and_texts() {
    let by = stocks_by_ticker(vec![stock("F1", "AAA", "Old"), stock("F2", "AAA", "New"), stock("F3", "CCC", "C")]);
    assert_eq!(by.len(), 2);
    assert_eq!(by[0].1.name, "New");
    let m = Market::new();
    let items = vec![(m.stock("Q"), Position { lots: -1, balance: -12 })];
    assert_eq!(portfolio_text(&items), "Your portfolio:\n\tQ: -12\n");
    assert_eq!(portfolio_text(&vec![]), "Your portfolio:");
}
