//! The trader's decisions: how each event folds into the market model, what
//! each command from the chat is answered with, and which orders the
//! strategies place. The application runs the event loop around it.
use vstd::prelude::*;
use crate::assoc::{assoc_map, unique_keys, find_str, upsert_str, lemma_remove, lemma_absent};
use crate::model::{
    Market, Order, OrderKey, Orderbook, Position, Stock, StockView, StockStateView, state_or_fresh,
    with_orders, with_positions, with_stocks,
};
use crate::rest::{Request as RestRequest, Response as RestResponse};
use crate::strategy::{Decision, Strategy};
use crate::streaming::{Request as StreamingRequest, RequestView, Response as StreamingResponse, ResponseType};

verus! {

/// Where a trader connects, and with which token.
pub struct TraderConf {
    pub rest_uri: String,
    pub streaming_uri: String,
    pub token: String,
}

pub type Key = String;

/// A command from the chat.
pub enum Request<S> {
    Portfolio,
    AddStrategy(Key, S),
    RemoveStrategy(Key),
    Strategies,
}

/// A reply to the chat.
pub enum Response<S> {
    Portfolio(Vec<(Stock, Position)>),
    Stocks(Vec<Stock>),
    Strategies(Vec<(Key, S)>),
}

/// Something the trader sends out.
pub enum Outgoing<S> {
    Rest(RestRequest),
    Streaming(StreamingRequest),
    Reply(Response<S>),
}

/// Depth of the orderbooks the trader subscribes to.
pub const ORDERBOOK_DEPTH: u32 = 10;

pub open spec fn next_seq(seq: u64, n: int) -> u64 {
    ((seq + n) % 0x1_0000_0000_0000_0000) as u64
}

/// The key of the `j`-th order placed in one round.
pub open spec fn order_key(stamp: u64, seq: u64, j: int) -> OrderKey {
    OrderKey { stamp, seq: next_seq(seq, j) }
}

pub open spec fn order_of(d: Decision) -> Order {
    match d {
        Decision::Order(o) => o,
    }
}

/// Every strategy decides on the same market, in turn: their next states
/// and all their decisions, in order.
pub open spec fn decide_all<S: Strategy>(strats: Seq<(String, S)>, m: Market) -> (Seq<(String, S)>, Seq<Decision>)
    decreases strats.len(),
{
    if strats.len() == 0 {
        (Seq::empty(), Seq::empty())
    } else {
        let (ps, pd) = decide_all(strats.drop_last(), m);
        let (k, s) = strats.last();
        let (s2, d) = s.decided(m);
        (ps.push((k, s2)), pd + d)
    }
}

/// The live state after the orders of `ds` were recorded as new orders.
pub open spec fn placed(states: Map<Seq<char>, StockStateView>, stamp: u64, seq: u64, ds: Seq<Decision>) -> Map<
    Seq<char>,
    StockStateView,
>
    decreases ds.len(),
{
    if ds.len() == 0 {
        states
    } else {
        let prev = placed(states, stamp, seq, ds.drop_last());
        let o = order_of(ds.last());
        let f = o.figi@;
        prev.insert(
            f,
            StockStateView {
                pending: state_or_fresh(prev, f).pending.insert(order_key(stamp, seq, ds.len() - 1), o),
                ..state_or_fresh(prev, f)
            },
        )
    }
}

/// The live state after a REST reply.
pub open spec fn rest_effect(states: Map<Seq<char>, StockStateView>, resp: RestResponse) -> Map<
    Seq<char>,
    StockStateView,
> {
    match resp {
        RestResponse::Failed(RestRequest::LimitOrder(key, o), _) => states.insert(
            o.figi@,
            StockStateView { pending: state_or_fresh(states, o.figi@).pending.remove(key), ..state_or_fresh(states, o.figi@) },
        ),
        RestResponse::Failed(_, _) => states,
        RestResponse::Stocks(_) => states,
        RestResponse::Candles { figi, candles } => states.insert(
            figi@,
            StockStateView {
                candles: state_or_fresh(states, figi@).candles + candles@,
                ..state_or_fresh(states, figi@)
            },
        ),
        RestResponse::Order(key, st) => states.insert(
            st.order.figi@,
            StockStateView {
                pending: state_or_fresh(states, st.order.figi@).pending.remove(key),
                inwork: state_or_fresh(states, st.order.figi@).inwork.insert(st.order_id@, st),
                ..state_or_fresh(states, st.order.figi@)
            },
        ),
        RestResponse::Portfolio { positions, orders } => with_orders(with_positions(states, positions@), orders@),
    }
}

/// The live state after a streaming event: an orderbook replaces the
/// instrument's book; other events change nothing.
pub open spec fn streaming_effect(states: Map<Seq<char>, StockStateView>, resp: StreamingResponse) -> Map<
    Seq<char>,
    StockStateView,
> {
    match resp.kind {
        ResponseType::Orderbook { figi, depth, bids, asks } => states.insert(
            figi@,
            StockStateView {
                orderbook: crate::model::OrderbookView { time: resp.time, bids: bids@, asks: asks@ },
                ..state_or_fresh(states, figi@)
            },
        ),
        _ => states,
    }
}

/// An orderbook subscription for `figi` at the trader's depth.
pub open spec fn book_subscription<S>(o: Outgoing<S>, figi: Seq<char>) -> bool {
    match o {
        Outgoing::Streaming(q) => q@ == (RequestView::OrderbookSubscribe { figi, depth: ORDERBOOK_DEPTH }),
        _ => false,
    }
}

/// Copies of a list of instruments.
pub fn duplicate_stocks(v: &Vec<Stock>) -> (r: Vec<Stock>)
    ensures
        r@.len() == v@.len(),
        forall|i: int| 0 <= i < v@.len() ==> (#[trigger] r@[i])@ == v@[i]@,
{
    let mut out: Vec<Stock> = Vec::new();
    let mut i: usize = 0;
    while i < v.len()
        invariant
            0 <= i <= v@.len(),
            out@.len() == i,
            forall|j: int| 0 <= j < i ==> (#[trigger] out@[j])@ == v@[j]@,
        decreases v@.len() - i,
    {
        out.push(v[i].duplicate());
        i += 1;
    }
    out
}

/// The market model of one user, their strategies by name, and the
/// sequence number of the next order key.
pub struct Trader<S> {
    pub market: Market,
    pub strategies: Vec<(Key, S)>,
    pub next_seq: u64,
}

impl<S: Strategy> Trader<S> {
    pub open spec fn wf(&self) -> bool {
        self.market.wf() && unique_keys(self.strategies@)
    }

    /// The strategies by name.
    pub open spec fn strategy_map(&self) -> Map<Seq<char>, S> {
        assoc_map(self.strategies@)
    }

    pub fn new() -> (r: Trader<S>)
        ensures
            r.wf(),
            r.market.states() == Map::<Seq<char>, StockStateView>::empty(),
            r.market.catalog() == Map::<Seq<char>, StockView>::empty(),
            r.strategies@.len() == 0,
            r.next_seq == 0,
    {
        Trader { market: Market::new(), strategies: Vec::new(), next_seq: 0 }
    }

    /// What the trader asks for before its loop starts: the catalog.
    pub fn start_requests(&self) -> (r: Vec<RestRequest>)
        ensures
            r@.len() == 1,
            r@[0] is Instruments,
    {
        vec![RestRequest::Instruments]
    }

    /// What the trader asks for on each tick: the portfolio.
    pub fn on_tick(&self) -> (r: RestRequest)
        ensures
            r is Portfolio,
    {
        RestRequest::Portfolio
    }

    fn snapshot(&self) -> (r: Vec<(Key, S)>)
        ensures
            r@ == self.strategies@,
    {
        let mut out: Vec<(Key, S)> = Vec::new();
        let mut i: usize = 0;
        while i < self.strategies.len()
            invariant
                0 <= i <= self.strategies@.len(),
                out@ == self.strategies@.subrange(0, i as int),
            decreases self.strategies@.len() - i,
        {
            let k = self.strategies[i].0.clone();
            let s = self.strategies[i].1.duplicate();
            out.push((k, s));
            proof {
                assert(out@ =~= self.strategies@.subrange(0, i + 1));
            }
            i += 1;
        }
        assert(self.strategies@.subrange(0, self.strategies@.len() as int) =~= self.strategies@);
        out
    }

    /// A command from the chat, and the reply it gets, if any.
    pub fn process_request(&mut self, request: Request<S>) -> (r: Option<Response<S>>)
        requires
            old(self).wf(),
        ensures
            final(self).wf(),
            final(self).market == old(self).market,
            final(self).next_seq == old(self).next_seq,
            match request {
                Request::Portfolio => {
                    &&& final(self).strategies == old(self).strategies
                    &&& r matches Some(Response::Portfolio(p)) && p@.map_values(|e: (Stock, Position)| (e.0@, e.1)) == old(self).market.holdings()
                },
                Request::AddStrategy(k, s) => {
                    &&& final(self).strategy_map() == old(self).strategy_map().insert(k@, s)
                    &&& r matches Some(Response::Strategies(v)) && v@ == final(self).strategies@
                },
                Request::RemoveStrategy(k) => {
                    &&& final(self).strategy_map() == old(self).strategy_map().remove(k@)
                    &&& r is None
                },
                Request::Strategies => {
                    &&& final(self).strategies == old(self).strategies
                    &&& r matches Some(Response::Strategies(v)) && v@ == old(self).strategies@
                },
            },
    {
        match request {
            Request::Portfolio => Some(Response::Portfolio(self.market.portfolio())),
            Request::AddStrategy(k, s) => {
                upsert_str(&mut self.strategies, k, s);
                Some(Response::Strategies(self.snapshot()))
            },
            Request::RemoveStrategy(k) => {
                match find_str(&self.strategies, k.as_str()) {
                    Some(i) => {
                        let ghost before = self.strategies@;
                        self.strategies.remove(i);
                        proof {
                            lemma_remove(before, i as int);
                        }
                    },
                    None => {
                        proof {
                            lemma_absent(self.strategies@, k@);
                            assert(self.strategy_map() =~= old(self).strategy_map().remove(k@));
                        }
                    },
                }
                None
            },
            Request::Strategies => Some(Response::Strategies(self.snapshot())),
        }
    }

    /// Every strategy decides on the current market; each order decided is
    /// recorded as a new order under a fresh key (the clock reading `stamp`
    /// and the next sequence number) and sent to the broker.
    pub fn run_strategies(&mut self, stamp: u64) -> (r: Vec<RestRequest>)
        requires
            old(self).wf(),
        ensures
            final(self).wf(),
            final(self).strategies@ == decide_all(old(self).strategies@, old(self).market).0,
            final(self).market.catalog() == old(self).market.catalog(),
            ({
                let ds = decide_all(old(self).strategies@, old(self).market).1;
                &&& final(self).market.states() == placed(old(self).market.states(), stamp, old(self).next_seq, ds)
                &&& final(self).next_seq == next_seq(old(self).next_seq, ds.len() as int)
                &&& r@.len() == ds.len()
                &&& forall|j: int| 0 <= j < ds.len() ==> #[trigger] r@[j] == RestRequest::LimitOrder(
                    order_key(stamp, old(self).next_seq, j),
                    order_of(ds[j]),
                )
            }),
    {
        let mut decisions: Vec<Decision> = Vec::new();
        let mut i: usize = 0;
        let ghost start = self.strategies@;
        while i < self.strategies.len()
            invariant
                self.wf(),
                self.market == old(self).market,
                self.next_seq == old(self).next_seq,
                start == old(self).strategies@,
                self.strategies@.len() == start.len(),
                0 <= i <= start.len(),
                forall|j: int| 0 <= j < start.len() ==> (#[trigger] self.strategies@[j]).0 == start[j].0,
                forall|j: int| i <= j < start.len() ==> (#[trigger] self.strategies@[j]) == start[j],
                self.strategies@.subrange(0, i as int) == decide_all(start.subrange(0, i as int), self.market).0,
                decisions@ == decide_all(start.subrange(0, i as int), self.market).1,
            decreases start.len() - i,
        {
            let ghost before = self.strategies@;
            let mut ds = self.strategies[i].1.make_decision(&self.market);
            proof {
                assert(start.subrange(0, i + 1).drop_last() =~= start.subrange(0, i as int));
                assert(self.strategies@ == before.update(i as int, (before[i as int].0, self.strategies@[i as int].1)));
                assert(self.strategies@.subrange(0, i + 1) =~= before.subrange(0, i as int).push(self.strategies@[i as int]));
                assert forall|a: int, b: int|
                    0 <= a < self.strategies@.len() && 0 <= b < self.strategies@.len() && #[trigger] self.strategies@[a].0@
                        == #[trigger] self.strategies@[b].0@ implies a == b by {
                    assert(before[a].0@ == before[b].0@);
                }
            }
            decisions.append(&mut ds);
            i += 1;
        }
        proof {
            assert(start.subrange(0, start.len() as int) =~= start);
            assert(self.strategies@.subrange(0, start.len() as int) =~= self.strategies@);
        }
        let ghost all = decisions@;
        let ghost n = all.len();
        let ghost seq0 = self.next_seq;
        let ghost states0 = self.market.states();
        let mut out: Vec<RestRequest> = Vec::new();
        let mut rest = decisions;
        while rest.len() > 0
            invariant
                self.wf(),
                self.strategies@ == decide_all(old(self).strategies@, old(self).market).0,
                self.market.catalog() == old(self).market.catalog(),
                n == all.len(),
                all == decide_all(old(self).strategies@, old(self).market).1,
                states0 == old(self).market.states(),
                seq0 == old(self).next_seq,
                rest@.len() <= n,
                rest@ == all.subrange(n - rest@.len(), n as int),
                out@.len() == n - rest@.len(),
                self.next_seq == next_seq(seq0, n - rest@.len()),
                self.market.states() == placed(states0, stamp, seq0, all.subrange(0, n - rest@.len())),
                forall|j: int| 0 <= j < out@.len() ==> #[trigger] out@[j] == RestRequest::LimitOrder(
                    order_key(stamp, seq0, j),
                    order_of(all[j]),
                ),
            decreases rest@.len(),
        {
            let ghost k = n - rest@.len();
            let ghost prev = rest@;
            let d = rest.remove(0);
            proof {
                assert(prev == all.subrange(k, n as int));
                assert(prev[0] == all.subrange(k, n as int)[0]);
                assert(rest@ =~= all.subrange(n - rest@.len(), n as int));
                assert(all.subrange(0, k + 1).drop_last() =~= all.subrange(0, k));
            }
            match d {
                Decision::Order(order) => {
                    let key = OrderKey { stamp, seq: self.next_seq };
                    self.next_seq = if self.next_seq == u64::MAX {
                        0
                    } else {
                        self.next_seq + 1
                    };
                    self.market.add_new_order(key, order.duplicate());
                    out.push(RestRequest::LimitOrder(key, order));
                },
            }
            proof {
                assert(next_seq(seq0, k + 1) == if next_seq(seq0, k) == u64::MAX { 0 } else { next_seq(seq0, k) + 1 }) by {
                    assert(0x1_0000_0000_0000_0000int == u64::MAX + 1);
                }
            }
        }
        assert(all.subrange(0, n as int) =~= all);
        out
    }

    /// A streaming event folds into the market model.
    pub fn update_market_from_streaming(&mut self, msg: StreamingResponse)
        requires
            old(self).wf(),
        ensures
            final(self).wf(),
            final(self).strategies == old(self).strategies,
            final(self).next_seq == old(self).next_seq,
            final(self).market.catalog() == old(self).market.catalog(),
            final(self).market.states() == streaming_effect(old(self).market.states(), msg),
    {
        let StreamingResponse { time, kind } = msg;
        match kind {
            ResponseType::Orderbook { figi, depth, bids, asks } => {
                self.market.set_orderbook(figi.as_str(), Orderbook { time, bids, asks });
            },
            _ => {},
        }
    }

    /// A REST reply folds into the market model; the catalog is passed on
    /// to the chat, and every instrument of a portfolio gets an orderbook
    /// subscription.
    pub fn update_market_from_rest(&mut self, msg: RestResponse) -> (r: Vec<Outgoing<S>>)
        requires
            old(self).wf(),
        ensures
            final(self).wf(),
            final(self).strategies == old(self).strategies,
            final(self).next_seq == old(self).next_seq,
            final(self).market.states() == rest_effect(old(self).market.states(), msg),
            match msg {
                RestResponse::Stocks(v) => {
                    &&& final(self).market.catalog() == with_stocks(old(self).market.catalog(), v@)
                    &&& r@.len() == 1
                    &&& r@[0] matches Outgoing::Reply(Response::Stocks(c)) && c@.len() == v@.len()
                        && forall|i: int| 0 <= i < v@.len() ==> (#[trigger] c@[i])@ == v@[i]@
                },
                RestResponse::Portfolio { positions, orders } => {
                    &&& final(self).market.catalog() == old(self).market.catalog()
                    &&& r@.len() == positions@.len()
                    &&& forall|i: int| 0 <= i < r@.len() ==> book_subscription(#[trigger] r@[i], positions@[i].0@)
                },
                _ => final(self).market.catalog() == old(self).market.catalog() && r@.len() == 0,
            },
    {
        match msg {
            RestResponse::Failed(request, _e) => {
                match request {
                    RestRequest::LimitOrder(key, order) => {
                        self.market.remove_new_order(order.figi.as_str(), key);
                    },
                    _ => {},
                }
                Vec::new()
            },
            RestResponse::Stocks(stocks) => {
                let copy = duplicate_stocks(&stocks);
                self.market.update_stocks(stocks);
                vec![Outgoing::Reply(Response::Stocks(copy))]
            },
            RestResponse::Candles { figi, candles } => {
                self.market.add_candles(figi.as_str(), candles);
                Vec::new()
            },
            RestResponse::Order(key, state) => {
                self.market.acknowledge(key, state);
                Vec::new()
            },
            RestResponse::Portfolio { positions, orders } => {
                let mut out: Vec<Outgoing<S>> = Vec::new();
                let mut i: usize = 0;
                while i < positions.len()
                    invariant
                        0 <= i <= positions@.len(),
                        out@.len() == i,
                        forall|j: int| 0 <= j < i ==> book_subscription(#[trigger] out@[j], positions@[j].0@),
                    decreases positions@.len() - i,
                {
                    let figi = positions[i].0.clone();
                    out.push(Outgoing::Streaming(StreamingRequest::OrderbookSubscribe { figi, depth: ORDERBOOK_DEPTH }));
                    i += 1;
                }
                self.market.update_portfolio(positions, orders);
                out
            },
        }
    }
}


/// The last position given for `figi` in a portfolio's positions.
pub open spec fn last_position(positions: Seq<(String, Position)>, figi: Seq<char>) -> Option<Position>
    decreases positions.len(),
{
    if positions.len() == 0 {
        None
    } else if positions.last().0@ == figi {
        Some(positions.last().1)
    } else {
        last_position(positions.drop_last(), figi)
    }
}

proof fn lemma_positions_effect(states: Map<Seq<char>, StockStateView>, positions: Seq<(String, Position)>, f: Seq<char>)
    ensures
        states.contains_key(f) ==> with_positions(states, positions).contains_key(f)
            && with_positions(states, positions)[f].pending == states[f].pending
            && with_positions(states, positions)[f].orderbook == states[f].orderbook,
        last_position(positions, f) matches Some(p) ==> with_positions(states, positions).contains_key(f)
            && with_positions(states, positions)[f].position == p,
        forall|g: Seq<char>| #[trigger] states.contains_key(g) ==> with_positions(states, positions).contains_key(g),
    decreases positions.len(),
{
    if positions.len() > 0 {
        lemma_positions_effect(states, positions.drop_last(), f);
    }
}

/// A new order leaves the table of new orders only on a reply about it: its
/// acknowledgement, or the failure of its own limit order.
pub proof fn lemma_new_order_leaves_by_reply(
    states: Map<Seq<char>, StockStateView>,
    resp: RestResponse,
    f: Seq<char>,
    k: OrderKey,
)
    requires
        states.contains_key(f),
        states[f].pending.contains_key(k),
    ensures
        rest_effect(states, resp).contains_key(f),
        !rest_effect(states, resp)[f].pending.contains_key(k) ==> match resp {
            RestResponse::Order(key, st) => key == k && st.order.figi@ == f,
            RestResponse::Failed(RestRequest::LimitOrder(key, o), _) => key == k && o.figi@ == f,
            _ => false,
        },
{
    match resp {
        RestResponse::Portfolio { positions, orders } => {
            lemma_positions_effect(states, positions@, f);
        },
        _ => {},
    }
}

/// Streaming events and newly placed orders never take a new order away.
pub proof fn lemma_new_order_kept(
    states: Map<Seq<char>, StockStateView>,
    resp: StreamingResponse,
    stamp: u64,
    seq: u64,
    ds: Seq<Decision>,
    f: Seq<char>,
    k: OrderKey,
)
    requires
        states.contains_key(f),
        states[f].pending.contains_key(k),
    ensures
        streaming_effect(states, resp).contains_key(f),
        streaming_effect(states, resp)[f].pending.contains_key(k),
        placed(states, stamp, seq, ds).contains_key(f),
        placed(states, stamp, seq, ds)[f].pending.contains_key(k),
    decreases ds.len(),
{
    if ds.len() > 0 {
        lemma_new_order_kept(states, resp, stamp, seq, ds.drop_last(), f, k);
    }
}


/// An event of the market feed: a streaming event or a REST reply.
pub enum MarketEvent {
    Streaming(StreamingResponse),
    Rest(RestResponse),
}

/// The live state after a run of events.
pub open spec fn apply_events(states: Map<Seq<char>, StockStateView>, events: Seq<MarketEvent>) -> Map<
    Seq<char>,
    StockStateView,
>
    decreases events.len(),
{
    if events.len() == 0 {
        states
    } else {
        let prev = apply_events(states, events.drop_last());
        match events.last() {
            MarketEvent::Streaming(r) => streaming_effect(prev, r),
            MarketEvent::Rest(r) => rest_effect(prev, r),
        }
    }
}

pub open spec fn is_book_or_portfolio(e: MarketEvent) -> bool {
    match e {
        MarketEvent::Streaming(r) => r.kind is Orderbook,
        MarketEvent::Rest(r) => r is Portfolio,
    }
}

/// The last orderbook the feed gave for `figi`.
pub open spec fn last_book(events: Seq<MarketEvent>, figi: Seq<char>) -> Option<crate::model::OrderbookView>
    decreases events.len(),
{
    if events.len() == 0 {
        None
    } else {
        match events.last() {
            MarketEvent::Streaming(r) => match r.kind {
                ResponseType::Orderbook { figi: g, depth, bids, asks } => if g@ == figi {
                    Some(crate::model::OrderbookView { time: r.time, bids: bids@, asks: asks@ })
                } else {
                    last_book(events.drop_last(), figi)
                },
                _ => last_book(events.drop_last(), figi),
            },
            _ => last_book(events.drop_last(), figi),
        }
    }
}

/// The positions of the last portfolio reply.
pub open spec fn last_portfolio(events: Seq<MarketEvent>) -> Option<Seq<(String, Position)>>
    decreases events.len(),
{
    if events.len() == 0 {
        None
    } else {
        match events.last() {
            MarketEvent::Rest(RestResponse::Portfolio { positions, orders }) => Some(positions@),
            _ => last_portfolio(events.drop_last()),
        }
    }
}

/// Orderbook events interleaved with portfolio replies: every instrument
/// keeps one orderbook, the last one received, and every position named in
/// the last portfolio reply is the one that reply gives.
pub proof fn lemma_feed_keeps_latest(states: Map<Seq<char>, StockStateView>, events: Seq<MarketEvent>, f: Seq<char>)
    requires
        forall|i: int| 0 <= i < events.len() ==> is_book_or_portfolio(#[trigger] events[i]),
    ensures
        states.contains_key(f) ==> apply_events(states, events).contains_key(f),
        last_book(events, f) matches Some(b) ==> apply_events(states, events).contains_key(f)
            && apply_events(states, events)[f].orderbook == b,
        last_portfolio(events) matches Some(ps) ==> (last_position(ps, f) matches Some(p)
            ==> apply_events(states, events).contains_key(f) && apply_events(states, events)[f].position == p),
    decreases events.len(),
{
    if events.len() > 0 {
        let d = events.drop_last();
        assert forall|i: int| 0 <= i < d.len() implies is_book_or_portfolio(#[trigger] d[i]) by {
            assert(d[i] == events[i]);
        }
        lemma_feed_keeps_latest(states, d, f);
        let prev = apply_events(states, d);
        assert(is_book_or_portfolio(events[events.len() - 1]));
        match events.last() {
            MarketEvent::Streaming(r) => {},
            MarketEvent::Rest(r) => {
                match r {
                    RestResponse::Portfolio { positions, orders } => {
                        lemma_positions_effect(prev, positions@, f);
                    },
                    _ => {},
                }
            },
        }
    }
}

} // verus!
