//! The streaming gateway's decisions: which subscriptions are in force,
//! what to do with each frame from the socket, and when to reconnect.
//! The socket itself is driven by the application.
use vstd::prelude::*;
use crate::model::Timestamp;

verus! {

#[derive(Clone, Copy, Debug, PartialEq, Eq, Structural, Hash)]
pub enum Interval {
    MIN1,
    MIN2,
    MIN3,
    MIN5,
    MIN10,
    MIN15,
    MIN30,
    HOUR,
    HOUR2,
    HOUR4,
    DAY,
    WEEK,
    MOUNTH,
}

pub enum RequestView {
    CandleSubscribe { figi: Seq<char>, interval: Interval },
    CandleUnsubscribe { figi: Seq<char>, interval: Interval },
    OrderbookSubscribe { figi: Seq<char>, depth: u32 },
    OrderbookUnsubscribe { figi: Seq<char>, depth: u32 },
    InfoSubscribe { figi: Seq<char> },
    InfoUnsubsribe { figi: Seq<char> },
}

/// A command frame of the market-data socket.
#[derive(Clone, Debug)]
pub enum Request {
    CandleSubscribe { figi: String, interval: Interval },
    CandleUnsubscribe { figi: String, interval: Interval },
    OrderbookSubscribe { figi: String, depth: u32 },
    OrderbookUnsubscribe { figi: String, depth: u32 },
    InfoSubscribe { figi: String },
    InfoUnsubsribe { figi: String },
}

impl View for Request {
    type V = RequestView;

    open spec fn view(&self) -> RequestView {
        match self {
            Request::CandleSubscribe { figi, interval } => RequestView::CandleSubscribe { figi: figi@, interval: *interval },
            Request::CandleUnsubscribe { figi, interval } => RequestView::CandleUnsubscribe { figi: figi@, interval: *interval },
            Request::OrderbookSubscribe { figi, depth } => RequestView::OrderbookSubscribe { figi: figi@, depth: *depth },
            Request::OrderbookUnsubscribe { figi, depth } => RequestView::OrderbookUnsubscribe { figi: figi@, depth: *depth },
            Request::InfoSubscribe { figi } => RequestView::InfoSubscribe { figi: figi@ },
            Request::InfoUnsubsribe { figi } => RequestView::InfoUnsubsribe { figi: figi@ },
        }
    }
}

pub open spec fn is_subscribe(r: RequestView) -> bool {
    r is CandleSubscribe || r is OrderbookSubscribe || r is InfoSubscribe
}

/// The subscription that a request is about: a subscribe is its own, an
/// unsubscribe names the subscribe with the same fields.
pub open spec fn subscription_of(r: RequestView) -> RequestView {
    match r {
        RequestView::CandleUnsubscribe { figi, interval } => RequestView::CandleSubscribe { figi, interval },
        RequestView::OrderbookUnsubscribe { figi, depth } => RequestView::OrderbookSubscribe { figi, depth },
        RequestView::InfoUnsubsribe { figi } => RequestView::InfoSubscribe { figi },
        _ => r,
    }
}

impl Request {
    pub fn duplicate(&self) -> (r: Request)
        ensures
            r@ == self@,
    {
        match self {
            Request::CandleSubscribe { figi, interval } => Request::CandleSubscribe { figi: figi.clone(), interval: *interval },
            Request::CandleUnsubscribe { figi, interval } => Request::CandleUnsubscribe { figi: figi.clone(), interval: *interval },
            Request::OrderbookSubscribe { figi, depth } => Request::OrderbookSubscribe { figi: figi.clone(), depth: *depth },
            Request::OrderbookUnsubscribe { figi, depth } => Request::OrderbookUnsubscribe { figi: figi.clone(), depth: *depth },
            Request::InfoSubscribe { figi } => Request::InfoSubscribe { figi: figi.clone() },
            Request::InfoUnsubsribe { figi } => Request::InfoUnsubsribe { figi: figi.clone() },
        }
    }

    pub fn is_subscribe(&self) -> (r: bool)
        ensures
            r == is_subscribe(self@),
    {
        match self {
            Request::CandleSubscribe { .. } | Request::OrderbookSubscribe { .. } | Request::InfoSubscribe { .. } => true,
            _ => false,
        }
    }

    /// Whether `self` is the subscription that `other` is about.
    pub fn is_subscription_of(&self, other: &Request) -> (r: bool)
        ensures
            r == (self@ == subscription_of(other@)),
    {
        match (self, other) {
            (Request::CandleSubscribe { figi: a, interval: x }, Request::CandleSubscribe { figi: b, interval: y })
            | (Request::CandleSubscribe { figi: a, interval: x }, Request::CandleUnsubscribe { figi: b, interval: y }) => {
                *a == *b && *x == *y
            },
            (Request::OrderbookSubscribe { figi: a, depth: x }, Request::OrderbookSubscribe { figi: b, depth: y })
            | (Request::OrderbookSubscribe { figi: a, depth: x }, Request::OrderbookUnsubscribe { figi: b, depth: y }) => {
                *a == *b && *x == *y
            },
            (Request::InfoSubscribe { figi: a }, Request::InfoSubscribe { figi: b })
            | (Request::InfoSubscribe { figi: a }, Request::InfoUnsubsribe { figi: b }) => {
                *a == *b
            },
            _ => {
                proof {
                    assert(!(self@ == subscription_of(other@)) || is_subscribe(other@) || !is_subscribe(self@));
                }
                false
            },
        }
    }
}

#[derive(Clone, Copy, Debug, PartialEq, Eq, Structural)]
pub enum TradeStatus {
    BreakInTrading,
    NormalTrading,
    NotAvailableForTrading,
    ClosingAuction,
    ClosingPeriod,
    DiscreteAuction,
    OpeningPeriod,
    TradingAtClosingAuctionPrice,
}

/// A candle as the socket reports it.
#[derive(Clone, Debug)]
pub struct Candle {
    pub o: u64,
    pub c: u64,
    pub h: u64,
    pub l: u64,
    pub v: i32,
    pub time: Timestamp,
    pub interval: Interval,
    pub figi: String,
}

#[derive(Clone, Debug)]
pub enum ResponseType {
    Candle(Candle),
    Orderbook { figi: String, depth: u32, bids: Vec<(u64, u32)>, asks: Vec<(u64, u32)> },
    Info { figi: String, trade_status: TradeStatus, min_price_increment: u64, lot: u32 },
    Error { request_id: Option<String>, error: String },
}

/// An event of the socket, stamped by the server.
#[derive(Clone, Debug)]
pub struct Response {
    pub time: Timestamp,
    pub kind: ResponseType,
}

/// A frame read from the socket, or a failed read.
pub enum Frame {
    Text(String),
    Binary,
    Ping(Vec<u8>),
    Pong,
    Close,
    Failed,
}

/// What to do about a frame.
pub enum FrameAction {
    /// Parse the text and hand the event on.
    Deliver(String),
    /// Answer with a Pong carrying these bytes.
    Reply(Vec<u8>),
    Reconnect,
    Ignore,
}

/// What to do on a heartbeat tick.
#[derive(Clone, Copy, Debug, PartialEq, Eq, Structural)]
pub enum TickAction {
    SendPing,
    Reconnect,
}

/// Heartbeat flag and the subscriptions in force.
pub struct Streaming {
    pub need_pong: bool,
    pub state: Vec<Request>,
}

impl Streaming {
    pub open spec fn wf(&self) -> bool {
        &&& forall|i: int| 0 <= i < self.state@.len() ==> is_subscribe(#[trigger] self.state@[i]@)
        &&& forall|i: int, j: int|
            0 <= i < self.state@.len() && 0 <= j < self.state@.len() && #[trigger] self.state@[i]@
                == #[trigger] self.state@[j]@ ==> i == j
    }

    /// The subscriptions in force.
    pub open spec fn subscriptions(&self) -> Set<RequestView> {
        Set::new(|v: RequestView| exists|i: int| 0 <= i < self.state@.len() && #[trigger] self.state@[i]@ == v)
    }

    /// The subscriptions after a command.
    pub open spec fn commanded(subs: Set<RequestView>, req: RequestView) -> Set<RequestView> {
        if is_subscribe(req) {
            subs.insert(req)
        } else {
            subs.remove(subscription_of(req))
        }
    }

    pub fn new() -> (r: Streaming)
        ensures
            r.wf(),
            !r.need_pong,
            r.subscriptions() == Set::<RequestView>::empty(),
    {
        let r = Streaming { need_pong: false, state: Vec::new() };
        assert(r.subscriptions() =~= Set::empty());
        r
    }

    /// A request from the trader: the subscriptions follow it, and the
    /// request itself is the frame to send.
    pub fn on_command(&mut self, req: Request) -> (r: Request)
        requires
            old(self).wf(),
        ensures
            final(self).wf(),
            final(self).need_pong == old(self).need_pong,
            final(self).subscriptions() == Streaming::commanded(old(self).subscriptions(), req@),
            r@ == req@,
    {
        let mut found: Option<usize> = None;
        let mut i: usize = 0;
        while i < self.state.len()
            invariant
                0 <= i <= self.state@.len(),
                match found {
                    Some(k) => k < self.state@.len() && self.state@[k as int]@ == subscription_of(req@),
                    None => forall|j: int| 0 <= j < i ==> #[trigger] self.state@[j]@ != subscription_of(req@),
                },
            decreases self.state@.len() - i,
        {
            if found.is_none() && self.state[i].is_subscription_of(&req) {
                found = Some(i);
            }
            i += 1;
        }
        let ghost before = self.state@;
        if req.is_subscribe() {
            if found.is_none() {
                self.state.push(req.duplicate());
                proof {
                    assert forall|a: int, b: int|
                        0 <= a < self.state@.len() && 0 <= b < self.state@.len() && #[trigger] self.state@[a]@
                            == #[trigger] self.state@[b]@ implies a == b by {
                        if a < before.len() && b == before.len() {
                            assert(before[a]@ == subscription_of(req@));
                        }
                        if b < before.len() && a == before.len() {
                            assert(before[b]@ == subscription_of(req@));
                        }
                        if a < before.len() && b < before.len() {
                            assert(before[a]@ == before[b]@);
                        }
                    }
                    assert(self.subscriptions() =~= old(self).subscriptions().insert(req@)) by {
                        assert forall|v: RequestView| self.subscriptions().contains(v) <==> old(self).subscriptions().insert(req@).contains(v) by {
                            if old(self).subscriptions().contains(v) {
                                let k = choose|k: int| 0 <= k < before.len() && #[trigger] before[k]@ == v;
                                assert(self.state@[k]@ == v);
                            }
                            if v == req@ {
                                assert(self.state@[before.len() as int]@ == v);
                            }
                            if self.subscriptions().contains(v) && v != req@ {
                                let k = choose|k: int| 0 <= k < self.state@.len() && #[trigger] self.state@[k]@ == v;
                                assert(before[k]@ == v);
                            }
                        }
                    }
                }
            } else {
                proof {
                    let k = found->Some_0 as int;
                    assert(self.state@[k]@ == req@);
                    assert(self.subscriptions() =~= old(self).subscriptions().insert(req@));
                }
            }
        } else {
            match found {
                Some(k) => {
                    self.state.remove(k);
                    proof {
                        let s = subscription_of(req@);
                        assert forall|a: int, b: int|
                            0 <= a < self.state@.len() && 0 <= b < self.state@.len() && #[trigger] self.state@[a]@
                                == #[trigger] self.state@[b]@ implies a == b by {
                            let a1 = if a < k { a } else { a + 1 };
                            let b1 = if b < k { b } else { b + 1 };
                            assert(self.state@[a] == before[a1]);
                            assert(self.state@[b] == before[b1]);
                        }
                        assert forall|j: int| 0 <= j < self.state@.len() implies is_subscribe(#[trigger] self.state@[j]@) by {
                            let j1 = if j < k { j } else { j + 1 };
                            assert(self.state@[j] == before[j1]);
                        }
                        assert forall|v: RequestView| self.subscriptions().contains(v) <==> old(self).subscriptions().remove(s).contains(v) by {
                            if self.subscriptions().contains(v) {
                                let j = choose|j: int| 0 <= j < self.state@.len() && #[trigger] self.state@[j]@ == v;
                                let j1 = if j < k { j } else { j + 1 };
                                assert(self.state@[j] == before[j1]);
                                assert(j1 != k);
                            }
                            if old(self).subscriptions().remove(s).contains(v) {
                                let j = choose|j: int| 0 <= j < before.len() && #[trigger] before[j]@ == v;
                                assert(j != k);
                                let j2 = if j < k { j } else { j - 1 };
                                assert(self.state@[j2] == before[j]);
                            }
                        }
                        assert(self.subscriptions() =~= old(self).subscriptions().remove(s));
                    }
                },
                None => {
                    proof {
                        let s = subscription_of(req@);
                        assert forall|v: RequestView| self.subscriptions().contains(v) <==> old(self).subscriptions().remove(s).contains(v) by {
                            if self.subscriptions().contains(v) {
                                let j = choose|j: int| 0 <= j < self.state@.len() && #[trigger] self.state@[j]@ == v;
                                assert(self.state@[j]@ != s);
                            }
                        }
                        assert(self.subscriptions() =~= old(self).subscriptions().remove(s));
                    }
                },
            }
        }
        req
    }

    /// The state after a frame.
    pub open spec fn framed(self, pong: bool) -> Streaming {
        if pong {
            Streaming { need_pong: false, ..self }
        } else {
            self
        }
    }

    /// A frame from the socket: text is handed on, a Ping is answered, a
    /// Pong clears the heartbeat flag, a Close or a failed read reconnects.
    pub fn on_frame(&mut self, frame: Frame) -> (r: FrameAction)
        ensures
            *final(self) == old(self).framed(frame is Pong),
            match frame {
                Frame::Text(t) => r == FrameAction::Deliver(t),
                Frame::Ping(d) => r == FrameAction::Reply(d),
                Frame::Close | Frame::Failed => r is Reconnect,
                Frame::Pong | Frame::Binary => r is Ignore,
            },
    {
        match frame {
            Frame::Text(t) => FrameAction::Deliver(t),
            Frame::Ping(d) => FrameAction::Reply(d),
            Frame::Pong => {
                self.need_pong = false;
                FrameAction::Ignore
            },
            Frame::Binary => FrameAction::Ignore,
            Frame::Close | Frame::Failed => FrameAction::Reconnect,
        }
    }

    /// The state and the action of a heartbeat tick.
    pub open spec fn ticked(self) -> (Streaming, TickAction) {
        if self.need_pong {
            (self, TickAction::Reconnect)
        } else {
            (Streaming { need_pong: true, ..self }, TickAction::SendPing)
        }
    }

    /// A heartbeat tick: reconnect if the last Ping went unanswered, else
    /// send a Ping and wait for its Pong.
    pub fn on_timer(&mut self) -> (r: TickAction)
        ensures
            (*final(self), r) == old(self).ticked(),
    {
        if self.need_pong {
            TickAction::Reconnect
        } else {
            self.need_pong = true;
            TickAction::SendPing
        }
    }

    /// A new socket is up: the heartbeat starts afresh, and every
    /// subscription in force is sent again.
    pub fn on_reconnected(&mut self) -> (r: Vec<Request>)
        requires
            old(self).wf(),
        ensures
            final(self).wf(),
            !final(self).need_pong,
            final(self).state == old(self).state,
            r@.len() == old(self).state@.len(),
            forall|i: int| 0 <= i < r@.len() ==> (#[trigger] r@[i])@ == old(self).state@[i]@,
    {
        self.need_pong = false;
        let mut out: Vec<Request> = Vec::new();
        let mut i: usize = 0;
        while i < self.state.len()
            invariant
                0 <= i <= self.state@.len(),
                out@.len() == i,
                forall|j: int| 0 <= j < i ==> (#[trigger] out@[j])@ == self.state@[j]@,
            decreases self.state@.len() - i,
        {
            out.push(self.state[i].duplicate());
            i += 1;
        }
        out
    }
}

/// What the gateway sends again after a reconnect is exactly the set of
/// subscriptions in force, each once.
pub proof fn lemma_replay_is_subscriptions(s: Streaming, replay: Seq<Request>)
    requires
        s.wf(),
        replay.len() == s.state@.len(),
        forall|i: int| 0 <= i < replay.len() ==> (#[trigger] replay[i])@ == s.state@[i]@,
    ensures
        forall|v: RequestView| s.subscriptions().contains(v) <==> exists|i: int| 0 <= i < replay.len() && #[trigger] replay[i]@ == v,
        forall|i: int, j: int| 0 <= i < replay.len() && 0 <= j < replay.len() && #[trigger] replay[i]@ == #[trigger] replay[j]@ ==> i == j,
        forall|i: int| 0 <= i < replay.len() ==> is_subscribe(#[trigger] replay[i]@),
{
    assert forall|v: RequestView| s.subscriptions().contains(v) <==> exists|i: int| 0 <= i < replay.len() && #[trigger] replay[i]@ == v by {
        if s.subscriptions().contains(v) {
            let k = choose|k: int| 0 <= k < s.state@.len() && #[trigger] s.state@[k]@ == v;
            assert(replay[k]@ == v);
        }
        if exists|i: int| 0 <= i < replay.len() && #[trigger] replay[i]@ == v {
            let k = choose|k: int| 0 <= k < replay.len() && #[trigger] replay[k]@ == v;
            assert(s.state@[k]@ == v);
        }
    }
    assert forall|i: int, j: int| 0 <= i < replay.len() && 0 <= j < replay.len() && #[trigger] replay[i]@ == #[trigger] replay[j]@ implies i == j by {
        assert(s.state@[i]@ == s.state@[j]@);
    }
    assert forall|i: int| 0 <= i < replay.len() implies is_subscribe(#[trigger] replay[i]@) by {
        assert(is_subscribe(s.state@[i]@));
    }
}

/// An input of the gateway between two ticks, as far as the heartbeat is
/// concerned: a command from the trader, or a frame (`true` for a Pong).
pub enum HeartbeatInput {
    Command(RequestView),
    Frame(bool),
}

/// The heartbeat flag after a run of inputs: `on_command` keeps it,
/// `on_frame` clears it on a Pong.
pub open spec fn flag_after(s: Streaming, inputs: Seq<HeartbeatInput>) -> Streaming
    decreases inputs.len(),
{
    if inputs.len() == 0 {
        s
    } else {
        let t = flag_after(s, inputs.drop_last());
        match inputs.last() {
            HeartbeatInput::Command(_) => t,
            HeartbeatInput::Frame(pong) => t.framed(pong),
        }
    }
}

/// Heartbeat: when no Pong arrives between two ticks, the second one
/// reconnects.
pub proof fn lemma_unanswered_ping_reconnects(s: Streaming, inputs: Seq<HeartbeatInput>)
    requires
        forall|i: int| 0 <= i < inputs.len() ==> !(#[trigger] inputs[i] matches HeartbeatInput::Frame(true)),
    ensures
        flag_after(s.ticked().0, inputs).ticked().1 == TickAction::Reconnect,
    decreases inputs.len(),
{
    lemma_flag_kept(s.ticked().0, inputs);
}

proof fn lemma_flag_kept(s: Streaming, inputs: Seq<HeartbeatInput>)
    requires
        s.need_pong,
        forall|i: int| 0 <= i < inputs.len() ==> !(#[trigger] inputs[i] matches HeartbeatInput::Frame(true)),
    ensures
        flag_after(s, inputs).need_pong,
    decreases inputs.len(),
{
    if inputs.len() > 0 {
        let d = inputs.drop_last();
        assert forall|i: int| 0 <= i < d.len() implies !(#[trigger] d[i] matches HeartbeatInput::Frame(true)) by {
            assert(d[i] == inputs[i]);
        }
        lemma_flag_kept(s, d);
        assert(!(inputs[inputs.len() - 1] matches HeartbeatInput::Frame(true)));
    }
}

} // verus!
