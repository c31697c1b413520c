//! The chat side: events read from the chat, the dialogue state machine of
//! one chat, and what the user is shown. Sending and receiving messages is
//! the application's business; this module says what to send.
use vstd::prelude::*;
use crate::assoc::{assoc_map, unique_keys, find_str, upsert_str, lemma_at, lemma_absent};
use crate::model::{Position, Stock, StockView};
use crate::persistent::SavedState;
use crate::strategy::{ConfigError, Strategy, StrategyKind};
use crate::text::{str_eq, push_signed, signed_decimal, utf16_entity, utf16_slice};
use crate::trader::{Key, Request as TraderRequest, Response as TraderResponse};

verus! {

/// What a chat update means to the dialogue.
pub enum Event {
    Start,
    Portfolio,
    Strategies,
    Strategy,
    Finish,
    Text(String),
    Select(String),
    Unknown,
}

/// The event of a bot command's text, if it is one the dialogue knows.
pub open spec fn command_of(text: Seq<char>) -> Option<Event> {
    if text == "/start"@ {
        Some(Event::Start)
    } else if text == "/portfolio"@ {
        Some(Event::Portfolio)
    } else if text == "/strategies"@ {
        Some(Event::Strategies)
    } else if text == "/strategy"@ {
        Some(Event::Strategy)
    } else if text == "/finish"@ {
        Some(Event::Finish)
    } else {
        None
    }
}

/// The event of a message entity: a bot command the dialogue knows, given
/// as (is a bot command, UTF-16 offset, UTF-16 length) in `data`.
pub open spec fn entity_event(data: Seq<char>, e: (bool, u64, u64)) -> Option<Event> {
    if e.0 {
        match utf16_slice(data, e.1 as int, e.2 as int) {
            Some(t) => command_of(t),
            None => None,
        }
    } else {
        None
    }
}

/// The first known bot command among a message's entities.
pub open spec fn first_command(data: Seq<char>, entities: Seq<(bool, u64, u64)>) -> Event
    decreases entities.len(),
{
    if entities.len() == 0 {
        Event::Unknown
    } else if entity_event(data, entities[0]) is Some {
        entity_event(data, entities[0])->Some_0
    } else {
        first_command(data, entities.drop_first())
    }
}

pub open spec fn event_of_message(data: String, entities: Seq<(bool, u64, u64)>) -> Event {
    if entities.len() == 0 {
        Event::Text(data)
    } else {
        first_command(data@, entities)
    }
}

fn command(text: &str) -> (r: Option<Event>)
    ensures
        r == command_of(text@),
{
    if str_eq(text, "/start") {
        Some(Event::Start)
    } else if str_eq(text, "/portfolio") {
        Some(Event::Portfolio)
    } else if str_eq(text, "/strategies") {
        Some(Event::Strategies)
    } else if str_eq(text, "/strategy") {
        Some(Event::Strategy)
    } else if str_eq(text, "/finish") {
        Some(Event::Finish)
    } else {
        None
    }
}

impl Event {
    /// A text message: plain text without entities, else its first known
    /// bot command, else `Unknown`.
    pub fn from_message(data: String, entities: Vec<(bool, u64, u64)>) -> (r: Event)
        ensures
            r == event_of_message(data, entities@),
    {
        if entities.len() == 0 {
            return Event::Text(data);
        }
        let mut i: usize = 0;
        assert(entities@.subrange(0, entities@.len() as int) =~= entities@);
        while i < entities.len()
            invariant
                0 <= i <= entities@.len(),
                entities@.len() > 0,
                first_command(data@, entities@) == first_command(data@, entities@.subrange(i as int, entities@.len() as int)),
            decreases entities@.len() - i,
        {
            let ghost rest = entities@.subrange(i as int, entities@.len() as int);
            assert(rest.drop_first() =~= entities@.subrange(i + 1, entities@.len() as int));
            assert(rest[0] == entities@[i as int]);
            if entities[i].0 {
                match utf16_entity(data.as_str(), entities[i].1, entities[i].2) {
                    Some(t) => match command(t.as_str()) {
                        Some(e) => {
                            return e;
                        },
                        None => {},
                    },
                    None => {},
                }
            }
            i += 1;
        }
        Event::Unknown
    }

    /// A button press: its data, if it has any.
    pub fn from_callback(data: Option<String>) -> (r: Event)
        ensures
            match data {
                Some(s) => r == Event::Select(s),
                None => r is Unknown,
            },
    {
        match data {
            Some(s) => Event::Select(s),
            None => Event::Unknown,
        }
    }
}

/// What the dialogue answers.
pub enum ResponseMessage {
    Dummy,
    RequestToken,
    RequestStrategyName,
    TraderStarted,
    InProgress,
    TraderStopped,
    SelectStrategy,
    SelectStrategyParam(Vec<(&'static str, &'static str)>),
    RequestParamValue,
    StrategyAdded,
    Strategies,
    StrategyInfo(String, StrategyKind),
    Failed(String),
}

/// A message ready to send: its text, its buttons as (label, data), and
/// whether it is a "typing" notice instead of a text.
pub struct OutMessage {
    pub text: String,
    pub buttons: Vec<(String, String)>,
    pub typing: bool,
}

/// The user's handle on a running trader.
pub struct TraderHandle {
    pub token: String,
}

impl TraderHandle {
    pub fn create(token: String) -> (r: TraderHandle)
        ensures
            r.token == token,
    {
        TraderHandle { token }
    }
}

pub struct NamedStrategy {
    pub strategy: StrategyKind,
    pub name: String,
}

pub struct StrategyParam {
    pub strategy: NamedStrategy,
    pub name: String,
}

/// Where the dialogue of one chat stands.
pub enum State {
    New,
    WaitingToken,
    Connected(TraderHandle),
    ChoosingStrategy(TraderHandle),
    WaitingStrategyName(TraderHandle, StrategyKind),
    ChoosingStrategyParam(TraderHandle, NamedStrategy),
    WaitingStrategyParam(TraderHandle, StrategyParam),
}

/// Something the chat side must do.
pub enum Action {
    Reply(ResponseMessage),
    /// Send this text as it is.
    Send(String),
    ToTrader(TraderRequest<StrategyKind>),
    /// Start a trader with this token.
    StartTrader(String),
    Persist(SavedState<StrategyKind>),
}

pub open spec fn handle_of(s: State) -> Option<TraderHandle> {
    match s {
        State::New | State::WaitingToken => None,
        State::Connected(h) | State::ChoosingStrategy(h) => Some(h),
        State::WaitingStrategyName(h, _) => Some(h),
        State::ChoosingStrategyParam(h, _) => Some(h),
        State::WaitingStrategyParam(h, _) => Some(h),
    }
}

impl State {
    pub fn create(handle: TraderHandle) -> (r: State)
        ensures
            r == State::Connected(handle),
    {
        State::Connected(handle)
    }

    /// The token of the trader, once there is one.
    pub fn token(&self) -> (r: Option<&str>)
        ensures
            match handle_of(*self) {
                Some(h) => r matches Some(t) && t@ == h.token@,
                None => r is None,
            },
    {
        match self {
            State::New => None,
            State::WaitingToken => None,
            State::Connected(h) => Some(h.token.as_str()),
            State::ChoosingStrategy(h) => Some(h.token.as_str()),
            State::WaitingStrategyName(h, ..) => Some(h.token.as_str()),
            State::ChoosingStrategyParam(h, ..) => Some(h.token.as_str()),
            State::WaitingStrategyParam(h, ..) => Some(h.token.as_str()),
        }
    }
}


/// The result of setting a parameter during the dialogue: the strategy as
/// configured and, for a ticker, the name of the instrument found. The
/// parameter "ticker" looks the user's text up among the instruments by
/// ticker and sets the strategy's "figi".
pub open spec fn param_result(
    ctx: Context,
    strategy: StrategyKind,
    key: Seq<char>,
    value: String,
) -> Result<(StrategyKind, Option<String>), ConfigError> {
    if key == "ticker"@ {
        let stocks = assoc_map(ctx.stocks@);
        if stocks.contains_key(value@) {
            match strategy.configured("figi"@, stocks[value@].figi) {
                Ok(s) => Ok((s, Some(stocks[value@].name))),
                Err(e) => Err(e),
            }
        } else {
            Err(ConfigError::ticker_not_found_spec())
        }
    } else {
        match strategy.configured(key, value) {
            Ok(s) => Ok((s, None)),
            Err(e) => Err(e),
        }
    }
}

/// The instruments by ticker; a later one wins over an earlier one.
pub open spec fn ticker_map(stocks: Seq<Stock>) -> Map<Seq<char>, Stock>
    decreases stocks.len(),
{
    if stocks.len() == 0 {
        Map::empty()
    } else {
        ticker_map(stocks.drop_last()).insert(stocks.last().ticker@, stocks.last())
    }
}

/// The instruments of a catalog reply, keyed by ticker.
pub fn stocks_by_ticker(stocks: Vec<Stock>) -> (r: Vec<(String, Stock)>)
    ensures
        unique_keys(r@),
        assoc_map(r@) == ticker_map(stocks@),
{
    let mut out: Vec<(String, Stock)> = Vec::new();
    let mut rest = stocks;
    let ghost all = rest@;
    let ghost n = all.len();
    assert(assoc_map(out@) =~= ticker_map(all.subrange(0, 0)));
    while rest.len() > 0
        invariant
            n == all.len(),
            rest@.len() <= n,
            rest@ == all.subrange(n - rest@.len(), n as int),
            unique_keys(out@),
            assoc_map(out@) == ticker_map(all.subrange(0, n - rest@.len())),
        decreases rest@.len(),
    {
        let ghost k = n - rest@.len();
        let ghost prev = rest@;
        let st = rest.remove(0);
        proof {
            assert(prev == all.subrange(k, n as int));
            assert(prev[0] == all.subrange(k, n as int)[0]);
            assert(rest@ =~= all.subrange(n - rest@.len(), n as int));
            assert(all.subrange(0, k + 1).drop_last() =~= all.subrange(0, k));
        }
        let ticker = st.ticker.clone();
        upsert_str(&mut out, ticker, st);
    }
    assert(all.subrange(0, n as int) =~= all);
    out
}

/// The text of a portfolio reply: a heading, then one line per holding
/// with the instrument's name and its balance.
pub open spec fn portfolio_text_of(items: Seq<(StockView, Position)>) -> Seq<char>
    decreases items.len(),
{
    if items.len() == 0 {
        "Your portfolio:"@
    } else {
        portfolio_text_of(items.drop_last()) + "\n\t"@ + items.last().0.name + ": "@ + signed_decimal(
            items.last().1.balance as int,
        ) + "\n"@
    }
}

pub fn portfolio_text(items: &Vec<(Stock, Position)>) -> (r: String)
    ensures
        r@ == portfolio_text_of(items@.map_values(|e: (Stock, Position)| (e.0@, e.1))),
{
    let ghost view = items@.map_values(|e: (Stock, Position)| (e.0@, e.1));
    let mut out = String::from_str("Your portfolio:");
    let mut i: usize = 0;
    assert(view.subrange(0, 0) =~= Seq::<(StockView, Position)>::empty());
    while i < items.len()
        invariant
            0 <= i <= items@.len(),
            view == items@.map_values(|e: (Stock, Position)| (e.0@, e.1)),
            out@ == portfolio_text_of(view.subrange(0, i as int)),
        decreases items@.len() - i,
    {
        out.append("\n\t");
        out.append(items[i].0.name.as_str());
        out.append(": ");
        push_signed(&mut out, items[i].1.balance);
        out.append("\n");
        proof {
            assert(view.subrange(0, i + 1).drop_last() =~= view.subrange(0, i as int));
            assert(view[i as int] == (items@[i as int].0@, items@[i as int].1));
        }
        i += 1;
    }
    assert(view.subrange(0, items@.len() as int) =~= view);
    out
}

/// What one chat knows: instruments by ticker, the kinds of strategy by
/// name, and the strategies the trader last reported.
pub struct Context {
    pub stocks: Vec<(String, Stock)>,
    pub strategy_types: Vec<(String, StrategyKind)>,
    pub strategies: Vec<(Key, StrategyKind)>,
}

impl Context {
    pub open spec fn wf(&self) -> bool {
        unique_keys(self.stocks@) && unique_keys(self.strategy_types@)
    }

    pub fn new() -> (r: Context)
        ensures
            r.wf(),
            r.stocks@.len() == 0,
            r.strategies@.len() == 0,
            r.strategy_types@.len() == 2,
    {
        let strategy_types = StrategyKind::variants();
        let r = Context { stocks: Vec::new(), strategy_types, strategies: Vec::new() };
        assert(unique_keys(r.strategy_types@)) by {
            assert forall|i: int, j: int|
                0 <= i < r.strategy_types@.len() && 0 <= j < r.strategy_types@.len() && #[trigger] r.strategy_types@[i].0@
                    == #[trigger] r.strategy_types@[j].0@ implies i == j by {}
        }
        r
    }

    /// Sets a parameter of `strategy` (see `param_result`).
    pub fn set_parameter(&self, strategy: &mut StrategyKind, key: &str, value: String) -> (r: Result<Option<String>, ConfigError>)
        requires
            self.wf(),
        ensures
            match param_result(*self, *old(strategy), key@, value) {
                Ok((s, found)) => r == Ok::<Option<String>, ConfigError>(found) && *final(strategy) == s,
                Err(e) => r == Err::<Option<String>, ConfigError>(e) && *final(strategy) == *old(strategy),
            },
    {
        if str_eq(key, "ticker") {
            match find_str(&self.stocks, value.as_str()) {
                Some(i) => {
                    proof {
                        lemma_at(self.stocks@, i as int);
                    }
                    let figi = self.stocks[i].1.figi.clone();
                    match strategy.configure("figi", figi) {
                        Ok(()) => Ok(Some(self.stocks[i].1.name.clone())),
                        Err(e) => Err(e),
                    }
                },
                None => {
                    proof {
                        lemma_absent(self.stocks@, value@);
                    }
                    Err(ConfigError::ticker_not_found())
                },
            }
        } else {
            match strategy.configure(key, value) {
                Ok(()) => Ok(None),
                Err(e) => Err(e),
            }
        }
    }

    /// The strategy named `key`, as last reported by the trader.
    pub fn strategy(&self, key: &str) -> (r: Option<&StrategyKind>)
        ensures
            match r {
                Some(s) => exists|i: int| 0 <= i < self.strategies@.len() && self.strategies@[i].0@ == key@ && #[trigger] self.strategies@[i].1 == *s,
                None => forall|i: int| 0 <= i < self.strategies@.len() ==> #[trigger] self.strategies@[i].0@ != key@,
            },
    {
        match find_str(&self.strategies, key) {
            Some(i) => Some(&self.strategies[i].1),
            None => {
                proof {
                    assert forall|i: int| 0 <= i < self.strategies@.len() implies #[trigger] self.strategies@[i].0@ != key@ by {
                        if self.strategies@[i].0@ == key@ {
                            assert(crate::assoc::has_key(self.strategies@, key@));
                        }
                    }
                }
                None
            },
        }
    }

    pub fn update_strategies(&mut self, strategies: Vec<(Key, StrategyKind)>)
        ensures
            final(self).strategies == strategies,
            final(self).stocks == old(self).stocks,
            final(self).strategy_types == old(self).strategy_types,
    {
        self.strategies = strategies;
    }

    /// A fresh strategy of the kind named `kind_name`.
    pub fn strategy_by_type(&self, kind_name: &str) -> (r: Option<StrategyKind>)
        requires
            self.wf(),
        ensures
            match r {
                Some(s) => assoc_map(self.strategy_types@).contains_key(kind_name@) && s == assoc_map(self.strategy_types@)[kind_name@],
                None => !assoc_map(self.strategy_types@).contains_key(kind_name@),
            },
    {
        match find_str(&self.strategy_types, kind_name) {
            Some(i) => {
                proof {
                    lemma_at(self.strategy_types@, i as int);
                }
                Some(self.strategy_types[i].1.duplicate())
            },
            None => {
                proof {
                    lemma_absent(self.strategy_types@, kind_name@);
                }
                None
            },
        }
    }

    pub fn set_stocks(&mut self, stocks: Vec<(String, Stock)>)
        requires
            unique_keys(stocks@),
            old(self).wf(),
        ensures
            final(self).wf(),
            final(self).stocks == stocks,
            final(self).strategies == old(self).strategies,
            final(self).strategy_types == old(self).strategy_types,
    {
        self.stocks = stocks;
    }
}


pub open spec fn replies(acts: Seq<Action>, m: ResponseMessage) -> bool {
    acts.len() == 1 && acts[0] == Action::Reply(m)
}

/// The answer that offers the parameters of `s`.
pub open spec fn offers_params(a: Action, s: StrategyKind) -> bool {
    match a {
        Action::Reply(ResponseMessage::SelectStrategyParam(v)) => v@ == s.param_list(),
        _ => false,
    }
}

/// The dialogue's transition table: from state `s` on event `e`, the next
/// state `t` and the actions `acts`. Pairs the table does not list answer
/// with a dummy reply and keep the state.
pub open spec fn stepped(s: State, ctx: Context, e: Event, t: State, acts: Seq<Action>) -> bool {
    match (s, e) {
        (_, Event::Start) => t == State::WaitingToken && replies(acts, ResponseMessage::RequestToken),
        (State::WaitingToken, Event::Text(token)) => {
            &&& t == State::Connected(TraderHandle { token })
            &&& acts.len() == 2
            &&& acts[0] == Action::StartTrader(token)
            &&& acts[1] == Action::Reply(ResponseMessage::TraderStarted)
        },
        (State::Connected(h), Event::Portfolio) => {
            &&& t == State::Connected(h)
            &&& acts.len() == 2
            &&& acts[0] == Action::ToTrader(TraderRequest::Portfolio)
            &&& acts[1] == Action::Reply(ResponseMessage::InProgress)
        },
        (State::Connected(h), Event::Strategy) => t == State::ChoosingStrategy(h) && replies(
            acts,
            ResponseMessage::SelectStrategy,
        ),
        (State::ChoosingStrategy(h), Event::Select(kind)) => {
            let types = assoc_map(ctx.strategy_types@);
            if types.contains_key(kind@) {
                t == State::WaitingStrategyName(h, types[kind@]) && replies(acts, ResponseMessage::RequestStrategyName)
            } else {
                t == State::ChoosingStrategy(h) && replies(acts, ResponseMessage::Dummy)
            }
        },
        (State::WaitingStrategyName(h, strategy), Event::Text(name)) => {
            &&& t == State::ChoosingStrategyParam(h, NamedStrategy { strategy, name })
            &&& acts.len() == 1
            &&& offers_params(acts[0], strategy)
        },
        (State::ChoosingStrategyParam(h, ns), Event::Finish) => {
            &&& t == State::Connected(h)
            &&& acts.len() == 2
            &&& acts[0] == Action::ToTrader(TraderRequest::AddStrategy(ns.name, ns.strategy))
            &&& acts[1] == Action::Reply(ResponseMessage::StrategyAdded)
        },
        (State::ChoosingStrategyParam(h, ns), Event::Select(name)) => {
            &&& t == State::WaitingStrategyParam(h, StrategyParam { strategy: ns, name })
            &&& replies(acts, ResponseMessage::RequestParamValue)
        },
        (State::WaitingStrategyParam(h, sp), Event::Text(value)) => match param_result(
            ctx,
            sp.strategy.strategy,
            sp.name@,
            value,
        ) {
            Ok((configured, found)) => {
                &&& t == State::ChoosingStrategyParam(h, NamedStrategy { strategy: configured, ..sp.strategy })
                &&& acts.len() == if found is Some { 2int } else { 1int }
                &&& found matches Some(n) ==> acts[0] matches Action::Send(m) && m@ == "Found: "@ + n@
                &&& offers_params(acts.last(), configured)
            },
            Err(err) => {
                &&& t == State::WaitingStrategyParam(h, sp)
                &&& acts.len() == 1
                &&& acts[0] matches Action::Reply(ResponseMessage::Failed(m)) && m@ == "Oops... "@
                    + ConfigError::message_of(err.kind)@
            },
        },
        (s, _) => t == s && replies(acts, ResponseMessage::Dummy),
    }
}

fn offer_params(strategy: &StrategyKind) -> (r: Action)
    ensures
        offers_params(r, *strategy),
{
    Action::Reply(ResponseMessage::SelectStrategyParam(strategy.params()))
}

impl State {
    /// One step of the dialogue.
    pub fn on_event(self, ctx: &Context, event: Event) -> (r: (State, Vec<Action>))
        requires
            ctx.wf(),
        ensures
            stepped(self, *ctx, event, r.0, r.1@),
    {
        match (self, event) {
            (_, Event::Start) => (State::WaitingToken, vec![Action::Reply(ResponseMessage::RequestToken)]),
            (State::WaitingToken, Event::Text(token)) => {
                let started = token.clone();
                (
                    State::Connected(TraderHandle::create(token)),
                    vec![Action::StartTrader(started), Action::Reply(ResponseMessage::TraderStarted)],
                )
            },
            (State::Connected(h), Event::Portfolio) => (
                State::Connected(h),
                vec![Action::ToTrader(TraderRequest::Portfolio), Action::Reply(ResponseMessage::InProgress)],
            ),
            (State::Connected(h), Event::Strategy) => (
                State::ChoosingStrategy(h),
                vec![Action::Reply(ResponseMessage::SelectStrategy)],
            ),
            (State::ChoosingStrategy(h), Event::Select(kind)) => {
                match ctx.strategy_by_type(kind.as_str()) {
                    Some(strategy) => (
                        State::WaitingStrategyName(h, strategy),
                        vec![Action::Reply(ResponseMessage::RequestStrategyName)],
                    ),
                    None => (State::ChoosingStrategy(h), vec![Action::Reply(ResponseMessage::Dummy)]),
                }
            },
            (State::WaitingStrategyName(h, strategy), Event::Text(name)) => {
                let a = offer_params(&strategy);
                (State::ChoosingStrategyParam(h, NamedStrategy { strategy, name }), vec![a])
            },
            (State::ChoosingStrategyParam(h, ns), Event::Finish) => (
                State::Connected(h),
                vec![
                    Action::ToTrader(TraderRequest::AddStrategy(ns.name, ns.strategy)),
                    Action::Reply(ResponseMessage::StrategyAdded),
                ],
            ),
            (State::ChoosingStrategyParam(h, ns), Event::Select(name)) => (
                State::WaitingStrategyParam(h, StrategyParam { strategy: ns, name }),
                vec![Action::Reply(ResponseMessage::RequestParamValue)],
            ),
            (State::WaitingStrategyParam(h, sp), Event::Text(value)) => {
                let StrategyParam { strategy: ns, name } = sp;
                let NamedStrategy { strategy, name: sname } = ns;
                let mut strategy = strategy;
                match ctx.set_parameter(&mut strategy, name.as_str(), value) {
                    Ok(found) => {
                        let mut acts: Vec<Action> = Vec::new();
                        match found {
                            Some(n) => {
                                let mut m = String::from_str("Found: ");
                                m.append(n.as_str());
                                acts.push(Action::Send(m));
                            },
                            None => {},
                        }
                        acts.push(offer_params(&strategy));
                        (State::ChoosingStrategyParam(h, NamedStrategy { strategy, name: sname }), acts)
                    },
                    Err(e) => {
                        let mut m = String::from_str("Oops... ");
                        m.append(e.message());
                        (
                            State::WaitingStrategyParam(
                                h,
                                StrategyParam { strategy: NamedStrategy { strategy, name: sname }, name },
                            ),
                            vec![Action::Reply(ResponseMessage::Failed(m))],
                        )
                    },
                }
            },
            (s, _) => (s, vec![Action::Reply(ResponseMessage::Dummy)]),
        }
    }
}


/// A copy of a list of named strategies.
pub fn duplicate_strategies(v: &Vec<(Key, StrategyKind)>) -> (r: Vec<(Key, StrategyKind)>)
    ensures
        r@ == v@,
{
    let mut out: Vec<(Key, StrategyKind)> = Vec::new();
    let mut i: usize = 0;
    while i < v.len()
        invariant
            0 <= i <= v@.len(),
            out@ == v@.subrange(0, i as int),
        decreases v@.len() - i,
    {
        out.push((v[i].0.clone(), v[i].1.duplicate()));
        proof {
            assert(out@ =~= v@.subrange(0, i + 1));
        }
        i += 1;
    }
    assert(v@.subrange(0, v@.len() as int) =~= v@);
    out
}

/// One chat: what it knows and where its dialogue stands.
pub struct Storage {
    pub context: Context,
    pub state: State,
}

impl Storage {
    pub open spec fn wf(&self) -> bool {
        self.context.wf()
    }

    pub fn new() -> (r: Storage)
        ensures
            r.wf(),
            r.state is New,
            r.context.stocks@.len() == 0,
            r.context.strategies@.len() == 0,
    {
        Storage { context: Context::new(), state: State::New }
    }

    /// What to save for this chat: its token and strategies, once it has a
    /// trader.
    pub fn as_saved_state(&self) -> (r: Option<SavedState<StrategyKind>>)
        ensures
            match handle_of(self.state) {
                Some(h) => r matches Some(saved) && saved.token@ == h.token@ && saved.strategies@ == self.context.strategies@,
                None => r is None,
            },
    {
        match self.state.token() {
            Some(t) => Some(SavedState::new(String::from_str(t), duplicate_strategies(&self.context.strategies))),
            None => None,
        }
    }

    pub fn set_state(&mut self, state: State)
        ensures
            final(self).state == state,
            final(self).context == old(self).context,
    {
        self.state = state;
    }

    pub fn state(&self) -> (r: &State)
        ensures
            *r == self.state,
    {
        &self.state
    }

    /// One step of this chat's dialogue.
    pub fn on_event(&mut self, event: Event) -> (r: Vec<Action>)
        requires
            old(self).wf(),
        ensures
            final(self).wf(),
            final(self).context == old(self).context,
            stepped(old(self).state, old(self).context, event, final(self).state, r@),
    {
        let mut state = State::New;
        std::mem::swap(&mut self.state, &mut state);
        let (next, acts) = state.on_event(&self.context, event);
        self.state = next;
        acts
    }

    /// The trader stopped: the dialogue starts over.
    pub fn on_trader_stopped(&mut self) -> (r: Vec<Action>)
        ensures
            final(self).state is New,
            final(self).context == old(self).context,
            replies(r@, ResponseMessage::TraderStopped),
    {
        self.state = State::New;
        vec![Action::Reply(ResponseMessage::TraderStopped)]
    }

    /// A reply of this chat's trader: a portfolio is shown, a catalog is
    /// kept for ticker lookups, and a strategy list is kept and saved.
    pub fn on_trader(&mut self, response: TraderResponse<StrategyKind>) -> (r: Vec<Action>)
        requires
            old(self).wf(),
        ensures
            final(self).wf(),
            final(self).state == old(self).state,
            match response {
                TraderResponse::Portfolio(items) => {
                    &&& final(self).context == old(self).context
                    &&& r@.len() == 1
                    &&& r@[0] matches Action::Send(m)
                        && m@ == portfolio_text_of(items@.map_values(|e: (Stock, Position)| (e.0@, e.1)))
                },
                TraderResponse::Stocks(v) => {
                    &&& assoc_map(final(self).context.stocks@) == ticker_map(v@)
                    &&& final(self).context.strategies == old(self).context.strategies
                    &&& r@.len() == 0
                },
                TraderResponse::Strategies(v) => {
                    &&& final(self).context.strategies == v
                    &&& final(self).context.stocks == old(self).context.stocks
                    &&& match handle_of(old(self).state) {
                        Some(h) => r@.len() == 1 && (r@[0] matches Action::Persist(saved) && saved.token@ == h.token@
                            && saved.strategies@ == v@),
                        None => r@.len() == 0,
                    }
                },
            },
    {
        match response {
            TraderResponse::Portfolio(items) => vec![Action::Send(portfolio_text(&items))],
            TraderResponse::Stocks(v) => {
                let by_ticker = stocks_by_ticker(v);
                self.context.set_stocks(by_ticker);
                Vec::new()
            },
            TraderResponse::Strategies(v) => {
                self.context.update_strategies(v);
                match self.as_saved_state() {
                    Some(saved) => vec![Action::Persist(saved)],
                    None => Vec::new(),
                }
            },
        }
    }
}


/// The text of the answers that are a fixed text without buttons.
pub open spec fn fixed_text(m: ResponseMessage) -> Option<&'static str> {
    match m {
        ResponseMessage::Dummy => Some("Sorry, I have nothing to say to that..."),
        ResponseMessage::RequestToken => Some("Got it, send me the token"),
        ResponseMessage::TraderStarted => Some("Great, connecting..."),
        ResponseMessage::TraderStopped => Some("Oops, something broke... Let's start over"),
        ResponseMessage::RequestStrategyName => Some("Make up a name for your strategy"),
        ResponseMessage::RequestParamValue => Some("Ok, type the value"),
        ResponseMessage::StrategyAdded => Some("Ok, the strategy is added"),
        _ => None,
    }
}

/// The button of a strategy parameter as (label, data); the instrument is
/// chosen by ticker rather than by FIGI.
pub open spec fn param_button(p: (&'static str, &'static str)) -> (Seq<char>, Seq<char>) {
    if p.0@ == "figi"@ {
        ("Ticker of the instrument"@, "ticker"@)
    } else {
        (p.1@, p.0@)
    }
}

fn text_message(text: &str) -> (r: OutMessage)
    ensures
        r.text@ == text@,
        r.buttons@.len() == 0,
        !r.typing,
{
    OutMessage { text: String::from_str(text), buttons: Vec::new(), typing: false }
}

/// Buttons whose label and data are both the keys of `v`.
fn key_buttons<V>(v: &Vec<(String, V)>) -> (r: Vec<(String, String)>)
    ensures
        r@.len() == v@.len(),
        forall|i: int| 0 <= i < v@.len() ==> (#[trigger] r@[i]).0@ == v@[i].0@ && r@[i].1@ == v@[i].0@,
{
    let mut out: Vec<(String, String)> = Vec::new();
    let mut i: usize = 0;
    while i < v.len()
        invariant
            0 <= i <= v@.len(),
            out@.len() == i,
            forall|j: int| 0 <= j < i ==> (#[trigger] out@[j]).0@ == v@[j].0@ && out@[j].1@ == v@[j].0@,
        decreases v@.len() - i,
    {
        out.push((v[i].0.clone(), v[i].0.clone()));
        i += 1;
    }
    out
}

impl Context {
    /// The message that shows an answer to the user.
    pub fn render(&self, msg: &ResponseMessage) -> (r: OutMessage)
        ensures
            r.typing == (*msg is InProgress),
            fixed_text(*msg) matches Some(t) ==> r.text@ == t@ && r.buttons@.len() == 0,
            match *msg {
                ResponseMessage::Failed(s) => r.text@ == s@ && r.buttons@.len() == 0,
                ResponseMessage::SelectStrategyParam(params) => {
                    &&& r.buttons@.len() == params@.len()
                    &&& forall|i: int| 0 <= i < params@.len() ==> ((#[trigger] r.buttons@[i]).0@, r.buttons@[i].1@)
                        == param_button(params@[i])
                },
                ResponseMessage::SelectStrategy => {
                    &&& r.buttons@.len() == self.strategy_types@.len()
                    &&& forall|i: int| 0 <= i < r.buttons@.len() ==> (#[trigger] r.buttons@[i]).1@ == self.strategy_types@[i].0@
                },
                ResponseMessage::Strategies => {
                    &&& r.buttons@.len() == self.strategies@.len()
                    &&& forall|i: int| 0 <= i < r.buttons@.len() ==> (#[trigger] r.buttons@[i]).1@ == self.strategies@[i].0@
                },
                _ => true,
            },
    {
        match msg {
            ResponseMessage::Dummy => text_message("Sorry, I have nothing to say to that..."),
            ResponseMessage::RequestToken => text_message("Got it, send me the token"),
            ResponseMessage::TraderStarted => text_message("Great, connecting..."),
            ResponseMessage::InProgress => OutMessage { text: String::new(), buttons: Vec::new(), typing: true },
            ResponseMessage::TraderStopped => text_message("Oops, something broke... Let's start over"),
            ResponseMessage::RequestStrategyName => text_message("Make up a name for your strategy"),
            ResponseMessage::SelectStrategy => OutMessage {
                text: String::from_str("Choose a strategy"),
                buttons: key_buttons(&self.strategy_types),
                typing: false,
            },
            ResponseMessage::SelectStrategyParam(params) => {
                let mut buttons: Vec<(String, String)> = Vec::new();
                let mut i: usize = 0;
                while i < params.len()
                    invariant
                        0 <= i <= params@.len(),
                        buttons@.len() == i,
                        forall|j: int| 0 <= j < i ==> ((#[trigger] buttons@[j]).0@, buttons@[j].1@) == param_button(params@[j]),
                    decreases params@.len() - i,
                {
                    let (name, desc) = params[i];
                    if str_eq(name, "figi") {
                        buttons.push((String::from_str("Ticker of the instrument"), String::from_str("ticker")));
                    } else {
                        buttons.push((String::from_str(desc), String::from_str(name)));
                    }
                    i += 1;
                }
                OutMessage { text: String::from_str("Choose a parameter to set"), buttons, typing: false }
            },
            ResponseMessage::RequestParamValue => text_message("Ok, type the value"),
            ResponseMessage::StrategyAdded => text_message("Ok, the strategy is added"),
            ResponseMessage::Strategies => OutMessage {
                text: String::from_str("Strategies"),
                buttons: key_buttons(&self.strategies),
                typing: false,
            },
            ResponseMessage::Failed(s) => OutMessage { text: s.clone(), buttons: Vec::new(), typing: false },
            ResponseMessage::StrategyInfo(key, s) => {
                let mut text = String::from_str("Strategy ");
                text.append(key.as_str());
                text.append("\n");
                text.append(s.name());
                text.append(",\n\t");
                text.append(s.description());
                text.append("\nBalance: ");
                push_signed(&mut text, s.balance());
                text.append("%");
                OutMessage { text, buttons: Vec::new(), typing: false }
            },
        }
    }
}

impl Storage {
    /// A chat saved before a restart: connected to a trader with the saved
    /// token, and the commands that give that trader the saved strategies.
    pub fn restored(saved: &SavedState<StrategyKind>) -> (r: (Storage, Vec<TraderRequest<StrategyKind>>))
        ensures
            r.0.wf(),
            r.0.state == State::Connected(TraderHandle { token: saved.token }),
            r.1@.len() == saved.strategies@.len(),
            forall|i: int| 0 <= i < r.1@.len() ==> #[trigger] r.1@[i] == TraderRequest::AddStrategy(
                saved.strategies@[i].0,
                saved.strategies@[i].1,
            ),
    {
        let mut storage = Storage::new();
        storage.set_state(State::create(TraderHandle::create(saved.token())));
        (storage, saved.replay())
    }
}

} // verus!
