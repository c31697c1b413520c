//! The market model: instruments, positions, orderbooks and orders, as one
//! trader sees them.
use vstd::prelude::*;
use crate::assoc::{
    assoc_map, unique_keys, has_key, lemma_push, lemma_absent, lemma_at, lemma_update, lemma_remove,
    find_str, upsert_str,
};

verus! {

/// An absolute instant with the UTC offset it was reported in.
#[derive(Clone, Copy, Debug, PartialEq, Eq, Structural)]
pub struct Timestamp {
    pub seconds: i64,
    pub nanos: u32,
    pub offset_seconds: i32,
}

/// Seconds from the Unix epoch to 2000-01-01T00:00:00Z.
pub const Y2000_SECONDS: i64 = 946_684_800;

pub open spec fn y2000() -> Timestamp {
    Timestamp { seconds: Y2000_SECONDS, nanos: 0, offset_seconds: 0 }
}

#[derive(Clone, Copy, Debug, PartialEq, Eq, Structural)]
pub enum OrderKind {
    Buy,
    Sell,
}

/// A limit order: `quantity` lots of `figi` at `price` (a fixed-point
/// amount, see `text::UNIT`).
#[derive(Clone, Debug)]
pub struct Order {
    pub figi: String,
    pub kind: OrderKind,
    pub price: u64,
    pub quantity: u32,
}

impl Order {
    pub fn duplicate(&self) -> (r: Order)
        ensures
            r == *self,
    {
        Order { figi: self.figi.clone(), kind: self.kind, price: self.price, quantity: self.quantity }
    }
}

pub struct StockView {
    pub name: Seq<char>,
    pub figi: Seq<char>,
    pub ticker: Seq<char>,
    pub isin: Option<Seq<char>>,
    pub min_increment: u64,
    pub lot: u32,
}

/// Reference data of an instrument.
#[derive(Clone, Debug)]
pub struct Stock {
    pub name: String,
    pub figi: String,
    pub ticker: String,
    pub isin: Option<String>,
    pub min_increment: u64,
    pub lot: u32,
}

impl View for Stock {
    type V = StockView;

    open spec fn view(&self) -> StockView {
        StockView {
            name: self.name@,
            figi: self.figi@,
            ticker: self.ticker@,
            isin: match self.isin {
                Some(s) => Some(s@),
                None => None,
            },
            min_increment: self.min_increment,
            lot: self.lot,
        }
    }
}

/// Minimum price increment of an instrument missing from the catalog: 0.01.
pub const STUB_MIN_INCREMENT: u64 = 10_000;

/// What stands for an instrument missing from the catalog.
pub open spec fn stub_stock(figi: Seq<char>) -> StockView {
    StockView { name: figi, figi, ticker: figi, isin: None, min_increment: STUB_MIN_INCREMENT, lot: 1 }
}

impl Stock {
    pub fn duplicate(&self) -> (r: Stock)
        ensures
            r@ == self@,
    {
        let isin = match &self.isin {
            Some(s) => Some(s.clone()),
            None => None,
        };
        Stock {
            name: self.name.clone(),
            figi: self.figi.clone(),
            ticker: self.ticker.clone(),
            isin,
            min_increment: self.min_increment,
            lot: self.lot,
        }
    }

    pub fn stub(figi: &str) -> (r: Stock)
        ensures
            r@ == stub_stock(figi@),
    {
        Stock {
            name: String::from_str(figi),
            figi: String::from_str(figi),
            ticker: String::from_str(figi),
            isin: None,
            min_increment: STUB_MIN_INCREMENT,
            lot: 1,
        }
    }
}

/// Holding of an instrument: `balance` units in `lots` lots; a zero balance
/// is no holding.
#[derive(Clone, Copy, Debug, PartialEq, Eq, Structural)]
pub struct Position {
    pub lots: i32,
    pub balance: i64,
}

impl Default for Position {
    fn default() -> (r: Position)
        ensures
            r == (Position { lots: 0, balance: 0 }),
    {
        Position { lots: 0, balance: 0 }
    }
}

/// An order the broker has acknowledged.
#[derive(Clone, Debug)]
pub struct OrderState {
    pub order_id: String,
    pub order: Order,
    pub executed: u32,
}

pub struct OrderbookView {
    pub time: Timestamp,
    pub bids: Seq<(u64, u32)>,
    pub asks: Seq<(u64, u32)>,
}

/// Top of the book: bids by falling price, asks by rising price, each level
/// a (price, quantity) pair.
#[derive(Clone, Debug)]
pub struct Orderbook {
    pub time: Timestamp,
    pub bids: Vec<(u64, u32)>,
    pub asks: Vec<(u64, u32)>,
}

impl View for Orderbook {
    type V = OrderbookView;

    open spec fn view(&self) -> OrderbookView {
        OrderbookView { time: self.time, bids: self.bids@, asks: self.asks@ }
    }
}

pub open spec fn empty_orderbook() -> OrderbookView {
    OrderbookView { time: y2000(), bids: Seq::empty(), asks: Seq::empty() }
}

impl Default for Orderbook {
    fn default() -> (r: Orderbook)
        ensures
            r@ == empty_orderbook(),
    {
        Orderbook {
            time: Timestamp { seconds: Y2000_SECONDS, nanos: 0, offset_seconds: 0 },
            bids: Vec::new(),
            asks: Vec::new(),
        }
    }
}

#[derive(Clone, Copy, Debug, PartialEq, Eq, Structural)]
pub struct Candle {
    pub open: u64,
    pub close: u64,
    pub low: u64,
    pub high: u64,
    pub volume: i32,
    pub time: Timestamp,
}

/// Key under which an order waits for the broker's acknowledgement: a clock
/// reading and a sequence number, so that two orders placed within one tick
/// of the clock still get distinct keys.
#[derive(Clone, Copy, Debug, PartialEq, Eq, Structural, Hash)]
pub struct OrderKey {
    pub stamp: u64,
    pub seq: u64,
}

impl View for OrderKey {
    type V = OrderKey;

    open spec fn view(&self) -> OrderKey {
        *self
    }
}

pub struct StockStateView {
    pub position: Position,
    pub orderbook: OrderbookView,
    pub candles: Seq<Candle>,
    pub inwork: Map<Seq<char>, OrderState>,
    pub pending: Map<OrderKey, Order>,
}

pub open spec fn fresh_state() -> StockStateView {
    StockStateView {
        position: Position { lots: 0, balance: 0 },
        orderbook: empty_orderbook(),
        candles: Seq::empty(),
        inwork: Map::empty(),
        pending: Map::empty(),
    }
}

/// Live state of one instrument: orders in work are keyed by the broker's
/// order id, new orders by their local key.
#[derive(Clone, Debug)]
pub struct StockState {
    pub position: Position,
    pub orderbook: Orderbook,
    pub candles: Vec<Candle>,
    pub inwork_orders: Vec<(String, OrderState)>,
    pub new_orders: Vec<(OrderKey, Order)>,
}

impl View for StockState {
    type V = StockStateView;

    open spec fn view(&self) -> StockStateView {
        StockStateView {
            position: self.position,
            orderbook: self.orderbook@,
            candles: self.candles@,
            inwork: assoc_map(self.inwork_orders@),
            pending: assoc_map(self.new_orders@),
        }
    }
}

impl StockState {
    pub open spec fn wf(&self) -> bool {
        unique_keys(self.inwork_orders@) && unique_keys(self.new_orders@)
    }

    /// Whether an order of this instrument is new or in work.
    pub fn has_orders(&self) -> (r: bool)
        requires
            self.wf(),
        ensures
            r == (self@.inwork.len() > 0 || self@.pending.len() > 0),
    {
        proof {
            lemma_len(self.inwork_orders@);
            lemma_len(self.new_orders@);
        }
        self.new_orders.len() > 0 || self.inwork_orders.len() > 0
    }

    /// Records an acknowledged order under its order id.
    pub fn put_inwork(&mut self, st: OrderState)
        requires
            old(self).wf(),
        ensures
            final(self).wf(),
            final(self)@ == (StockStateView { inwork: old(self)@.inwork.insert(st.order_id@, st), ..old(self)@ }),
    {
        let id = st.order_id.clone();
        upsert_str(&mut self.inwork_orders, id, st);
    }

    /// Records a new order under its local key.
    pub fn put_pending(&mut self, key: OrderKey, order: Order)
        requires
            old(self).wf(),
        ensures
            final(self).wf(),
            final(self)@ == (StockStateView { pending: old(self)@.pending.insert(key, order), ..old(self)@ }),
    {
        match find_key(&self.new_orders, key) {
            Some(i) => {
                let ghost before = self.new_orders@;
                self.new_orders.set(i, (key, order));
                proof {
                    lemma_update(before, i as int, self.new_orders@[i as int]);
                    assert(self.new_orders@ == before.update(i as int, self.new_orders@[i as int]));
                }
            },
            None => {
                let ghost before = self.new_orders@;
                self.new_orders.push((key, order));
                proof {
                    lemma_push(before, self.new_orders@.last());
                    assert(self.new_orders@ == before.push(self.new_orders@.last()));
                }
            },
        }
    }

    /// Forgets the new order under `key`, if there is one.
    pub fn drop_pending(&mut self, key: OrderKey)
        requires
            old(self).wf(),
        ensures
            final(self).wf(),
            final(self)@ == (StockStateView { pending: old(self)@.pending.remove(key), ..old(self)@ }),
    {
        match find_key(&self.new_orders, key) {
            Some(i) => {
                let ghost before = self.new_orders@;
                self.new_orders.remove(i);
                proof {
                    lemma_remove(before, i as int);
                }
            },
            None => {
                proof {
                    lemma_absent(self.new_orders@, key);
                    assert(self@.pending.remove(key) =~= self@.pending);
                }
            },
        }
    }
}

impl Default for StockState {
    fn default() -> (r: StockState)
        ensures
            r@ == fresh_state(),
            r.wf(),
    {
        let r = StockState {
            position: Position::default(),
            orderbook: Orderbook::default(),
            candles: Vec::new(),
            inwork_orders: Vec::new(),
            new_orders: Vec::new(),
        };
        assert(r@.inwork =~= Map::empty());
        assert(r@.pending =~= Map::empty());
        r
    }
}

/// With unique keys, a list has as many pairs as its map has keys.
pub proof fn lemma_len<K: View, V>(s: Seq<(K, V)>)
    requires
        unique_keys(s),
    ensures
        assoc_map(s).dom().finite(),
        assoc_map(s).len() == s.len(),
    decreases s.len(),
{
    if s.len() > 0 {
        let d = s.drop_last();
        assert(unique_keys(d)) by {
            assert forall|a: int, b: int|
                0 <= a < d.len() && 0 <= b < d.len() && #[trigger] d[a].0@ == #[trigger] d[b].0@ implies a
                == b by {
                assert(s[a].0@ == s[b].0@);
            }
        }
        lemma_len(d);
        lemma_absent(d, s.last().0@);
        if has_key(d, s.last().0@) {
            let j = choose|j: int| 0 <= j < d.len() && #[trigger] d[j].0@ == s.last().0@;
            assert(s[j].0@ == s[s.len() - 1].0@);
        }
    }
}

pub fn find_key<V>(s: &Vec<(OrderKey, V)>, k: OrderKey) -> (r: Option<usize>)
    ensures
        match r {
            Some(i) => {
                &&& i < s@.len()
                &&& s@[i as int].0 == k
                &&& forall|j: int| i < j < s@.len() ==> #[trigger] s@[j].0 != k
            },
            None => !has_key(s@, k),
        },
{
    let mut i: usize = s.len();
    while i > 0
        invariant
            i <= s@.len(),
            forall|j: int| i <= j < s@.len() ==> #[trigger] s@[j].0 != k,
        decreases i,
    {
        if s[i - 1].0 == k {
            return Some(i - 1);
        }
        i -= 1;
    }
    proof {
        if has_key(s@, k) {
            let j = choose|j: int| 0 <= j < s@.len() && #[trigger] s@[j].0@ == k;
            assert(s@[j].0 != k);
        }
    }
    None
}


/// The state of `figi` in `m`, or a fresh one.
pub open spec fn state_or_fresh(m: Map<Seq<char>, StockStateView>, figi: Seq<char>) -> StockStateView {
    if m.contains_key(figi) {
        m[figi]
    } else {
        fresh_state()
    }
}

/// The acknowledged orders of `figi` among `orders`, by order id; a later
/// order wins over an earlier one with the same id.
pub open spec fn bucket(orders: Seq<OrderState>, figi: Seq<char>) -> Map<Seq<char>, OrderState>
    decreases orders.len(),
{
    if orders.len() == 0 {
        Map::empty()
    } else if orders.last().order.figi@ == figi {
        bucket(orders.drop_last(), figi).insert(orders.last().order_id@, orders.last())
    } else {
        bucket(orders.drop_last(), figi)
    }
}

pub open spec fn mentions_figi(orders: Seq<OrderState>, figi: Seq<char>) -> bool {
    exists|i: int| 0 <= i < orders.len() && #[trigger] orders[i].order.figi@ == figi
}

/// The live state after a full list of acknowledged orders: every
/// instrument's orders in work are exactly its share of the list.
pub open spec fn with_orders(m: Map<Seq<char>, StockStateView>, orders: Seq<OrderState>) -> Map<
    Seq<char>,
    StockStateView,
> {
    Map::new(
        |f: Seq<char>| m.contains_key(f) || mentions_figi(orders, f),
        |f: Seq<char>| StockStateView { inwork: bucket(orders, f), ..state_or_fresh(m, f) },
    )
}

/// The live state after a portfolio's positions; a later entry for an
/// instrument wins over an earlier one.
pub open spec fn with_positions(m: Map<Seq<char>, StockStateView>, positions: Seq<(String, Position)>) -> Map<
    Seq<char>,
    StockStateView,
>
    decreases positions.len(),
{
    if positions.len() == 0 {
        m
    } else {
        let rest = with_positions(m, positions.drop_last());
        let (figi, p) = positions.last();
        rest.insert(figi@, StockStateView { position: p, ..state_or_fresh(rest, figi@) })
    }
}

/// The catalog after a list of instruments; a later one wins over an
/// earlier one with the same figi.
pub open spec fn with_stocks(m: Map<Seq<char>, StockView>, stocks: Seq<Stock>) -> Map<Seq<char>, StockView>
    decreases stocks.len(),
{
    if stocks.len() == 0 {
        m
    } else {
        with_stocks(m, stocks.drop_last()).insert(stocks.last().figi@, stocks.last()@)
    }
}

/// Writing the state at the position that `Market::ensure_state` gave.
proof fn lemma_write(
    pre: Map<Seq<char>, StockStateView>,
    mid: Seq<(String, StockState)>,
    i: int,
    figi: Seq<char>,
    ns: StockState,
)
    requires
        unique_keys(mid),
        0 <= i < mid.len(),
        mid[i].0@ == figi,
        assoc_map(mid).map_values(|s: StockState| s@) == pre.insert(figi, state_or_fresh(pre, figi)),
    ensures
        mid[i].1@ == state_or_fresh(pre, figi),
        assoc_map(mid.update(i, (mid[i].0, ns))).map_values(|s: StockState| s@) == pre.insert(figi, ns@),
        unique_keys(mid.update(i, (mid[i].0, ns))),
{
    let t = mid.update(i, (mid[i].0, ns));
    let ms = assoc_map(mid).map_values(|s: StockState| s@);
    let ts = assoc_map(t).map_values(|s: StockState| s@);
    assert forall|j: int| i < j < mid.len() implies #[trigger] mid[j].0@ != mid[i].0@ by {
        assert(j != i);
    }
    lemma_at(mid, i);
    assert(ms[figi] == mid[i].1@);
    lemma_update(mid, i, (mid[i].0, ns));
    assert(assoc_map(t) == assoc_map(mid).insert(figi, ns));
    assert(ts.dom() =~= ms.dom());
    assert(ms.dom() =~= pre.insert(figi, ns@).dom());
    assert(ts[figi] == ns@);
    assert forall|k: Seq<char>| k != figi && #[trigger] ts.contains_key(k) implies ts[k] == ms[k] by {
        assert(assoc_map(t)[k] == assoc_map(mid)[k]);
    }
    assert(ts =~= pre.insert(figi, ns@));
}

/// A full list of acknowledged orders, partitioned by instrument: every
/// order of the list is in work at its instrument under its id (the last
/// one, when ids repeat), and every order in work at an instrument is an
/// order of the list with that instrument.
pub proof fn lemma_orders_partitioned(m: Map<Seq<char>, StockStateView>, orders: Seq<OrderState>)
    ensures
        forall|i: int| 0 <= i < orders.len() ==> #[trigger] with_orders(m, orders).contains_key(orders[i].order.figi@),
        forall|f: Seq<char>| #[trigger] with_orders(m, orders).contains_key(f) ==> with_orders(m, orders)[f].inwork
            == bucket(orders, f),
        forall|f: Seq<char>, id: Seq<char>| #[trigger] bucket(orders, f).contains_key(id) ==> exists|i: int|
            0 <= i < orders.len() && orders[i].order.figi@ == f && orders[i].order_id@ == id && #[trigger] orders[i]
                == bucket(orders, f)[id],
        forall|i: int| 0 <= i < orders.len() ==> #[trigger] bucket(orders, orders[i].order.figi@).contains_key(
            orders[i].order_id@,
        ),
{
    assert forall|i: int| 0 <= i < orders.len() implies #[trigger] with_orders(m, orders).contains_key(orders[i].order.figi@) by {
        assert(mentions_figi(orders, orders[i].order.figi@));
    }
    assert forall|f: Seq<char>, id: Seq<char>| #[trigger] bucket(orders, f).contains_key(id) implies exists|i: int|
        0 <= i < orders.len() && orders[i].order.figi@ == f && orders[i].order_id@ == id && #[trigger] orders[i]
            == bucket(orders, f)[id] by {
        lemma_bucket_origin(orders, f, id);
    }
    assert forall|i: int| 0 <= i < orders.len() implies #[trigger] bucket(orders, orders[i].order.figi@).contains_key(
        orders[i].order_id@,
    ) by {
        lemma_bucket_has(orders, i);
    }
}

proof fn lemma_bucket_origin(orders: Seq<OrderState>, f: Seq<char>, id: Seq<char>)
    requires
        bucket(orders, f).contains_key(id),
    ensures
        exists|i: int|
            0 <= i < orders.len() && orders[i].order.figi@ == f && orders[i].order_id@ == id && #[trigger] orders[i]
                == bucket(orders, f)[id],
    decreases orders.len(),
{
    let n = orders.len() - 1;
    let d = orders.drop_last();
    if orders[n].order.figi@ == f && orders[n].order_id@ == id {
        assert(orders[n] == bucket(orders, f)[id]);
    } else {
        lemma_bucket_origin(d, f, id);
        let i = choose|i: int|
            0 <= i < d.len() && d[i].order.figi@ == f && d[i].order_id@ == id && #[trigger] d[i] == bucket(d, f)[id];
        assert(orders[i] == d[i]);
    }
}

proof fn lemma_bucket_has(orders: Seq<OrderState>, i: int)
    requires
        0 <= i < orders.len(),
    ensures
        bucket(orders, orders[i].order.figi@).contains_key(orders[i].order_id@),
    decreases orders.len(),
{
    if i < orders.len() - 1 {
        let d = orders.drop_last();
        assert(d[i] == orders[i]);
        lemma_bucket_has(d, i);
    }
}

/// Tells a caller that an operation could not reach a task whose channel
/// is closed.
#[derive(Clone, Copy, Debug, PartialEq, Eq, Structural)]
pub struct ChannelStopped;

/// Instrument catalog and live state of every instrument seen.
pub struct Market {
    pub stocks: Vec<(String, Stock)>,
    pub state: Vec<(String, StockState)>,
}

impl Market {
    pub open spec fn wf(&self) -> bool {
        &&& unique_keys(self.stocks@)
        &&& unique_keys(self.state@)
        &&& forall|i: int| 0 <= i < self.state@.len() ==> (#[trigger] self.state@[i]).1.wf()
    }

    pub open spec fn catalog(&self) -> Map<Seq<char>, StockView> {
        assoc_map(self.stocks@).map_values(|s: Stock| s@)
    }

    pub open spec fn states(&self) -> Map<Seq<char>, StockStateView> {
        assoc_map(self.state@).map_values(|s: StockState| s@)
    }

    pub open spec fn stock_view(&self, figi: Seq<char>) -> StockView {
        if self.catalog().contains_key(figi) {
            self.catalog()[figi]
        } else {
            stub_stock(figi)
        }
    }

    pub fn new() -> (r: Market)
        ensures
            r.wf(),
            r.catalog() == Map::<Seq<char>, StockView>::empty(),
            r.states() == Map::<Seq<char>, StockStateView>::empty(),
    {
        let r = Market { stocks: Vec::new(), state: Vec::new() };
        assert(r.catalog() =~= Map::empty());
        assert(r.states() =~= Map::empty());
        r
    }

    /// The position of `figi`'s state, creating a fresh state if there is none.
    fn ensure_state(&mut self, figi: &str) -> (i: usize)
        requires
            old(self).wf(),
        ensures
            final(self).wf(),
            i < final(self).state@.len(),
            final(self).state@[i as int].0@ == figi@,
            final(self).states() == old(self).states().insert(figi@, state_or_fresh(old(self).states(), figi@)),
            final(self).stocks == old(self).stocks,
    {
        match find_str(&self.state, figi) {
            Some(i) => {
                proof {
                    lemma_at(self.state@, i as int);
                    assert(self.states() =~= self.states().insert(figi@, self.states()[figi@]));
                }
                i
            },
            None => {
                let ghost before = self.state@;
                let fresh = StockState::default();
                self.state.push((String::from_str(figi), fresh));
                proof {
                    lemma_absent(before, figi@);
                    lemma_push(before, self.state@.last());
                    assert(self.state@ == before.push(self.state@.last()));
                    assert(self.states() =~= old(self).states().insert(figi@, fresh_state()));
                }
                self.state.len() - 1
            },
        }
    }

    /// The state of `figi` to change in place, created fresh if there is
    /// none; the market then holds whatever the caller leaves there.
    pub fn state_mut(&mut self, figi: &str) -> (r: &mut StockState)
        requires
            old(self).wf(),
        ensures
            r@ == state_or_fresh(old(self).states(), figi@),
            r.wf(),
            final(self).states() == old(self).states().insert(figi@, final(r)@),
            final(self).catalog() == old(self).catalog(),
            final(r).wf() ==> final(self).wf(),
    {
        let i = self.ensure_state(figi);
        let ghost mid = self.state@;
        proof {
            lemma_write(old(self).states(), mid, i as int, figi@, mid[i as int].1);
        }
        let r = &mut self.state[i].1;
        proof {
            lemma_write(old(self).states(), mid, i as int, figi@, *final(r));
        }
        r
    }

    /// Gives `figi` the position `p`, creating its state if there is none.
    pub fn set_position(&mut self, figi: &str, p: Position)
        requires
            old(self).wf(),
        ensures
            final(self).wf(),
            final(self).catalog() == old(self).catalog(),
            final(self).states() == old(self).states().insert(
                figi@,
                StockStateView { position: p, ..state_or_fresh(old(self).states(), figi@) },
            ),
    {
        let i = self.ensure_state(figi);
        let ghost mid = self.state@;
        self.state[i].1.position = p;
        proof {
            lemma_write(old(self).states(), mid, i as int, figi@, self.state@[i as int].1);
        }
    }

    /// Gives `figi` the orderbook `ob`, creating its state if there is none.
    pub fn set_orderbook(&mut self, figi: &str, ob: Orderbook)
        requires
            old(self).wf(),
        ensures
            final(self).wf(),
            final(self).catalog() == old(self).catalog(),
            final(self).states() == old(self).states().insert(
                figi@,
                StockStateView { orderbook: ob@, ..state_or_fresh(old(self).states(), figi@) },
            ),
    {
        let i = self.ensure_state(figi);
        let ghost mid = self.state@;
        self.state[i].1.orderbook = ob;
        proof {
            lemma_write(old(self).states(), mid, i as int, figi@, self.state@[i as int].1);
        }
    }

    /// Appends candles to those of `figi`.
    pub fn add_candles(&mut self, figi: &str, candles: Vec<Candle>)
        requires
            old(self).wf(),
        ensures
            final(self).wf(),
            final(self).catalog() == old(self).catalog(),
            final(self).states() == old(self).states().insert(
                figi@,
                StockStateView {
                    candles: state_or_fresh(old(self).states(), figi@).candles + candles@,
                    ..state_or_fresh(old(self).states(), figi@)
                },
            ),
    {
        let mut candles = candles;
        let i = self.ensure_state(figi);
        let ghost mid = self.state@;
        self.state[i].1.candles.append(&mut candles);
        proof {
            lemma_write(old(self).states(), mid, i as int, figi@, self.state@[i as int].1);
        }
    }

    /// Records a new order, sent but not yet acknowledged, under `key`.
    pub fn add_new_order(&mut self, key: OrderKey, order: Order)
        requires
            old(self).wf(),
        ensures
            final(self).wf(),
            final(self).catalog() == old(self).catalog(),
            final(self).states() == old(self).states().insert(
                order.figi@,
                StockStateView {
                    pending: state_or_fresh(old(self).states(), order.figi@).pending.insert(key, order),
                    ..state_or_fresh(old(self).states(), order.figi@)
                },
            ),
    {
        let i = self.ensure_state(order.figi.as_str());
        let ghost mid = self.state@;
        self.state[i].1.put_pending(key, order);
        proof {
            lemma_write(old(self).states(), mid, i as int, order.figi@, self.state@[i as int].1);
        }
    }

    /// Forgets the new order of `figi` under `key`.
    pub fn remove_new_order(&mut self, figi: &str, key: OrderKey)
        requires
            old(self).wf(),
        ensures
            final(self).wf(),
            final(self).catalog() == old(self).catalog(),
            final(self).states() == old(self).states().insert(
                figi@,
                StockStateView {
                    pending: state_or_fresh(old(self).states(), figi@).pending.remove(key),
                    ..state_or_fresh(old(self).states(), figi@)
                },
            ),
    {
        let i = self.ensure_state(figi);
        let ghost mid = self.state@;
        self.state[i].1.drop_pending(key);
        proof {
            lemma_write(old(self).states(), mid, i as int, figi@, self.state@[i as int].1);
        }
    }

    /// The broker acknowledged the new order under `key`: it moves to the
    /// orders in work.
    pub fn acknowledge(&mut self, key: OrderKey, st: OrderState)
        requires
            old(self).wf(),
        ensures
            final(self).wf(),
            final(self).catalog() == old(self).catalog(),
            final(self).states() == old(self).states().insert(
                st.order.figi@,
                StockStateView {
                    pending: state_or_fresh(old(self).states(), st.order.figi@).pending.remove(key),
                    inwork: state_or_fresh(old(self).states(), st.order.figi@).inwork.insert(st.order_id@, st),
                    ..state_or_fresh(old(self).states(), st.order.figi@)
                },
            ),
    {
        let i = self.ensure_state(st.order.figi.as_str());
        let ghost mid = self.state@;
        let ghost f = st.order.figi@;
        self.state[i].1.drop_pending(key);
        let ghost mid2 = self.state@;
        self.state[i].1.put_inwork(st);
        proof {
            assert(mid2 == mid.update(i as int, (mid[i as int].0, mid2[i as int].1)));
            assert(self.state@ == mid2.update(i as int, (mid[i as int].0, self.state@[i as int].1)));
            assert(self.state@ == mid.update(i as int, (mid[i as int].0, self.state@[i as int].1)));
            lemma_write(old(self).states(), mid, i as int, f, self.state@[i as int].1);
        }
    }

    /// Overwrites the positions named in `positions`, creating states as
    /// needed; a later entry for an instrument wins.
    pub fn update_positons(&mut self, positions: Vec<(String, Position)>)
        requires
            old(self).wf(),
        ensures
            final(self).wf(),
            final(self).catalog() == old(self).catalog(),
            final(self).states() == with_positions(old(self).states(), positions@),
    {
        let mut rest = positions;
        let ghost all = rest@;
        let ghost n = all.len();
        while rest.len() > 0
            invariant
                self.wf(),
                self.catalog() == old(self).catalog(),
                n == all.len(),
                rest@.len() <= n,
                rest@ == all.subrange(n - rest@.len(), n as int),
                self.states() == with_positions(old(self).states(), all.subrange(0, n - rest@.len())),
            decreases rest@.len(),
        {
            let ghost k = n - rest@.len();
            let ghost prev = rest@;
            let (figi, p) = rest.remove(0);
            proof {
                assert(prev == all.subrange(k, n as int));
                assert(prev[0] == all.subrange(k, n as int)[0]);
                assert(prev[0] == all[k]);
                assert(all[k] == (figi, p));
                assert(all.subrange(0, k + 1).drop_last() =~= all.subrange(0, k));
                assert(rest@ =~= all.subrange(n - rest@.len(), n as int));
            }
            self.set_position(figi.as_str(), p);
        }
        assert(all.subrange(0, n as int) =~= all);
    }

    /// Installs a full list of acknowledged orders: every instrument's
    /// orders in work become exactly its share of the list, and instruments
    /// the list names get a state if they had none.
    pub fn update_orders(&mut self, orders: Vec<OrderState>)
        requires
            old(self).wf(),
        ensures
            final(self).wf(),
            final(self).catalog() == old(self).catalog(),
            final(self).states() == with_orders(old(self).states(), orders@),
    {
        let mut i: usize = 0;
        let ghost start = self.state@;
        while i < self.state.len()
            invariant
                self.wf(),
                self.stocks == old(self).stocks,
                start == old(self).state@,
                self.state@.len() == start.len(),
                0 <= i <= start.len(),
                forall|j: int| 0 <= j < start.len() ==> (#[trigger] self.state@[j]).0 == start[j].0,
                forall|j: int| 0 <= j < i ==> (#[trigger] self.state@[j]).1@ == cleared(start[j].1@),
                forall|j: int| i <= j < start.len() ==> (#[trigger] self.state@[j]) == start[j],
            decreases start.len() - i,
        {
            self.state[i].1.inwork_orders = Vec::new();
            proof {
                assert(self.state@[i as int].1@.inwork =~= Map::empty());
            }
            i += 1;
        }
        proof {
            lemma_pointwise(start, self.state@);
            assert(self.states() =~= with_orders(old(self).states(), Seq::empty()));
            assert(self.states() == with_orders(old(self).states(), orders@.subrange(0, 0)));
        }
        let mut rest = orders;
        let ghost all = rest@;
        let ghost n = all.len();
        while rest.len() > 0
            invariant
                self.wf(),
                self.catalog() == old(self).catalog(),
                n == all.len(),
                rest@.len() <= n,
                rest@ == all.subrange(n - rest@.len(), n as int),
                self.states() == with_orders(old(self).states(), all.subrange(0, n - rest@.len())),
            decreases rest@.len(),
        {
            let ghost k = n - rest@.len();
            let ghost pre = self.states();
            let ghost prev = rest@;
            let o = rest.remove(0);
            let ghost f = o.order.figi@;
            let i = self.ensure_state(o.order.figi.as_str());
            let ghost mid = self.state@;
            self.state[i].1.put_inwork(o);
            proof {
                assert(prev == all.subrange(k, n as int));
                assert(prev[0] == all.subrange(k, n as int)[0]);
                assert(prev[0] == all[k]);
                assert(all[k] == o);
                assert(rest@ =~= all.subrange(n - rest@.len(), n as int));
                lemma_write(pre, mid, i as int, f, self.state@[i as int].1);
                lemma_with_orders_push(old(self).states(), all.subrange(0, k), o);
                assert(all.subrange(0, k).push(o) =~= all.subrange(0, k + 1));
            }
        }
        assert(all.subrange(0, n as int) =~= all);
    }

    /// Installs a portfolio reply: its positions, then its orders.
    pub fn update_portfolio(&mut self, positions: Vec<(String, Position)>, orders: Vec<OrderState>)
        requires
            old(self).wf(),
        ensures
            final(self).wf(),
            final(self).catalog() == old(self).catalog(),
            final(self).states() == with_orders(with_positions(old(self).states(), positions@), orders@),
    {
        self.update_positons(positions);
        self.update_orders(orders);
    }

    /// Adds instruments to the catalog, replacing those with the same figi.
    pub fn update_stocks(&mut self, stocks: Vec<Stock>)
        requires
            old(self).wf(),
        ensures
            final(self).wf(),
            final(self).states() == old(self).states(),
            final(self).catalog() == with_stocks(old(self).catalog(), stocks@),
    {
        let mut rest = stocks;
        let ghost all = rest@;
        let ghost n = all.len();
        while rest.len() > 0
            invariant
                self.wf(),
                self.state == old(self).state,
                n == all.len(),
                rest@.len() <= n,
                rest@ == all.subrange(n - rest@.len(), n as int),
                self.catalog() == with_stocks(old(self).catalog(), all.subrange(0, n - rest@.len())),
            decreases rest@.len(),
        {
            let ghost k = n - rest@.len();
            let ghost before = self.stocks@;
            let ghost prev = rest@;
            let s = rest.remove(0);
            let figi = s.figi.clone();
            proof {
                assert(prev == all.subrange(k, n as int));
                assert(prev[0] == all.subrange(k, n as int)[0]);
                assert(prev[0] == all[k]);
                assert(all[k] == s);
                assert(rest@ =~= all.subrange(n - rest@.len(), n as int));
                assert(all.subrange(0, k + 1).drop_last() =~= all.subrange(0, k));
            }
            upsert_str(&mut self.stocks, figi, s);
            proof {
                assert(self.catalog() =~= assoc_map(before).map_values(|s: Stock| s@).insert(s.figi@, s@));
            }
        }
        assert(all.subrange(0, n as int) =~= all);
    }

    /// The catalog entry of `figi`, or a stub whose names are all `figi`.
    pub fn stock(&self, figi: &str) -> (r: Stock)
        requires
            self.wf(),
        ensures
            r@ == self.stock_view(figi@),
    {
        match find_str(&self.stocks, figi) {
            Some(i) => {
                proof {
                    lemma_at(self.stocks@, i as int);
                }
                self.stocks[i].1.duplicate()
            },
            None => {
                proof {
                    lemma_absent(self.stocks@, figi@);
                }
                Stock::stub(figi)
            },
        }
    }

    /// The live state of `figi`, if it has one.
    pub fn state(&self, figi: &str) -> (r: Option<&StockState>)
        requires
            self.wf(),
        ensures
            match r {
                Some(st) => self.states().contains_key(figi@) && st@ == self.states()[figi@] && st.wf(),
                None => !self.states().contains_key(figi@),
            },
    {
        match find_str(&self.state, figi) {
            Some(i) => {
                proof {
                    lemma_at(self.state@, i as int);
                }
                Some(&self.state[i].1)
            },
            None => {
                proof {
                    lemma_absent(self.state@, figi@);
                }
                None
            },
        }
    }

    pub open spec fn holdings(&self) -> Seq<(StockView, Position)> {
        holdings_of(*self, self.state@)
    }

    /// Every instrument with a non-zero balance, with its position, in the
    /// order in which the instruments were first seen.
    pub fn portfolio(&self) -> (r: Vec<(Stock, Position)>)
        requires
            self.wf(),
        ensures
            r@.map_values(|e: (Stock, Position)| (e.0@, e.1)) == self.holdings(),
    {
        let mut out: Vec<(Stock, Position)> = Vec::new();
        let mut i: usize = 0;
        while i < self.state.len()
            invariant
                self.wf(),
                0 <= i <= self.state@.len(),
                out@.map_values(|e: (Stock, Position)| (e.0@, e.1)) == holdings_of(*self, self.state@.subrange(0, i as int)),
            decreases self.state@.len() - i,
        {
            let position = self.state[i].1.position;
            proof {
                assert(self.state@.subrange(0, i + 1).drop_last() =~= self.state@.subrange(0, i as int));
            }
            if position.balance != 0 {
                let stock = self.stock(self.state[i].0.as_str());
                let ghost before = out@;
                out.push((stock, position));
                proof {
                    assert(out@.map_values(|e: (Stock, Position)| (e.0@, e.1)) =~= before.map_values(
                        |e: (Stock, Position)| (e.0@, e.1),
                    ).push((stock@, position)));
                }
            }
            i += 1;
        }
        assert(self.state@.subrange(0, self.state@.len() as int) =~= self.state@);
        out
    }
}

pub open spec fn holdings_of(m: Market, s: Seq<(String, StockState)>) -> Seq<(StockView, Position)>
    decreases s.len(),
{
    if s.len() == 0 {
        Seq::empty()
    } else {
        let rest = holdings_of(m, s.drop_last());
        let p = s.last().1.position;
        if p.balance != 0 {
            rest.push((m.stock_view(s.last().0@), p))
        } else {
            rest
        }
    }
}

pub open spec fn cleared(v: StockStateView) -> StockStateView {
    StockStateView { inwork: Map::empty(), ..v }
}

/// Clearing every state's orders in work, pair by pair.
proof fn lemma_pointwise(s: Seq<(String, StockState)>, t: Seq<(String, StockState)>)
    requires
        s.len() == t.len(),
        forall|j: int| 0 <= j < s.len() ==> (#[trigger] t[j]).0 == s[j].0,
        forall|j: int| 0 <= j < s.len() ==> (#[trigger] t[j]).1@ == cleared(s[j].1@),
    ensures
        assoc_map(t).map_values(|v: StockState| v@) == assoc_map(s).map_values(|v: StockState| v@).map_values(
            |v: StockStateView| cleared(v),
        ),
    decreases s.len(),
{
    if s.len() > 0 {
        let n = s.len() - 1;
        assert(t[n].0 == s[n].0);
        assert(t[n].1@ == cleared(s[n].1@));
        lemma_pointwise(s.drop_last(), t.drop_last());
        let k = s[n].0@;
        assert(assoc_map(t) == assoc_map(t.drop_last()).insert(k, t[n].1));
        assert(assoc_map(s) == assoc_map(s.drop_last()).insert(k, s[n].1));
        assert(assoc_map(t).map_values(|v: StockState| v@) =~= assoc_map(t.drop_last()).map_values(
            |v: StockState| v@,
        ).insert(k, t[n].1@));
        assert(assoc_map(s).map_values(|v: StockState| v@).map_values(|v: StockStateView| cleared(v))
            =~= assoc_map(s.drop_last()).map_values(|v: StockState| v@).map_values(
            |v: StockStateView| cleared(v),
        ).insert(k, cleared(s[n].1@)));
        assert(assoc_map(t).map_values(|v: StockState| v@) =~= assoc_map(s).map_values(|v: StockState| v@).map_values(
            |v: StockStateView| cleared(v),
        ));
    }
}

proof fn lemma_bucket_empty(orders: Seq<OrderState>, f: Seq<char>)
    requires
        !mentions_figi(orders, f),
    ensures
        bucket(orders, f) == Map::<Seq<char>, OrderState>::empty(),
    decreases orders.len(),
{
    if orders.len() > 0 {
        assert(orders[orders.len() - 1].order.figi@ != f);
        assert(!mentions_figi(orders.drop_last(), f)) by {
            if mentions_figi(orders.drop_last(), f) {
                let i = choose|i: int| 0 <= i < orders.drop_last().len() && #[trigger] orders.drop_last()[i].order.figi@ == f;
                assert(orders[i].order.figi@ == f);
            }
        }
        lemma_bucket_empty(orders.drop_last(), f);
    }
}

proof fn lemma_with_orders_push(m: Map<Seq<char>, StockStateView>, pre: Seq<OrderState>, o: OrderState)
    ensures
        ({
            let w = with_orders(m, pre);
            let f = o.order.figi@;
            with_orders(m, pre.push(o)) == w.insert(
                f,
                StockStateView {
                    inwork: state_or_fresh(w, f).inwork.insert(o.order_id@, o),
                    ..state_or_fresh(w, f)
                },
            )
        }),
{
    let w = with_orders(m, pre);
    let f = o.order.figi@;
    let t = pre.push(o);
    assert(t.drop_last() =~= pre);
    assert(t[t.len() - 1] == o);
    assert forall|g: Seq<char>| mentions_figi(t, g) <==> (mentions_figi(pre, g) || g == f) by {
        if mentions_figi(pre, g) {
            let i = choose|i: int| 0 <= i < pre.len() && #[trigger] pre[i].order.figi@ == g;
            assert(t[i].order.figi@ == g);
        }
        if mentions_figi(t, g) && g != f {
            let i = choose|i: int| 0 <= i < t.len() && #[trigger] t[i].order.figi@ == g;
            assert(pre[i].order.figi@ == g);
        }
    }
    if !w.contains_key(f) {
        lemma_bucket_empty(pre, f);
        assert(bucket(pre, f) =~= Map::<Seq<char>, OrderState>::empty());
    }
    assert(with_orders(m, t) =~= w.insert(
        f,
        StockStateView {
            inwork: state_or_fresh(w, f).inwork.insert(o.order_id@, o),
            ..state_or_fresh(w, f)
        },
    ));
}

} // verus!
