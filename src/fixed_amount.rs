//! Keeps the value of a holding near a target: sells when it is worth more
//! than the target by a threshold, buys when it is worth less.
use vstd::prelude::*;
use crate::model::{Market, Order, OrderKind};
use crate::strategy::{
    Decision, ConfigError, Strategy, quotes, beyond, lots, clamp_i64, max_u64, mul_factor, div_factor,
    percent, number_param, exceeds, lots_of, times_factor, over_factor, clamp, percent_of, parse_number,
};
use crate::text::{UNIT, str_eq};

verus! {

/// Amounts (`target`, `balance`) are fixed-point money, thresholds and
/// `factor` are fractions, all in units of `1 / UNIT`.
#[derive(Clone, Debug)]
pub struct FixedAmount {
    pub figi: String,
    pub target: u64,
    pub balance: i64,
    pub buy_threshold: u64,
    pub sell_threshold: u64,
    pub corrected_buy: u64,
    pub corrected_sell: u64,
    pub factor: u64,
    pub first_buy: bool,
}

/// Default target: 10 000.
pub const DEFAULT_TARGET: u64 = 10_000 * UNIT;

/// Default thresholds: 0.01.
pub const DEFAULT_THRESHOLD: u64 = UNIT / 100;

proof fn lemma_product_bounds(v: i64, p: u64)
    ensures
        i128::MIN < (v as int) * (p as int) < i128::MAX,
        v <= 0 ==> (v as int) * (p as int) <= 0,
        (v as int) * (p as int) > 0 ==> p > 0,
{
    assert(i128::MIN < (v as int) * (p as int) < i128::MAX) by (nonlinear_arith)
        requires
            i64::MIN <= v <= i64::MAX,
            0 <= p <= u64::MAX,
    {
    }
    assert(v <= 0 ==> (v as int) * (p as int) <= 0) by (nonlinear_arith)
        requires
            0 <= p,
    {
    }
    assert((v as int) * (p as int) > 0 ==> p > 0) by (nonlinear_arith)
        requires
            0 <= p,
    {
    }
}

proof fn lemma_not_beyond(amount: int, target: int, threshold: int)
    requires
        amount <= 0,
        target >= 0,
        threshold >= 0,
    ensures
        !beyond(amount, target, threshold),
{
    assert(amount * UNIT <= 0) by (nonlinear_arith)
        requires
            amount <= 0,
            UNIT == 1_000_000,
    {
    }
    assert(threshold * target >= 0) by (nonlinear_arith)
        requires
            target >= 0,
            threshold >= 0,
    {
    }
}

proof fn lemma_lots_bound(q: u32, p: u64)
    ensures
        0 <= (q as int) * (p as int) <= (u32::MAX as int) * (u64::MAX as int),
{
    assert(0 <= (q as int) * (p as int) <= (u32::MAX as int) * (u64::MAX as int)) by (nonlinear_arith)
        requires
            0 <= q <= u32::MAX,
            0 <= p <= u64::MAX,
    {
    }
}

impl FixedAmount {
    pub fn new(figi: String) -> (r: FixedAmount)
        ensures
            r == (FixedAmount {
                figi,
                target: DEFAULT_TARGET,
                balance: 0,
                buy_threshold: DEFAULT_THRESHOLD,
                sell_threshold: DEFAULT_THRESHOLD,
                corrected_buy: DEFAULT_THRESHOLD,
                corrected_sell: DEFAULT_THRESHOLD,
                factor: UNIT,
                first_buy: true,
            }),
    {
        FixedAmount {
            figi,
            target: DEFAULT_TARGET,
            balance: 0,
            buy_threshold: DEFAULT_THRESHOLD,
            sell_threshold: DEFAULT_THRESHOLD,
            corrected_buy: DEFAULT_THRESHOLD,
            corrected_sell: DEFAULT_THRESHOLD,
            factor: UNIT,
            first_buy: true,
        }
    }

    /// One decision on the best `bid` and `ask` for a holding of `vol` units:
    /// the strategy's next state and what it decides.
    pub open spec fn step(self, bid: u64, ask: u64, vol: i64) -> (FixedAmount, Seq<Decision>) {
        let target = self.target as int;
        let over = vol * bid - target;
        let under = target - vol * ask;
        if beyond(over, target, self.corrected_sell as int) {
            let q = lots(over, bid as int);
            if q == 0 {
                (self, Seq::empty())
            } else {
                (
                    FixedAmount {
                        balance: clamp_i64(self.balance + q * bid),
                        corrected_buy: max_u64(div_factor(self.corrected_buy, self.factor), self.buy_threshold),
                        corrected_sell: mul_factor(self.corrected_sell, self.factor),
                        ..self
                    },
                    seq![Decision::Order(Order { figi: self.figi, kind: OrderKind::Sell, price: bid, quantity: q })],
                )
            }
        } else if beyond(under, target, self.corrected_buy as int) && bid > 0 {
            let q = lots(under, bid as int);
            if q == 0 {
                (self, Seq::empty())
            } else {
                (
                    FixedAmount {
                        balance: if self.first_buy {
                            0
                        } else {
                            clamp_i64(self.balance - q * ask)
                        },
                        corrected_sell: max_u64(div_factor(self.corrected_sell, self.factor), self.sell_threshold),
                        corrected_buy: mul_factor(self.corrected_buy, self.factor),
                        first_buy: false,
                        ..self
                    },
                    seq![Decision::Order(Order { figi: self.figi, kind: OrderKind::Buy, price: ask, quantity: q })],
                )
            }
        } else {
            (self, Seq::empty())
        }
    }

    pub fn decide_on_quotes(&mut self, bid: u64, ask: u64, vol: i64) -> (r: Vec<Decision>)
        ensures
            (*final(self), r@) == old(self).step(bid, ask, vol),
    {
        proof {
            lemma_product_bounds(vol, bid);
            lemma_product_bounds(vol, ask);
        }
        let target = self.target;
        let factor = self.factor;
        let vb: i128 = vol as i128 * bid as i128;
        let sell = if vb > target as i128 {
            exceeds((vb - target as i128) as u128, target, self.corrected_sell)
        } else {
            proof {
                lemma_not_beyond(vb - target, target as int, self.corrected_sell as int);
            }
            false
        };
        if sell {
            let over = (vb - target as i128) as u128;
            let q = lots_of(over, bid);
            if q == 0 {
                return Vec::new();
            }
            proof {
                lemma_lots_bound(q, bid);
            }
            self.balance = clamp(self.balance as i128 + q as i128 * bid as i128);
            let cb = over_factor(self.corrected_buy, factor);
            self.corrected_buy = if cb < self.buy_threshold {
                self.buy_threshold
            } else {
                cb
            };
            self.corrected_sell = times_factor(self.corrected_sell, factor);
            let order = Order { figi: self.figi.clone(), kind: OrderKind::Sell, price: bid, quantity: q };
            return vec![Decision::Order(order)];
        }
        let va: i128 = vol as i128 * ask as i128;
        let buy = if va < target as i128 {
            let under: u128 = if va < 0 {
                target as u128 + (-va) as u128
            } else {
                (target as i128 - va) as u128
            };
            exceeds(under, target, self.corrected_buy)
        } else {
            proof {
                lemma_not_beyond(target - va, target as int, self.corrected_buy as int);
            }
            false
        };
        if !buy || bid == 0 {
            return Vec::new();
        }
        let under: u128 = if va < 0 {
            target as u128 + (-va) as u128
        } else {
            (target as i128 - va) as u128
        };
        let q = lots_of(under, bid);
        if q == 0 {
            return Vec::new();
        }
        proof {
            lemma_lots_bound(q, ask);
        }
        self.balance = clamp(self.balance as i128 - q as i128 * ask as i128);
        let cs = over_factor(self.corrected_sell, factor);
        self.corrected_sell = if cs < self.sell_threshold {
            self.sell_threshold
        } else {
            cs
        };
        self.corrected_buy = times_factor(self.corrected_buy, factor);
        if self.first_buy {
            self.balance = 0;
            self.first_buy = false;
        }
        let order = Order { figi: self.figi.clone(), kind: OrderKind::Buy, price: ask, quantity: q };
        vec![Decision::Order(order)]
    }
}

impl Default for FixedAmount {
    fn default() -> (r: FixedAmount)
        ensures
            r.figi@ == Seq::<char>::empty(),
            r.target == DEFAULT_TARGET,
            r.balance == 0,
            r.buy_threshold == DEFAULT_THRESHOLD,
            r.sell_threshold == DEFAULT_THRESHOLD,
            r.corrected_buy == DEFAULT_THRESHOLD,
            r.corrected_sell == DEFAULT_THRESHOLD,
            r.factor == UNIT,
            r.first_buy,
    {
        FixedAmount::new(String::new())
    }
}

impl Strategy for FixedAmount {
    open spec fn decided(&self, market: Market) -> (FixedAmount, Seq<Decision>) {
        match quotes(market, self.figi@) {
            Some((bid, ask, vol)) => self.step(bid, ask, vol),
            None => (*self, Seq::empty()),
        }
    }

    open spec fn configured(&self, key: Seq<char>, value: String) -> Result<FixedAmount, ConfigError> {
        if key == "figi"@ {
            Ok(FixedAmount { figi: value, ..*self })
        } else if key == "target"@ {
            match number_param(value@) {
                Ok(v) => Ok(FixedAmount { target: v, ..*self }),
                Err(e) => Err(e),
            }
        } else if key == "buy_threshold"@ {
            match number_param(value@) {
                Ok(v) => Ok(FixedAmount { buy_threshold: v, ..*self }),
                Err(e) => Err(e),
            }
        } else if key == "sell_threshold"@ {
            match number_param(value@) {
                Ok(v) => Ok(FixedAmount { sell_threshold: v, ..*self }),
                Err(e) => Err(e),
            }
        } else if key == "factor"@ {
            match number_param(value@) {
                Ok(v) => Ok(FixedAmount { factor: v, ..*self }),
                Err(e) => Err(e),
            }
        } else {
            Err(ConfigError::invalid_param_spec())
        }
    }

    open spec fn balance_spec(&self) -> i64 {
        percent(self.balance, self.target)
    }

    open spec fn param_list(&self) -> Seq<(&'static str, &'static str)> {
        seq![
            ("figi", "FIGI of the instrument"),
            ("target", "Value the position should keep"),
            ("buy_threshold", "Relative fall of the value that triggers a buy"),
            ("sell_threshold", "Relative rise of the value that triggers a sell"),
            ("factor", "Factor by which a threshold moves after a trade"),
        ]
    }

    fn name(&self) -> &'static str {
        "Fixed amount"
    }

    fn duplicate(&self) -> (r: FixedAmount) {
        FixedAmount { figi: self.figi.clone(), ..*self }
    }

    fn description(&self) -> &'static str {
        "Keeps the total value of a position fixed: sells when the value rises above the target by the sell threshold, buys when it falls below it by the buy threshold"
    }

    fn params(&self) -> (r: Vec<(&'static str, &'static str)>) {
        let r = vec![
            ("figi", "FIGI of the instrument"),
            ("target", "Value the position should keep"),
            ("buy_threshold", "Relative fall of the value that triggers a buy"),
            ("sell_threshold", "Relative rise of the value that triggers a sell"),
            ("factor", "Factor by which a threshold moves after a trade"),
        ];
        assert(r@ =~= self.param_list());
        r
    }

    fn configure(&mut self, key: &str, value: String) -> (r: Result<(), ConfigError>) {
        if str_eq(key, "figi") {
            self.figi = value;
        } else if str_eq(key, "target") {
            self.target = parse_number(value.as_str())?;
        } else if str_eq(key, "buy_threshold") {
            self.buy_threshold = parse_number(value.as_str())?;
        } else if str_eq(key, "sell_threshold") {
            self.sell_threshold = parse_number(value.as_str())?;
        } else if str_eq(key, "factor") {
            self.factor = parse_number(value.as_str())?;
        } else {
            return Err(ConfigError::invalid_param());
        }
        Ok(())
    }

    fn make_decision(&mut self, market: &Market) -> (r: Vec<Decision>) {
        match market.state(self.figi.as_str()) {
            Some(st) => {
                if st.has_orders() {
                    return Vec::new();
                }
                if st.orderbook.bids.len() > 0 && st.orderbook.asks.len() > 0 {
                    let bid = st.orderbook.bids[0].0;
                    let ask = st.orderbook.asks[0].0;
                    let vol = st.position.balance;
                    self.decide_on_quotes(bid, ask, vol)
                } else {
                    Vec::new()
                }
            },
            None => Vec::new(),
        }
    }

    fn balance(&self) -> (r: i64) {
        percent_of(self.balance, self.target)
    }
}

/// While its instrument has a new order or an order in work, the strategy
/// decides nothing and keeps its state.
pub proof fn lemma_waits_for_orders_in_flight(s: FixedAmount, market: Market)
    requires
        market.states().contains_key(s.figi@),
        market.states()[s.figi@].inwork.len() > 0 || market.states()[s.figi@].pending.len() > 0,
    ensures
        s.decided(market) == (s, Seq::<Decision>::empty()),
{
}

} // verus!
