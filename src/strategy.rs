//! Strategies: producers of trading decisions from the market model.
use vstd::prelude::*;
use vstd::arithmetic::div_mod::lemma_fundamental_div_mod;
use crate::model::{Market, Order};
use crate::fixed_amount::FixedAmount;
use crate::trailing_stop::TrailingStop;
use crate::text::{UNIT, parse_fixed, parse_uint, fit_u64, fixed_of, uint_of};

verus! {

/// What a strategy asks the trader to do.
pub enum Decision {
    Order(Order),
}

#[derive(Clone, Copy, Debug, PartialEq, Eq, Structural)]
pub enum ConfigErrorKind {
    InvalidParam,
    TickerNotFound,
    ParseNumber,
    ParseInteger,
}

/// Why a parameter could not be set.
#[derive(Clone, Copy, Debug, PartialEq, Eq, Structural)]
pub struct ConfigError {
    pub kind: ConfigErrorKind,
}

impl ConfigError {
    pub fn invalid_param() -> (r: ConfigError)
        ensures
            r.kind == ConfigErrorKind::InvalidParam,
    {
        ConfigError { kind: ConfigErrorKind::InvalidParam }
    }

    pub open spec fn invalid_param_spec() -> ConfigError {
        ConfigError { kind: ConfigErrorKind::InvalidParam }
    }

    pub open spec fn ticker_not_found_spec() -> ConfigError {
        ConfigError { kind: ConfigErrorKind::TickerNotFound }
    }

    pub fn ticker_not_found() -> (r: ConfigError)
        ensures
            r.kind == ConfigErrorKind::TickerNotFound,
    {
        ConfigError { kind: ConfigErrorKind::TickerNotFound }
    }

    pub open spec fn message_of(kind: ConfigErrorKind) -> &'static str {
        match kind {
            ConfigErrorKind::InvalidParam => "no such parameter",
            ConfigErrorKind::TickerNotFound => "ticker not found",
            ConfigErrorKind::ParseNumber => "need a number",
            ConfigErrorKind::ParseInteger => "need a whole number",
        }
    }

    /// The text shown to the user.
    pub fn message(&self) -> (r: &'static str)
        ensures
            r == ConfigError::message_of(self.kind),
    {
        match self.kind {
            ConfigErrorKind::InvalidParam => "no such parameter",
            ConfigErrorKind::TickerNotFound => "ticker not found",
            ConfigErrorKind::ParseNumber => "need a number",
            ConfigErrorKind::ParseInteger => "need a whole number",
        }
    }
}

pub open spec fn number_param(value: Seq<char>) -> Result<u64, ConfigError> {
    match fit_u64(fixed_of(value)) {
        Some(v) => Ok(v),
        None => Err(ConfigError { kind: ConfigErrorKind::ParseNumber }),
    }
}

pub open spec fn integer_param(value: Seq<char>) -> Result<u32, ConfigError> {
    match fit_u64(uint_of(value)) {
        Some(v) => if v <= u32::MAX {
            Ok(v as u32)
        } else {
            Err(ConfigError { kind: ConfigErrorKind::ParseInteger })
        },
        None => Err(ConfigError { kind: ConfigErrorKind::ParseInteger }),
    }
}

pub(crate) fn parse_number(value: &str) -> (r: Result<u64, ConfigError>)
    ensures
        r == number_param(value@),
{
    match parse_fixed(value) {
        Some(v) => Ok(v),
        None => Err(ConfigError { kind: ConfigErrorKind::ParseNumber }),
    }
}

pub(crate) fn parse_integer(value: &str) -> (r: Result<u32, ConfigError>)
    ensures
        r == integer_param(value@),
{
    match parse_uint(value) {
        Some(v) => if v <= u32::MAX as u64 {
            Ok(v as u32)
        } else {
            Err(ConfigError { kind: ConfigErrorKind::ParseInteger })
        },
        None => Err(ConfigError { kind: ConfigErrorKind::ParseInteger }),
    }
}

/// The best bid and best ask of `figi`, when it has a state without orders
/// in flight and a two-sided book.
pub open spec fn quotes(market: Market, figi: Seq<char>) -> Option<(u64, u64, i64)> {
    let states = market.states();
    if states.contains_key(figi) {
        let st = states[figi];
        if st.inwork.len() > 0 || st.pending.len() > 0 {
            None
        } else if st.orderbook.bids.len() > 0 && st.orderbook.asks.len() > 0 {
            Some((st.orderbook.bids[0].0, st.orderbook.asks[0].0, st.position.balance))
        } else {
            None
        }
    } else {
        None
    }
}

/// `amount / target` is above the fraction `threshold / UNIT`.
pub open spec fn beyond(amount: int, target: int, threshold: int) -> bool {
    amount * UNIT > threshold * target
}

pub open spec fn min_u64(v: int) -> u64 {
    if v > u64::MAX {
        u64::MAX
    } else {
        v as u64
    }
}

pub open spec fn clamp_i64(v: int) -> i64 {
    if v > i64::MAX {
        i64::MAX
    } else if v < i64::MIN {
        i64::MIN
    } else {
        v as i64
    }
}

/// Lots to trade: the whole part of `amount / price`, at most `u32::MAX`.
pub open spec fn lots(amount: int, price: int) -> u32 {
    if amount / price > u32::MAX {
        u32::MAX
    } else {
        (amount / price) as u32
    }
}

/// A threshold multiplied by `factor / UNIT`, saturating.
pub open spec fn mul_factor(c: u64, factor: u64) -> u64 {
    min_u64(c * factor / (UNIT as int))
}

/// A threshold divided by `factor / UNIT`, saturating; by a zero factor it
/// becomes the largest value.
pub open spec fn div_factor(c: u64, factor: u64) -> u64 {
    if factor == 0 {
        u64::MAX
    } else {
        min_u64(c * UNIT / (factor as int))
    }
}

pub open spec fn max_u64(a: u64, b: u64) -> u64 {
    if a < b {
        b
    } else {
        a
    }
}

pub open spec fn percent(balance: i64, target: u64) -> i64 {
    if target == 0 {
        0
    } else if balance >= 0 {
        clamp_i64(balance * 100 / (target as int))
    } else {
        clamp_i64(-((-balance) * 100 / (target as int)))
    }
}

proof fn lemma_mul_u64(a: u64, b: u64)
    ensures
        0 <= a as int * b as int <= u128::MAX,
{
    assert(a as int * b as int <= u64::MAX as int * u64::MAX as int) by (nonlinear_arith)
        requires
            a <= u64::MAX,
            b <= u64::MAX,
            a >= 0,
            b >= 0,
    {
    }
    assert(0 <= a as int * b as int) by (nonlinear_arith)
        requires
            a >= 0,
            b >= 0,
    {
    }
}

pub(crate) fn exceeds(amount: u128, target: u64, threshold: u64) -> (r: bool)
    ensures
        r == beyond(amount as int, target as int, threshold as int),
{
    proof {
        lemma_mul_u64(threshold, target);
    }
    let x: u128 = threshold as u128 * target as u128;
    let q: u128 = x / (UNIT as u128);
    proof {
        lemma_fundamental_div_mod(x as int, UNIT as int);
        let a = amount as int;
        let xi = x as int;
        let qi = q as int;
        let ri = xi % (UNIT as int);
        assert(0 <= ri < UNIT);
        assert(a > qi <==> a * UNIT > xi) by (nonlinear_arith)
            requires
                xi == UNIT * qi + ri,
                0 <= ri < UNIT,
                UNIT == 1_000_000,
        {
        }
    }
    amount > q
}

pub(crate) fn lots_of(amount: u128, price: u64) -> (r: u32)
    requires
        price > 0,
    ensures
        r == lots(amount as int, price as int),
{
    let q = amount / (price as u128);
    if q > u32::MAX as u128 {
        u32::MAX
    } else {
        q as u32
    }
}

pub(crate) fn times_factor(c: u64, factor: u64) -> (r: u64)
    ensures
        r == mul_factor(c, factor),
{
    proof {
        lemma_mul_u64(c, factor);
    }
    let v: u128 = (c as u128 * factor as u128) / (UNIT as u128);
    if v > u64::MAX as u128 {
        u64::MAX
    } else {
        v as u64
    }
}

pub(crate) fn over_factor(c: u64, factor: u64) -> (r: u64)
    ensures
        r == div_factor(c, factor),
{
    if factor == 0 {
        return u64::MAX;
    }
    let v: u128 = (c as u128 * UNIT as u128) / (factor as u128);
    if v > u64::MAX as u128 {
        u64::MAX
    } else {
        v as u64
    }
}

pub(crate) fn clamp(v: i128) -> (r: i64)
    ensures
        r == clamp_i64(v as int),
{
    if v > i64::MAX as i128 {
        i64::MAX
    } else if v < i64::MIN as i128 {
        i64::MIN
    } else {
        v as i64
    }
}

pub(crate) fn percent_of(balance: i64, target: u64) -> (r: i64)
    ensures
        r == percent(balance, target),
{
    if target == 0 {
        0
    } else if balance >= 0 {
        clamp((balance as i128 * 100) / target as i128)
    } else {
        let m: u128 = ((-(balance as i128)) as u128 * 100) / target as u128;
        clamp(-(m as i128))
    }
}

/// The contract every strategy meets: what `make_decision` decides and how
/// the strategy's own state moves, what `configure` does to it, and what
/// `balance` reports.
pub trait Strategy: Sized {
    spec fn decided(&self, market: Market) -> (Self, Seq<Decision>);

    spec fn configured(&self, key: Seq<char>, value: String) -> Result<Self, ConfigError>;

    spec fn balance_spec(&self) -> i64;

    /// The parameters a user can set: name and description.
    spec fn param_list(&self) -> Seq<(&'static str, &'static str)>;

    fn name(&self) -> &'static str;

    fn duplicate(&self) -> (r: Self)
        ensures
            r == *self,
    ;

    fn description(&self) -> &'static str;

    fn params(&self) -> (r: Vec<(&'static str, &'static str)>)
        ensures
            r@ == self.param_list(),
    ;

    fn configure(&mut self, key: &str, value: String) -> (r: Result<(), ConfigError>)
        ensures
            match old(self).configured(key@, value) {
                Ok(s) => r is Ok && *final(self) == s,
                Err(e) => r == Err::<(), ConfigError>(e) && *final(self) == *old(self),
            },
    ;

    fn make_decision(&mut self, market: &Market) -> (r: Vec<Decision>)
        requires
            market.wf(),
        ensures
            (*final(self), r@) == old(self).decided(*market),
    ;

    fn balance(&self) -> (r: i64)
        ensures
            r == self.balance_spec(),
    ;
}


/// A strategy that never decides anything.
#[derive(Clone, Copy, Debug, PartialEq, Eq, Structural)]
pub struct Dummy;

impl Default for Dummy {
    fn default() -> (r: Dummy) {
        Dummy
    }
}

impl Strategy for Dummy {
    open spec fn decided(&self, market: Market) -> (Dummy, Seq<Decision>) {
        (*self, Seq::empty())
    }

    open spec fn configured(&self, key: Seq<char>, value: String) -> Result<Dummy, ConfigError> {
        Ok(*self)
    }

    open spec fn balance_spec(&self) -> i64 {
        0
    }

    open spec fn param_list(&self) -> Seq<(&'static str, &'static str)> {
        Seq::empty()
    }

    fn name(&self) -> &'static str {
        "UNDEFINED"
    }

    fn duplicate(&self) -> (r: Dummy) {
        Dummy
    }

    fn description(&self) -> &'static str {
        "Empty description"
    }

    fn params(&self) -> (r: Vec<(&'static str, &'static str)>) {
        let r = Vec::new();
        assert(r@ =~= Seq::empty());
        r
    }

    fn configure(&mut self, key: &str, value: String) -> (r: Result<(), ConfigError>) {
        Ok(())
    }

    fn make_decision(&mut self, market: &Market) -> (r: Vec<Decision>) {
        Vec::new()
    }

    fn balance(&self) -> (r: i64) {
        0
    }
}

/// The strategies a user can choose from.
#[derive(Clone, Debug)]
pub enum StrategyKind {
    FixedAmount(FixedAmount),
    TrailingStop(TrailingStop),
}

impl StrategyKind {
    /// Every kind of strategy in its default configuration, under its name.
    pub fn variants() -> (r: Vec<(String, StrategyKind)>)
        ensures
            r@.len() == 2,
            r@[0].0@ == "Fixed amount"@,
            r@[1].0@ == "Trailing stop"@,
            r@[0].0@ != r@[1].0@,
            r@[0].1 matches StrategyKind::FixedAmount(f) && f.figi@.len() == 0 && f.target
                == crate::fixed_amount::DEFAULT_TARGET && f.first_buy,
            r@[1].1 matches StrategyKind::TrailingStop(t) && t.figi@.len() == 0 && t.stop_treshold
                == crate::trailing_stop::DEFAULT_STOP && !t.finished,
    {
        let f = StrategyKind::FixedAmount(FixedAmount::default());
        let t = StrategyKind::TrailingStop(TrailingStop::default());
        let fname = String::from_str(f.name());
        let tname = String::from_str(t.name());
        proof {
            reveal_strlit("Fixed amount");
            reveal_strlit("Trailing stop");
        }
        assert(fname@ != tname@) by {
            assert(fname@[0] != tname@[0]);
        }
        vec![(fname, f), (tname, t)]
    }
}

impl Strategy for StrategyKind {
    open spec fn decided(&self, market: Market) -> (StrategyKind, Seq<Decision>) {
        match self {
            StrategyKind::FixedAmount(s) => {
                let (n, d) = s.decided(market);
                (StrategyKind::FixedAmount(n), d)
            },
            StrategyKind::TrailingStop(s) => {
                let (n, d) = s.decided(market);
                (StrategyKind::TrailingStop(n), d)
            },
        }
    }

    open spec fn configured(&self, key: Seq<char>, value: String) -> Result<StrategyKind, ConfigError> {
        match self {
            StrategyKind::FixedAmount(s) => match s.configured(key, value) {
                Ok(n) => Ok(StrategyKind::FixedAmount(n)),
                Err(e) => Err(e),
            },
            StrategyKind::TrailingStop(s) => match s.configured(key, value) {
                Ok(n) => Ok(StrategyKind::TrailingStop(n)),
                Err(e) => Err(e),
            },
        }
    }

    open spec fn balance_spec(&self) -> i64 {
        match self {
            StrategyKind::FixedAmount(s) => s.balance_spec(),
            StrategyKind::TrailingStop(s) => s.balance_spec(),
        }
    }

    open spec fn param_list(&self) -> Seq<(&'static str, &'static str)> {
        match self {
            StrategyKind::FixedAmount(s) => s.param_list(),
            StrategyKind::TrailingStop(s) => s.param_list(),
        }
    }

    fn name(&self) -> (r: &'static str)
        ensures
            self is FixedAmount ==> r == "Fixed amount",
            self is TrailingStop ==> r == "Trailing stop",
    {
        match self {
            StrategyKind::FixedAmount(_) => "Fixed amount",
            StrategyKind::TrailingStop(_) => "Trailing stop",
        }
    }

    fn duplicate(&self) -> (r: StrategyKind) {
        match self {
            StrategyKind::FixedAmount(s) => StrategyKind::FixedAmount(s.duplicate()),
            StrategyKind::TrailingStop(s) => StrategyKind::TrailingStop(s.duplicate()),
        }
    }

    fn description(&self) -> &'static str {
        match self {
            StrategyKind::FixedAmount(s) => s.description(),
            StrategyKind::TrailingStop(s) => s.description(),
        }
    }

    fn params(&self) -> (r: Vec<(&'static str, &'static str)>) {
        match self {
            StrategyKind::FixedAmount(s) => s.params(),
            StrategyKind::TrailingStop(s) => s.params(),
        }
    }

    fn configure(&mut self, key: &str, value: String) -> (r: Result<(), ConfigError>) {
        match self {
            StrategyKind::FixedAmount(s) => s.configure(key, value),
            StrategyKind::TrailingStop(s) => s.configure(key, value),
        }
    }

    fn make_decision(&mut self, market: &Market) -> (r: Vec<Decision>) {
        match self {
            StrategyKind::FixedAmount(s) => s.make_decision(market),
            StrategyKind::TrailingStop(s) => s.make_decision(market),
        }
    }

    fn balance(&self) -> (r: i64) {
        match self {
            StrategyKind::FixedAmount(s) => s.balance(),
            StrategyKind::TrailingStop(s) => s.balance(),
        }
    }
}

} // verus!
