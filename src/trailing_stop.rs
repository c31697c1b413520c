//! A stop-loss that follows the price up: sells once the best bid falls a
//! given fraction below the highest best bid seen.
use vstd::prelude::*;
use crate::model::{Market, Order, OrderKind};
use crate::strategy::{
    Decision, ConfigError, Strategy, beyond, number_param, integer_param, exceeds, parse_number,
    parse_integer,
};
use crate::text::{UNIT, str_eq};

verus! {

/// `stop_treshold` is a fraction in units of `1 / UNIT`; `best_price` a
/// fixed-point price.
#[derive(Clone, Debug)]
pub struct TrailingStop {
    pub figi: String,
    pub stop_treshold: u64,
    pub best_price: u64,
    pub quantity: u32,
    pub finished: bool,
}

/// Default stop threshold: 0.05.
pub const DEFAULT_STOP: u64 = UNIT / 20;

/// The best bid of `figi`, or `fallback` when its book has no bids; `None`
/// when it has no state.
pub open spec fn top_bid(market: Market, figi: Seq<char>, fallback: u64) -> Option<u64> {
    let states = market.states();
    if states.contains_key(figi) {
        let bids = states[figi].orderbook.bids;
        if bids.len() > 0 {
            Some(bids[0].0)
        } else {
            Some(fallback)
        }
    } else {
        None
    }
}

impl TrailingStop {
    pub fn make_order(&self, price: u64) -> (r: Order)
        ensures
            r == (Order { figi: self.figi, kind: OrderKind::Sell, price, quantity: self.quantity }),
    {
        Order { figi: self.figi.clone(), kind: OrderKind::Sell, price, quantity: self.quantity }
    }

    /// One decision on the current best bid `price`.
    pub open spec fn step(self, price: u64) -> (TrailingStop, Seq<Decision>) {
        if price > self.best_price {
            (TrailingStop { best_price: price, ..self }, Seq::empty())
        } else if beyond(self.best_price - price, self.best_price as int, self.stop_treshold as int) {
            (
                TrailingStop { finished: true, ..self },
                seq![Decision::Order(Order { figi: self.figi, kind: OrderKind::Sell, price, quantity: self.quantity })],
            )
        } else {
            (self, Seq::empty())
        }
    }
}

impl Default for TrailingStop {
    fn default() -> (r: TrailingStop)
        ensures
            r.figi@ == Seq::<char>::empty(),
            r.stop_treshold == DEFAULT_STOP,
            r.best_price == 0,
            r.quantity == 0,
            !r.finished,
    {
        TrailingStop { figi: String::new(), stop_treshold: DEFAULT_STOP, best_price: 0, quantity: 0, finished: false }
    }
}

impl Strategy for TrailingStop {
    open spec fn decided(&self, market: Market) -> (TrailingStop, Seq<Decision>) {
        if self.finished {
            (*self, Seq::empty())
        } else {
            match top_bid(market, self.figi@, self.best_price) {
                Some(price) => self.step(price),
                None => (*self, Seq::empty()),
            }
        }
    }

    open spec fn configured(&self, key: Seq<char>, value: String) -> Result<TrailingStop, ConfigError> {
        if key == "figi"@ {
            Ok(TrailingStop { figi: value, ..*self })
        } else if key == "stop_treshold"@ {
            match number_param(value@) {
                Ok(v) => Ok(TrailingStop { stop_treshold: v, ..*self }),
                Err(e) => Err(e),
            }
        } else if key == "quantity"@ {
            match integer_param(value@) {
                Ok(v) => Ok(TrailingStop { quantity: v, ..*self }),
                Err(e) => Err(e),
            }
        } else {
            Err(ConfigError::invalid_param_spec())
        }
    }

    open spec fn balance_spec(&self) -> i64 {
        0
    }

    open spec fn param_list(&self) -> Seq<(&'static str, &'static str)> {
        seq![
            ("figi", "FIGI of the instrument"),
            ("stop_treshold", "(0.05 is 5%) relative fall of the price that triggers the sale"),
            ("quantity", "How many lots to sell when the threshold is reached"),
        ]
    }

    fn name(&self) -> &'static str {
        "Trailing stop"
    }

    fn duplicate(&self) -> (r: TrailingStop) {
        TrailingStop { figi: self.figi.clone(), ..*self }
    }

    fn description(&self) -> &'static str {
        "Like a stop-loss, but moves up when the price improves"
    }

    fn params(&self) -> (r: Vec<(&'static str, &'static str)>) {
        let r = vec![
            ("figi", "FIGI of the instrument"),
            ("stop_treshold", "(0.05 is 5%) relative fall of the price that triggers the sale"),
            ("quantity", "How many lots to sell when the threshold is reached"),
        ];
        assert(r@ =~= self.param_list());
        r
    }

    fn configure(&mut self, key: &str, value: String) -> (r: Result<(), ConfigError>) {
        if str_eq(key, "figi") {
            self.figi = value;
        } else if str_eq(key, "stop_treshold") {
            self.stop_treshold = parse_number(value.as_str())?;
        } else if str_eq(key, "quantity") {
            self.quantity = parse_integer(value.as_str())?;
        } else {
            return Err(ConfigError::invalid_param());
        }
        Ok(())
    }

    fn make_decision(&mut self, market: &Market) -> (r: Vec<Decision>) {
        if self.finished {
            return Vec::new();
        }
        match market.state(self.figi.as_str()) {
            Some(st) => {
                let price = if st.orderbook.bids.len() > 0 {
                    st.orderbook.bids[0].0
                } else {
                    self.best_price
                };
                if price > self.best_price {
                    self.best_price = price;
                    Vec::new()
                } else if exceeds((self.best_price - price) as u128, self.best_price, self.stop_treshold) {
                    self.finished = true;
                    vec![Decision::Order(self.make_order(price))]
                } else {
                    Vec::new()
                }
            },
            None => Vec::new(),
        }
    }

    fn balance(&self) -> (r: i64) {
        0
    }
}

} // verus!
