//! Requests to the brokerage REST service and their replies. The calls
//! themselves are made by the application; this module decides what reply
//! a call's outcome becomes.
use vstd::prelude::*;
use crate::model::{Candle, Order, OrderKey, OrderState, Position, Stock, Timestamp};
use crate::streaming::Interval;

verus! {

#[derive(Clone, Debug)]
pub enum Request {
    Instruments,
    Candles { figi: String, from: Timestamp, to: Timestamp, interval: Interval },
    LimitOrder(OrderKey, Order),
    Portfolio,
}

/// The description of a failed call.
#[derive(Clone, Debug)]
pub struct ErrX {
    pub msg: String,
}

impl ErrX {
    pub fn new(msg: String) -> (r: ErrX)
        ensures
            r.msg == msg,
    {
        ErrX { msg }
    }
}

pub enum Response {
    Failed(Request, ErrX),
    Stocks(Vec<Stock>),
    Candles { figi: String, candles: Vec<Candle> },
    Order(OrderKey, OrderState),
    Portfolio { positions: Vec<(String, Position)>, orders: Vec<OrderState> },
}

/// The reply to `request`: the call's own reply, or the request back with
/// the error.
pub fn reply(request: Request, outcome: Result<Response, ErrX>) -> (r: Response)
    ensures
        match outcome {
            Ok(res) => r == res,
            Err(e) => r == Response::Failed(request, e),
        },
{
    match outcome {
        Ok(res) => res,
        Err(e) => Response::Failed(request, e),
    }
}

/// The catalog reply: stocks, ETFs, bonds and currencies, in that order.
pub fn instruments_reply(stocks: Vec<Stock>, etfs: Vec<Stock>, bonds: Vec<Stock>, currencies: Vec<Stock>) -> (r: Response)
    ensures
        r matches Response::Stocks(all) && all@ == stocks@ + etfs@ + bonds@ + currencies@,
{
    let mut all = stocks;
    let mut etfs = etfs;
    let mut bonds = bonds;
    let mut currencies = currencies;
    all.append(&mut etfs);
    all.append(&mut bonds);
    all.append(&mut currencies);
    Response::Stocks(all)
}

/// The reply to a limit order placed under `key`: the acknowledged order
/// with the broker's id and executed lots, or the request back with the error.
pub fn limit_order_reply(key: OrderKey, order: Order, outcome: Result<(String, u32), ErrX>) -> (r: Response)
    ensures
        match outcome {
            Ok((order_id, executed)) => r == Response::Order(key, OrderState { order_id, order, executed }),
            Err(e) => r == Response::Failed(Request::LimitOrder(key, order), e),
        },
{
    match outcome {
        Ok((order_id, executed)) => Response::Order(key, OrderState { order_id, order, executed }),
        Err(e) => Response::Failed(Request::LimitOrder(key, order), e),
    }
}

} // verus!
