//! Verified core of a chat-driven trading bot: the market model, the
//! trading strategies, the streaming subscription manager, the trader's
//! decision core and the chat dialogue state machine.
pub mod text;
pub mod assoc;
pub mod model;
pub mod strategy;
pub mod fixed_amount;
pub mod trailing_stop;
pub mod streaming;
pub mod rest;
pub mod trader;
pub mod persistent;
pub mod chat;
