//! Core of a leveraged perpetual-futures trading engine for a single
//! synthetic asset ("BTC").
//!
//! The crate keeps per-user balances and open positions, prices orders
//! against the latest bid/ask snapshot, revalues every open position on
//! each price tick and liquidates positions whose stop-loss, take-profit
//! or margin threshold fires.
//!
//! All monetary values are exact fixed-point integers (see [`money`]);
//! every state transition of the engine carries a contract that pins the
//! result and the new state.  Transport concerns (HTTP, message bus,
//! channels) live outside this crate; the engine itself is a plain,
//! sequential state machine, mirroring the single-writer custodian model:
//! each custodian owns its state and processes commands in arrival order.

pub mod api;
pub mod engine;
pub mod errors;
pub mod ids;
pub mod laws;
pub mod money;
pub mod positions;
pub mod price;
pub mod users;
pub mod wallet;
