//! Typed errors of the engine's command surface.

use crate::money::Money;
use vstd::prelude::*;

verus! {

/// Errors of the wallet custodian.
#[derive(Clone, Copy, PartialEq, Eq, Structural, Debug)]
pub enum WalletError {
    /// The user has no wallet.
    NoSuchWallet,
    /// A wallet for the user already exists.
    AlreadyExists,
    /// Crediting the amount would push the balance past `BALANCE_LIMIT`,
    /// the largest balance the fixed-point representation accepts.
    BalanceOverflow,
}

/// Errors of the open-order path.
#[derive(Clone, Copy, PartialEq, Eq, Structural, Debug)]
pub enum OpenError {
    /// No price tick has been seen yet (bid or ask is still zero).
    ServerNotReady,
    /// The user has no wallet.
    NoSuchWallet,
    /// The balance does not cover notional plus margin.
    InsufficientFunds { balance: Money, required: Money },
    /// The order quantity is zero.
    InvalidQuantity,
    /// The order names an asset other than "BTC".
    UnsupportedAsset,
    /// The order carries a negative margin.
    InvalidMargin,
    /// The position-id counter is exhausted (a machine limit; unreachable
    /// in practice).
    IdSpaceExhausted,
    /// The wallet custodian could not be reached.  Never produced by the
    /// in-process engine; reserved for transports that put an inbox
    /// between the custodians.
    WalletUnavailable,
    /// The wallet custodian refused the debit.
    WalletRefused(WalletError),
}

/// Errors of the close-order path.
#[derive(Clone, Copy, PartialEq, Eq, Structural, Debug)]
pub enum CloseError {
    /// The user has no position list.
    NoSuchUser,
    /// No open position of the user carries the given id.
    NoSuchPosition,
    /// The wallet custodian could not be reached.  Never produced by the
    /// in-process engine; reserved for transports that put an inbox
    /// between the custodians.
    WalletUnavailable,
    /// The wallet custodian refused the payout credit.
    WalletRefused(WalletError),
}

} // verus!
