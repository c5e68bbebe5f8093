//! Error surface, isolation, id freshness and the serialized command
//! path.

use trading_engine::engine::{Command, Engine, Reply};
use trading_engine::money::{BALANCE_LIMIT, MONEY_SCALE};
use trading_engine::errors::{CloseError, OpenError, WalletError};
use trading_engine::money::{Amount, Money};
use trading_engine::positions::{OpenOrderRequest, PositionId};

fn plain_order(qty: i64) -> OpenOrderRequest {
    OpenOrderRequest {
        qty: Amount::from_units(qty),
        asset: "BTC".to_string(),
        margin: None,
        stop_loss: None,
        take_profit: None,
        leverage: None,
    }
}

fn ready_engine(user: &str) -> Engine {
    let mut engine = Engine::new();
    engine.create_wallet(user.to_string()).unwrap();
    engine
        .on_price_update(Amount::from_units(100), Amount::from_units(101))
        .unwrap();
    engine
}

#[test]
fn open_before_any_tick_is_refused() {
    let mut engine = Engine::new();
    engine.create_wallet("alice".to_string()).unwrap();
    let res = engine.open_order("alice".to_string(), plain_order(1));
    assert!(matches!(res, Err(OpenError::ServerNotReady)));
}

#[test]
fn zero_quantity_is_refused() {
    let mut engine = ready_engine("alice");
    let res = engine.open_order("alice".to_string(), plain_order(0));
    assert!(matches!(res, Err(OpenError::InvalidQuantity)));
}

#[test]
fn unsupported_asset_is_refused() {
    let mut engine = ready_engine("alice");
    let mut order = plain_order(1);
    order.asset = "ETH".to_string();
    let res = engine.open_order("alice".to_string(), order);
    assert!(matches!(res, Err(OpenError::UnsupportedAsset)));
}

#[test]
fn negative_margin_is_refused() {
    let mut engine = ready_engine("alice");
    let mut order = plain_order(1);
    order.margin = Some(Money::from_units(-1));
    let res = engine.open_order("alice".to_string(), order);
    assert!(matches!(res, Err(OpenError::InvalidMargin)));
}

#[test]
fn open_without_wallet_is_refused() {
    let mut engine = ready_engine("alice");
    let res = engine.open_order("mallory".to_string(), plain_order(1));
    assert!(matches!(res, Err(OpenError::NoSuchWallet)));
}

#[test]
fn close_for_unknown_user_is_refused() {
    let mut engine = ready_engine("alice");
    let pid = PositionId {
        token: "nothing".to_string(),
        seq: 0,
    };
    let res = engine.close_order(&"mallory".to_string(), &pid);
    assert!(matches!(res, Err(CloseError::NoSuchUser)));
}

#[test]
fn close_with_unknown_id_is_refused() {
    let mut engine = ready_engine("alice");
    engine
        .open_order("alice".to_string(), plain_order(1))
        .unwrap();
    let pid = PositionId {
        token: "nothing".to_string(),
        seq: 12345,
    };
    let res = engine.close_order(&"alice".to_string(), &pid);
    assert!(matches!(res, Err(CloseError::NoSuchPosition)));
}

#[test]
fn close_is_not_idempotent() {
    let mut engine = ready_engine("alice");
    let pid = engine
        .open_order("alice".to_string(), plain_order(1))
        .unwrap();
    engine.close_order(&"alice".to_string(), &pid).unwrap();
    let res = engine.close_order(&"alice".to_string(), &pid);
    assert!(matches!(res, Err(CloseError::NoSuchPosition)));
}

#[test]
fn creating_a_wallet_twice_is_refused() {
    let mut engine = Engine::new();
    engine.create_wallet("alice".to_string()).unwrap();
    let res = engine.create_wallet("alice".to_string());
    assert!(matches!(res, Err(WalletError::AlreadyExists)));
}

#[test]
fn balance_of_unknown_user_is_none() {
    let engine = Engine::new();
    assert!(engine.get_balance(&"nobody".to_string()).is_none());
}

#[test]
fn list_for_unknown_user_is_none_but_empty_after_close() {
    let mut engine = ready_engine("alice");
    assert!(engine.list_orders(&"mallory".to_string()).is_none());
    let pid = engine
        .open_order("alice".to_string(), plain_order(1))
        .unwrap();
    engine.close_order(&"alice".to_string(), &pid).unwrap();
    // The user keeps an (empty) list: missing user and empty list are
    // distinguishable.
    let listed = engine.list_orders(&"alice".to_string()).unwrap();
    assert!(listed.is_empty());
}

#[test]
fn list_returns_an_isolated_snapshot() {
    let mut engine = ready_engine("alice");
    engine
        .open_order("alice".to_string(), plain_order(2))
        .unwrap();
    let mut listed = engine.list_orders(&"alice".to_string()).unwrap();
    listed.clear();
    listed.push(PositionIdHolder::dummy_position());
    let again = engine.list_orders(&"alice".to_string()).unwrap();
    assert_eq!(again.len(), 1);
    assert_eq!(again[0].qty, Amount::from_units(2));
}

/// Helper to build an arbitrary position value for the isolation test.
struct PositionIdHolder;

impl PositionIdHolder {
    fn dummy_position() -> trading_engine::positions::Position {
        trading_engine::positions::Position {
            position_id: PositionId {
                token: "forged".to_string(),
                seq: 999,
            },
            asset: "BTC".to_string(),
            entry_price: Amount::from_units(1),
            qty: Amount::from_units(1),
            pnl: Money::from_units(0),
            margin: Money::from_units(0),
            stop_loss: None,
            take_profit: None,
            leverage: None,
        }
    }
}

#[test]
fn position_ids_are_fresh_and_tokens_carry_entropy() {
    let mut engine = ready_engine("alice");
    let pid1 = engine
        .open_order("alice".to_string(), plain_order(1))
        .unwrap();
    let pid2 = engine
        .open_order("alice".to_string(), plain_order(1))
        .unwrap();
    assert_ne!(pid1.seq, pid2.seq);
    assert_eq!(pid1.token.chars().count(), 21);
    assert_eq!(pid2.token.chars().count(), 21);
}

#[test]
fn signup_creates_a_wallet_with_seed_balance() {
    let mut engine = Engine::new();
    let uid = engine.create_user("grace".to_string()).unwrap();
    assert_eq!(uid.chars().count(), 21);
    let balance = engine.get_balance(&uid).unwrap();
    assert_eq!(balance, Money::from_units(10_000));
}

#[test]
fn credit_past_the_cap_is_refused() {
    let mut wallets = trading_engine::wallet::Wallets::new();
    wallets.create("alice".to_string()).unwrap();
    let res = wallets.credit(&"alice".to_string(), Money::new(BALANCE_LIMIT));
    assert!(matches!(res, Err(WalletError::BalanceOverflow)));
    // The balance is untouched by the refused credit.
    assert_eq!(
        wallets.get_balance(&"alice".to_string()).unwrap(),
        Money::from_units(10_000)
    );
    // A credit within the cap lands exactly.
    wallets
        .credit(&"alice".to_string(), Money::from_units(5))
        .unwrap();
    assert_eq!(
        wallets.get_balance(&"alice".to_string()).unwrap(),
        Money::from_units(10_005)
    );
}

fn stop_order() -> OpenOrderRequest {
    let mut o = plain_order(1);
    o.stop_loss = Some(Money::from_units(1));
    o
}

#[test]
fn at_most_one_liquidation_per_user_per_pass() {
    let mut engine = Engine::new();
    engine.create_wallet("alice".to_string()).unwrap();
    engine
        .on_price_update(Amount::from_units(100), Amount::from_units(100))
        .unwrap();
    engine
        .open_order("alice".to_string(), stop_order())
        .unwrap();
    let second = engine
        .open_order("alice".to_string(), stop_order())
        .unwrap();
    // Both positions cross the stop on this tick, but a pass liquidates
    // at most one position per user: the first one.  The second keeps
    // its stale P&L until the next pass.
    engine
        .on_price_update(Amount::from_units(90), Amount::from_units(90))
        .unwrap();
    let listed = engine.list_orders(&"alice".to_string()).unwrap();
    assert_eq!(listed.len(), 1);
    assert_eq!(listed[0].position_id.seq, second.seq);
    assert_eq!(listed[0].pnl.atoms, 0);
    // The next pass reaches it.
    engine
        .on_price_update(Amount::from_units(90), Amount::from_units(90))
        .unwrap();
    let listed = engine.list_orders(&"alice".to_string()).unwrap();
    assert!(listed.is_empty());
}

#[test]
fn close_whose_payout_would_overflow_is_refused() {
    let mut engine = ready_engine("alice");
    let pid = engine
        .open_order("alice".to_string(), plain_order(1))
        .unwrap();
    // Push the balance to fifty units under the cap; the close would
    // credit the entry notional of 101 units and burst it.
    let headroom = BALANCE_LIMIT - 9_899 * MONEY_SCALE - 50 * MONEY_SCALE;
    engine
        .wallets
        .credit(&"alice".to_string(), Money::new(headroom))
        .unwrap();
    let res = engine.close_order(&"alice".to_string(), &pid);
    assert!(matches!(
        res,
        Err(CloseError::WalletRefused(WalletError::BalanceOverflow))
    ));
    // The position stays open and the balance is untouched.
    let listed = engine.list_orders(&"alice".to_string()).unwrap();
    assert_eq!(listed.len(), 1);
    assert_eq!(
        engine.get_balance(&"alice".to_string()).unwrap(),
        Money::new(BALANCE_LIMIT - 50 * MONEY_SCALE)
    );
}

#[test]
fn commands_apply_in_submission_order() {
    let mut engine = Engine::new();
    let script = vec![
        Command::CreateWallet {
            user_id: "alice".to_string(),
        },
        Command::PriceTick {
            bid: Amount::from_units(100),
            ask: Amount::from_units(101),
        },
        Command::Open {
            user_id: "alice".to_string(),
            order: plain_order(2),
        },
        Command::GetBalance {
            user_id: "alice".to_string(),
        },
        Command::List {
            user_id: "alice".to_string(),
        },
    ];
    let mut replies = Vec::new();
    for cmd in script {
        replies.push(engine.handle(cmd));
    }
    assert!(matches!(replies[0], Reply::Created(Ok(()))));
    assert!(matches!(replies[1], Reply::Ticked(Ok(()))));
    let pid_seq = match &replies[2] {
        Reply::Opened(Ok(pid)) => pid.seq,
        other => panic!("expected Opened(Ok(_)), got a different reply: {:?}", matches!(other, Reply::Opened(_))),
    };
    match &replies[3] {
        Reply::Balance(Some(b)) => assert_eq!(*b, Money::from_units(10_000 - 202)),
        _ => panic!("expected a balance"),
    }
    match &replies[4] {
        Reply::Listing(Some(v)) => {
            assert_eq!(v.len(), 1);
            assert_eq!(v[0].position_id.seq, pid_seq);
        }
        _ => panic!("expected a listing"),
    }
}
