//! End-to-end scenarios over the engine's command API.

use trading_engine::engine::Engine;
use trading_engine::errors::OpenError;
use trading_engine::money::{Amount, Money};
use trading_engine::positions::OpenOrderRequest;

fn order(
    qty: i64,
    margin: Option<i64>,
    stop_loss: Option<i64>,
    take_profit: Option<i64>,
    leverage: Option<i64>,
) -> OpenOrderRequest {
    OpenOrderRequest {
        qty: Amount::from_units(qty),
        asset: "BTC".to_string(),
        margin: margin.map(Money::from_units),
        stop_loss: stop_loss.map(Money::from_units),
        take_profit: take_profit.map(Money::from_units),
        leverage: leverage.map(Amount::from_units),
    }
}

fn tick(engine: &mut Engine, bid: i64, ask: i64) {
    engine
        .on_price_update(Amount::from_units(bid), Amount::from_units(ask))
        .expect("risk pass failed");
}

#[test]
fn create_wallet_seeds_ten_thousand() {
    let mut engine = Engine::new();
    engine.create_wallet("alice".to_string()).unwrap();
    let balance = engine.get_balance(&"alice".to_string()).unwrap();
    assert_eq!(balance, Money::from_units(10_000));
}

#[test]
fn open_long_debits_notional_plus_margin() {
    let mut engine = Engine::new();
    engine.create_wallet("alice".to_string()).unwrap();
    tick(&mut engine, 100, 101);
    let pid = engine
        .open_order("alice".to_string(), order(2, Some(50), None, None, None))
        .unwrap();
    let balance = engine.get_balance(&"alice".to_string()).unwrap();
    // 10000 - (101 * 2) - 50 = 9748
    assert_eq!(balance, Money::from_units(9_748));
    let listed = engine.list_orders(&"alice".to_string()).unwrap();
    assert_eq!(listed.len(), 1);
    assert_eq!(listed[0].pnl, Money::from_units(0));
    assert_eq!(listed[0].entry_price, Amount::from_units(101));
    assert_eq!(listed[0].position_id.seq, pid.seq);
}

#[test]
fn risk_pass_refreshes_pnl_at_the_bid_for_longs() {
    let mut engine = Engine::new();
    engine.create_wallet("alice".to_string()).unwrap();
    tick(&mut engine, 100, 101);
    engine
        .open_order("alice".to_string(), order(2, Some(50), None, None, None))
        .unwrap();
    tick(&mut engine, 110, 111);
    let listed = engine.list_orders(&"alice".to_string()).unwrap();
    // (110 - 101) * 2 = 18
    assert_eq!(listed[0].pnl, Money::from_units(18));
}

#[test]
fn close_credits_payout() {
    let mut engine = Engine::new();
    engine.create_wallet("alice".to_string()).unwrap();
    tick(&mut engine, 100, 101);
    let pid = engine
        .open_order("alice".to_string(), order(2, Some(50), None, None, None))
        .unwrap();
    tick(&mut engine, 110, 111);
    engine.close_order(&"alice".to_string(), &pid).unwrap();
    // 9748 + 18 + (101 * 2 + 50) = 10018
    let balance = engine.get_balance(&"alice".to_string()).unwrap();
    assert_eq!(balance, Money::from_units(10_018));
    let listed = engine.list_orders(&"alice".to_string()).unwrap();
    assert!(listed.is_empty());
}

#[test]
fn short_round_trip() {
    let mut engine = Engine::new();
    engine.create_wallet("bob".to_string()).unwrap();
    tick(&mut engine, 100, 101);
    let pid = engine
        .open_order("bob".to_string(), order(-1, None, None, None, None))
        .unwrap();
    // entry = bid = 100; debit = 100
    assert_eq!(
        engine.get_balance(&"bob".to_string()).unwrap(),
        Money::from_units(9_900)
    );
    tick(&mut engine, 90, 91);
    // mark for a short is the ask: pnl = (91 - 100) * (-1) = 9
    let listed = engine.list_orders(&"bob".to_string()).unwrap();
    assert_eq!(listed[0].pnl, Money::from_units(9));
    engine.close_order(&"bob".to_string(), &pid).unwrap();
    // payout = 9 + 100 = 109; final balance 9900 + 109 = 10009
    assert_eq!(
        engine.get_balance(&"bob".to_string()).unwrap(),
        Money::from_units(10_009)
    );
}

#[test]
fn stop_loss_liquidates_on_the_next_pass() {
    let mut engine = Engine::new();
    engine.create_wallet("alice".to_string()).unwrap();
    tick(&mut engine, 100, 101);
    engine
        .open_order("alice".to_string(), order(2, Some(50), Some(20), None, None))
        .unwrap();
    // pnl at mark = bid = 90: (90 - 101) * 2 = -22 <= -20 => liquidated
    tick(&mut engine, 90, 91);
    let listed = engine.list_orders(&"alice".to_string()).unwrap();
    assert!(listed.is_empty());
    // payout = -22 + 202 + 50 = 230; balance 9748 + 230 = 9978
    assert_eq!(
        engine.get_balance(&"alice".to_string()).unwrap(),
        Money::from_units(9_978)
    );
}

#[test]
fn take_profit_liquidates_on_the_next_pass() {
    let mut engine = Engine::new();
    engine.create_wallet("alice".to_string()).unwrap();
    tick(&mut engine, 100, 101);
    engine
        .open_order("alice".to_string(), order(2, None, None, Some(10), None))
        .unwrap();
    // pnl at mark = bid = 110: (110 - 101) * 2 = 18 >= 10 => liquidated
    tick(&mut engine, 110, 111);
    let listed = engine.list_orders(&"alice".to_string()).unwrap();
    assert!(listed.is_empty());
    // payout = 18 + 202 = 220; balance = 10000 - 202 + 220 = 10018
    assert_eq!(
        engine.get_balance(&"alice".to_string()).unwrap(),
        Money::from_units(10_018)
    );
}

#[test]
fn margin_exhaustion_fires_on_large_positive_pnl() {
    // The margin-exhaustion rule liquidates when
    // notional/leverage + margin < (pnl + margin) / 10, which a highly
    // leveraged position reaches on a large favourable move.
    let mut engine = Engine::new();
    engine.create_wallet("carol".to_string()).unwrap();
    tick(&mut engine, 1, 1);
    engine
        .open_order(
            "carol".to_string(),
            order(1, None, None, None, Some(1_000_000)),
        )
        .unwrap();
    assert_eq!(
        engine.get_balance(&"carol".to_string()).unwrap(),
        Money::from_units(9_999)
    );
    tick(&mut engine, 2, 2);
    let listed = engine.list_orders(&"carol".to_string()).unwrap();
    assert!(listed.is_empty());
    // payout = pnl 1 + notional 1 = 2; balance 9999 + 2 = 10001
    assert_eq!(
        engine.get_balance(&"carol".to_string()).unwrap(),
        Money::from_units(10_001)
    );
}

#[test]
fn insufficient_funds_reports_balance_and_required() {
    let mut engine = Engine::new();
    engine.create_wallet("alice".to_string()).unwrap();
    tick(&mut engine, 100, 5_001);
    let res = engine.open_order("alice".to_string(), order(2, None, None, None, None));
    match res {
        Err(OpenError::InsufficientFunds { balance, required }) => {
            assert_eq!(balance, Money::from_units(10_000));
            assert_eq!(required, Money::from_units(10_002));
        }
        other => panic!("expected InsufficientFunds, got {:?}", other),
    }
    assert_eq!(
        engine.get_balance(&"alice".to_string()).unwrap(),
        Money::from_units(10_000)
    );
}

#[test]
fn conservation_on_open_close_with_flat_price() {
    let mut engine = Engine::new();
    engine.create_wallet("dave".to_string()).unwrap();
    tick(&mut engine, 250, 250);
    let before = engine.get_balance(&"dave".to_string()).unwrap();
    let pid = engine
        .open_order("dave".to_string(), order(7, Some(13), None, None, None))
        .unwrap();
    engine.close_order(&"dave".to_string(), &pid).unwrap();
    let after = engine.get_balance(&"dave".to_string()).unwrap();
    assert_eq!(before, after);
}

#[test]
fn pnl_sign_follows_side_and_direction() {
    // Long, price falls: loss.
    let mut engine = Engine::new();
    engine.create_wallet("erin".to_string()).unwrap();
    tick(&mut engine, 100, 100);
    engine
        .open_order("erin".to_string(), order(3, None, None, None, None))
        .unwrap();
    tick(&mut engine, 95, 95);
    let listed = engine.list_orders(&"erin".to_string()).unwrap();
    assert_eq!(listed[0].pnl, Money::from_units(-15));

    // Short, price rises: loss.
    let mut engine2 = Engine::new();
    engine2.create_wallet("frank".to_string()).unwrap();
    tick(&mut engine2, 100, 100);
    engine2
        .open_order("frank".to_string(), order(-3, None, None, None, None))
        .unwrap();
    tick(&mut engine2, 105, 105);
    let listed2 = engine2.list_orders(&"frank".to_string()).unwrap();
    assert_eq!(listed2[0].pnl, Money::from_units(-15));
}
