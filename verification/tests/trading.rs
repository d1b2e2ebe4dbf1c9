use simple_bot::trading::{OrderStep, Side};

fn run(signer: bool, client: bool, side: Side, oks: &[bool]) -> OrderStep {
    let mut step = OrderStep::start(false, signer, client, side);
    for ok in oks {
        step = step.advance(*ok);
    }
    step
}

#[test]
fn sides_are_named() {
    assert_eq!(Side::Buy.label(), "BUY");
    assert_eq!(Side::Sell.label(), "SELL");
    assert_eq!(Side::Unknown.label(), "?");
}

#[test]
fn paper_orders_are_simulated_and_placed() {
    for (signer, client) in [(false, false), (true, false), (false, true)] {
        assert_eq!(OrderStep::start(false, signer, client, Side::Buy), OrderStep::Simulate);
        assert_eq!(run(signer, client, Side::Sell, &[false]), OrderStep::Done { placed: true });
    }
}

#[test]
fn sales_are_counted_in_shares() {
    assert_eq!(OrderStep::start(false, true, true, Side::Sell), OrderStep::CountShares);
    assert_eq!(OrderStep::start(false, true, true, Side::Buy), OrderStep::CountUsdc);
    assert_eq!(OrderStep::start(false, true, true, Side::Unknown), OrderStep::CountUsdc);
}

#[test]
fn live_orders_need_every_step() {
    let all = [true, true, true, true];
    assert_eq!(run(true, true, Side::Buy, &all), OrderStep::Done { placed: true });
    for i in 0..4 {
        let mut oks = all;
        oks[i] = false;
        assert_eq!(run(true, true, Side::Buy, &oks), OrderStep::Done { placed: false });
        assert_eq!(run(true, true, Side::Sell, &oks), OrderStep::Done { placed: false });
    }
}

#[test]
fn steps_come_in_order() {
    assert_eq!(run(true, true, Side::Buy, &[true]), OrderStep::Build);
    assert_eq!(run(true, true, Side::Buy, &[true, true]), OrderStep::Sign);
    assert_eq!(run(true, true, Side::Buy, &[true, true, true]), OrderStep::Post);
}

#[test]
fn dry_runs_place_no_order() {
    for side in [Side::Buy, Side::Sell, Side::Unknown] {
        for (signer, client) in [(true, true), (true, false), (false, false)] {
            let mut step = OrderStep::start(true, signer, client, side);
            for ok in [true, false, true, true, true] {
                assert_eq!(step, OrderStep::Done { placed: false });
                step = step.advance(ok);
            }
        }
    }
}
