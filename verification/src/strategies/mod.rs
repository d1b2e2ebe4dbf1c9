//! The strategies: what each of them decides.

pub mod arbitrage;
pub mod bayesian;
pub mod frontload;
pub mod sniper;

use vstd::prelude::*;

use crate::decimal::{integer, text_value, wf_opt, Dec};
use crate::figure::Figure;
use crate::ids::Word;
use crate::market::TargetMarket;
use crate::tracker::{SessionTracker, TradeRecord, TradeView};
use crate::trading::Side;

verus! {

/// A trade that a strategy wants to make.
#[derive(Debug)]
pub struct TradeSignal {
    pub token_id: Word,
    pub condition_id: Option<Word>,
    pub market_question: String,
    pub side: Side,
    pub bought_up: bool,
    pub our_prob: Figure,
    pub market_price: Figure,
    pub discrepancy_pct: Figure,
    pub kelly_fraction: Figure,
    pub amount_usdc: Dec,
}

/// What a signal says.
#[verifier::ext_equal]
pub struct SignalView {
    pub token_id: Word,
    pub condition_id: Option<Word>,
    pub market_question: Seq<char>,
    pub side: Side,
    pub bought_up: bool,
    pub our_prob: Figure,
    pub market_price: Figure,
    pub discrepancy_pct: Figure,
    pub kelly_fraction: Figure,
    pub amount_usdc: Dec,
}

impl View for TradeSignal {
    type V = SignalView;

    open spec fn view(&self) -> SignalView {
        SignalView {
            token_id: self.token_id,
            condition_id: self.condition_id,
            market_question: self.market_question@,
            side: self.side,
            bought_up: self.bought_up,
            our_prob: self.our_prob,
            market_price: self.market_price,
            discrepancy_pct: self.discrepancy_pct,
            kelly_fraction: self.kelly_fraction,
            amount_usdc: self.amount_usdc,
        }
    }
}

pub open spec fn signals_view(v: Seq<TradeSignal>) -> Seq<SignalView> {
    Seq::new(v.len(), |i: int| v[i]@)
}

/// The shares of a position cannot be counted: its price is 0, or the number is
/// too large.
#[derive(Clone, Copy, Debug, PartialEq, Eq, Structural)]
pub struct Uncountable;

/// The token of one side of a market.
pub open spec fn side_token(target: TargetMarket, up: bool) -> Word {
    if up {
        target.yes_token_id
    } else {
        target.no_token_id
    }
}

/// The token of one side of a market.
pub fn token_of(target: &TargetMarket, up: bool) -> (r: Word)
    ensures
        r == side_token(*target, up),
{
    if up {
        target.yes_token_id
    } else {
        target.no_token_id
    }
}

/// What can be spent: what the wallet holds, where that is known, else what the
/// books have left. `None` where a sum in the books is too large for a decimal
/// number.
pub fn spendable(tracker: &SessionTracker, wallet: Option<Dec>) -> (r: Option<Dec>)
    requires
        tracker.wf(),
        wf_opt(wallet),
    ensures
        wf_opt(r),
        r == (match wallet {
            Some(_) => wallet,
            None => tracker.balance(),
        }),
{
    match wallet {
        Some(_) => wallet,
        None => tracker.checked_available_balance(),
    }
}

/// Writes down that one side of a market was bought. The trade counts as
/// executed only in a live session.
pub fn record_purchase(
    tracker: &mut SessionTracker,
    timestamp: String,
    mode: &str,
    target: &TargetMarket,
    up: bool,
    amount: Dec,
    price: Figure,
    price_text: &str,
    executed: bool,
    live: bool,
) -> (r: TradeRecord)
    requires
        old(tracker).wf(),
        amount.wf(),
    ensures
        final(tracker).wf(),
        final(tracker).adds(
            *old(tracker),
            r,
            TradeView {
                timestamp: timestamp@,
                mode: mode@,
                market: target.question@,
                side: Side::Buy,
                amount_usdc: amount,
                price,
                price_dec: text_value(price_text@).unwrap_or(integer(1)),
                executed: executed && live,
                condition_id: Some(target.condition_id),
                token_id: side_token(*target, up),
                bought_up: up,
            },
        ),
{
    tracker.record_trade(
        timestamp,
        mode,
        target.question.as_str(),
        Side::Buy,
        amount,
        price,
        price_text,
        executed && live,
        Some(target.condition_id),
        token_of(target, up),
        up,
    )
}

} // verus!
