//! Bayesian strategy: the market price is the prior, the price feeds are the
//! evidence, and a trade is made where the posterior differs from the price.

use vstd::prelude::*;

use crate::decimal::{
    difference_of, div_dec, exact_product_multiplies, exact_sum_adds, fits, integer, less, max_dec,
    min_dec, mul_dec, neg_negates, pow10_adds, pow10_is_positive, product_of, round_dec,
    rounding_goes_to_the_nearest, scaling_keeps_the_value, sub_dec, text_value, whole, Dec,
    MAX_SCALE,
};
use crate::feeds::{no_pair_is_no_evidence, FeedPrices};
use crate::figure::{fig, Figure};
use crate::ids::Word;
use crate::market::{find_up, markets_view, price_of, resolution_of, Market, MarketView};
use crate::sizing::{order_is_affordable, sized, USDC_PLACES};
use crate::strategies::{signals_view, spendable, SignalView, TradeSignal, Uncountable};
use crate::text::pow10;
use crate::tracker::{outside, settled, Position, SessionTracker, TradeRecord, TradeView};
use crate::trading::Side;

verus! {

/// 0.03: the smallest edge that is traded on.
pub const MIN_DISCREPANCY: u64 = 0x3F9E_B851_EB85_1EB8;

/// 0.25: the share of the Kelly bet that is made.
pub const KELLY_FRACTION: u64 = 0x3FD0_0000_0000_0000;

/// 0.05: markets priced lower are left alone.
pub const MIN_MARKET_PRICE: u64 = 0x3FA9_9999_9999_999A;

/// 0.95: markets priced higher are left alone.
pub const MAX_BUY_PRICE: u64 = 0x3FEE_6666_6666_6666;

/// 0.5: the price of a market that names none.
pub const EVEN_PRICE: u64 = 0x3FE0_0000_0000_0000;

/// 1: the highest price.
pub const TOP_PRICE: u64 = 0x3FF0_0000_0000_0000;

/// 1.02: a position is sold once its price has risen by this factor.
pub const PROFIT_THRESHOLD: u64 = 0x3FF0_51EB_851E_B852;

/// How many trades one iteration may start.
pub const MAX_SIGNALS_PER_ITERATION: usize = 2;

/// How many feeds have to have evidence.
pub const MIN_REQUIRED_FEEDS: usize = 1;

/// Seconds between iterations.
pub const SCAN_INTERVAL_SECS: u64 = 10;

/// Seconds to wait for the feeds.
pub const FEED_WAIT_SECS: u64 = 5;

/// Seconds after which the reference prices are taken anew.
pub const START_PRICE_RESET_SECS: u64 = 300;

/// A market that may be traded in: a token for each side, and the price of
/// "up". `token_down` is `None` where "up" stands behind the second outcome.
#[derive(Debug)]
pub struct Quote {
    pub token_up: Word,
    pub token_down: Option<Word>,
    pub condition_id: Option<Word>,
    pub question: String,
    pub price: Figure,
}

/// What a quote says.
#[verifier::ext_equal]
pub struct QuoteView {
    pub token_up: Word,
    pub token_down: Option<Word>,
    pub condition_id: Option<Word>,
    pub question: Seq<char>,
    pub price: Figure,
}

impl View for Quote {
    type V = QuoteView;

    open spec fn view(&self) -> QuoteView {
        QuoteView {
            token_up: self.token_up,
            token_down: self.token_down,
            condition_id: self.condition_id,
            question: self.question@,
            price: self.price,
        }
    }
}

/// The first of some prices that is there; 0.5 where none is.
pub open spec fn first_price(a: Option<Figure>, b: Option<Figure>, c: Option<Figure>) -> Figure {
    if a is Some {
        a->0
    } else if b is Some {
        b->0
    } else if c is Some {
        c->0
    } else {
        fig(EVEN_PRICE)
    }
}

/// The price at a place; `None` where there is none.
pub open spec fn price_at(prices: Seq<Option<Figure>>, i: int) -> Option<Figure> {
    if 0 <= i < prices.len() {
        prices[i]
    } else {
        None
    }
}

/// The market names its outcomes.
pub open spec fn names_outcomes(m: MarketView) -> bool {
    m.outcomes.len() >= 2
}

/// The place of "up" among the tokens.
pub open spec fn up_token(m: MarketView) -> int {
    if names_outcomes(m) {
        m.up_index()
    } else {
        0
    }
}

/// The price of "up": where the market names its outcomes, the price of that
/// outcome, else the best bid, else the first price; where it does not, the
/// first price; 0.5 where there is none of these. Kept within 0 and 1.
pub open spec fn up_price(m: MarketView) -> Figure {
    let first = price_at(m.outcome_prices, 0);
    let raw = if names_outcomes(m) {
        first_price(price_at(m.outcome_prices, m.up_index()), m.best_bid, first)
    } else {
        first_price(first, None, None)
    };
    raw.least(fig(TOP_PRICE)).greatest(fig(0))
}

/// A price that is neither too low nor too high.
pub open spec fn price_is_fair(p: Figure) -> bool {
    !p.below(fig(MIN_MARKET_PRICE)) && !fig(MAX_BUY_PRICE).below(p)
}

/// The market has two tokens and no position is held in it.
pub open spec fn is_free(m: MarketView, held: Seq<Word>) -> bool {
    m.token_ids.len() >= 2 && !(m.condition_id is Some && held.contains(m.condition_id->0))
}

/// The quote of a market.
pub open spec fn quote_of(m: MarketView) -> QuoteView {
    QuoteView {
        token_up: m.token_ids[up_token(m)],
        token_down: if up_token(m) <= 1 {
            Some(m.token_ids[1 - up_token(m)])
        } else {
            None
        },
        condition_id: m.condition_id,
        question: match m.question {
            Some(q) => q,
            None => "?"@,
        },
        price: up_price(m),
    }
}

fn holds_word(held: &Vec<Word>, id: Word) -> (r: bool)
    ensures
        r == held@.contains(id),
{
    let mut i: usize = 0;
    while i < held.len()
        invariant
            i <= held@.len(),
            forall|k: int| 0 <= k < i ==> held@[k] != id,
        decreases held@.len() - i,
    {
        if held[i] == id {
            return true;
        }
        i = i + 1;
    }
    false
}

fn price_opt(m: &Market, i: usize) -> (r: Option<Figure>)
    ensures
        r == price_at(m@.outcome_prices, i as int),
{
    if i < m.outcome_prices.len() {
        m.outcome_prices[i]
    } else {
        None
    }
}

fn pick_price(a: Option<Figure>, b: Option<Figure>, c: Option<Figure>) -> (r: Figure)
    ensures
        r == first_price(a, b, c),
{
    match a {
        Some(p) => p,
        None => match b {
            Some(p) => p,
            None => match c {
                Some(p) => p,
                None => Figure::from_bits(EVEN_PRICE),
            },
        },
    }
}

fn is_free_exec(m: &Market, held: &Vec<Word>) -> (r: bool)
    ensures
        r == is_free(m@, held@),
{
    if m.token_ids.len() < 2 {
        return false;
    }
    match m.condition_id {
        Some(id) => !holds_word(held, id),
        None => true,
    }
}

/// The quote of a market; `None` where the market has no two tokens, where a
/// position is held in it, or where its price is not fair.
pub fn quote_market(m: &Market, held: &Vec<Word>) -> (r: Option<Quote>)
    requires
        is_free(m@, held@) ==> up_token(m@) < m@.token_ids.len(),
    ensures
        r is Some <==> is_free(m@, held@) && price_is_fair(up_price(m@)),
        r is Some ==> r->0@ == quote_of(m@),
{
    if !is_free_exec(m, held) {
        return None;
    }
    let named: bool = m.outcomes.len() >= 2;
    let up: usize = if named {
        find_up(&m.outcomes)
    } else {
        0
    };
    let raw = if named {
        pick_price(price_opt(m, up), m.best_bid, price_opt(m, 0))
    } else {
        pick_price(price_opt(m, 0), None, None)
    };
    let price = raw.min(Figure::from_bits(TOP_PRICE)).max(Figure::from_bits(0));
    if price.lt(Figure::from_bits(MIN_MARKET_PRICE)) || Figure::from_bits(MAX_BUY_PRICE).lt(price) {
        return None;
    }
    let token_down = if up <= 1 {
        Some(m.token_ids[1 - up])
    } else {
        None
    };
    let question = match &m.question {
        Some(q) => q.clone(),
        None => "?".to_owned(),
    };
    Some(
        Quote {
            token_up: m.token_ids[up],
            token_down,
            condition_id: m.condition_id,
            question,
            price,
        },
    )
}

/// "up" stands behind the last token of a market.
#[derive(Clone, Copy, Debug, PartialEq, Eq, Structural)]
pub struct NoTokenForUp;

/// `quote_market`; an error where the market has no token for its "up".
pub fn checked_quote_market(m: &Market, held: &Vec<Word>) -> (r: Result<Option<Quote>, NoTokenForUp>)
    ensures
        match r {
            Ok(None) => {
                &&& !(is_free(m@, held@) && price_is_fair(up_price(m@)))
                &&& is_free(m@, held@) ==> up_token(m@) < m@.token_ids.len()
            },
            Ok(Some(q)) => {
                &&& is_free(m@, held@)
                &&& price_is_fair(up_price(m@))
                &&& up_token(m@) < m@.token_ids.len()
                &&& q@ == quote_of(m@)
            },
            Err(_) => is_free(m@, held@) && up_token(m@) >= m@.token_ids.len(),
        },
{
    if is_free_exec(m, held) && m.outcomes.len() >= 2 && find_up(&m.outcomes) >= m.token_ids.len() {
        return Err(NoTokenForUp);
    }
    Ok(quote_market(m, held))
}

/// What the model makes of a quote: probabilities, edges and Kelly fractions of
/// both sides. The shares are the Kelly fractions as decimal numbers, 0 for one
/// that is no decimal number.
#[derive(Clone, Copy, Debug)]
pub struct Appraisal {
    /// The probability of "up".
    pub our_prob: Figure,
    /// What it exceeds the price by.
    pub discrepancy: Figure,
    /// What it falls short of the price by.
    pub shortfall: Figure,
    pub discrepancy_pct: Figure,
    pub shortfall_pct: Figure,
    pub down_prob: Figure,
    pub down_price: Figure,
    pub up_kelly: Figure,
    pub down_kelly: Figure,
    pub up_share: Dec,
    pub down_share: Dec,
}

impl Appraisal {
    /// A share is a decimal number between 0 and 1.
    pub open spec fn wf(self) -> bool {
        &&& self.up_share.wf()
        &&& self.up_share.is_share()
        &&& self.down_share.wf()
        &&& self.down_share.is_share()
    }

    /// "up" is worth more than its price by more than the smallest edge.
    pub open spec fn favors_up(self) -> bool {
        fig(MIN_DISCREPANCY).below(self.discrepancy)
    }

    /// "up" is worth less than its price by more than the smallest edge.
    pub open spec fn favors_down(self) -> bool {
        !self.favors_up() && fig(MIN_DISCREPANCY).below(self.shortfall)
    }
}

impl Appraisal {
    /// "up" is worth less than its price by more than the smallest edge.
    pub fn wants_down(&self) -> (r: bool)
        ensures
            r == self.favors_down(),
    {
        let edge = Figure::from_bits(MIN_DISCREPANCY);
        !edge.lt(self.discrepancy) && edge.lt(self.shortfall)
    }
}

/// A tenth.
pub open spec fn tenth() -> Dec {
    Dec { mantissa: 1, scale: 1 }
}

/// The most that one market may cost: a tenth of the bankroll.
pub open spec fn per_market_max(bankroll: Dec) -> Option<Dec> {
    product_of(tenth(), bankroll)
}

/// A share of the bankroll, at least `min_bet`, at most `max_bet` and the
/// bankroll.
pub open spec fn kelly_amount(share: Dec, bankroll: Dec, min_bet: Dec, max_bet: Dec) -> Option<Dec> {
    match product_of(bankroll, share) {
        Some(amount) => Some(amount.larger(min_bet).smaller(max_bet).smaller(bankroll)),
        None => None,
    }
}

/// A share of the bankroll, at least `min_bet`, at most `max_bet` and the
/// bankroll.
pub fn kelly_to_amount(share: Dec, bankroll: Dec, min_bet: Dec, max_bet: Dec) -> (r: Dec)
    requires
        share.wf(),
        share.is_share(),
        bankroll.wf(),
        min_bet.wf(),
        max_bet.wf(),
    ensures
        Some(r) == kelly_amount(share, bankroll, min_bet, max_bet),
        r.wf(),
{
    let amount = mul_dec(bankroll, share).unwrap();
    min_dec(min_dec(max_dec(amount, min_bet), max_bet), bankroll)
}

/// What is bet on a side: the Kelly amount, where it is at least 1.
pub open spec fn bet(share: Dec, bankroll: Dec) -> Option<Dec> {
    match per_market_max(bankroll) {
        Some(cap) => match kelly_amount(share, bankroll, integer(1), cap) {
            Some(amount) => if amount.units() < integer(1).units() {
                None
            } else {
                Some(amount)
            },
            None => None,
        },
        None => None,
    }
}

/// The trade that a quote and its appraisal call for.
pub open spec fn signal_of(q: QuoteView, a: Appraisal, bankroll: Dec) -> Option<SignalView> {
    if a.favors_up() {
        match bet(a.up_share, bankroll) {
            Some(amount) => Some(
                SignalView {
                    token_id: q.token_up,
                    condition_id: q.condition_id,
                    market_question: q.question,
                    side: Side::Buy,
                    bought_up: true,
                    our_prob: a.our_prob,
                    market_price: q.price,
                    discrepancy_pct: a.discrepancy_pct,
                    kelly_fraction: a.up_kelly,
                    amount_usdc: amount,
                },
            ),
            None => None,
        }
    } else if a.favors_down() {
        match bet(a.down_share, bankroll) {
            Some(amount) => Some(
                SignalView {
                    token_id: q.token_down->0,
                    condition_id: q.condition_id,
                    market_question: q.question,
                    side: Side::Buy,
                    bought_up: false,
                    our_prob: a.down_prob,
                    market_price: a.down_price,
                    discrepancy_pct: a.shortfall_pct,
                    kelly_fraction: a.down_kelly,
                    amount_usdc: amount,
                },
            ),
            None => None,
        }
    } else {
        None
    }
}

fn bet_exec(share: Dec, bankroll: Dec) -> (r: Option<Dec>)
    requires
        share.wf(),
        share.is_share(),
        bankroll.wf(),
    ensures
        r == bet(share, bankroll),
        r is Some ==> r->0.wf(),
{
    let part = Dec { mantissa: 1, scale: 1 };
    proof {
        lemma_tenth();
    }
    let cap = mul_dec(part, bankroll).unwrap();
    let amount = kelly_to_amount(share, bankroll, whole(1), cap);
    if less(amount, whole(1)) {
        None
    } else {
        Some(amount)
    }
}

proof fn lemma_tenth()
    ensures
        tenth().wf(),
        tenth().is_share(),
{
    assert(pow10(28) == 10 * pow10(27));
    assert(tenth().units() == 1 * pow10(27));
    assert(integer(1).units() == 1 * pow10(28));
}

/// The trade that a quote and its appraisal call for.
pub fn signal_for(q: &Quote, a: &Appraisal, bankroll: Dec) -> (r: Option<TradeSignal>)
    requires
        a.wf(),
        bankroll.wf(),
        a.favors_down() ==> q.token_down is Some,
    ensures
        match r {
            Some(s) => signal_of(q@, *a, bankroll) == Some(s@),
            None => signal_of(q@, *a, bankroll) is None,
        },
{
    let edge = Figure::from_bits(MIN_DISCREPANCY);
    if edge.lt(a.discrepancy) {
        match bet_exec(a.up_share, bankroll) {
            Some(amount) => Some(
                TradeSignal {
                    token_id: q.token_up,
                    condition_id: q.condition_id,
                    market_question: q.question.clone(),
                    side: Side::Buy,
                    bought_up: true,
                    our_prob: a.our_prob,
                    market_price: q.price,
                    discrepancy_pct: a.discrepancy_pct,
                    kelly_fraction: a.up_kelly,
                    amount_usdc: amount,
                },
            ),
            None => None,
        }
    } else if edge.lt(a.shortfall) {
        match bet_exec(a.down_share, bankroll) {
            Some(amount) => Some(
                TradeSignal {
                    token_id: q.token_down.unwrap(),
                    condition_id: q.condition_id,
                    market_question: q.question.clone(),
                    side: Side::Buy,
                    bought_up: false,
                    our_prob: a.down_prob,
                    market_price: a.down_price,
                    discrepancy_pct: a.shortfall_pct,
                    kelly_fraction: a.down_kelly,
                    amount_usdc: amount,
                },
            ),
            None => None,
        }
    } else {
        None
    }
}

/// The market is free and its price is fair.
pub open spec fn is_quoted(m: MarketView, held: Seq<Word>) -> bool {
    is_free(m, held) && price_is_fair(up_price(m))
}

/// The trade that a market calls for, by what the model makes of it: none where it
/// is not quoted or the model makes nothing of it.
pub open spec fn called_for(
    m: MarketView,
    held: Seq<Word>,
    a: Option<Appraisal>,
    bankroll: Dec,
) -> Option<SignalView> {
    if is_quoted(m, held) && a is Some {
        signal_of(quote_of(m), a->0, bankroll)
    } else {
        None
    }
}

/// The market has no token for its "up", or none for its "down" where that is the
/// side to buy.
pub open spec fn lacks_token(m: MarketView, held: Seq<Word>, a: Option<Appraisal>) -> bool {
    is_free(m, held) && (up_token(m) >= m.token_ids.len() || (price_is_fair(up_price(m)) && a is Some
        && a->0.favors_down() && up_token(m) > 1))
}

/// The trades that the first `n` markets call for, in order, the first few.
pub open spec fn signals_upto(
    ms: Seq<MarketView>,
    held: Seq<Word>,
    a: Seq<Option<Appraisal>>,
    bankroll: Dec,
    n: int,
) -> Seq<SignalView>
    decreases n,
{
    if n <= 0 {
        Seq::empty()
    } else {
        let before = signals_upto(ms, held, a, bankroll, n - 1);
        if before.len() >= MAX_SIGNALS_PER_ITERATION {
            before
        } else {
            match called_for(ms[n - 1], held, a[n - 1], bankroll) {
                Some(s) => before.push(s),
                None => before,
            }
        }
    }
}

/// The trades that an iteration calls for: none without evidence.
pub open spec fn signals_of(
    ms: Seq<MarketView>,
    held: Seq<Word>,
    a: Seq<Option<Appraisal>>,
    evidence: int,
    bankroll: Dec,
) -> Seq<SignalView> {
    if evidence < MIN_REQUIRED_FEEDS {
        Seq::empty()
    } else {
        signals_upto(ms, held, a, bankroll, ms.len() as int)
    }
}

/// An iteration comes to a market that lacks a token.
pub open spec fn comes_to_a_gap(
    ms: Seq<MarketView>,
    held: Seq<Word>,
    a: Seq<Option<Appraisal>>,
    evidence: int,
    bankroll: Dec,
) -> bool {
    evidence >= MIN_REQUIRED_FEEDS && exists|i: int|
        0 <= i < ms.len() && #[trigger] lacks_token(ms[i], held, a[i]) && signals_upto(
            ms,
            held,
            a,
            bankroll,
            i,
        ).len() < MAX_SIGNALS_PER_ITERATION
}

/// The signal is for a side of a market in which no position is held and whose
/// price is fair.
pub open spec fn is_tradable(s: SignalView, ms: Seq<MarketView>, held: Seq<Word>) -> bool {
    &&& s.condition_id is Some ==> !held.contains(s.condition_id->0)
    &&& exists|i: int|
        {
            &&& 0 <= i < ms.len()
            &&& #[trigger] is_quoted(ms[i], held)
            &&& s.condition_id == ms[i].condition_id
            &&& s.bought_up ==> s.token_id == quote_of(ms[i]).token_up && s.market_price
                == up_price(ms[i])
            &&& !s.bought_up ==> s.token_id == quote_of(ms[i]).token_down->0
        }
}

/// A market has no token for one of its sides.
#[derive(Clone, Copy, Debug, PartialEq, Eq, Structural)]
pub struct NoToken;

/// The trades that an iteration calls for: none in a market that a position is
/// held in, and none at a price that is not fair. `evidence` counts the feeds with
/// evidence; each market comes with what the model makes of it, if anything. An
/// error where the iteration comes to a market that lacks a token.
pub fn evaluate_markets(
    markets: &Vec<Market>,
    held: &Vec<Word>,
    appraisals: &Vec<Option<Appraisal>>,
    evidence: usize,
    bankroll: Dec,
) -> (r: Result<Vec<TradeSignal>, NoToken>)
    requires
        bankroll.wf(),
        markets@.len() == appraisals@.len(),
        forall|i: int|
            0 <= i < appraisals@.len() && (#[trigger] appraisals@[i]) is Some
                ==> appraisals@[i]->0.wf(),
    ensures
        ({
            let ms = markets_view(markets@);
            let gap = comes_to_a_gap(ms, held@, appraisals@, evidence as int, bankroll);
            match r {
                Ok(signals) => {
                    &&& !gap
                    &&& signals_view(signals@) == signals_of(
                        ms,
                        held@,
                        appraisals@,
                        evidence as int,
                        bankroll,
                    )
                    &&& signals@.len() <= MAX_SIGNALS_PER_ITERATION
                    &&& forall|j: int|
                        0 <= j < signals@.len() ==> is_tradable(
                            (#[trigger] signals@[j])@,
                            ms,
                            held@,
                        )
                },
                Err(_) => gap,
            }
        }),
{
    let mut signals: Vec<TradeSignal> = Vec::new();
    if evidence < MIN_REQUIRED_FEEDS {
        assert(signals_view(signals@) =~= Seq::empty());
        return Ok(signals);
    }
    let ghost ms = markets_view(markets@);
    let mut i: usize = 0;
    assert(signals_view(signals@) =~= signals_upto(ms, held@, appraisals@, bankroll, 0));
    while i < markets.len()
        invariant
            i <= markets@.len(),
            evidence >= MIN_REQUIRED_FEEDS,
            bankroll.wf(),
            markets@.len() == appraisals@.len(),
            forall|k: int|
                0 <= k < appraisals@.len() && (#[trigger] appraisals@[k]) is Some
                    ==> appraisals@[k]->0.wf(),
            ms == markets_view(markets@),
            signals_view(signals@) == signals_upto(ms, held@, appraisals@, bankroll, i as int),
            forall|k: int|
                0 <= k < i && #[trigger] lacks_token(ms[k], held@, appraisals@[k]) ==> signals_upto(
                    ms,
                    held@,
                    appraisals@,
                    bankroll,
                    k,
                ).len() >= MAX_SIGNALS_PER_ITERATION,
        decreases markets@.len() - i,
    {
        let ghost before = signals_view(signals@);
        assert(ms[i as int] == markets@[i as int]@);
        if signals.len() < MAX_SIGNALS_PER_ITERATION {
            match checked_quote_market(&markets[i], held) {
                Ok(Some(quote)) => {
                    if let Some(a) = appraisals[i] {
                        if a.wants_down() && quote.token_down.is_none() {
                            assert(lacks_token(ms[i as int], held@, appraisals@[i as int]));
                            return Err(NoToken);
                        }
                        match signal_for(&quote, &a, bankroll) {
                            Some(s) => {
                                signals.push(s);
                                assert(signals_view(signals@) =~= before.push(s@));
                            },
                            None => {},
                        }
                    }
                },
                Ok(None) => {
                    assert(!is_quoted(ms[i as int], held@));
                },
                Err(_) => {
                    assert(lacks_token(ms[i as int], held@, appraisals@[i as int]));
                    return Err(NoToken);
                },
            }
        }
        i = i + 1;
    }
    proof {
        lemma_signals(ms, held@, appraisals@, bankroll, ms.len() as int);
        assert forall|j: int| 0 <= j < signals@.len() implies is_tradable(
            (#[trigger] signals@[j])@,
            ms,
            held@,
        ) by {
            assert(signals_view(signals@)[j] == signals@[j]@);
            lemma_tradable(ms, held@, appraisals@, bankroll, ms.len() as int, j);
        }
    }
    Ok(signals)
}

/// The reference prices of an iteration: taken anew once they are old, else
/// kept. Also returns whether they were taken anew.
pub fn reference_prices(current: &FeedPrices, start: &FeedPrices, age_secs: u64) -> (r: (
    FeedPrices,
    bool,
))
    ensures
        r.1 == (age_secs >= START_PRICE_RESET_SECS),
        r.0 == (if r.1 {
            *current
        } else {
            *start
        }),
{
    if age_secs >= START_PRICE_RESET_SECS {
        (*current, true)
    } else {
        (*start, false)
    }
}

/// How long an iteration waits for the feeds, where they lack one of the coins.
pub fn feed_wait(current: &FeedPrices) -> (r: Option<u64>)
    ensures
        r == (if (current.binance_btc is Some || current.chainlink_btc is Some) && (
        current.binance_eth is Some || current.chainlink_eth is Some) {
            None
        } else {
            Some(FEED_WAIT_SECS)
        }),
{
    if current.has_minimum_data() {
        None
    } else {
        Some(FEED_WAIT_SECS)
    }
}

/// The balance that an iteration works with: the wallet's, where there is one,
/// else what the books have left. The first wallet balance becomes the start
/// balance of the books. `None` where a sum in the books is too large for a
/// decimal number.
pub fn session_balance(
    tracker: &mut SessionTracker,
    wallet: Option<Dec>,
    synced: &mut bool,
) -> (r: Option<Dec>)
    requires
        old(tracker).wf(),
        wallet is Some ==> wallet->0.wf(),
    ensures
        final(tracker).wf(),
        r is Some ==> r->0.wf(),
        r == (match wallet {
            Some(_) => wallet,
            None => old(tracker).balance(),
        }),
        *final(synced) == (*old(synced) || wallet is Some),
        final(tracker).start() == (match wallet {
            Some(balance) => if *old(synced) {
                old(tracker).start()
            } else {
                balance
            },
            None => old(tracker).start(),
        }),
        final(tracker).profit() == old(tracker).profit(),
        final(tracker).held() == old(tracker).held(),
        final(tracker).log() == old(tracker).log(),
        final(tracker).file() == old(tracker).file(),
{
    if let Some(balance) = wallet {
        if !*synced {
            tracker.set_start_balance(balance);
            *synced = true;
        }
    }
    spendable(tracker, wallet)
}

/// Writes a signal down as the trade that was made of it. The trade counts as
/// executed only in a live session.
pub fn record_signal(
    tracker: &mut SessionTracker,
    timestamp: String,
    signal: &TradeSignal,
    amount: Dec,
    price_text: &str,
    executed: bool,
    live: bool,
) -> (r: TradeRecord)
    requires
        old(tracker).wf(),
        amount.wf(),
    ensures
        final(tracker).wf(),
        final(tracker).adds(
            *old(tracker),
            r,
            TradeView {
                timestamp: timestamp@,
                mode: "bayesian"@,
                market: signal.market_question@,
                side: signal.side,
                amount_usdc: amount,
                price: signal.market_price,
                price_dec: text_value(price_text@).unwrap_or(integer(1)),
                executed: executed && live,
                condition_id: signal.condition_id,
                token_id: signal.token_id,
                bought_up: signal.bought_up,
            },
        ),
{
    tracker.record_trade(
        timestamp,
        "bayesian",
        signal.market_question.as_str(),
        signal.side,
        amount,
        signal.market_price,
        price_text,
        executed && live,
        signal.condition_id,
        signal.token_id,
        signal.bought_up,
    )
}

/// What is left of the balance after an order: less by its amount where it was
/// executed.
pub open spec fn left_of(remaining: Dec, amount: Dec, executed: bool) -> Option<Dec> {
    if executed {
        difference_of(remaining, amount)
    } else {
        Some(remaining)
    }
}

/// What is left of the balance after an order; `None` where the difference is
/// too large for a decimal number.
pub fn remaining_after(remaining: Dec, amount: Dec, executed: bool) -> (r: Option<Dec>)
    requires
        remaining.wf(),
        amount.wf(),
    ensures
        r is Some ==> r->0.wf(),
        r == left_of(remaining, amount, executed),
{
    if executed {
        sub_dec(remaining, amount)
    } else {
        Some(remaining)
    }
}

/// The positions and the profit that some markets leave, resolved in order.
pub open spec fn resolved_all(ps: Seq<Position>, profit: Dec, ms: Seq<MarketView>) -> Option<
    (Seq<Position>, Dec),
>
    decreases ms.len(),
{
    if ms.len() == 0 {
        Some((ps, profit))
    } else {
        match resolved_all(ps, profit, ms.drop_last()) {
            Some((held, gained)) => match ms.last().resolution() {
                Some((id, up_won)) => match settled(held, gained, id, up_won) {
                    Some(total) => Some((outside(held, id), total)),
                    None => None,
                },
                None => Some((held, gained)),
            },
            None => None,
        }
    }
}

/// Settles the positions of the markets that have an outcome, in order. The
/// result is false where the profit of one is no decimal number: the markets
/// before it are settled then, and no other.
pub fn resolve_closed(tracker: &mut SessionTracker, markets: &Vec<Market>) -> (r: bool)
    requires
        old(tracker).wf(),
    ensures
        final(tracker).wf(),
        final(tracker).start() == old(tracker).start(),
        final(tracker).log() == old(tracker).log(),
        final(tracker).file() == old(tracker).file(),
        ({
            let ms = markets_view(markets@);
            let (ps, profit) = (old(tracker).held(), old(tracker).profit());
            let now = Some((final(tracker).held(), final(tracker).profit()));
            if r {
                resolved_all(ps, profit, ms) == now
            } else {
                exists|k: int|
                    0 <= k < ms.len() && #[trigger] resolved_all(ps, profit, ms.take(k)) == now
                        && resolved_all(ps, profit, ms.take(k + 1)) is None
            }
        }),
{
    let ghost ms = markets_view(markets@);
    let ghost ps = tracker.held();
    let ghost profit = tracker.profit();
    let mut i: usize = 0;
    assert(ms.take(0) =~= Seq::empty());
    while i < markets.len()
        invariant
            i <= markets@.len(),
            ms == markets_view(markets@),
            ps == old(tracker).held(),
            profit == old(tracker).profit(),
            tracker.wf(),
            tracker.start() == old(tracker).start(),
            tracker.log() == old(tracker).log(),
            tracker.file() == old(tracker).file(),
            resolved_all(ps, profit, ms.take(i as int)) == Some(
                (tracker.held(), tracker.profit()),
            ),
        decreases markets@.len() - i,
    {
        assert(ms.take(i + 1).drop_last() =~= ms.take(i as int));
        assert(ms.take(i + 1).last() == markets@[i as int]@);
        if let Some((id, up_won)) = resolution_of(&markets[i]) {
            if !tracker.checked_resolve_market(id, up_won) {
                assert(resolved_all(ps, profit, ms.take(i as int)) == Some(
                    (tracker.held(), tracker.profit()),
                ));
                return false;
            }
        }
        i = i + 1;
    }
    assert(ms.take(i as int) =~= ms);
    true
}

/// The sale of a position: how many shares, and at what price.
#[derive(Clone, Copy, Debug)]
pub struct Sale {
    pub shares: Dec,
    pub price: Figure,
}

/// The first market from `i` on with this id, or the number of markets.
pub open spec fn market_from(ms: Seq<MarketView>, id: Word, i: int) -> int
    decreases ms.len() - i,
{
    if i >= ms.len() {
        ms.len() as int
    } else if ms[i].condition_id == Some(id) {
        i
    } else {
        market_from(ms, id, i + 1)
    }
}

/// What a position trades at: the price of its side, where its market is listed
/// with two prices or more.
pub open spec fn current_price(ms: Seq<MarketView>, p: Position) -> Option<Figure> {
    let k = market_from(ms, p.condition_id, 0);
    if k >= ms.len() || ms[k].outcome_prices.len() < 2 {
        None
    } else if p.bought_up {
        Some(ms[k].price_or_zero(0))
    } else {
        Some(ms[k].price_or_zero(1))
    }
}

/// The position can be sold at a profit: its price is known and not below
/// `floor`.
pub open spec fn is_profitable(ms: Seq<MarketView>, p: Position, floor: Figure) -> bool {
    current_price(ms, p) is Some && !current_price(ms, p)->0.below(floor)
}

/// A hundredth.
pub open spec fn hundredth() -> Dec {
    Dec { mantissa: 1, scale: 2 }
}

/// The sale of a position with this many shares: to six decimal places, none
/// below a hundredth of a share.
pub open spec fn sale_of(shares: Dec, price: Figure) -> Option<Sale> {
    if shares.rounded(6).units() < hundredth().units() {
        None
    } else {
        Some(Sale { shares: shares.rounded(6), price })
    }
}

/// The sale that takes the profit of a position: only where the position is
/// listed at `floor` or above. The floor is what the position cost per share
/// times the profit threshold.
pub fn profitable_sale(markets: &Vec<Market>, p: &Position, floor: Figure) -> (r: Result<
    Option<Sale>,
    Uncountable,
>)
    requires
        p.wf(),
    ensures
        r is Err <==> is_profitable(markets_view(markets@), *p, floor) && p.shares() is None,
        r is Ok ==> r->Ok_0 == (if is_profitable(markets_view(markets@), *p, floor) {
            sale_of(p.shares()->0, current_price(markets_view(markets@), *p)->0)
        } else {
            None
        }),
        r is Ok && r->Ok_0 is Some ==> r->Ok_0->0.shares.wf(),
{
    let ghost ms = markets_view(markets@);
    let mut i: usize = 0;
    while i < markets.len()
        invariant
            i <= markets@.len(),
            ms == markets_view(markets@),
            p.wf(),
            market_from(ms, p.condition_id, 0) == market_from(ms, p.condition_id, i as int),
        decreases markets@.len() - i,
    {
        let m = &markets[i];
        assert(ms[i as int] == m@);
        let listed: bool = match m.condition_id {
            Some(id) => id == p.condition_id,
            None => false,
        };
        if listed {
            if m.outcome_prices.len() < 2 {
                return Ok(None);
            }
            let price = if p.bought_up {
                price_of(m, 0)
            } else {
                price_of(m, 1)
            };
            if price.lt(floor) {
                return Ok(None);
            }
            return match div_dec(p.amount_usdc, p.price_dec) {
                Some(shares) => {
                    let shares = round_dec(shares, 6);
                    if less(shares, Dec { mantissa: 1, scale: 2 }) {
                        Ok(None)
                    } else {
                        Ok(Some(Sale { shares, price }))
                    }
                },
                None => Err(Uncountable),
            };
        }
        i = i + 1;
    }
    Ok(None)
}

/// An iteration starts at most two trades.
pub proof fn few_signals(
    ms: Seq<MarketView>,
    held: Seq<Word>,
    a: Seq<Option<Appraisal>>,
    evidence: int,
    bankroll: Dec,
)
    ensures
        signals_of(ms, held, a, evidence, bankroll).len() <= MAX_SIGNALS_PER_ITERATION,
{
    lemma_signals(ms, held, a, bankroll, ms.len() as int);
}

/// A signal that a market before the `n`-th called for.
pub open spec fn is_called_for(
    s: SignalView,
    ms: Seq<MarketView>,
    held: Seq<Word>,
    a: Seq<Option<Appraisal>>,
    bankroll: Dec,
    n: int,
) -> bool {
    exists|i: int| 0 <= i < n && #[trigger] called_for(ms[i], held, a[i], bankroll) == Some(s)
}

proof fn lemma_signals(
    ms: Seq<MarketView>,
    held: Seq<Word>,
    a: Seq<Option<Appraisal>>,
    bankroll: Dec,
    n: int,
)
    requires
        0 <= n,
    ensures
        signals_upto(ms, held, a, bankroll, n).len() <= MAX_SIGNALS_PER_ITERATION,
        forall|j: int|
            0 <= j < signals_upto(ms, held, a, bankroll, n).len() ==> is_called_for(
                #[trigger] signals_upto(ms, held, a, bankroll, n)[j],
                ms,
                held,
                a,
                bankroll,
                n,
            ),
    decreases n,
{
    if n > 0 {
        lemma_signals(ms, held, a, bankroll, n - 1);
        let before = signals_upto(ms, held, a, bankroll, n - 1);
        let after = signals_upto(ms, held, a, bankroll, n);
        assert forall|j: int| 0 <= j < after.len() implies is_called_for(
            #[trigger] after[j],
            ms,
            held,
            a,
            bankroll,
            n,
        ) by {
            if j < before.len() {
                assert(after[j] == before[j]);
                assert(is_called_for(before[j], ms, held, a, bankroll, n - 1));
                let i = choose|i: int|
                    0 <= i < n - 1 && #[trigger] called_for(ms[i], held, a[i], bankroll) == Some(
                        before[j],
                    );
                assert(0 <= i < n && called_for(ms[i], held, a[i], bankroll) == Some(after[j]));
            } else {
                assert(called_for(ms[n - 1], held, a[n - 1], bankroll) == Some(after[j]));
            }
        }
    }
}

proof fn lemma_tradable(
    ms: Seq<MarketView>,
    held: Seq<Word>,
    a: Seq<Option<Appraisal>>,
    bankroll: Dec,
    n: int,
    j: int,
)
    requires
        0 <= n <= ms.len(),
        0 <= j < signals_upto(ms, held, a, bankroll, n).len(),
    ensures
        is_tradable(signals_upto(ms, held, a, bankroll, n)[j], ms, held),
{
    lemma_signals(ms, held, a, bankroll, n);
    let s = signals_upto(ms, held, a, bankroll, n)[j];
    assert(is_called_for(s, ms, held, a, bankroll, n));
    let i = choose|i: int|
        0 <= i < n && #[trigger] called_for(ms[i], held, a[i], bankroll) == Some(s);
    assert(is_quoted(ms[i], held));
}

proof fn lemma_bet(share: Dec, bankroll: Dec)
    requires
        bet(share, bankroll) is Some,
    ensures
        integer(1).units() <= bet(share, bankroll)->0.units() <= bankroll.units(),
        bet(share, bankroll)->0.units() <= per_market_max(bankroll)->0.units(),
{
}

/// Every trade is a buy of at least 1 USDC, within the bankroll and within the
/// share of it that one market may cost; and it is made on an edge.
pub proof fn signals_are_bounded(
    ms: Seq<MarketView>,
    held: Seq<Word>,
    a: Seq<Option<Appraisal>>,
    evidence: int,
    bankroll: Dec,
    j: int,
)
    requires
        0 <= j < signals_of(ms, held, a, evidence, bankroll).len(),
    ensures
        ({
            let s = signals_of(ms, held, a, evidence, bankroll)[j];
            &&& s.side == Side::Buy
            &&& integer(1).units() <= s.amount_usdc.units() <= bankroll.units()
            &&& s.amount_usdc.units() <= per_market_max(bankroll)->0.units()
            &&& exists|i: int|
                0 <= i < ms.len() && s.condition_id == ms[i].condition_id && (
                #[trigger] a[i]) is Some && (if s.bought_up {
                    a[i]->0.favors_up()
                } else {
                    a[i]->0.favors_down()
                })
        }),
{
    lemma_signals(ms, held, a, bankroll, ms.len() as int);
    let s = signals_of(ms, held, a, evidence, bankroll)[j];
    assert(is_called_for(s, ms, held, a, bankroll, ms.len() as int));
    let i = choose|i: int|
        0 <= i < ms.len() && #[trigger] called_for(ms[i], held, a[i], bankroll) == Some(s);
    if a[i]->0.favors_up() {
        lemma_bet(a[i]->0.up_share, bankroll);
    } else {
        lemma_bet(a[i]->0.down_share, bankroll);
    }
    assert(s.condition_id == ms[i].condition_id);
}

/// No trade is made in a market that a position is held in, nor at a price that is
/// not fair.
pub proof fn held_markets_are_left_alone(
    ms: Seq<MarketView>,
    held: Seq<Word>,
    a: Seq<Option<Appraisal>>,
    evidence: int,
    bankroll: Dec,
    j: int,
)
    requires
        0 <= j < signals_of(ms, held, a, evidence, bankroll).len(),
    ensures
        is_tradable(signals_of(ms, held, a, evidence, bankroll)[j], ms, held),
{
    lemma_tradable(ms, held, a, bankroll, ms.len() as int, j);
}

/// Nothing is traded where no source has both prices of bitcoin.
pub proof fn no_pair_no_trade(
    start: FeedPrices,
    now: FeedPrices,
    ms: Seq<MarketView>,
    held: Seq<Word>,
    a: Seq<Option<Appraisal>>,
    bankroll: Dec,
)
    requires
        !(start.binance_btc is Some && now.binance_btc is Some),
        !(start.chainlink_btc is Some && now.chainlink_btc is Some),
    ensures
        signals_of(ms, held, a, now.evidence(start).len() as int, bankroll) == Seq::<
            SignalView,
        >::empty(),
{
    no_pair_is_no_evidence(start, now);
}

/// The model's probability of "up" nowhere exceeds the price by the edge.
pub open spec fn nowhere_above(a: Seq<Option<Appraisal>>) -> bool {
    forall|i: int|
        0 <= i < a.len() && (#[trigger] a[i]) is Some ==> !fig(MIN_DISCREPANCY).below(
            a[i]->0.discrepancy,
        )
}

/// The model's probability of "up" nowhere falls short of the price by the edge.
pub open spec fn nowhere_below(a: Seq<Option<Appraisal>>) -> bool {
    forall|i: int|
        0 <= i < a.len() && (#[trigger] a[i]) is Some ==> !fig(MIN_DISCREPANCY).below(
            a[i]->0.shortfall,
        )
}

/// Trades go the way that the model's probability differs from the price: "up" is
/// bought only where it exceeds the price somewhere, "down" only where it falls
/// short of it somewhere, and nothing where neither is so.
pub proof fn trades_follow_the_edge(
    ms: Seq<MarketView>,
    held: Seq<Word>,
    a: Seq<Option<Appraisal>>,
    evidence: int,
    bankroll: Dec,
)
    requires
        a.len() == ms.len(),
    ensures
        nowhere_above(a) ==> forall|j: int|
            0 <= j < signals_of(ms, held, a, evidence, bankroll).len() ==> !(
            #[trigger] signals_of(ms, held, a, evidence, bankroll)[j]).bought_up,
        nowhere_below(a) ==> forall|j: int|
            0 <= j < signals_of(ms, held, a, evidence, bankroll).len() ==> (
            #[trigger] signals_of(ms, held, a, evidence, bankroll)[j]).bought_up,
        nowhere_above(a) && nowhere_below(a) ==> signals_of(
            ms,
            held,
            a,
            evidence,
            bankroll,
        ).len() == 0,
{
    let signals = signals_of(ms, held, a, evidence, bankroll);
    assert forall|j: int| 0 <= j < signals.len() implies (nowhere_above(a) ==> !(
    #[trigger] signals[j]).bought_up) && (nowhere_below(a) ==> signals[j].bought_up) by {
        signals_are_bounded(ms, held, a, evidence, bankroll, j);
    }
    if signals.len() > 0 {
        signals_are_bounded(ms, held, a, evidence, bankroll, 0);
    }
}

/// One market may cost a tenth of the bankroll, exactly where the bankroll has
/// a decimal place to spare.
pub proof fn a_market_costs_a_tenth_at_most(bankroll: Dec)
    requires
        bankroll.wf(),
        bankroll.scale < 28,
    ensures
        per_market_max(bankroll) is Some,
        per_market_max(bankroll)->0.units() * 10 == bankroll.units(),
{
    if bankroll.mantissa != 0 {
        let cap = per_market_max(bankroll)->0;
        assert(1 * bankroll.mantissa == bankroll.mantissa);
        assert(cap.mantissa == bankroll.mantissa && cap.scale == bankroll.scale + 1);
        let p = pow10((28 - cap.scale) as nat) as int;
        assert(pow10((28 - bankroll.scale) as nat) == 10 * p);
        assert(bankroll.mantissa * (10 * p) == (bankroll.mantissa * p) * 10) by (nonlinear_arith);
    } else {
        assert(per_market_max(bankroll) == Some(integer(0)));
        assert(0 * pow10((28 - bankroll.scale) as nat) == 0);
        assert(integer(0).units() == 0 * pow10(28));
    }
}

/// What is left of a balance after some orders, of which some were executed.
pub open spec fn left_after(balance: Dec, wanted: Seq<Dec>, executed: Seq<bool>) -> Option<Dec>
    decreases wanted.len(),
{
    if wanted.len() == 0 {
        Some(balance)
    } else {
        match left_after(balance, wanted.drop_last(), executed.drop_last()) {
            Some(left) => match sized(wanted.last(), left) {
                Some(amount) => left_of(left, amount, executed.last()),
                None => Some(left),
            },
            None => None,
        }
    }
}

/// What the executed ones of some orders cost in all, in units.
pub open spec fn spent_units(balance: Dec, wanted: Seq<Dec>, executed: Seq<bool>) -> int
    decreases wanted.len(),
{
    if wanted.len() == 0 {
        0
    } else {
        let before = spent_units(balance, wanted.drop_last(), executed.drop_last());
        match left_after(balance, wanted.drop_last(), executed.drop_last()) {
            Some(left) => match sized(wanted.last(), left) {
                Some(amount) => if executed.last() {
                    before + amount.units()
                } else {
                    before
                },
                None => before,
            },
            None => before,
        }
    }
}

/// A balance that can be counted in millionths, none of it owed.
pub open spec fn is_purse(balance: Dec) -> bool {
    &&& balance.wf()
    &&& 0 <= balance.mantissa
    &&& balance.scale <= USDC_PLACES
    &&& fits(balance.at_scale(USDC_PLACES as nat))
}

/// A value that is not negative and no larger than that of a purse is a small
/// number of every place up to the sixth.
proof fn lemma_small(d: Dec, purse: Dec, s: nat)
    requires
        is_purse(purse),
        d.scale <= s <= USDC_PLACES,
        0 <= d.units() <= purse.units(),
    ensures
        d.wf(),
        0 <= d.mantissa,
        0 <= d.at_scale(s),
        fits(d.at_scale(s)),
{
    let six = USDC_PLACES as nat;
    scaling_keeps_the_value(purse, six);
    scaling_keeps_the_value(d, s);
    pow10_is_positive((MAX_SCALE - s) as nat);
    pow10_is_positive((MAX_SCALE - six) as nat);
    pow10_is_positive((MAX_SCALE - d.scale) as nat);
    pow10_is_positive((s - d.scale) as nat);
    pow10_is_positive((six - s) as nat);
    pow10_adds((six - s) as nat, (MAX_SCALE - six) as nat);
    let p = pow10((MAX_SCALE - s) as nat) as int;
    let q = pow10((MAX_SCALE - six) as nat) as int;
    let k = pow10((six - s) as nat) as int;
    let u = d.at_scale(s);
    let v = purse.at_scale(six);
    assert((six - s) as nat + (MAX_SCALE - six) as nat == (MAX_SCALE - s) as nat);
    assert(0 <= u <= v) by (nonlinear_arith)
        requires
            0 <= u * p <= v * q,
            p == k * q,
            p > 0,
            q > 0,
            k > 0,
    ;
    let w = pow10((s - d.scale) as nat) as int;
    assert(0 <= d.mantissa <= u) by (nonlinear_arith)
        requires
            u == d.mantissa * w,
            w > 0,
            0 <= u,
    ;
}

/// An order leaves a purse: less by what was spent.
proof fn lemma_purse_after_order(purse: Dec, left: Dec, wanted: Dec)
    requires
        is_purse(purse),
        left.scale <= USDC_PLACES,
        0 <= left.units() <= purse.units(),
        sized(wanted, left) is Some,
    ensures
        left_of(left, sized(wanted, left)->0, true) is Some,
        left_of(left, sized(wanted, left)->0, true)->0.scale <= USDC_PLACES,
        left_of(left, sized(wanted, left)->0, true)->0.units() == left.units() - sized(
            wanted,
            left,
        )->0.units(),
{
    let amount = sized(wanted, left)->0;
    order_is_affordable(wanted, left);
    let s = left.joint_scale(amount);
    assert(integer(1).units() >= 0) by {
        pow10_is_positive(28);
    }
    lemma_small(left, purse, s);
    lemma_small(amount, purse, s);
    neg_negates(amount);
    lemma_small(left, purse, left.scale as nat);
    scaling_keeps_the_value(left, s);
    scaling_keeps_the_value(amount, s);
    let p = pow10((MAX_SCALE - s) as nat) as int;
    pow10_is_positive((MAX_SCALE - s) as nat);
    let a = left.at_scale(s);
    let b = amount.at_scale(s);
    assert(b <= a) by (nonlinear_arith)
        requires
            b * p <= a * p,
            p > 0,
    ;
    let w = pow10((s - amount.scale) as nat) as int;
    assert(amount.neg().at_scale(s) == -b) by (nonlinear_arith)
        requires
            amount.neg().at_scale(s) == (-amount.mantissa) * w,
            b == amount.mantissa * w,
    ;
    assert(left.sum_is_exact(amount.neg()));
    exact_sum_adds(left, amount.neg());
}

/// However many orders an iteration makes, it spends no more than the balance it
/// began with: what is left and what was spent add up to it, and nothing is owed.
pub proof fn an_iteration_stays_within_the_balance(
    balance: Dec,
    wanted: Seq<Dec>,
    executed: Seq<bool>,
)
    requires
        is_purse(balance),
        wanted.len() == executed.len(),
    ensures
        left_after(balance, wanted, executed) is Some,
        left_after(balance, wanted, executed)->0.scale <= USDC_PLACES,
        0 <= left_after(balance, wanted, executed)->0.units() <= balance.units(),
        left_after(balance, wanted, executed)->0.units() + spent_units(balance, wanted, executed)
            == balance.units(),
    decreases wanted.len(),
{
    if wanted.len() == 0 {
        pow10_is_positive((MAX_SCALE - balance.scale) as nat);
        assert(0 <= balance.units()) by (nonlinear_arith)
            requires
                balance.units() == balance.mantissa * pow10((MAX_SCALE - balance.scale) as nat),
                0 <= balance.mantissa,
        ;
    } else {
        an_iteration_stays_within_the_balance(balance, wanted.drop_last(), executed.drop_last());
        let left = left_after(balance, wanted.drop_last(), executed.drop_last())->0;
        if sized(wanted.last(), left) is Some {
            order_is_affordable(wanted.last(), left);
            pow10_is_positive(28);
            if executed.last() {
                lemma_purse_after_order(balance, left, wanted.last());
            }
        }
    }
}

/// One value kept at least as large as `low` and at most as large as `high` and
/// `cap`, in units.
pub open spec fn kept_within(value: int, low: int, high: int, cap: int) -> int {
    let raised = if value < low {
        low
    } else {
        value
    };
    let lowered = if high < raised {
        high
    } else {
        raised
    };
    if cap < lowered {
        cap
    } else {
        lowered
    }
}

/// What is bet is the share times the bankroll, kept at least as large as the
/// smallest bet and at most as large as the largest and the bankroll. So where
/// none of the three applies, the amount and 1 are to each other as the product
/// says, whatever the bankroll.
pub proof fn kelly_bets_a_share_of_the_bankroll(
    share: Dec,
    bankroll: Dec,
    min_bet: Dec,
    max_bet: Dec,
)
    requires
        share.wf(),
        bankroll.wf(),
        min_bet.wf(),
        max_bet.wf(),
    ensures
        product_of(bankroll, share) is Some <==> kelly_amount(share, bankroll, min_bet, max_bet)
            is Some,
        product_of(bankroll, share) is Some ==> kelly_amount(
            share,
            bankroll,
            min_bet,
            max_bet,
        )->0.units() == kept_within(
            product_of(bankroll, share)->0.units(),
            min_bet.units(),
            max_bet.units(),
            bankroll.units(),
        ),
        fits(bankroll.mantissa * share.mantissa) && bankroll.scale + share.scale <= MAX_SCALE ==> {
            let one = integer(1).units();
            let amount = kelly_amount(share, bankroll, min_bet, max_bet);
            let worth = share.units() * bankroll.units();
            &&& amount is Some
            &&& min_bet.units() * one <= worth <= max_bet.units() * one && worth
                <= bankroll.units() * one ==> amount->0.units() * one == worth
            &&& worth < min_bet.units() * one && min_bet.units() <= max_bet.units()
                && min_bet.units() <= bankroll.units() ==> amount->0.units() == min_bet.units()
            &&& max_bet.units() * one <= worth && min_bet.units() <= max_bet.units()
                && max_bet.units() <= bankroll.units() ==> amount->0.units() == max_bet.units()
            &&& bankroll.units() * one <= worth && bankroll.units() <= max_bet.units()
                ==> amount->0.units() == bankroll.units()
        },
{
    if fits(bankroll.mantissa * share.mantissa) && bankroll.scale + share.scale <= MAX_SCALE {
        exact_product_multiplies(bankroll, share);
        let one = integer(1).units();
        let p = product_of(bankroll, share)->0.units();
        let worth = share.units() * bankroll.units();
        let low = min_bet.units();
        let high = max_bet.units();
        let cap = bankroll.units();
        pow10_is_positive(28);
        assert(one == 1 * pow10(28));
        assert(bankroll.units() * share.units() == worth) by (nonlinear_arith)
            requires
                worth == share.units() * bankroll.units(),
        ;
        assert(p < low <==> worth < low * one) by (nonlinear_arith)
            requires
                p * one == worth,
                one > 0,
        ;
        assert(high < p <==> high * one < worth) by (nonlinear_arith)
            requires
                p * one == worth,
                one > 0,
        ;
        assert(cap < p <==> cap * one < worth) by (nonlinear_arith)
            requires
                p * one == worth,
                one > 0,
        ;
        assert(high == p <==> high * one == worth) by (nonlinear_arith)
            requires
                p * one == worth,
                one > 0,
        ;
        assert(cap == p <==> cap * one == worth) by (nonlinear_arith)
            requires
                p * one == worth,
                one > 0,
        ;
        assert(kelly_amount(share, bankroll, min_bet, max_bet)->0.units() == kept_within(
            p,
            low,
            high,
            cap,
        ));
        if low * one <= worth && worth <= high * one && worth <= cap * one {
            assert(kept_within(p, low, high, cap) == p);
        }
    }
}

/// What is bet on a side is its share of the bankroll, at least 1 and at most a
/// tenth of the bankroll; nothing where that tenth is below 1.
pub proof fn bets_are_between_one_and_a_tenth(share: Dec, bankroll: Dec)
    requires
        share.wf(),
        share.is_share(),
        bankroll.wf(),
        bankroll.scale < 28,
        fits(bankroll.mantissa * share.mantissa),
        bankroll.scale + share.scale <= MAX_SCALE,
    ensures
        bankroll.units() < 10 * integer(1).units() ==> bet(share, bankroll) is None,
        bankroll.units() >= 10 * integer(1).units() ==> {
            let one = integer(1).units();
            let worth = share.units() * bankroll.units();
            let amount = bet(share, bankroll);
            &&& amount is Some
            &&& one * one <= worth && 10 * share.units() <= one ==> amount->0.units() * one == worth
            &&& worth < one * one ==> amount->0.units() == one
            &&& one <= 10 * share.units() ==> 10 * amount->0.units() == bankroll.units()
        },
{
    let one = integer(1).units();
    pow10_is_positive(28);
    assert(one == 1 * pow10(28));
    a_market_costs_a_tenth_at_most(bankroll);
    lemma_tenth();
    let cap = per_market_max(bankroll)->0;
    let b = bankroll.units();
    let c = cap.units();
    let s = share.units();
    assert(cap.wf()) by {
        if bankroll.mantissa != 0 {
            assert(1 * bankroll.mantissa == bankroll.mantissa);
        }
    }
    assert(integer(1).wf());
    kelly_bets_a_share_of_the_bankroll(share, bankroll, integer(1), cap);
    let worth = s * b;
    if b >= 10 * one {
        assert(10 * s <= one ==> worth <= c * one) by (nonlinear_arith)
            requires
                worth == s * b,
                c * 10 == b,
                b >= 0,
        ;
        assert(one <= 10 * s ==> c * one <= worth) by (nonlinear_arith)
            requires
                worth == s * b,
                c * 10 == b,
                b >= 0,
        ;
        assert(c * one <= b * one) by (nonlinear_arith)
            requires
                c * 10 == b,
                b >= 0,
                one > 0,
        ;
        if worth < one * one {
            assert(bet(share, bankroll)->0.units() == one);
        }
    } else {
        assert(c < one);
    }
}

/// Whatever has to be rounded on the way, a bet is what Kelly's share comes to
/// between 1 and a tenth of the bankroll, and none is made below 1.
pub proof fn bets_are_kelly_amounts(share: Dec, bankroll: Dec, cap: Dec, amount: Dec)
    requires
        product_of(Dec { mantissa: 1, scale: 1 }, bankroll) == Some(cap),
        kelly_amount(share, bankroll, integer(1), cap) == Some(amount),
    ensures
        amount.units() >= integer(1).units() ==> bet(share, bankroll) == Some(amount),
        amount.units() < integer(1).units() ==> bet(share, bankroll) is None,
{
}

/// What is bet grows with the bankroll: where neither bound applies, a bankroll
/// that is `k` times as large is bet `k` times as much of.
pub proof fn bets_scale_with_the_bankroll(share: Dec, small: Dec, large: Dec, k: int)
    requires
        share.wf(),
        share.is_share(),
        small.wf(),
        large.wf(),
        small.scale < 28,
        large.scale < 28,
        fits(small.mantissa * share.mantissa),
        fits(large.mantissa * share.mantissa),
        small.scale + share.scale <= MAX_SCALE,
        large.scale + share.scale <= MAX_SCALE,
        1 <= k,
        large.units() == k * small.units(),
        small.units() >= 10 * integer(1).units(),
        10 * share.units() <= integer(1).units(),
        share.units() * small.units() >= integer(1).units() * integer(1).units(),
    ensures
        bet(share, small) is Some,
        bet(share, large) is Some,
        bet(share, large)->0.units() == k * bet(share, small)->0.units(),
{
    let one = integer(1).units();
    pow10_is_positive(28);
    assert(one == 1 * pow10(28));
    let s = share.units();
    let b = small.units();
    assert(large.units() >= 10 * one && s * large.units() >= one * one) by (nonlinear_arith)
        requires
            large.units() == k * b,
            b >= 10 * one,
            one > 0,
            1 <= k,
            s * b >= one * one,
    ;
    bets_are_between_one_and_a_tenth(share, small);
    bets_are_between_one_and_a_tenth(share, large);
    let x = bet(share, small)->0.units();
    let y = bet(share, large)->0.units();
    assert(y * one == (k * x) * one) by (nonlinear_arith)
        requires
            y * one == s * (k * b),
            x * one == s * b,
    ;
    assert(y == k * x) by (nonlinear_arith)
        requires
            y * one == (k * x) * one,
            one > 0,
    ;
}

/// The price of "up" is the one that the market names for it, else its best bid,
/// else its first price, else 0.5: as it stands within 0 and 1, cut off at them
/// outside, and 1 where it is no number.
pub proof fn up_is_priced_by_what_is_known(m: MarketView, raw: Figure)
    requires
        ({
            let up = m.up_index();
            let named = m.outcomes.len() >= 2;
            let has_up = 0 <= up < m.outcome_prices.len() && m.outcome_prices[up] is Some;
            let has_first = m.outcome_prices.len() > 0 && m.outcome_prices[0] is Some;
            ||| named && has_up && m.outcome_prices[up] == Some(raw)
            ||| named && !has_up && m.best_bid == Some(raw)
            ||| named && !has_up && m.best_bid is None && has_first && m.outcome_prices[0] == Some(
                raw,
            )
            ||| !named && has_first && m.outcome_prices[0] == Some(raw)
            ||| !has_up && !has_first && (!named || m.best_bid is None) && raw == fig(EVEN_PRICE)
        }),
    ensures
        fig(0).at_most(raw) && raw.at_most(fig(TOP_PRICE)) ==> up_price(m) == raw,
        raw.below(fig(0)) ==> up_price(m) == fig(0),
        fig(TOP_PRICE).below(raw) || raw.is_nan() ==> up_price(m) == fig(TOP_PRICE),
{
}

/// A price is fair exactly from the lowest to the highest that is traded at, both
/// of them counted in.
pub proof fn fair_prices_lie_between(p: Figure)
    ensures
        price_is_fair(p) <==> p.is_nan() || fig(MIN_MARKET_PRICE).rank() <= p.rank() <= fig(
            MAX_BUY_PRICE,
        ).rank(),
{
}

/// A quote is of both sides of its market: the token of "up" stands where the
/// market names "up", first where it names nothing, and that of "down" is the
/// other of the first two.
pub proof fn quotes_are_of_both_sides(m: MarketView)
    ensures
        ({
            let q = quote_of(m);
            let up = if m.outcomes.len() >= 2 {
                m.up_index()
            } else {
                0
            };
            &&& q.token_up == m.token_ids[up]
            &&& up == 0 ==> q.token_down == Some(m.token_ids[1])
            &&& up == 1 ==> q.token_down == Some(m.token_ids[0])
            &&& up > 1 ==> q.token_down is None
            &&& q.condition_id == m.condition_id
            &&& m.question is Some ==> Some(q.question) == m.question
            &&& m.question is None ==> q.question == "?"@
            &&& q.price == up_price(m)
        }),
{
}

/// A market calls for a trade exactly where it has two tokens, none of it is
/// held, its price is fair, the model makes something of it, its edge on one
/// side is large enough and the bet on that side is one; "up" comes first.
pub proof fn markets_are_traded_on_their_edge(
    m: MarketView,
    held: Seq<Word>,
    a: Option<Appraisal>,
    bankroll: Dec,
)
    ensures
        ({
            let s = called_for(m, held, a, bankroll);
            let open = m.token_ids.len() >= 2 && (m.condition_id is None || !held.contains(
                m.condition_id->0,
            )) && !up_price(m).below(fig(MIN_MARKET_PRICE)) && !fig(MAX_BUY_PRICE).below(
                up_price(m),
            ) && a is Some;
            let up = fig(MIN_DISCREPANCY).below(a->0.discrepancy);
            let down = !up && fig(MIN_DISCREPANCY).below(a->0.shortfall);
            &&& s is Some <==> open && ((up && bet(a->0.up_share, bankroll) is Some) || (down
                && bet(a->0.down_share, bankroll) is Some))
            &&& s is Some ==> {
                &&& s->0.side == Side::Buy
                &&& s->0.bought_up == up
                &&& s->0.condition_id == m.condition_id
                &&& m.question is Some ==> s->0.market_question == m.question->0
            }
            &&& s is Some && up ==> {
                &&& s->0.token_id == m.token_ids[up_token(m)]
                &&& s->0.our_prob == a->0.our_prob
                &&& s->0.market_price == up_price(m)
                &&& s->0.discrepancy_pct == a->0.discrepancy_pct
                &&& s->0.kelly_fraction == a->0.up_kelly
                &&& Some(s->0.amount_usdc) == bet(a->0.up_share, bankroll)
            }
            &&& s is Some && down ==> {
                &&& 0 <= up_token(m) <= 1 ==> s->0.token_id == m.token_ids[1 - up_token(m)]
                &&& s->0.our_prob == a->0.down_prob
                &&& s->0.market_price == a->0.down_price
                &&& s->0.discrepancy_pct == a->0.shortfall_pct
                &&& s->0.kelly_fraction == a->0.down_kelly
                &&& Some(s->0.amount_usdc) == bet(a->0.down_share, bankroll)
            }
        }),
{
}

/// The markets are heard in order: of those that call for a trade the first few
/// get one, and each of them does as long as there are fewer.
pub proof fn calls_are_heard_in_order(
    ms: Seq<MarketView>,
    held: Seq<Word>,
    a: Seq<Option<Appraisal>>,
    bankroll: Dec,
    evidence: int,
    i: int,
)
    requires
        0 <= i < ms.len(),
        evidence >= MIN_REQUIRED_FEEDS,
        called_for(ms[i], held, a[i], bankroll) is Some,
        signals_upto(ms, held, a, bankroll, i).len() < MAX_SIGNALS_PER_ITERATION,
    ensures
        ({
            let before = signals_upto(ms, held, a, bankroll, i);
            let all = signals_of(ms, held, a, evidence, bankroll);
            &&& all.len() > before.len()
            &&& all[before.len() as int] == called_for(ms[i], held, a[i], bankroll)->0
            &&& forall|j: int| 0 <= j < before.len() ==> #[trigger] all[j] == before[j]
        }),
{
    lemma_signals_grow(ms, held, a, bankroll, i + 1, ms.len() as int);
}

/// Later markets leave the trades of earlier ones alone.
proof fn lemma_signals_grow(
    ms: Seq<MarketView>,
    held: Seq<Word>,
    a: Seq<Option<Appraisal>>,
    bankroll: Dec,
    i: int,
    n: int,
)
    requires
        0 <= i <= n,
    ensures
        signals_upto(ms, held, a, bankroll, i).len() <= signals_upto(
            ms,
            held,
            a,
            bankroll,
            n,
        ).len(),
        forall|j: int|
            0 <= j < signals_upto(ms, held, a, bankroll, i).len() ==> #[trigger] signals_upto(
                ms,
                held,
                a,
                bankroll,
                n,
            )[j] == signals_upto(ms, held, a, bankroll, i)[j],
    decreases n,
{
    if i < n {
        lemma_signals_grow(ms, held, a, bankroll, i, n - 1);
    }
}

/// Markets without an outcome settle nothing, one with an outcome settles its
/// own positions with it and leaves the others.
pub proof fn markets_settle_one_by_one(
    ps: Seq<Position>,
    profit: Dec,
    ms: Seq<MarketView>,
    m: MarketView,
)
    requires
        resolved_all(ps, profit, ms) is Some,
    ensures
        ({
            let (held, gained) = resolved_all(ps, profit, ms)->0;
            let after = resolved_all(ps, profit, ms.push(m));
            &&& m.resolution() is None ==> after == resolved_all(ps, profit, ms)
            &&& m.resolution() is Some ==> {
                let (id, up_won) = m.resolution()->0;
                &&& after is Some <==> settled(held, gained, id, up_won) is Some
                &&& after is Some ==> after == Some(
                    (outside(held, id), settled(held, gained, id, up_won)->0),
                )
            }
        }),
        resolved_all(ps, profit, Seq::empty()) == Some((ps, profit)),
{
    assert(ms.push(m).drop_last() =~= ms);
}

/// A position trades at a price of the first market that is listed under its
/// id: at the first of two or more prices where "up" was bought, at the second
/// where "down" was, and at 0 for one that is missing.
pub proof fn positions_trade_at_their_side(ms: Seq<MarketView>, p: Position, k: int)
    requires
        0 <= k <= ms.len(),
        forall|i: int| 0 <= i < k ==> (#[trigger] ms[i]).condition_id != Some(p.condition_id),
        k < ms.len() ==> ms[k].condition_id == Some(p.condition_id),
    ensures
        k == ms.len() ==> current_price(ms, p) is None,
        k < ms.len() && ms[k].outcome_prices.len() < 2 ==> current_price(ms, p) is None,
        k < ms.len() && ms[k].outcome_prices.len() >= 2 ==> current_price(ms, p) == Some(
            match ms[k].outcome_prices[if p.bought_up {
                0
            } else {
                1
            }] {
                Some(price) => price,
                None => fig(0),
            },
        ),
{
    lemma_market_from(ms, p.condition_id, 0, k);
}

proof fn lemma_market_from(ms: Seq<MarketView>, id: Word, i: int, k: int)
    requires
        0 <= i <= k <= ms.len(),
        forall|j: int| i <= j < k ==> (#[trigger] ms[j]).condition_id != Some(id),
        k < ms.len() ==> ms[k].condition_id == Some(id),
    ensures
        market_from(ms, id, i) == k,
    decreases k - i,
{
    if i < k {
        assert(ms[i].condition_id != Some(id));
        lemma_market_from(ms, id, i + 1, k);
    }
}

/// A profit is taken exactly where the position trades, and at no less than the
/// floor.
pub proof fn profits_are_taken_from_the_floor_on(
    ms: Seq<MarketView>,
    p: Position,
    floor: Figure,
    price: Figure,
)
    ensures
        current_price(ms, p) == Some(price) ==> (is_profitable(ms, p, floor) <==> price.is_nan()
            || floor.is_nan() || floor.rank() <= price.rank()),
        current_price(ms, p) is None ==> !is_profitable(ms, p, floor),
{
}

/// All shares of a position are sold, to six decimal places, at the price that
/// was found; a hundredth of a share is the least.
pub proof fn sales_are_of_all_shares(shares: Dec, price: Figure)
    requires
        shares.wf(),
    ensures
        sale_of(shares, price) is Some ==> {
            let s = sale_of(shares, price)->0;
            &&& s.price == price
            &&& s.shares.scale <= 6
            &&& integer(1).units() <= 100 * s.shares.units()
            &&& -pow10(22) <= 2 * (s.shares.units() - shares.units()) <= pow10(22)
        },
        shares.scale <= 6 ==> (sale_of(shares, price) is Some <==> integer(1).units() <= 100
            * shares.units()),
        integer(1).units() + 100 * pow10(22) <= 100 * shares.units() ==> sale_of(shares, price)
            is Some,
{
    rounding_goes_to_the_nearest(shares, 6);
    pow10_adds(2, 26);
    reveal_with_fuel(pow10, 3);
    assert(pow10(2) == 100);
    assert(hundredth().units() == 1 * pow10(26));
    assert(integer(1).units() == 1 * pow10(28));
    assert(pow10(28) == 100 * pow10(26));
    pow10_is_positive(22);
}

/// A market lacks a token exactly where it may be traded in and its "up" stands
/// behind its last token, or it is to be bought "down" and that has no token.
pub proof fn gaps_are_missing_tokens(m: MarketView, held: Seq<Word>, a: Option<Appraisal>)
    ensures
        ({
            let up = if m.outcomes.len() >= 2 {
                m.up_index()
            } else {
                0
            };
            let open = m.token_ids.len() >= 2 && (m.condition_id is None || !held.contains(
                m.condition_id->0,
            ));
            let down = a is Some && !fig(MIN_DISCREPANCY).below(a->0.discrepancy) && fig(
                MIN_DISCREPANCY,
            ).below(a->0.shortfall);
            &&& open && up >= m.token_ids.len() ==> lacks_token(m, held, a)
            &&& open && price_is_fair(up_price(m)) && down && up > 1 ==> lacks_token(m, held, a)
            &&& !open ==> !lacks_token(m, held, a)
            &&& up < m.token_ids.len() && !(price_is_fair(up_price(m)) && down && up > 1)
                ==> !lacks_token(m, held, a)
        }),
{
}

/// An iteration comes to a gap only with evidence, and only at a market that
/// lacks a token before the trades are enough.
pub proof fn gaps_come_before_the_last_trade(
    ms: Seq<MarketView>,
    held: Seq<Word>,
    a: Seq<Option<Appraisal>>,
    evidence: int,
    bankroll: Dec,
    i: int,
)
    requires
        0 <= i < ms.len(),
    ensures
        evidence < MIN_REQUIRED_FEEDS ==> !comes_to_a_gap(ms, held, a, evidence, bankroll),
        evidence >= MIN_REQUIRED_FEEDS && lacks_token(ms[i], held, a[i]) && signals_upto(
            ms,
            held,
            a,
            bankroll,
            i,
        ).len() < MAX_SIGNALS_PER_ITERATION ==> comes_to_a_gap(ms, held, a, evidence, bankroll),
        (forall|j: int| 0 <= j < ms.len() ==> !lacks_token(#[trigger] ms[j], held, a[j]))
            ==> !comes_to_a_gap(ms, held, a, evidence, bankroll),
{
}

} // verus!
