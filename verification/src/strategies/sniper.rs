//! Oracle sniper: buy the side that a model of the bitcoin price favours where
//! the order book has not caught up with it.
//!
//! A trade is made where the model is at least 90% sure, the edge over the ask
//! is between 5% and 15%, the ask is below 0.95, more than 5 seconds are left
//! and at least 120 seconds of the window have passed. One market is bought
//! into once. The position is sold at a profit of 10%, or resolved at the end.

use vstd::prelude::*;

use crate::clock::{slug_of, window_slug};
use crate::decimal::{
    div_dec, divides, integer, parse_dec, pow10_is_positive, quotient_of, round_dec,
    rounding_goes_to_the_nearest, text_value, whole, whole_quotient_divides, Dec,
};
use crate::figure::{fig, Figure};
use crate::ids::Word;
use crate::market::TargetMarket;
use crate::orderbook::{BookUpdate, Level};
use crate::strategies::{side_token, token_of, Uncountable};
use crate::text::{contains, holds, pow10};

verus! {

/// 0.90: the least that the model has to be sure by.
pub const MIN_CONFIDENCE: u64 = 0x3FEC_CCCC_CCCC_CCCD;

/// 0.05: the smallest edge that is traded on.
pub const MIN_EDGE: u64 = 0x3FA9_9999_9999_999A;

/// 0.15: a larger edge says that the market knows more than the model.
pub const MAX_EDGE: u64 = 0x3FC3_3333_3333_3333;

/// 0.95: asks from here on leave no room for a profit.
pub const MAX_ASK: u64 = 0x3FEE_6666_6666_6666;

/// 0.5: the model favours "up" above it.
pub const EVEN_ODDS: u64 = 0x3FE0_0000_0000_0000;

/// 1: the ask of a side that nobody offers.
pub const NO_ASK: u64 = 0x3FF0_0000_0000_0000;

/// 1.10: a position is sold once its price has risen by this factor.
pub const PROFIT_TAKE_THRESHOLD: u64 = 0x3FF1_9999_9999_999A;

/// 200: how far bitcoin moves in a window, in USD.
pub const BTC_5M_VOLATILITY: u64 = 0x4069_0000_0000_0000;

/// No trade is made with this many seconds left or fewer.
pub const MIN_REMAINING_SECS: i64 = 5;

/// No trade is made before this many seconds have passed.
pub const MIN_ELAPSED_SECS: i64 = 120;

/// The length of a window in seconds.
pub const SNIPED_WINDOW_SECS: i64 = 300;

/// Seconds between status lines.
pub const STATUS_LOG_INTERVAL_SECS: u64 = 10;

/// The best prices of both sides of a market.
#[derive(Clone, Copy, Debug, PartialEq, Eq, Structural)]
pub struct Book {
    pub bid_yes: Option<Figure>,
    pub ask_yes: Option<Figure>,
    pub bid_no: Option<Figure>,
    pub ask_no: Option<Figure>,
}

/// The price of the last level of a side. Bids come from low to high and asks
/// from high to low, so that the last is the best.
pub open spec fn last_price(side: Seq<Level>) -> Option<Figure> {
    if side.len() > 0 {
        Some(side.last().price)
    } else {
        None
    }
}

/// A new price where there is one, else the one that was known.
pub open spec fn renewed(new: Option<Figure>, known: Option<Figure>) -> Option<Figure> {
    if new is Some {
        new
    } else {
        known
    }
}

fn best_of(side: &Vec<Level>, known: Option<Figure>) -> (r: Option<Figure>)
    ensures
        r == renewed(last_price(side@), known),
{
    if side.len() > 0 {
        Some(side[side.len() - 1].price)
    } else {
        known
    }
}

impl Book {
    /// The book after an update: the best prices of the side that the update is
    /// about, as far as it has any.
    pub open spec fn updated(self, target: TargetMarket, news: BookUpdate) -> Book {
        let bid = last_price(news.bids@);
        let ask = last_price(news.asks@);
        if news.asset_id == target.yes_token_id {
            Book {
                bid_yes: renewed(bid, self.bid_yes),
                ask_yes: renewed(ask, self.ask_yes),
                ..self
            }
        } else if news.asset_id == target.no_token_id {
            Book { bid_no: renewed(bid, self.bid_no), ask_no: renewed(ask, self.ask_no), ..self }
        } else {
            self
        }
    }

    pub open spec fn bid(self, up: bool) -> Option<Figure> {
        if up {
            self.bid_yes
        } else {
            self.bid_no
        }
    }

    pub open spec fn ask(self, up: bool) -> Option<Figure> {
        if up {
            self.ask_yes
        } else {
            self.ask_no
        }
    }

    /// What a side is worth at the end: the midpoint where there is one, else
    /// the bid, else the ask, else nothing.
    pub open spec fn worth(self, up: bool, midpoint: Figure) -> Figure {
        if self.bid(up) is Some && self.ask(up) is Some {
            midpoint
        } else if self.bid(up) is Some {
            self.bid(up)->0
        } else if self.ask(up) is Some {
            self.ask(up)->0
        } else {
            fig(0)
        }
    }

    /// A book of which nothing is known.
    pub fn empty() -> (r: Book)
        ensures
            r == (Book { bid_yes: None, ask_yes: None, bid_no: None, ask_no: None }),
    {
        Book { bid_yes: None, ask_yes: None, bid_no: None, ask_no: None }
    }

    /// Takes in an update of either side; one of another market is ignored.
    pub fn update_book_state(&mut self, news: &BookUpdate, target: &TargetMarket)
        ensures
            *final(self) == old(self).updated(*target, *news),
    {
        if news.asset_id == target.yes_token_id {
            self.bid_yes = best_of(&news.bids, self.bid_yes);
            self.ask_yes = best_of(&news.asks, self.ask_yes);
        } else if news.asset_id == target.no_token_id {
            self.bid_no = best_of(&news.bids, self.bid_no);
            self.ask_no = best_of(&news.asks, self.ask_no);
        }
    }

    fn worth_exec(&self, up: bool, midpoint: Figure) -> (r: Figure)
        ensures
            r == self.worth(up, midpoint),
    {
        let bid = if up {
            self.bid_yes
        } else {
            self.bid_no
        };
        let ask = if up {
            self.ask_yes
        } else {
            self.ask_no
        };
        match bid {
            Some(b) => match ask {
                Some(_) => midpoint,
                None => b,
            },
            None => match ask {
                Some(a) => a,
                None => Figure::from_bits(0),
            },
        }
    }

    /// Whether "up" looks like the winner: it is worth at least as much as
    /// "down". The midpoints count only for a side with both prices.
    pub fn infer_winning_side(&self, mid_yes: Figure, mid_no: Figure) -> (r: bool)
        ensures
            r == self.worth(false, mid_no).at_most(self.worth(true, mid_yes)),
    {
        self.worth_exec(false, mid_no).le(self.worth_exec(true, mid_yes))
    }
}

/// What was bought in a market.
#[derive(Clone, Copy, Debug, PartialEq, Eq, Structural)]
pub struct Holding {
    pub up: bool,
    pub token: Word,
    pub price: Figure,
    pub price_dec: Dec,
    pub amount: Dec,
}

impl Holding {
    pub open spec fn wf(self) -> bool {
        self.price_dec.wf() && self.amount.wf()
    }

    /// The shares that were bought, to six decimal places.
    pub open spec fn shares(self) -> Option<Dec> {
        match quotient_of(self.amount, self.price_dec) {
            Some(shares) => Some(shares.rounded(6)),
            None => None,
        }
    }
}

/// Which side the model favours, how sure it is of it, and what it costs.
#[derive(Clone, Copy, Debug, PartialEq, Eq, Structural)]
pub struct Lean {
    pub up: bool,
    pub prob: Figure,
    pub ask: Figure,
    pub token: Word,
}

/// Why a favoured side is not bought.
#[derive(Clone, Copy, Debug, PartialEq, Eq, Structural)]
pub enum Gate {
    LowConfidence,
    SmallEdge,
    LargeEdge,
    BadAsk,
    TooLate,
    TooEarly,
    Passed,
}

/// The first gate that stops a purchase.
pub open spec fn gate_of(lean: Lean, edge: Figure, remaining: int) -> Gate {
    if lean.prob.below(fig(MIN_CONFIDENCE)) {
        Gate::LowConfidence
    } else if edge.below(fig(MIN_EDGE)) {
        Gate::SmallEdge
    } else if fig(MAX_EDGE).below(edge) {
        Gate::LargeEdge
    } else if fig(MAX_ASK).at_most(lean.ask) || lean.ask.at_most(fig(0)) {
        Gate::BadAsk
    } else if remaining <= MIN_REMAINING_SECS {
        Gate::TooLate
    } else if SNIPED_WINDOW_SECS - remaining < MIN_ELAPSED_SECS {
        Gate::TooEarly
    } else {
        Gate::Passed
    }
}

/// What to do about a market that is watched.
#[derive(Clone, Copy, Debug, PartialEq, Eq, Structural)]
pub enum Move {
    /// Nothing yet.
    Hold,
    /// Buy the side that the model favours.
    Buy,
    /// Sell what was bought, at this bid.
    Sell { bid: Figure },
}

/// A market that is watched: its book, and what was bought in it.
#[derive(Clone, Copy, Debug, PartialEq, Eq, Structural)]
pub struct Watch {
    pub book: Book,
    pub holding: Option<Holding>,
}

impl Watch {
    pub open spec fn wf(self) -> bool {
        self.holding is Some ==> self.holding->0.wf()
    }

    /// The side that the model favours, "up" only where it is more likely than
    /// not.
    pub open spec fn leaning(self, target: TargetMarket, prob_up: Figure, prob_down: Figure) -> Lean {
        let up = fig(EVEN_ODDS).below(prob_up);
        Lean {
            up,
            prob: if up {
                prob_up
            } else {
                prob_down
            },
            ask: match self.book.ask(up) {
                Some(ask) => ask,
                None => fig(NO_ASK),
            },
            token: side_token(target, up),
        }
    }

    /// What to do: with something bought, sell it once its bid reaches `floor`;
    /// with nothing bought, buy where no gate stops it.
    pub open spec fn next_move(self, lean: Lean, edge: Figure, floor: Figure, remaining: int) -> Move {
        match self.holding {
            Some(h) => match self.book.bid(h.up) {
                Some(bid) => if floor.at_most(bid) {
                    Move::Sell { bid }
                } else {
                    Move::Hold
                },
                None => Move::Hold,
            },
            None => if gate_of(lean, edge, remaining) == Gate::Passed {
                Move::Buy
            } else {
                Move::Hold
            },
        }
    }

    /// A market of which nothing is known and in which nothing was bought.
    pub fn start() -> (r: Watch)
        ensures
            r == (Watch {
                book: Book { bid_yes: None, ask_yes: None, bid_no: None, ask_no: None },
                holding: None,
            }),
            r.wf(),
    {
        Watch { book: Book::empty(), holding: None }
    }

    /// The side that the model favours. The two probabilities are those of
    /// "up" and of "down".
    pub fn lean(&self, target: &TargetMarket, prob_up: Figure, prob_down: Figure) -> (r: Lean)
        ensures
            r == self.leaning(*target, prob_up, prob_down),
    {
        let up: bool = Figure::from_bits(EVEN_ODDS).lt(prob_up);
        let ask = if up {
            self.book.ask_yes
        } else {
            self.book.ask_no
        };
        Lean {
            up,
            prob: if up {
                prob_up
            } else {
                prob_down
            },
            ask: match ask {
                Some(a) => a,
                None => Figure::from_bits(NO_ASK),
            },
            token: token_of(target, up),
        }
    }

    /// What to do. The edge is what the model's probability exceeds the ask by;
    /// the floor is what was paid times the profit threshold.
    pub fn decide(&self, lean: Lean, edge: Figure, floor: Figure, remaining: i64) -> (r: Move)
        requires
            remaining > 0,
        ensures
            r == self.next_move(lean, edge, floor, remaining as int),
    {
        match self.holding {
            Some(h) => {
                let bid = if h.up {
                    self.book.bid_yes
                } else {
                    self.book.bid_no
                };
                match bid {
                    Some(b) => if floor.le(b) {
                        Move::Sell { bid: b }
                    } else {
                        Move::Hold
                    },
                    None => Move::Hold,
                }
            },
            None => match gate(lean, edge, remaining) {
                Gate::Passed => Move::Buy,
                _ => Move::Hold,
            },
        }
    }

    /// Writes down what was bought. A price that does not read as a decimal
    /// number counts as 1.
    pub fn bought(&mut self, lean: Lean, price_text: &str, amount: Dec)
        requires
            old(self).wf(),
            old(self).holding is None,
            amount.wf(),
        ensures
            final(self).wf(),
            final(self).book == old(self).book,
            final(self).holding == Some(
                Holding {
                    up: lean.up,
                    token: lean.token,
                    price: lean.ask,
                    price_dec: text_value(price_text@).unwrap_or(integer(1)),
                    amount,
                },
            ),
    {
        let price_dec = match parse_dec(price_text) {
            Some(d) => d,
            None => whole(1),
        };
        self.holding = Some(
            Holding { up: lean.up, token: lean.token, price: lean.ask, price_dec, amount },
        );
    }
}

/// The first gate that stops a purchase.
pub fn gate(lean: Lean, edge: Figure, remaining: i64) -> (r: Gate)
    requires
        remaining > 0,
    ensures
        r == gate_of(lean, edge, remaining as int),
{
    if lean.prob.lt(Figure::from_bits(MIN_CONFIDENCE)) {
        Gate::LowConfidence
    } else if edge.lt(Figure::from_bits(MIN_EDGE)) {
        Gate::SmallEdge
    } else if Figure::from_bits(MAX_EDGE).lt(edge) {
        Gate::LargeEdge
    } else if Figure::from_bits(MAX_ASK).le(lean.ask) || lean.ask.le(Figure::from_bits(0)) {
        Gate::BadAsk
    } else if remaining <= MIN_REMAINING_SECS {
        Gate::TooLate
    } else if SNIPED_WINDOW_SECS - remaining < MIN_ELAPSED_SECS {
        Gate::TooEarly
    } else {
        Gate::Passed
    }
}

/// The number of shares to sell; an error where they cannot be counted.
pub fn shares_to_sell(h: &Holding) -> (r: Result<Dec, Uncountable>)
    requires
        h.wf(),
    ensures
        match r {
            Ok(shares) => h.shares() == Some(shares) && shares.wf(),
            Err(_) => h.shares() is None,
        },
{
    match div_dec(h.amount, h.price_dec) {
        Some(shares) => Ok(round_dec(shares, 6)),
        None => Err(Uncountable),
    }
}

/// What follows the end of a market.
#[derive(Clone, Copy, Debug, PartialEq, Eq, Structural)]
pub enum Ending {
    /// Seconds are left.
    Running,
    /// The market is over and nothing was bought in it.
    Flat,
    /// The market is over and the position is to be resolved.
    Resolve,
}

impl Watch {
    /// Takes in an update of the book with so many seconds left. Returns
    /// whether the market is over, and what follows.
    pub fn on_update(&mut self, news: &BookUpdate, target: &TargetMarket, remaining: i64) -> (r:
        Ending)
        ensures
            final(self).book == old(self).book.updated(*target, *news),
            final(self).holding == old(self).holding,
            r == (if remaining > 0 {
                Ending::Running
            } else if old(self).holding is Some {
                Ending::Resolve
            } else {
                Ending::Flat
            }),
    {
        self.book.update_book_state(news, target);
        if remaining > 0 {
            Ending::Running
        } else {
            match self.holding {
                Some(_) => Ending::Resolve,
                None => Ending::Flat,
            }
        }
    }
}

/// An error of the feed is worth a warning unless it says that the feed lagged.
pub fn worth_a_warning(message: &str) -> (r: bool)
    ensures
        r == !holds(message@, "lagged"@),
{
    !contains(message, "lagged")
}

/// The slugs that the current market may have: that of the window that began at
/// `window_ts` and that of the next one.
pub fn candidate_slugs(window_ts: u64) -> (r: Vec<String>)
    requires
        window_ts + 300 <= u64::MAX,
    ensures
        r@.len() == 2,
        r@[0]@ == slug_of("btc-updown-5m"@, window_ts as nat),
        r@[1]@ == slug_of("btc-updown-5m"@, (window_ts + 300) as nat),
{
    let mut slugs: Vec<String> = Vec::new();
    slugs.push(window_slug("btc-updown-5m", window_ts));
    slugs.push(window_slug("btc-updown-5m", window_ts + 300));
    slugs
}

/// Seconds until the next scan: fewer after a market was watched.
pub fn scan_wait(watched: bool) -> (r: u64)
    ensures
        r == (if watched { 2 } else { 10u64 }),
{
    if watched {
        2
    } else {
        10
    }
}

/// One look at a market: its book by then, what the model says, and what could
/// be spent.
pub struct Look {
    pub book: Book,
    pub lean: Lean,
    pub edge: Figure,
    pub floor: Figure,
    pub remaining: int,
    pub price_dec: Dec,
    pub affordable: Option<Dec>,
}

impl Watch {
    /// The purchase that a look leads to.
    pub open spec fn buys(self, look: Look) -> bool {
        &&& (Watch { book: look.book, ..self }).next_move(
            look.lean,
            look.edge,
            look.floor,
            look.remaining,
        ) == Move::Buy
        &&& look.affordable is Some
    }

    /// The market after a look.
    pub open spec fn after(self, look: Look) -> Watch {
        Watch {
            book: look.book,
            holding: if self.buys(look) {
                Some(
                    Holding {
                        up: look.lean.up,
                        token: look.lean.token,
                        price: look.lean.ask,
                        price_dec: look.price_dec,
                        amount: look.affordable->0,
                    },
                )
            } else {
                self.holding
            },
        }
    }

    /// How many purchases a run of looks leads to.
    pub open spec fn purchases(self, looks: Seq<Look>) -> nat
        decreases looks.len(),
    {
        if looks.len() == 0 {
            0
        } else {
            (if self.buys(looks[0]) {
                1nat
            } else {
                0
            }) + self.after(looks[0]).purchases(looks.drop_first())
        }
    }
}

/// A market is bought into at most once, and not at all where something is
/// held.
pub proof fn one_purchase_per_market(watch: Watch, looks: Seq<Look>)
    ensures
        watch.purchases(looks) <= 1,
        watch.holding is Some ==> watch.purchases(looks) == 0,
    decreases looks.len(),
{
    if looks.len() > 0 {
        one_purchase_per_market(watch.after(looks[0]), looks.drop_first());
    }
}

/// What is bought is bought with confidence, at an edge, below the highest ask
/// and neither too early nor too late.
pub proof fn purchases_pass_every_gate(watch: Watch, look: Look)
    requires
        watch.buys(look),
    ensures
        !look.lean.prob.below(fig(MIN_CONFIDENCE)),
        !look.edge.below(fig(MIN_EDGE)),
        !fig(MAX_EDGE).below(look.edge),
        !fig(MAX_ASK).at_most(look.lean.ask),
        !look.lean.ask.at_most(fig(0)),
        MIN_REMAINING_SECS < look.remaining <= SNIPED_WINDOW_SECS - MIN_ELAPSED_SECS,
{
}

/// An update of one side leaves the prices of the other alone, and a price that
/// was known stays known.
pub proof fn sides_are_kept_apart(book: Book, target: TargetMarket, news: BookUpdate, up: bool)
    requires
        target.yes_token_id != target.no_token_id,
    ensures
        news.asset_id != side_token(target, up) ==> book.updated(target, news).bid(up) == book.bid(
            up,
        ) && book.updated(target, news).ask(up) == book.ask(up),
        book.bid(up) is Some ==> book.updated(target, news).bid(up) is Some,
        book.ask(up) is Some ==> book.updated(target, news).ask(up) is Some,
{
}

/// With "up" held, a watched market is sold exactly where the bid for "up" has
/// reached the floor, and at that bid; with "down" held, the bid for "down"
/// counts. Nothing else ends a holding, and no model does.
pub proof fn holdings_are_sold_at_their_own_bid(
    watch: Watch,
    lean: Lean,
    edge: Figure,
    floor: Figure,
    remaining: int,
    bid: Figure,
)
    requires
        watch.holding is Some,
    ensures
        watch.holding->0.up ==> (watch.next_move(lean, edge, floor, remaining) == (Move::Sell {
            bid,
        }) <==> watch.book.bid_yes == Some(bid) && floor.at_most(bid)),
        !watch.holding->0.up ==> (watch.next_move(lean, edge, floor, remaining) == (Move::Sell {
            bid,
        }) <==> watch.book.bid_no == Some(bid) && floor.at_most(bid)),
        watch.next_move(lean, edge, floor, remaining) != Move::Buy,
        watch.holding->0.up && (watch.book.bid_yes is None || !floor.at_most(
            watch.book.bid_yes->0,
        )) ==> watch.next_move(lean, edge, floor, remaining) == Move::Hold,
        !watch.holding->0.up && (watch.book.bid_no is None || !floor.at_most(
            watch.book.bid_no->0,
        )) ==> watch.next_move(lean, edge, floor, remaining) == Move::Hold,
{
}

/// With nothing held, the favoured side is bought exactly where the model is
/// sure enough, the edge is neither too small nor too large, the ask is above
/// nothing and below the highest, and the time is neither too early nor too
/// late; nothing is sold.
pub proof fn chances_are_taken(
    watch: Watch,
    lean: Lean,
    edge: Figure,
    floor: Figure,
    remaining: int,
)
    requires
        watch.holding is None,
    ensures
        watch.next_move(lean, edge, floor, remaining) == Move::Buy <==> {
            &&& !lean.prob.below(fig(MIN_CONFIDENCE))
            &&& !edge.below(fig(MIN_EDGE))
            &&& !fig(MAX_EDGE).below(edge)
            &&& !fig(MAX_ASK).at_most(lean.ask)
            &&& !lean.ask.at_most(fig(0))
            &&& MIN_REMAINING_SECS < remaining
            &&& remaining + MIN_ELAPSED_SECS <= SNIPED_WINDOW_SECS
        },
        watch.next_move(lean, edge, floor, remaining) != Move::Buy ==> watch.next_move(
            lean,
            edge,
            floor,
            remaining,
        ) == Move::Hold,
{
}

/// A gate that is named holds: it is the first that stops the purchase.
pub proof fn the_first_gate_is_named(lean: Lean, edge: Figure, remaining: int)
    ensures
        gate_of(lean, edge, remaining) is LowConfidence <==> lean.prob.below(fig(MIN_CONFIDENCE)),
        gate_of(lean, edge, remaining) is SmallEdge ==> edge.below(fig(MIN_EDGE)),
        gate_of(lean, edge, remaining) is LargeEdge ==> fig(MAX_EDGE).below(edge),
        gate_of(lean, edge, remaining) is BadAsk ==> fig(MAX_ASK).at_most(lean.ask)
            || lean.ask.at_most(fig(0)),
        gate_of(lean, edge, remaining) is TooLate ==> remaining <= MIN_REMAINING_SECS,
        gate_of(lean, edge, remaining) is TooEarly ==> remaining + MIN_ELAPSED_SECS
            > SNIPED_WINDOW_SECS,
        !lean.prob.below(fig(MIN_CONFIDENCE)) && edge.below(fig(MIN_EDGE)) ==> gate_of(
            lean,
            edge,
            remaining,
        ) is SmallEdge,
        !lean.prob.below(fig(MIN_CONFIDENCE)) && !edge.below(fig(MIN_EDGE)) && fig(MAX_EDGE).below(
            edge,
        ) ==> gate_of(lean, edge, remaining) is LargeEdge,
        !lean.prob.below(fig(MIN_CONFIDENCE)) && !edge.below(fig(MIN_EDGE)) && !fig(MAX_EDGE).below(
            edge,
        ) && (fig(MAX_ASK).at_most(lean.ask) || lean.ask.at_most(fig(0))) ==> gate_of(
            lean,
            edge,
            remaining,
        ) is BadAsk,
{
}

/// The model leans to "up" exactly where it is more likely than not; what is
/// said of a lean is then all of its own side.
pub proof fn leans_are_of_one_side(
    watch: Watch,
    target: TargetMarket,
    prob_up: Figure,
    prob_down: Figure,
)
    ensures
        ({
            let lean = watch.leaning(target, prob_up, prob_down);
            &&& lean.up <==> !prob_up.is_nan() && prob_up.rank() > fig(EVEN_ODDS).rank()
            &&& lean.up ==> lean.prob == prob_up && lean.token == target.yes_token_id
            &&& lean.up && watch.book.ask_yes is Some ==> Some(lean.ask) == watch.book.ask_yes
            &&& lean.up && watch.book.ask_yes is None ==> lean.ask == fig(NO_ASK)
            &&& !lean.up ==> lean.prob == prob_down && lean.token == target.no_token_id
            &&& !lean.up && watch.book.ask_no is Some ==> Some(lean.ask) == watch.book.ask_no
            &&& !lean.up && watch.book.ask_no is None ==> lean.ask == fig(NO_ASK)
        }),
{
}

/// An update of a side brings the last of its bids and the last of its asks,
/// and leaves what it says nothing of.
pub proof fn updates_bring_the_last_levels(book: Book, target: TargetMarket, news: BookUpdate)
    ensures
        ({
            let after = book.updated(target, news);
            let yes = news.asset_id == target.yes_token_id;
            let no = !yes && news.asset_id == target.no_token_id;
            let bids = news.bids@;
            let asks = news.asks@;
            &&& yes && bids.len() > 0 ==> after.bid_yes == Some(bids[bids.len() - 1].price)
            &&& yes && asks.len() > 0 ==> after.ask_yes == Some(asks[asks.len() - 1].price)
            &&& no && bids.len() > 0 ==> after.bid_no == Some(bids[bids.len() - 1].price)
            &&& no && asks.len() > 0 ==> after.ask_no == Some(asks[asks.len() - 1].price)
            &&& !yes || bids.len() == 0 ==> after.bid_yes == book.bid_yes
            &&& !yes || asks.len() == 0 ==> after.ask_yes == book.ask_yes
            &&& !no || bids.len() == 0 ==> after.bid_no == book.bid_no
            &&& !no || asks.len() == 0 ==> after.ask_no == book.ask_no
        }),
{
}

/// A side is worth its midpoint where it has both prices, else the one that it
/// has, else nothing.
pub proof fn sides_are_worth_what_is_known(book: Book, mid_yes: Figure, mid_no: Figure)
    ensures
        book.bid_yes is Some && book.ask_yes is Some ==> book.worth(true, mid_yes) == mid_yes,
        book.bid_yes is Some && book.ask_yes is None ==> Some(book.worth(true, mid_yes))
            == book.bid_yes,
        book.bid_yes is None && book.ask_yes is Some ==> Some(book.worth(true, mid_yes))
            == book.ask_yes,
        book.bid_yes is None && book.ask_yes is None ==> book.worth(true, mid_yes).rank() == 0,
        book.bid_no is Some && book.ask_no is Some ==> book.worth(false, mid_no) == mid_no,
        book.bid_no is Some && book.ask_no is None ==> Some(book.worth(false, mid_no))
            == book.bid_no,
        book.bid_no is None && book.ask_no is Some ==> Some(book.worth(false, mid_no))
            == book.ask_no,
        book.bid_no is None && book.ask_no is None ==> book.worth(false, mid_no).rank() == 0,
{
}

/// The shares of a holding are worth at its price what was spent, up to half of
/// the sixth decimal place of a share; exactly so where six places are enough.
pub proof fn holdings_are_worth_their_amount(h: Holding)
    requires
        h.wf(),
        h.price_dec.mantissa > 0,
        divides(h.price_dec, h.amount),
    ensures
        h.amount.scale >= h.price_dec.scale ==> h.shares() is Some,
        h.shares() is Some && h.amount.scale <= h.price_dec.scale + 6 ==> h.shares()->0.units()
            * h.price_dec.units() == h.amount.units() * integer(1).units(),
        h.shares() is Some ==> {
            let off = h.shares()->0.units() * h.price_dec.units() - h.amount.units() * integer(
                1,
            ).units();
            -(pow10(22) * h.price_dec.units()) <= 2 * off <= pow10(22) * h.price_dec.units()
        },
{
    if h.shares() is Some {
        let q = quotient_of(h.amount, h.price_dec)->0;
        whole_quotient_divides(h.amount, h.price_dec);
        rounding_goes_to_the_nearest(q, 6);
        let d = h.shares()->0.units() - q.units();
        let p = h.price_dec.units();
        let w = pow10(22) as int;
        pow10_is_positive((28 - h.price_dec.scale) as nat);
        assert(p > 0) by (nonlinear_arith)
            requires
                p == h.price_dec.mantissa * pow10((28 - h.price_dec.scale) as nat),
                h.price_dec.mantissa > 0,
                pow10((28 - h.price_dec.scale) as nat) > 0,
        ;
        assert(-(w * p) <= 2 * (d * p) <= w * p) by (nonlinear_arith)
            requires
                -w <= 2 * d <= w,
                p > 0,
        ;
        assert(d * p == h.shares()->0.units() * p - q.units() * p) by (nonlinear_arith)
            requires
                d == h.shares()->0.units() - q.units(),
        ;
    }
}

/// The shares of a holding are its amount divided by its price, to six decimal
/// places: none where the price is nothing.
pub proof fn shares_are_amount_over_price(h: Holding)
    requires
        h.wf(),
    ensures
        h.price_dec.mantissa == 0 ==> h.shares() is None,
        h.shares() is None <==> quotient_of(h.amount, h.price_dec) is None,
        h.shares() is Some ==> {
            let exact = quotient_of(h.amount, h.price_dec)->0;
            exact.wf() ==> {
                &&& h.shares()->0.scale <= 6
                &&& -pow10(22) <= 2 * (h.shares()->0.units() - exact.units()) <= pow10(22)
            }
        },
{
    if h.shares() is Some && quotient_of(h.amount, h.price_dec)->0.wf() {
        rounding_goes_to_the_nearest(quotient_of(h.amount, h.price_dec)->0, 6);
    }
}

/// A purchase is written down as it was made: the side and the token that the
/// model leaned to, at the ask, for what could be spent.
pub proof fn purchases_are_held_as_made(watch: Watch, look: Look)
    ensures
        watch.after(look).book == look.book,
        watch.buys(look) ==> {
            &&& watch.holding is None
            &&& watch.after(look).holding is Some
            &&& watch.after(look).holding->0.up == look.lean.up
            &&& watch.after(look).holding->0.token == look.lean.token
            &&& watch.after(look).holding->0.price == look.lean.ask
            &&& watch.after(look).holding->0.price_dec == look.price_dec
            &&& Some(watch.after(look).holding->0.amount) == look.affordable
        },
        !watch.buys(look) ==> watch.after(look).holding == watch.holding,
{
}

} // verus!
