//! The session's books: trades made, positions held, profit realised.

use vstd::prelude::*;

use crate::decimal::{
    add_dec, dec_text, difference_of, div_dec, divides, exact_product_multiplies, exact_sum_adds,
    integer, mul_dec, neg_negates, parse_dec, pow10_is_positive, product_is_exact, product_of,
    quotient_of, sub_dec, sum_of, text_value, whole, whole_quotient_divides, Dec,
};
use crate::figure::Figure;
use crate::ids::Word;
use crate::text::{number_text, numeral, pow10};
use crate::trading::Side;

verus! {

/// What a paper session starts with, in USDC.
pub const PAPER_START_USDC: i64 = 100;

/// The rule above and below the closing report.
pub const RULE: &'static str = "═══════════════════════════════════════════════════════════════";

/// One line of the trade log.
#[derive(Debug)]
pub struct TradeRecord {
    pub timestamp: String,
    pub mode: String,
    pub market: String,
    pub side: String,
    pub amount_usdc: String,
    pub price: Figure,
    pub executed: bool,
}

impl Clone for TradeRecord {
    fn clone(&self) -> (r: TradeRecord)
        ensures
            r == *self,
    {
        TradeRecord {
            timestamp: self.timestamp.clone(),
            mode: self.mode.clone(),
            market: self.market.clone(),
            side: self.side.clone(),
            amount_usdc: self.amount_usdc.clone(),
            price: self.price,
            executed: self.executed,
        }
    }
}

/// A trade as it is written down.
pub struct TradeView {
    pub timestamp: Seq<char>,
    pub mode: Seq<char>,
    pub market: Seq<char>,
    pub side: Side,
    pub amount_usdc: Dec,
    pub price: Figure,
    pub price_dec: Dec,
    pub executed: bool,
    pub condition_id: Option<Word>,
    pub token_id: Word,
    pub bought_up: bool,
}

/// Tokens bought in one market and not yet sold or resolved. `price_dec` is
/// the decimal number that the price's text reads as.
#[derive(Debug)]
pub struct Position {
    pub condition_id: Word,
    pub token_id: Word,
    pub market: String,
    pub amount_usdc: Dec,
    pub price: Figure,
    pub price_dec: Dec,
    pub bought_up: bool,
}

impl Clone for Position {
    fn clone(&self) -> (r: Position)
        ensures
            r == *self,
    {
        Position {
            condition_id: self.condition_id,
            token_id: self.token_id,
            market: self.market.clone(),
            amount_usdc: self.amount_usdc,
            price: self.price,
            price_dec: self.price_dec,
            bought_up: self.bought_up,
        }
    }
}

impl Position {
    pub open spec fn wf(self) -> bool {
        self.amount_usdc.wf() && self.price_dec.wf()
    }

    /// The number of shares that the position holds.
    pub open spec fn shares(self) -> Option<Dec> {
        quotient_of(self.amount_usdc, self.price_dec)
    }

    /// The position backed the side that won.
    pub open spec fn won(self, up_won: bool) -> bool {
        self.bought_up == up_won
    }

    /// What is gained where the market resolves: a share of the side that won
    /// pays 1, one of the other side nothing.
    pub open spec fn resolved_profit(self, up_won: bool) -> Option<Dec> {
        match self.shares() {
            Some(shares) => difference_of(
                if self.won(up_won) {
                    shares
                } else {
                    integer(0)
                },
                self.amount_usdc,
            ),
            None => None,
        }
    }

    /// What is gained where every share is sold at `price`.
    pub open spec fn sold_profit(self, price: Dec) -> Option<Dec> {
        match self.shares() {
            Some(shares) => match product_of(shares, price) {
                Some(proceeds) => difference_of(proceeds, self.amount_usdc),
                None => None,
            },
            None => None,
        }
    }
}

/// What the open positions cost in all.
pub open spec fn invested(ps: Seq<Position>) -> Option<Dec>
    decreases ps.len(),
{
    if ps.len() == 0 {
        Some(integer(0))
    } else {
        match invested(ps.drop_last()) {
            Some(total) => sum_of(total, ps.last().amount_usdc),
            None => None,
        }
    }
}

/// The realised profit after every position in the market `id` is resolved, in
/// the order of the positions.
pub open spec fn settled(ps: Seq<Position>, profit: Dec, id: Word, up_won: bool) -> Option<Dec>
    decreases ps.len(),
{
    if ps.len() == 0 {
        Some(profit)
    } else {
        match settled(ps.drop_last(), profit, id, up_won) {
            Some(before) => if ps.last().condition_id == id {
                match ps.last().resolved_profit(up_won) {
                    Some(gain) => sum_of(before, gain),
                    None => None,
                }
            } else {
                Some(before)
            },
            None => None,
        }
    }
}

/// The positions outside the market `id`, in order.
pub open spec fn outside(ps: Seq<Position>, id: Word) -> Seq<Position> {
    ps.filter(|p: Position| p.condition_id != id)
}

/// Where the first position with this market and token stands, or the number
/// of positions.
pub open spec fn first_held(ps: Seq<Position>, id: Word, token: Word) -> int
    decreases ps.len(),
{
    if ps.len() == 0 {
        0
    } else if ps[0].condition_id == id && ps[0].token_id == token {
        0
    } else {
        1 + first_held(ps.drop_first(), id, token)
    }
}

/// What is left of a balance after the open positions are paid for.
pub open spec fn balance_of(start: Dec, profit: Dec, open: Dec) -> Option<Dec> {
    match sum_of(start, profit) {
        Some(funds) => difference_of(funds, open),
        None => None,
    }
}

/// The session in figures.
#[derive(Debug, Clone, Copy)]
pub struct SessionSummary {
    pub trades_count: u32,
    pub open_invested: Dec,
    pub realized_profit: Dec,
    pub start_balance: Dec,
    pub balance_remaining: Dec,
}

impl SessionSummary {
    pub open spec fn wf(self) -> bool {
        &&& self.open_invested.wf()
        &&& self.realized_profit.wf()
        &&& self.start_balance.wf()
        &&& self.balance_remaining.wf()
    }

    /// Realised profit less what is still invested.
    pub open spec fn net(self) -> Option<Dec> {
        difference_of(self.realized_profit, self.open_invested)
    }

    /// Realised profit less what is still invested.
    pub fn pnl(&self) -> (r: Dec)
        requires
            self.wf(),
            self.net() is Some,
        ensures
            Some(r) == self.net(),
            r.wf(),
    {
        sub_dec(self.realized_profit, self.open_invested).unwrap()
    }

    /// `pnl`, or `None` where it is too large for a decimal number.
    pub fn checked_pnl(&self) -> (r: Option<Dec>)
        requires
            self.wf(),
        ensures
            r == self.net(),
    {
        match sub_dec(self.realized_profit, self.open_invested) {
            Some(_) => Some(self.pnl()),
            None => None,
        }
    }
}

/// The session's books.
pub struct SessionTracker {
    start_balance: Dec,
    trades: Vec<TradeRecord>,
    positions: Vec<Position>,
    realized_profit: Dec,
    results_file: String,
}

impl SessionTracker {
    pub closed spec fn start(&self) -> Dec {
        self.start_balance
    }

    pub closed spec fn profit(&self) -> Dec {
        self.realized_profit
    }

    pub closed spec fn held(&self) -> Seq<Position> {
        self.positions@
    }

    pub closed spec fn log(&self) -> Seq<TradeRecord> {
        self.trades@
    }

    pub closed spec fn file(&self) -> Seq<char> {
        self.results_file@
    }

    /// Every amount in the books is a decimal number.
    pub open spec fn wf(&self) -> bool {
        &&& self.start().wf()
        &&& self.profit().wf()
        &&& forall|i: int| 0 <= i < self.held().len() ==> (#[trigger] self.held()[i]).wf()
    }

    /// The books are those `before` with a trade added: its line `r` in the
    /// log, and a position where the trade is in a known market.
    pub open spec fn adds(&self, before: SessionTracker, r: TradeRecord, t: TradeView) -> bool {
        &&& r.timestamp@ == t.timestamp
        &&& r.mode@ == t.mode
        &&& r.market@ == t.market
        &&& r.side@ == t.side.name()
        &&& r.amount_usdc@ == t.amount_usdc.notation()
        &&& r.price == t.price
        &&& r.executed == t.executed
        &&& self.log() == before.log().push(r)
        &&& match t.condition_id {
            Some(id) => {
                &&& self.held().len() == before.held().len() + 1
                &&& self.held().drop_last() == before.held()
                &&& self.held().last().condition_id == id
                &&& self.held().last().token_id == t.token_id
                &&& self.held().last().market@ == t.market
                &&& self.held().last().amount_usdc == t.amount_usdc
                &&& self.held().last().price == t.price
                &&& self.held().last().price_dec == t.price_dec
                &&& self.held().last().bought_up == t.bought_up
            },
            None => self.held() == before.held(),
        }
        &&& self.start() == before.start()
        &&& self.profit() == before.profit()
        &&& self.file() == before.file()
    }

    /// What can still be spent: start plus realised profit less what the open
    /// positions cost.
    pub open spec fn balance(&self) -> Option<Dec> {
        match invested(self.held()) {
            Some(open) => balance_of(self.start(), self.profit(), open),
            None => None,
        }
    }

    /// New books: no trades, no positions, no profit.
    pub fn new(start_balance: Dec, results_file: String) -> (r: SessionTracker)
        requires
            start_balance.wf(),
        ensures
            r.wf(),
            r.start() == start_balance,
            r.profit() == integer(0),
            r.held() == Seq::<Position>::empty(),
            r.log() == Seq::<TradeRecord>::empty(),
            r.file() == results_file@,
            r.balance() is Some,
            r.balance()->0.units() == start_balance.units(),
    {
        proof {
            lemma_unspent(start_balance);
        }
        SessionTracker {
            start_balance,
            trades: Vec::new(),
            positions: Vec::new(),
            realized_profit: whole(0),
            results_file,
        }
    }

    pub fn set_start_balance(&mut self, balance: Dec)
        requires
            old(self).wf(),
            balance.wf(),
        ensures
            final(self).wf(),
            final(self).start() == balance,
            final(self).profit() == old(self).profit(),
            final(self).held() == old(self).held(),
            final(self).log() == old(self).log(),
            final(self).file() == old(self).file(),
    {
        self.start_balance = balance;
        assert(self.held() == old(self).held());
    }

    fn invested_exec(&self) -> (r: Option<Dec>)
        requires
            self.wf(),
        ensures
            r == invested(self.held()),
            r is Some ==> r->0.wf(),
    {
        let mut total: Dec = whole(0);
        let n: usize = self.positions.len();
        let mut i: usize = 0;
        assert(self.held().take(0) =~= Seq::empty());
        while i < n
            invariant
                self.wf(),
                n == self.held().len(),
                i <= n,
                total.wf(),
                invested(self.held().take(i as int)) == Some(total),
            decreases n - i,
        {
            assert(self.held()[i as int].wf());
            assert(self.held().take(i + 1).drop_last() =~= self.held().take(i as int));
            match add_dec(total, self.positions[i].amount_usdc) {
                Some(t) => {
                    total = t;
                },
                None => {
                    proof {
                        self.lemma_invested_none((i + 1) as int);
                    }
                    return None;
                },
            }
            i = i + 1;
        }
        assert(self.held().take(n as int) =~= self.held());
        Some(total)
    }

    proof fn lemma_invested_none(&self, k: int)
        requires
            0 <= k <= self.held().len(),
            invested(self.held().take(k)) is None,
        ensures
            invested(self.held()) is None,
        decreases self.held().len() - k,
    {
        if k < self.held().len() {
            assert(self.held().take(k + 1).drop_last() =~= self.held().take(k));
            self.lemma_invested_none(k + 1);
        } else {
            assert(self.held().take(k) =~= self.held());
        }
    }

    /// What can still be spent.
    pub fn available_balance(&self) -> (r: Dec)
        requires
            self.wf(),
            self.balance() is Some,
        ensures
            Some(r) == self.balance(),
            r.wf(),
    {
        let open = self.invested_exec().unwrap();
        let funds = add_dec(self.start_balance, self.realized_profit).unwrap();
        sub_dec(funds, open).unwrap()
    }

    /// `available_balance`, or `None` where a sum on the way is too large for a
    /// decimal number.
    pub fn checked_available_balance(&self) -> (r: Option<Dec>)
        requires
            self.wf(),
        ensures
            r == self.balance(),
            r is Some ==> r->0.wf(),
    {
        match self.invested_exec() {
            Some(open) => match add_dec(self.start_balance, self.realized_profit) {
                Some(funds) => match sub_dec(funds, open) {
                    Some(_) => Some(self.available_balance()),
                    None => None,
                },
                None => None,
            },
            None => None,
        }
    }

    /// Writes a trade down, and a position where the trade is in a known
    /// market. Returns the new line of the log. `price_text` is the price as a
    /// text; one that does not read as a decimal number counts as 1.
    pub fn record_trade(
        &mut self,
        timestamp: String,
        mode: &str,
        market: &str,
        side: Side,
        amount_usdc: Dec,
        price: Figure,
        price_text: &str,
        executed: bool,
        condition_id: Option<Word>,
        token_id: Word,
        bought_up: bool,
    ) -> (r: TradeRecord)
        requires
            old(self).wf(),
            amount_usdc.wf(),
        ensures
            final(self).wf(),
            final(self).adds(
                *old(self),
                r,
                TradeView {
                    timestamp: timestamp@,
                    mode: mode@,
                    market: market@,
                    side,
                    amount_usdc,
                    price,
                    price_dec: text_value(price_text@).unwrap_or(integer(1)),
                    executed,
                    condition_id,
                    token_id,
                    bought_up,
                },
            ),
    {
        let record = TradeRecord {
            timestamp,
            mode: mode.to_owned(),
            market: market.to_owned(),
            side: side.label().to_owned(),
            amount_usdc: dec_text(amount_usdc),
            price,
            executed,
        };
        self.trades.push(record.clone());
        match condition_id {
            Some(id) => {
                let price_dec = match parse_dec(price_text) {
                    Some(d) => d,
                    None => whole(1),
                };
                let position = Position {
                    condition_id: id,
                    token_id,
                    market: market.to_owned(),
                    amount_usdc,
                    price,
                    price_dec,
                    bought_up,
                };
                self.positions.push(position);
                assert(self.held().drop_last() =~= old(self).held());
            },
            None => {},
        }
        record
    }

    fn settled_exec(&self, id: Word, up_won: bool) -> (r: Option<Dec>)
        requires
            self.wf(),
        ensures
            r == settled(self.held(), self.profit(), id, up_won),
            r is Some ==> r->0.wf(),
    {
        let mut profit: Dec = self.realized_profit;
        let n: usize = self.positions.len();
        let mut i: usize = 0;
        assert(self.held().take(0) =~= Seq::empty());
        while i < n
            invariant
                self.wf(),
                n == self.held().len(),
                i <= n,
                profit.wf(),
                settled(self.held().take(i as int), self.profit(), id, up_won) == Some(profit),
            decreases n - i,
        {
            let p = &self.positions[i];
            assert(self.held()[i as int].wf());
            assert(self.held().take(i + 1).drop_last() =~= self.held().take(i as int));
            if p.condition_id == id {
                let won: bool = p.bought_up == up_won;
                let gain = match div_dec(p.amount_usdc, p.price_dec) {
                    Some(shares) => sub_dec(
                        if won {
                            shares
                        } else {
                            whole(0)
                        },
                        p.amount_usdc,
                    ),
                    None => None,
                };
                let next = match gain {
                    Some(g) => add_dec(profit, g),
                    None => None,
                };
                match next {
                    Some(t) => {
                        profit = t;
                    },
                    None => {
                        proof {
                            self.lemma_settled_none((i + 1) as int, id, up_won);
                        }
                        return None;
                    },
                }
            }
            i = i + 1;
        }
        assert(self.held().take(n as int) =~= self.held());
        Some(profit)
    }

    proof fn lemma_settled_none(&self, k: int, id: Word, up_won: bool)
        requires
            0 <= k <= self.held().len(),
            settled(self.held().take(k), self.profit(), id, up_won) is None,
        ensures
            settled(self.held(), self.profit(), id, up_won) is None,
        decreases self.held().len() - k,
    {
        if k < self.held().len() {
            assert(self.held().take(k + 1).drop_last() =~= self.held().take(k));
            self.lemma_settled_none(k + 1, id, up_won);
        } else {
            assert(self.held().take(k) =~= self.held());
        }
    }

    fn outside_exec(&self, id: Word) -> (r: Vec<Position>)
        ensures
            r@ == outside(self.held(), id),
    {
        let mut kept: Vec<Position> = Vec::new();
        let n: usize = self.positions.len();
        let mut i: usize = 0;
        let ghost keep = |p: Position| p.condition_id != id;
        assert(self.held().take(0) =~= Seq::empty());
        reveal(Seq::filter);
        assert(self.held().take(0).filter(keep) =~= Seq::empty());
        while i < n
            invariant
                n == self.held().len(),
                i <= n,
                keep == (|p: Position| p.condition_id != id),
                kept@ == self.held().take(i as int).filter(keep),
            decreases n - i,
        {
            reveal(Seq::filter);
            let p = &self.positions[i];
            assert(self.held().take(i + 1).drop_last() =~= self.held().take(i as int));
            assert(self.held().take(i + 1).last() == *p);
            if p.condition_id != id {
                kept.push(p.clone());
            }
            i = i + 1;
        }
        assert(self.held().take(n as int) =~= self.held());
        kept
    }

    /// Closes every position in the market `condition_id` at what it paid.
    pub fn resolve_market(&mut self, condition_id: Word, up_won: bool)
        requires
            old(self).wf(),
            settled(old(self).held(), old(self).profit(), condition_id, up_won) is Some,
        ensures
            final(self).wf(),
            Some(final(self).profit()) == settled(
                old(self).held(),
                old(self).profit(),
                condition_id,
                up_won,
            ),
            final(self).held() == outside(old(self).held(), condition_id),
            final(self).start() == old(self).start(),
            final(self).log() == old(self).log(),
            final(self).file() == old(self).file(),
    {
        let profit = self.settled_exec(condition_id, up_won).unwrap();
        let kept = self.outside_exec(condition_id);
        proof {
            lemma_outside_is_part(self.held(), condition_id);
        }
        self.realized_profit = profit;
        self.positions = kept;
    }

    /// `resolve_market` where the profit is a decimal number; else nothing
    /// changes and the result is false.
    pub fn checked_resolve_market(&mut self, condition_id: Word, up_won: bool) -> (r: bool)
        requires
            old(self).wf(),
        ensures
            final(self).wf(),
            r == (settled(old(self).held(), old(self).profit(), condition_id, up_won) is Some),
            r ==> {
                &&& Some(final(self).profit()) == settled(
                    old(self).held(),
                    old(self).profit(),
                    condition_id,
                    up_won,
                )
                &&& final(self).held() == outside(old(self).held(), condition_id)
            },
            !r ==> final(self).profit() == old(self).profit() && final(self).held() == old(
                self,
            ).held(),
            final(self).start() == old(self).start(),
            final(self).log() == old(self).log(),
            final(self).file() == old(self).file(),
    {
        match self.settled_exec(condition_id, up_won) {
            Some(_) => {
                self.resolve_market(condition_id, up_won);
                true
            },
            None => false,
        }
    }

    fn find_exec(&self, id: Word, token: Word) -> (r: usize)
        ensures
            r == first_held(self.held(), id, token),
            r <= self.held().len(),
            r < self.held().len() ==> self.held()[r as int].condition_id == id
                && self.held()[r as int].token_id == token,
    {
        let n: usize = self.positions.len();
        let mut i: usize = 0;
        assert(self.held().skip(0) =~= self.held());
        while i < n
            invariant
                n == self.held().len(),
                i <= n,
                first_held(self.held(), id, token) == i + first_held(
                    self.held().skip(i as int),
                    id,
                    token,
                ),
            decreases n - i,
        {
            let p = &self.positions[i];
            assert(self.held().skip(i as int)[0] == *p);
            if p.condition_id == id && p.token_id == token {
                return i;
            }
            assert(self.held().skip(i as int).drop_first() =~= self.held().skip(i + 1));
            i = i + 1;
        }
        i
    }

    /// The first position with this market and token.
    pub open spec fn position_to_sell(&self, id: Word, token: Word) -> Option<Position> {
        let i = first_held(self.held(), id, token);
        if i < self.held().len() {
            Some(self.held()[i])
        } else {
            None
        }
    }

    /// The realised profit after the first position with this market and token
    /// is sold at `price`, where there is one.
    pub open spec fn profit_after_sale(&self, id: Word, token: Word, price: Dec) -> Option<Dec> {
        match self.position_to_sell(id, token) {
            Some(p) => match p.sold_profit(price) {
                Some(gain) => sum_of(self.profit(), gain),
                None => None,
            },
            None => Some(self.profit()),
        }
    }

    fn profit_after_sale_exec(&self, id: Word, token: Word, price: Dec) -> (r: Option<Dec>)
        requires
            self.wf(),
            price.wf(),
        ensures
            r == self.profit_after_sale(id, token, price),
            r is Some ==> r->0.wf(),
    {
        let i: usize = self.find_exec(id, token);
        if i < self.positions.len() {
            let p = &self.positions[i];
            assert(self.held()[i as int].wf());
            match div_dec(p.amount_usdc, p.price_dec) {
                Some(shares) => match mul_dec(shares, price) {
                    Some(proceeds) => match sub_dec(proceeds, p.amount_usdc) {
                        Some(gain) => add_dec(self.realized_profit, gain),
                        None => None,
                    },
                    None => None,
                },
                None => None,
            }
        } else {
            Some(self.realized_profit)
        }
    }

    /// Sells the first position with this market and token. `price_text` is
    /// the price as a text; one that does not read as a decimal number counts
    /// as 0. Returns whether there was such a position.
    pub fn close_position_sell(&mut self, condition_id: Word, token_id: Word, price_text: &str) -> (r:
        bool)
        requires
            old(self).wf(),
            old(self).profit_after_sale(
                condition_id,
                token_id,
                text_value(price_text@).unwrap_or(integer(0)),
            ) is Some,
        ensures
            final(self).wf(),
            r == (old(self).position_to_sell(condition_id, token_id) is Some),
            Some(final(self).profit()) == old(self).profit_after_sale(
                condition_id,
                token_id,
                text_value(price_text@).unwrap_or(integer(0)),
            ),
            r ==> final(self).held() == old(self).held().remove(
                first_held(old(self).held(), condition_id, token_id),
            ),
            !r ==> final(self).held() == old(self).held(),
            final(self).start() == old(self).start(),
            final(self).log() == old(self).log(),
            final(self).file() == old(self).file(),
    {
        let price = match parse_dec(price_text) {
            Some(d) => d,
            None => whole(0),
        };
        let profit = self.profit_after_sale_exec(condition_id, token_id, price).unwrap();
        let i: usize = self.find_exec(condition_id, token_id);
        if i < self.positions.len() {
            let _sold = self.positions.remove(i);
            self.realized_profit = profit;
            assert forall|k: int| 0 <= k < self.held().len() implies (#[trigger] self.held()[k]).wf() by {
                if k < i {
                    assert(old(self).held()[k].wf());
                } else {
                    assert(old(self).held()[k + 1].wf());
                }
            }
            true
        } else {
            false
        }
    }

    /// `close_position_sell` where the profit is a decimal number; else nothing
    /// changes and the result is `None`.
    pub fn checked_close_position_sell(
        &mut self,
        condition_id: Word,
        token_id: Word,
        price_text: &str,
    ) -> (r: Option<bool>)
        requires
            old(self).wf(),
        ensures
            final(self).wf(),
            (r is Some) == (old(self).profit_after_sale(
                condition_id,
                token_id,
                text_value(price_text@).unwrap_or(integer(0)),
            ) is Some),
            r is Some ==> {
                &&& r->0 == (old(self).position_to_sell(condition_id, token_id) is Some)
                &&& Some(final(self).profit()) == old(self).profit_after_sale(
                    condition_id,
                    token_id,
                    text_value(price_text@).unwrap_or(integer(0)),
                )
                &&& r->0 ==> final(self).held() == old(self).held().remove(
                    first_held(old(self).held(), condition_id, token_id),
                )
                &&& !r->0 ==> final(self).held() == old(self).held()
            },
            r is None ==> final(self).profit() == old(self).profit() && final(self).held() == old(
                self,
            ).held(),
            final(self).start() == old(self).start(),
            final(self).log() == old(self).log(),
            final(self).file() == old(self).file(),
    {
        let price = match parse_dec(price_text) {
            Some(d) => d,
            None => whole(0),
        };
        match self.profit_after_sale_exec(condition_id, token_id, price) {
            Some(_) => Some(self.close_position_sell(condition_id, token_id, price_text)),
            None => None,
        }
    }

    /// The session in figures.
    pub fn summary(&self) -> (r: SessionSummary)
        requires
            self.wf(),
            self.balance() is Some,
        ensures
            r.wf(),
            r.trades_count == self.log().len() % 0x1_0000_0000,
            Some(r.open_invested) == invested(self.held()),
            r.realized_profit == self.profit(),
            r.start_balance == self.start(),
            Some(r.balance_remaining) == self.balance(),
    {
        let n: u64 = self.trades.len() as u64;
        assert(n as u32 == n % 0x1_0000_0000) by (bit_vector);
        let open = self.invested_exec().unwrap();
        SessionSummary {
            trades_count: n as u32,
            open_invested: open,
            realized_profit: self.realized_profit,
            start_balance: self.start_balance,
            balance_remaining: self.available_balance(),
        }
    }

    /// `summary`, or `None` where a sum on the way is too large for a decimal
    /// number.
    pub fn checked_summary(&self) -> (r: Option<SessionSummary>)
        requires
            self.wf(),
        ensures
            (r is Some) == (self.balance() is Some),
            r is Some ==> {
                &&& r->0.wf()
                &&& r->0.trades_count == self.log().len() % 0x1_0000_0000
                &&& Some(r->0.open_invested) == invested(self.held())
                &&& r->0.realized_profit == self.profit()
                &&& r->0.start_balance == self.start()
                &&& Some(r->0.balance_remaining) == self.balance()
            },
    {
        match self.checked_available_balance() {
            Some(_) => Some(self.summary()),
            None => None,
        }
    }

    /// The market of every open position, in order.
    pub fn open_condition_ids(&self) -> (r: Vec<Word>)
        ensures
            r@ == self.held().map_values(|p: Position| p.condition_id),
    {
        let mut out: Vec<Word> = Vec::new();
        let n: usize = self.positions.len();
        let mut i: usize = 0;
        while i < n
            invariant
                n == self.held().len(),
                i <= n,
                out@.len() == i,
                forall|k: int| 0 <= k < i ==> out@[k] == (#[trigger] self.held()[k]).condition_id,
            decreases n - i,
        {
            out.push(self.positions[i].condition_id);
            i = i + 1;
        }
        assert(out@ =~= self.held().map_values(|p: Position| p.condition_id));
        out
    }

    /// The open positions, in order.
    pub fn open_positions(&self) -> (r: Vec<Position>)
        ensures
            r@ == self.held(),
    {
        let mut out: Vec<Position> = Vec::new();
        let n: usize = self.positions.len();
        let mut i: usize = 0;
        while i < n
            invariant
                n == self.held().len(),
                i <= n,
                out@ == self.held().take(i as int),
            decreases n - i,
        {
            out.push(self.positions[i].clone());
            i = i + 1;
            assert(self.held().take(i as int) =~= self.held().take(i - 1).push(self.held()[i - 1]));
        }
        assert(self.held().take(n as int) =~= self.held());
        out
    }

    /// Where the trade log is written to.
    pub fn results_file(&self) -> (r: &str)
        ensures
            r@ == self.file(),
    {
        self.results_file.as_str()
    }

    /// `print_summary` has every figure that it prints.
    pub open spec fn printable(&self) -> bool {
        self.balance() is Some && difference_of(self.profit(), invested(self.held())->0) is Some
    }

    /// The lines of the closing report.
    pub open spec fn report(&self) -> Seq<Seq<char>> {
        let open = invested(self.held())->0;
        seq![
            RULE@,
            "  SESSION RESULTS"@,
            RULE@,
            "  Trades:          "@ + numeral(self.log().len() % 0x1_0000_0000),
            "  Open invested:   "@ + open.notation() + " USDC"@,
            "  Realized profit: "@ + self.profit().notation() + " USDC"@,
            "  Start balance:   "@ + self.start().notation() + " USDC"@,
            "  Balance:         "@ + self.balance()->0.notation() + " USDC"@,
            "  Net P&L:         "@ + difference_of(self.profit(), open)->0.notation() + " USDC"@,
            "  Results file:    "@ + self.file(),
            RULE@,
        ]
    }

    /// The lines of the closing report.
    pub fn print_summary(&self) -> (r: Vec<String>)
        requires
            self.wf(),
            self.printable(),
        ensures
            r@.map_values(|s: String| s@) == self.report(),
    {
        let s = self.summary();
        let mut out: Vec<String> = Vec::new();
        out.push(RULE.to_owned());
        out.push("  SESSION RESULTS".to_owned());
        out.push(RULE.to_owned());
        let count = number_text(s.trades_count as u64);
        out.push("  Trades:          ".to_owned().concat(count.as_str()));
        out.push(amount_line("  Open invested:   ", s.open_invested));
        out.push(amount_line("  Realized profit: ", s.realized_profit));
        out.push(amount_line("  Start balance:   ", s.start_balance));
        out.push(amount_line("  Balance:         ", s.balance_remaining));
        out.push(amount_line("  Net P&L:         ", s.pnl()));
        out.push("  Results file:    ".to_owned().concat(self.results_file.as_str()));
        out.push(RULE.to_owned());
        assert(out@.map_values(|s: String| s@) =~= self.report());
        out
    }

    /// `print_summary`, or `None` where a figure is too large for a decimal
    /// number.
    pub fn checked_print_summary(&self) -> (r: Option<Vec<String>>)
        requires
            self.wf(),
        ensures
            (r is Some) == self.printable(),
            r is Some ==> r->0@.map_values(|s: String| s@) == self.report(),
    {
        match self.checked_summary() {
            Some(s) => match s.checked_pnl() {
                Some(_) => Some(self.print_summary()),
                None => None,
            },
            None => None,
        }
    }
}

fn amount_line(label: &str, amount: Dec) -> (r: String)
    requires
        amount.wf(),
    ensures
        r@ == label@ + amount.notation() + " USDC"@,
{
    label.to_owned().concat(dec_text(amount).as_str()).concat(" USDC")
}

proof fn lemma_outside_is_part(ps: Seq<Position>, id: Word)
    ensures
        forall|i: int|
            0 <= i < outside(ps, id).len() ==> ps.contains(#[trigger] outside(ps, id)[i])
                && outside(ps, id)[i].condition_id != id,
    decreases ps.len(),
{
    reveal(Seq::filter);
    if ps.len() > 0 {
        let rest = ps.drop_last();
        lemma_outside_is_part(rest, id);
        assert forall|i: int| 0 <= i < outside(ps, id).len() implies ps.contains(
            #[trigger] outside(ps, id)[i],
        ) && outside(ps, id)[i].condition_id != id by {
            if i < outside(rest, id).len() {
                let p = outside(rest, id)[i];
                assert(rest.contains(p));
                let k = choose|k: int| 0 <= k < rest.len() && rest[k] == p;
                assert(ps[k] == p);
            } else {
                assert(ps[ps.len() - 1] == ps.last());
            }
        }
    }
}

/// What the positions cost in all, in units of the smallest decimal place.
pub open spec fn invested_units(ps: Seq<Position>) -> int
    decreases ps.len(),
{
    if ps.len() == 0 {
        0
    } else {
        invested_units(ps.drop_last()) + ps.last().amount_usdc.units()
    }
}

/// What the positions in the market `id` cost in all.
pub open spec fn stake_units(ps: Seq<Position>, id: Word) -> int
    decreases ps.len(),
{
    if ps.len() == 0 {
        0
    } else if ps.last().condition_id == id {
        stake_units(ps.drop_last(), id) + ps.last().amount_usdc.units()
    } else {
        stake_units(ps.drop_last(), id)
    }
}

/// What the market `id` pays out: for every position on the side that won, as
/// much as its amount divided by its price.
pub open spec fn payout_units(ps: Seq<Position>, id: Word, up_won: bool) -> int
    decreases ps.len(),
{
    if ps.len() == 0 {
        0
    } else if ps.last().condition_id == id && ps.last().bought_up == up_won {
        payout_units(ps.drop_last(), id, up_won) + quotient_of(
            ps.last().amount_usdc,
            ps.last().price_dec,
        )->0.units()
    } else {
        payout_units(ps.drop_last(), id, up_won)
    }
}

/// No sum on the way to `invested` needs rounding.
pub open spec fn adds_exactly(ps: Seq<Position>) -> bool
    decreases ps.len(),
{
    ps.len() > 0 ==> adds_exactly(ps.drop_last()) && invested(ps.drop_last())->0.sum_is_exact(
        ps.last().amount_usdc,
    )
}

/// No sum or difference on the way to `settled` needs rounding, and every
/// position in the market has a number of shares.
pub open spec fn settles_exactly(ps: Seq<Position>, profit: Dec, id: Word, up_won: bool) -> bool
    decreases ps.len(),
{
    ps.len() > 0 ==> {
        let p = ps.last();
        let before = settled(ps.drop_last(), profit, id, up_won);
        let shares = quotient_of(p.amount_usdc, p.price_dec);
        let paid = if p.bought_up == up_won {
            shares->0
        } else {
            integer(0)
        };
        &&& settles_exactly(ps.drop_last(), profit, id, up_won)
        &&& p.condition_id == id ==> {
            &&& shares is Some
            &&& shares->0.wf()
            &&& paid.sum_is_exact(p.amount_usdc.neg())
            &&& before->0.sum_is_exact(paid.exact_sum(p.amount_usdc.neg()))
        }
    }
}

/// Every position in a sequence is made of decimal numbers.
pub open spec fn all_wf(ps: Seq<Position>) -> bool {
    forall|i: int| 0 <= i < ps.len() ==> (#[trigger] ps[i]).wf()
}

/// Where no sum needs rounding, what is invested is what the positions cost
/// together.
pub proof fn invested_adds_up(ps: Seq<Position>)
    requires
        all_wf(ps),
        adds_exactly(ps),
    ensures
        invested(ps) is Some,
        invested(ps)->0.wf(),
        invested(ps)->0.units() == invested_units(ps),
    decreases ps.len(),
{
    if ps.len() > 0 {
        assert(all_wf(ps.drop_last())) by {
            assert forall|i: int| 0 <= i < ps.drop_last().len() implies (
            #[trigger] ps.drop_last()[i]).wf() by {
                assert(ps[i].wf());
            }
        }
        invested_adds_up(ps.drop_last());
        assert(ps[ps.len() - 1].wf());
        exact_sum_adds(invested(ps.drop_last())->0, ps.last().amount_usdc);
    } else {
        assert(integer(0).units() == 0) by (nonlinear_arith)
            requires
                integer(0).units() == 0 * pow10(28),
        ;
    }
}

/// No sum or difference on the way to the balance needs rounding.
pub open spec fn counts_exactly(start: Dec, profit: Dec, ps: Seq<Position>) -> bool {
    &&& adds_exactly(ps)
    &&& start.sum_is_exact(profit)
    &&& start.exact_sum(profit).sum_is_exact(invested(ps)->0.neg())
}

/// The available balance is the start balance plus the realised profit less
/// what the open positions cost, exactly, where no sum needs rounding.
pub proof fn balance_adds_up(start: Dec, profit: Dec, ps: Seq<Position>)
    requires
        start.wf(),
        profit.wf(),
        all_wf(ps),
        counts_exactly(start, profit, ps),
    ensures
        invested(ps) is Some,
        balance_of(start, profit, invested(ps)->0) is Some,
        balance_of(start, profit, invested(ps)->0)->0.units() == start.units() + profit.units()
            - invested_units(ps),
{
    invested_adds_up(ps);
    exact_sum_adds(start, profit);
    let open = invested(ps)->0;
    neg_negates(open);
    exact_sum_adds(start.exact_sum(profit), open.neg());
}

/// A new position raises what is invested by its amount, and by nothing else.
pub proof fn new_position_is_invested(ps: Seq<Position>, p: Position)
    ensures
        invested(ps) is Some ==> invested(ps.push(p)) == sum_of(invested(ps)->0, p.amount_usdc),
        invested_units(ps.push(p)) == invested_units(ps) + p.amount_usdc.units(),
{
    assert(ps.push(p).drop_last() =~= ps);
}

/// Resolving a market takes the cost of its positions out of what is invested.
pub proof fn resolution_frees_the_stake(ps: Seq<Position>, id: Word)
    ensures
        invested_units(outside(ps, id)) == invested_units(ps) - stake_units(ps, id),
    decreases ps.len(),
{
    reveal(Seq::filter);
    if ps.len() > 0 {
        let rest = ps.drop_last();
        resolution_frees_the_stake(rest, id);
        if ps.last().condition_id != id {
            assert(outside(ps, id).drop_last() =~= outside(rest, id));
        }
    } else {
        assert(outside(ps, id) =~= Seq::empty());
    }
}

/// Resolving a market adds to the realised profit what the shares of the side
/// that won pay, less what all its positions cost, where nothing is rounded.
pub proof fn resolution_pays_out(ps: Seq<Position>, profit: Dec, id: Word, up_won: bool)
    requires
        profit.wf(),
        all_wf(ps),
        settles_exactly(ps, profit, id, up_won),
    ensures
        settled(ps, profit, id, up_won) is Some,
        settled(ps, profit, id, up_won)->0.wf(),
        settled(ps, profit, id, up_won)->0.units() == profit.units() + payout_units(ps, id, up_won)
            - stake_units(ps, id),
    decreases ps.len(),
{
    if ps.len() > 0 {
        let rest = ps.drop_last();
        assert(all_wf(rest)) by {
            assert forall|i: int| 0 <= i < rest.len() implies (#[trigger] rest[i]).wf() by {
                assert(ps[i].wf());
            }
        }
        resolution_pays_out(rest, profit, id, up_won);
        let p = ps.last();
        assert(ps[ps.len() - 1].wf());
        if p.condition_id == id {
            let paid = if p.bought_up == up_won {
                quotient_of(p.amount_usdc, p.price_dec)->0
            } else {
                integer(0)
            };
            assert(integer(0).units() == 0) by (nonlinear_arith)
                requires
                    integer(0).units() == 0 * pow10(28),
            ;
            neg_negates(p.amount_usdc);
            exact_sum_adds(paid, p.amount_usdc.neg());
            exact_sum_adds(
                settled(rest, profit, id, up_won)->0,
                paid.exact_sum(p.amount_usdc.neg()),
            );
        }
    }
}

/// A market can be resolved again without effect: none of its positions is
/// left, so that the second time neither the profit nor the positions change.
pub proof fn resolving_twice_is_resolving_once(
    ps: Seq<Position>,
    profit: Dec,
    id: Word,
    up_won: bool,
)
    ensures
        settled(outside(ps, id), profit, id, up_won) == Some(profit),
        outside(outside(ps, id), id) == outside(ps, id),
{
    lemma_outside_is_part(ps, id);
    lemma_nothing_to_settle(outside(ps, id), profit, id, up_won);
}

/// A market without positions settles without effect.
proof fn lemma_nothing_to_settle(ps: Seq<Position>, profit: Dec, id: Word, up_won: bool)
    requires
        forall|i: int| 0 <= i < ps.len() ==> (#[trigger] ps[i]).condition_id != id,
    ensures
        settled(ps, profit, id, up_won) == Some(profit),
        outside(ps, id) == ps,
    decreases ps.len(),
{
    reveal(Seq::filter);
    if ps.len() > 0 {
        let rest = ps.drop_last();
        assert forall|i: int| 0 <= i < rest.len() implies (#[trigger] rest[i]).condition_id
            != id by {
            assert(rest[i] == ps[i]);
        }
        lemma_nothing_to_settle(rest, profit, id, up_won);
        assert(ps[ps.len() - 1].condition_id != id);
        assert(ps =~= rest.push(ps.last()));
    } else {
        assert(outside(ps, id) =~= ps);
    }
}

/// A sale takes the cost of the position sold out of what is invested.
pub proof fn sale_frees_the_stake(ps: Seq<Position>, i: int)
    requires
        0 <= i < ps.len(),
    ensures
        invested_units(ps.remove(i)) == invested_units(ps) - ps[i].amount_usdc.units(),
    decreases ps.len(),
{
    if i == ps.len() - 1 {
        assert(ps.remove(i) =~= ps.drop_last());
    } else {
        sale_frees_the_stake(ps.drop_last(), i);
        assert(ps.remove(i).drop_last() =~= ps.drop_last().remove(i));
        assert(ps.remove(i).last() == ps.last());
    }
}

/// A sale gains the proceeds less what the position cost, where nothing is
/// rounded.
pub proof fn sale_brings_in_the_proceeds(p: Position, price: Dec, proceeds: Dec)
    requires
        p.wf(),
        quotient_of(p.amount_usdc, p.price_dec) is Some,
        product_of(quotient_of(p.amount_usdc, p.price_dec)->0, price) == Some(proceeds),
        proceeds.wf(),
        proceeds.sum_is_exact(p.amount_usdc.neg()),
    ensures
        p.sold_profit(price) is Some,
        p.sold_profit(price)->0.units() == proceeds.units() - p.amount_usdc.units(),
{
    neg_negates(p.amount_usdc);
    exact_sum_adds(proceeds, p.amount_usdc.neg());
}

/// Resolving a market raises the available balance by exactly what the market
/// pays out, where nothing is rounded. So a market that is lost leaves the
/// balance as it was: the stake was taken out of it when it was placed.
pub proof fn resolution_raises_the_balance_by_the_payout(
    start: Dec,
    profit: Dec,
    ps: Seq<Position>,
    id: Word,
    up_won: bool,
)
    requires
        start.wf(),
        profit.wf(),
        all_wf(ps),
        settles_exactly(ps, profit, id, up_won),
        counts_exactly(start, profit, ps),
        counts_exactly(start, settled(ps, profit, id, up_won)->0, outside(ps, id)),
    ensures
        balance_of(
            start,
            settled(ps, profit, id, up_won)->0,
            invested(outside(ps, id))->0,
        )->0.units() == balance_of(start, profit, invested(ps)->0)->0.units() + payout_units(
            ps,
            id,
            up_won,
        ),
{
    resolution_pays_out(ps, profit, id, up_won);
    resolution_frees_the_stake(ps, id);
    lemma_outside_is_part(ps, id);
    assert(all_wf(outside(ps, id))) by {
        assert forall|i: int| 0 <= i < outside(ps, id).len() implies (#[trigger] outside(
            ps,
            id,
        )[i]).wf() by {
            let p = outside(ps, id)[i];
            assert(ps.contains(p));
            let k = choose|k: int| 0 <= k < ps.len() && ps[k] == p;
            assert(ps[k].wf());
        }
    }
    balance_adds_up(start, profit, ps);
    balance_adds_up(start, settled(ps, profit, id, up_won)->0, outside(ps, id));
}

/// Selling the position at `i` raises the available balance by exactly the
/// proceeds, where nothing is rounded.
pub proof fn sale_raises_the_balance_by_the_proceeds(
    start: Dec,
    profit: Dec,
    ps: Seq<Position>,
    i: int,
    price: Dec,
    proceeds: Dec,
)
    requires
        start.wf(),
        profit.wf(),
        all_wf(ps),
        0 <= i < ps.len(),
        quotient_of(ps[i].amount_usdc, ps[i].price_dec) is Some,
        product_of(quotient_of(ps[i].amount_usdc, ps[i].price_dec)->0, price) == Some(proceeds),
        proceeds.wf(),
        proceeds.sum_is_exact(ps[i].amount_usdc.neg()),
        profit.sum_is_exact(proceeds.exact_sum(ps[i].amount_usdc.neg())),
        counts_exactly(start, profit, ps),
        counts_exactly(start, sum_of(profit, ps[i].sold_profit(price)->0)->0, ps.remove(i)),
    ensures
        balance_of(
            start,
            sum_of(profit, ps[i].sold_profit(price)->0)->0,
            invested(ps.remove(i))->0,
        )->0.units() == balance_of(start, profit, invested(ps)->0)->0.units() + proceeds.units(),
{
    sale_brings_in_the_proceeds(ps[i], price, proceeds);
    sale_frees_the_stake(ps, i);
    neg_negates(ps[i].amount_usdc);
    exact_sum_adds(proceeds, ps[i].amount_usdc.neg());
    exact_sum_adds(profit, proceeds.exact_sum(ps[i].amount_usdc.neg()));
    assert(all_wf(ps.remove(i))) by {
        assert forall|k: int| 0 <= k < ps.remove(i).len() implies (#[trigger] ps.remove(i)[k]).wf() by {
            if k < i {
                assert(ps[k].wf());
            } else {
                assert(ps[k + 1].wf());
            }
        }
    }
    balance_adds_up(start, profit, ps);
    balance_adds_up(start, sum_of(profit, ps[i].sold_profit(price)->0)->0, ps.remove(i));
}

/// With nothing gained and nothing invested, all of the start balance is there.
proof fn lemma_unspent(start: Dec)
    requires
        start.wf(),
    ensures
        balance_of(start, integer(0), integer(0)) is Some,
        balance_of(start, integer(0), integer(0))->0.units() == start.units(),
        start.mantissa != 0 ==> balance_of(start, integer(0), integer(0)) == Some(start),
{
    neg_negates(integer(0));
    exact_sum_adds(start, integer(0));
    exact_sum_adds(start.exact_sum(integer(0)), integer(0).neg());
    assert(integer(0).units() == 0) by (nonlinear_arith)
        requires
            integer(0).units() == 0 * pow10(28),
    ;
}

/// The books that a session opens with: 100 USDC, as in paper mode.
pub fn create_tracker(results_file: String) -> (r: SessionTracker)
    ensures
        r.wf(),
        r.start() == integer(PAPER_START_USDC as int),
        r.profit() == integer(0),
        r.held() == Seq::<Position>::empty(),
        r.log() == Seq::<TradeRecord>::empty(),
        r.file() == results_file@,
        r.balance() == Some(integer(PAPER_START_USDC as int)),
{
    proof {
        lemma_unspent(integer(PAPER_START_USDC as int));
    }
    SessionTracker::new(whole(PAPER_START_USDC), results_file)
}

/// The shares of a position are worth at its price what was paid for them: the
/// number of shares times the price is the amount, wherever the price divides
/// it. There are none to count at a price of nothing.
pub proof fn shares_are_worth_the_amount(p: Position)
    requires
        p.wf(),
    ensures
        p.price_dec.mantissa == 0 ==> p.shares() is None,
        divides(p.price_dec, p.amount_usdc) && p.amount_usdc.scale >= p.price_dec.scale
            ==> p.shares() is Some,
        divides(p.price_dec, p.amount_usdc) && p.shares() is Some ==> p.shares()->0.units()
            * p.price_dec.units() == p.amount_usdc.units() * integer(1).units(),
        p.shares() == quotient_of(p.amount_usdc, p.price_dec),
{
    if divides(p.price_dec, p.amount_usdc) && p.shares() is Some {
        whole_quotient_divides(p.amount_usdc, p.price_dec);
    }
}

/// A position on the side that won gains what its amount is worth at 1 rather
/// than at its price; one on the other side loses its amount.
pub proof fn a_win_pays_amount_over_price(p: Position, up_won: bool)
    requires
        p.wf(),
        quotient_of(p.amount_usdc, p.price_dec) is Some,
    ensures
        (p.bought_up && !up_won) || (!p.bought_up && up_won) ==> p.resolved_profit(up_won) is Some
            && p.resolved_profit(up_won)->0.units() == -p.amount_usdc.units(),
        ((p.bought_up && up_won) || (!p.bought_up && !up_won)) && divides(
            p.price_dec,
            p.amount_usdc,
        ) && quotient_of(p.amount_usdc, p.price_dec)->0.sum_is_exact(p.amount_usdc.neg()) ==> {
            &&& p.resolved_profit(up_won) is Some
            &&& p.resolved_profit(up_won)->0.units() * p.price_dec.units() == p.amount_usdc.units()
                * (integer(1).units() - p.price_dec.units())
        },
        (p.bought_up && up_won) || (!p.bought_up && !up_won) ==> p.resolved_profit(up_won)
            == difference_of(quotient_of(p.amount_usdc, p.price_dec)->0, p.amount_usdc),
{
    let shares = quotient_of(p.amount_usdc, p.price_dec)->0;
    neg_negates(p.amount_usdc);
    if p.bought_up != up_won {
        assert(integer(0).units() == 0) by (nonlinear_arith)
            requires
                integer(0).units() == 0 * pow10(28),
        ;
        exact_sum_adds(integer(0), p.amount_usdc.neg());
    } else if divides(p.price_dec, p.amount_usdc) && shares.sum_is_exact(p.amount_usdc.neg()) {
        whole_quotient_divides(p.amount_usdc, p.price_dec);
        exact_sum_adds(shares, p.amount_usdc.neg());
        let a = p.amount_usdc.units();
        let w = p.price_dec.units();
        let one = integer(1).units();
        assert((shares.units() - a) * w == a * (one - w)) by (nonlinear_arith)
            requires
                shares.units() * w == a * one,
        ;
    }
}

/// A sale gains, for every share, what it is sold for less what it was bought
/// for: the gain times the price paid is the amount times that difference.
pub proof fn a_sale_gains_the_difference_in_price(p: Position, price: Dec)
    requires
        p.wf(),
        price.wf(),
        divides(p.price_dec, p.amount_usdc),
        quotient_of(p.amount_usdc, p.price_dec) is Some,
        ({
            let shares = quotient_of(p.amount_usdc, p.price_dec)->0;
            &&& shares.mantissa == 0 || price.mantissa == 0 || product_is_exact(shares, price)
            &&& product_of(shares, price)->0.sum_is_exact(p.amount_usdc.neg())
        }),
    ensures
        p.sold_profit(price) is Some,
        p.sold_profit(price)->0.wf(),
        p.sold_profit(price)->0.units() * p.price_dec.units() == p.amount_usdc.units() * (
        price.units() - p.price_dec.units()),
{
    let shares = quotient_of(p.amount_usdc, p.price_dec)->0;
    let proceeds = product_of(shares, price)->0;
    whole_quotient_divides(p.amount_usdc, p.price_dec);
    exact_product_multiplies(shares, price);
    neg_negates(p.amount_usdc);
    exact_sum_adds(proceeds, p.amount_usdc.neg());
    let a = p.amount_usdc.units();
    let w = p.price_dec.units();
    let one = integer(1).units();
    let s = shares.units();
    let v = price.units();
    let n = proceeds.units();
    assert(one > 0) by {
        pow10_is_positive(28);
        assert(integer(1).units() == 1 * pow10(28));
    }
    assert((n * w) * one == (a * v) * one) by (nonlinear_arith)
        requires
            n * one == s * v,
            s * w == a * one,
    ;
    assert(n * w == a * v) by (nonlinear_arith)
        requires
            (n * w) * one == (a * v) * one,
            one > 0,
    ;
    assert((n - a) * w == a * (v - w)) by (nonlinear_arith)
        requires
            n * w == a * v,
    ;
}

/// Whatever has to be rounded on the way, a sale gains the shares times the price
/// less the amount; nothing can be gained where one of these is too large.
pub proof fn a_sale_gains_proceeds_less_amount(p: Position, price: Dec, proceeds: Option<Dec>)
    requires
        quotient_of(p.amount_usdc, p.price_dec) is Some,
        proceeds == product_of(quotient_of(p.amount_usdc, p.price_dec)->0, price),
    ensures
        proceeds is None ==> p.sold_profit(price) is None,
        proceeds is Some ==> p.sold_profit(price) == difference_of(proceeds->0, p.amount_usdc),
{
}

/// The position that a sale takes is the first in its market and token; there is
/// none exactly where no position is.
pub proof fn the_first_position_is_sold(ps: Seq<Position>, id: Word, token: Word)
    ensures
        0 <= first_held(ps, id, token) <= ps.len(),
        first_held(ps, id, token) < ps.len() ==> ps[first_held(ps, id, token)].condition_id == id
            && ps[first_held(ps, id, token)].token_id == token,
        forall|i: int|
            0 <= i < first_held(ps, id, token) ==> (#[trigger] ps[i]).condition_id != id
                || ps[i].token_id != token,
    decreases ps.len(),
{
    if ps.len() > 0 && !(ps[0].condition_id == id && ps[0].token_id == token) {
        let rest = ps.drop_first();
        the_first_position_is_sold(rest, id, token);
        let k = first_held(rest, id, token);
        if k < rest.len() {
            assert(rest[k] == ps[k + 1]);
        }
        assert forall|i: int| 0 <= i < first_held(ps, id, token) implies (
        #[trigger] ps[i]).condition_id != id || ps[i].token_id != token by {
            if i > 0 {
                assert(rest[i - 1] == ps[i]);
            }
        }
    }
}

/// Resolving a market keeps every position of another market, and none of its
/// own.
pub proof fn other_markets_are_left_alone(ps: Seq<Position>, id: Word, i: int)
    requires
        0 <= i < ps.len(),
    ensures
        ps[i].condition_id != id ==> outside(ps, id).contains(ps[i]),
        forall|k: int|
            0 <= k < outside(ps, id).len() ==> (#[trigger] outside(ps, id)[k]).condition_id != id,
    decreases ps.len(),
{
    reveal(Seq::filter);
    lemma_outside_is_part(ps, id);
    if ps[i].condition_id != id {
        let rest = ps.drop_last();
        if i < rest.len() {
            other_markets_are_left_alone(rest, id, i);
            assert(rest[i] == ps[i]);
            let k = choose|k: int| 0 <= k < outside(rest, id).len() && outside(rest, id)[k]
                == ps[i];
            assert(outside(ps, id)[k] == ps[i]);
        } else {
            assert(outside(ps, id)[outside(ps, id).len() - 1] == ps[i]);
        }
    }
}

/// The net result is the realised profit less what is still invested, exactly,
/// where the difference needs no rounding.
pub proof fn net_is_profit_less_invested(s: SessionSummary)
    requires
        s.wf(),
        s.realized_profit.sum_is_exact(s.open_invested.neg()),
    ensures
        s.net() is Some,
        s.net()->0.units() == s.realized_profit.units() - s.open_invested.units(),
{
    neg_negates(s.open_invested);
    exact_sum_adds(s.realized_profit, s.open_invested.neg());
}

impl SessionTracker {
    /// A sale changes the realised profit by what the first position in the
    /// market and token gains, and by nothing where there is none.
    pub proof fn a_sale_is_of_one_position(&self, id: Word, token: Word, price: Dec, i: int)
        requires
            0 <= i <= self.held().len(),
            forall|k: int|
                0 <= k < i ==> (#[trigger] self.held()[k]).condition_id != id
                    || self.held()[k].token_id != token,
            i < self.held().len() ==> self.held()[i].condition_id == id
                && self.held()[i].token_id == token,
        ensures
            first_held(self.held(), id, token) == i,
            i == self.held().len() ==> self.profit_after_sale(id, token, price) == Some(
                self.profit(),
            ) && self.position_to_sell(id, token) is None,
            i < self.held().len() ==> self.position_to_sell(id, token) == Some(self.held()[i]),
            i < self.held().len() && self.held()[i].sold_profit(price) is Some
                ==> self.profit_after_sale(id, token, price) == sum_of(
                self.profit(),
                self.held()[i].sold_profit(price)->0,
            ),
    {
        the_first_position_is_sold(self.held(), id, token);
    }
}

/// A market that resolves pays for a further position exactly its amount divided
/// by its price where it is on the side that won, and nothing else; positions of
/// other markets do not count.
pub proof fn a_market_pays_amount_over_price(
    ps: Seq<Position>,
    p: Position,
    id: Word,
    up_won: bool,
)
    requires
        p.wf(),
        divides(p.price_dec, p.amount_usdc),
        quotient_of(p.amount_usdc, p.price_dec) is Some,
    ensures
        p.condition_id == id && p.bought_up == up_won ==> (payout_units(ps.push(p), id, up_won)
            - payout_units(ps, id, up_won)) * p.price_dec.units() == p.amount_usdc.units()
            * integer(1).units(),
        p.condition_id != id || p.bought_up != up_won ==> payout_units(ps.push(p), id, up_won)
            == payout_units(ps, id, up_won),
{
    whole_quotient_divides(p.amount_usdc, p.price_dec);
    assert(ps.push(p).drop_last() =~= ps);
}

/// A further position changes the profit of a resolution by what it gains
/// itself: nothing in another market, its amount lost on the side that lost, and
/// the amount at 1 rather than at the price paid on the side that won.
pub proof fn positions_settle_one_by_one(
    ps: Seq<Position>,
    p: Position,
    profit: Dec,
    id: Word,
    up_won: bool,
)
    requires
        p.wf(),
        settled(ps, profit, id, up_won) is Some,
        settled(ps, profit, id, up_won)->0.wf(),
        divides(p.price_dec, p.amount_usdc),
        quotient_of(p.amount_usdc, p.price_dec) is Some,
        ({
            let before = settled(ps, profit, id, up_won)->0;
            let shares = quotient_of(p.amount_usdc, p.price_dec)->0;
            &&& before.sum_is_exact(p.amount_usdc.neg())
            &&& shares.sum_is_exact(p.amount_usdc.neg())
            &&& before.sum_is_exact(shares.exact_sum(p.amount_usdc.neg()))
        }),
    ensures
        ({
            let before = settled(ps, profit, id, up_won)->0;
            let after = settled(ps.push(p), profit, id, up_won);
            &&& after is Some
            &&& p.condition_id != id ==> after->0 == before
            &&& p.condition_id == id && p.bought_up != up_won ==> after->0.units()
                == before.units() - p.amount_usdc.units()
            &&& p.condition_id == id && p.bought_up == up_won ==> (after->0.units()
                - before.units()) * p.price_dec.units() == p.amount_usdc.units() * (integer(
                1,
            ).units() - p.price_dec.units())
        }),
{
    assert(ps.push(p).drop_last() =~= ps);
    let before = settled(ps, profit, id, up_won)->0;
    let shares = quotient_of(p.amount_usdc, p.price_dec)->0;
    a_win_pays_amount_over_price(p, up_won);
    neg_negates(p.amount_usdc);
    whole_quotient_divides(p.amount_usdc, p.price_dec);
    exact_sum_adds(shares, p.amount_usdc.neg());
    if p.bought_up == up_won {
        exact_sum_adds(before, shares.exact_sum(p.amount_usdc.neg()));
    } else {
        exact_sum_adds(before, p.amount_usdc.neg());
    }
}

impl SessionTracker {
    /// A trade is written down once, as it was made. In a known market it becomes
    /// a position of its side, token, amount and price; in none it is a line of the
    /// log only. What is left of the books stays as it was.
    pub proof fn trades_are_written_down_once(
        &self,
        before: SessionTracker,
        r: TradeRecord,
        t: TradeView,
    )
        requires
            self.adds(before, r, t),
        ensures
            self.log().len() == before.log().len() + 1,
            self.log().last() == r,
            r.mode@ == t.mode,
            r.market@ == t.market,
            r.amount_usdc@ == t.amount_usdc.notation(),
            r.price == t.price,
            r.executed == t.executed,
            t.condition_id is None ==> self.held() == before.held() && invested_units(self.held())
                == invested_units(before.held()),
            t.condition_id is Some ==> {
                let p = self.held().last();
                &&& self.held() == before.held().push(p)
                &&& Some(p.condition_id) == t.condition_id
                &&& p.token_id == t.token_id
                &&& p.bought_up == t.bought_up
                &&& p.amount_usdc == t.amount_usdc
                &&& p.price_dec == t.price_dec
                &&& p.shares() == quotient_of(t.amount_usdc, t.price_dec)
                &&& invested_units(self.held()) == invested_units(before.held())
                    + t.amount_usdc.units()
            },
            self.profit() == before.profit(),
            self.start() == before.start(),
    {
        if t.condition_id is Some {
            assert(self.held() =~= before.held().push(self.held().last()));
            new_position_is_invested(before.held(), self.held().last());
        }
    }
}

impl SessionTracker {
    /// The closing report says what the summary does: how many trades, what is
    /// invested, gained, there at the start and left, and the net result.
    pub proof fn the_report_says_what_the_summary_does(&self, s: SessionSummary)
        requires
            self.printable(),
            s.trades_count == self.log().len() % 0x1_0000_0000,
            Some(s.open_invested) == invested(self.held()),
            s.realized_profit == self.profit(),
            s.start_balance == self.start(),
            Some(s.balance_remaining) == self.balance(),
        ensures
            s.net() is Some,
            self.report().len() == 11,
            self.report()[3] == "  Trades:          "@ + numeral(s.trades_count as nat),
            self.report()[4] == "  Open invested:   "@ + s.open_invested.notation() + " USDC"@,
            self.report()[5] == "  Realized profit: "@ + s.realized_profit.notation() + " USDC"@,
            self.report()[6] == "  Start balance:   "@ + s.start_balance.notation() + " USDC"@,
            self.report()[7] == "  Balance:         "@ + s.balance_remaining.notation() + " USDC"@,
            self.report()[8] == "  Net P&L:         "@ + s.net()->0.notation() + " USDC"@,
            self.report()[9] == "  Results file:    "@ + self.file(),
    {
    }
}

} // verus!
