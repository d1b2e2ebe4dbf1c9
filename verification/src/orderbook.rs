//! The best level of each side of every order book that is watched.

use dashmap::DashMap;
use vstd::prelude::*;

use crate::figure::Figure;
use crate::ids::Word;

verus! {

/// `dashmap::DashMap`.
#[verifier::external_type_specification]
#[verifier::external_body]
#[verifier::reject_recursive_types(K)]
#[verifier::reject_recursive_types(V)]
#[verifier::reject_recursive_types(S)]
pub struct ExDashMap<K, V, S>(DashMap<K, V, S>);

/// The best level of each side of one book: price and size.
#[derive(Clone, Copy, Debug)]
pub struct BookLevels {
    pub best_bid: Option<(Figure, Figure)>,
    pub best_ask: Option<(Figure, Figure)>,
}

/// A token's books by the limbs of its id; prices and sizes by bit pattern.
pub type OrderbookState = DashMap<
    (u64, u64, u64, u64),
    (Option<(u64, u64)>, Option<(u64, u64)>),
>;

/// What a map of books holds.
pub uninterp spec fn books(
    m: DashMap<(u64, u64, u64, u64), (Option<(u64, u64)>, Option<(u64, u64)>)>,
) -> Map<(u64, u64, u64, u64), (Option<(u64, u64)>, Option<(u64, u64)>)>;

/// Calls `DashMap::new`: a map without entries.
#[verifier::external_body]
fn new_books() -> (m: OrderbookState)
    ensures
        books(m).dom().is_empty(),
{
    DashMap::new()
}

/// Calls `DashMap::insert`: the key has this value afterwards, and every other
/// key the one that it had.
#[verifier::external_body]
fn insert_book(
    m: &mut OrderbookState,
    token: (u64, u64, u64, u64),
    levels: (Option<(u64, u64)>, Option<(u64, u64)>),
)
    ensures
        books(*final(m)) == books(*old(m)).insert(token, levels),
{
    m.insert(token, levels);
}

/// Calls `DashMap::get`: the value of a key, where it has one.
#[verifier::external_body]
fn get_book(m: &OrderbookState, token: (u64, u64, u64, u64)) -> (r: Option<
    (Option<(u64, u64)>, Option<(u64, u64)>),
>)
    ensures
        r is Some <==> books(*m).dom().contains(token),
        r is Some ==> r->0 == books(*m)[token],
{
    m.get(&token).map(|g| *g)
}

/// One level of a book: price and size.
#[derive(Clone, Copy, Debug, PartialEq, Eq, Structural)]
pub struct Level {
    pub price: Figure,
    pub size: Figure,
}

/// News of one book: the bids from low to high and the asks from high to low, so
/// that the last of each is the best.
#[derive(Debug)]
pub struct BookUpdate {
    pub asset_id: Word,
    pub bids: Vec<Level>,
    pub asks: Vec<Level>,
}

pub open spec fn key(token: Word) -> (u64, u64, u64, u64) {
    (token.l0, token.l1, token.l2, token.l3)
}

/// The levels of a token that a map of books holds.
pub open spec fn levels_at(
    m: DashMap<(u64, u64, u64, u64), (Option<(u64, u64)>, Option<(u64, u64)>)>,
    token: Word,
) -> Option<BookLevels> {
    if books(m).dom().contains(key(token)) {
        Some(
            BookLevels {
                best_bid: figures(books(m)[key(token)].0),
                best_ask: figures(books(m)[key(token)].1),
            },
        )
    } else {
        None
    }
}

pub open spec fn figures(p: Option<(u64, u64)>) -> Option<(Figure, Figure)> {
    match p {
        Some(p) => Some((Figure { bits: p.0 }, Figure { bits: p.1 })),
        None => None,
    }
}

/// The best level of a side, its last one.
pub open spec fn top(side: Seq<Level>) -> Option<(Figure, Figure)> {
    if side.len() > 0 {
        Some((side.last().price, side.last().size))
    } else {
        None
    }
}

impl BookUpdate {
    /// The levels that an update sets.
    pub open spec fn levels(self) -> BookLevels {
        BookLevels { best_bid: top(self.bids@), best_ask: top(self.asks@) }
    }
}

fn limbs_of(token: Word) -> (r: (u64, u64, u64, u64))
    ensures
        r == key(token),
{
    (token.l0, token.l1, token.l2, token.l3)
}

fn top_bits(side: &Vec<Level>) -> (r: Option<(u64, u64)>)
    ensures
        figures(r) == top(side@),
{
    if side.len() > 0 {
        let best = side[side.len() - 1];
        Some((best.price.bits, best.size.bits))
    } else {
        None
    }
}

fn to_figures(p: Option<(u64, u64)>) -> (r: Option<(Figure, Figure)>)
    ensures
        r == figures(p),
{
    match p {
        Some((price, size)) => Some((Figure::from_bits(price), Figure::from_bits(size))),
        None => None,
    }
}

/// A map that holds no book.
pub fn new_state() -> (r: OrderbookState)
    ensures
        forall|token: Word| (#[trigger] levels_at(r, token)) is None,
{
    new_books()
}

/// Sets the levels of one token to the best bid and the best ask of an update,
/// whatever they were.
pub fn apply_update(state: &mut OrderbookState, book: &BookUpdate)
    ensures
        levels_at(*final(state), book.asset_id) == Some(book.levels()),
        forall|token: Word|
            token != book.asset_id ==> #[trigger] levels_at(*final(state), token) == levels_at(
                *old(state),
                token,
            ),
{
    insert_book(state, limbs_of(book.asset_id), (top_bits(&book.bids), top_bits(&book.asks)));
}

/// The best bid for a token, where its book is known and has one.
pub fn get_best_bid(state: &OrderbookState, token: Word) -> (r: Option<(Figure, Figure)>)
    ensures
        r == (match levels_at(*state, token) {
            Some(levels) => levels.best_bid,
            None => None,
        }),
{
    match get_book(state, limbs_of(token)) {
        Some(levels) => to_figures(levels.0),
        None => None,
    }
}

/// The best ask for a token, where its book is known and has one.
pub fn get_best_ask(state: &OrderbookState, token: Word) -> (r: Option<(Figure, Figure)>)
    ensures
        r == (match levels_at(*state, token) {
            Some(levels) => levels.best_ask,
            None => None,
        }),
{
    match get_book(state, limbs_of(token)) {
        Some(levels) => to_figures(levels.1),
        None => None,
    }
}

/// An update sets the best bid to the last bid and the best ask to the last ask,
/// with their sizes; a side without levels has no best one.
pub proof fn the_last_level_is_the_best(news: BookUpdate)
    ensures
        ({
            let bids = news.bids@;
            let asks = news.asks@;
            &&& bids.len() > 0 ==> news.levels().best_bid == Some(
                (bids[bids.len() - 1].price, bids[bids.len() - 1].size),
            )
            &&& asks.len() > 0 ==> news.levels().best_ask == Some(
                (asks[asks.len() - 1].price, asks[asks.len() - 1].size),
            )
            &&& bids.len() == 0 ==> news.levels().best_bid is None
            &&& asks.len() == 0 ==> news.levels().best_ask is None
        }),
{
}

/// Tokens share a book only where they are the same.
pub proof fn every_token_has_its_own_book(a: Word, b: Word)
    ensures
        key(a) == key(b) <==> a == b,
{
}

} // verus!
