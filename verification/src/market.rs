//! Markets and events as the exchange lists them, and what is read off them.

use vstd::prelude::*;

use crate::clock::Moment;
use crate::figure::{fig, Figure};
use crate::ids::Word;
use crate::text::{contains, holds, lower, lowercase, same};

verus! {

/// 0.9: a price above it says that an outcome has won.
pub const WON_PRICE: u64 = 0x3FEC_CCCC_CCCC_CCCD;

/// Zero.
pub const ZERO: u64 = 0;

/// A market. Prices that cannot be read are `None`.
#[derive(Debug)]
pub struct Market {
    pub id: String,
    pub question: Option<String>,
    pub slug: Option<String>,
    pub condition_id: Option<Word>,
    pub closed: Option<bool>,
    pub token_ids: Vec<Word>,
    pub outcomes: Vec<String>,
    pub outcome_prices: Vec<Option<Figure>>,
    pub best_bid: Option<Figure>,
    pub end: Option<Moment>,
}

/// An event: a slug and its markets.
#[derive(Debug)]
pub struct Event {
    pub slug: Option<String>,
    pub markets: Vec<Market>,
}

/// What a market says.
#[verifier::ext_equal]
pub struct MarketView {
    pub id: Seq<char>,
    pub question: Option<Seq<char>>,
    pub slug: Option<Seq<char>>,
    pub condition_id: Option<Word>,
    pub closed: Option<bool>,
    pub token_ids: Seq<Word>,
    pub outcomes: Seq<Seq<char>>,
    pub outcome_prices: Seq<Option<Figure>>,
    pub best_bid: Option<Figure>,
    pub end: Option<Moment>,
}

/// What an event says.
#[verifier::ext_equal]
pub struct EventView {
    pub slug: Option<Seq<char>>,
    pub markets: Seq<MarketView>,
}

pub open spec fn text_opt(s: Option<String>) -> Option<Seq<char>> {
    match s {
        Some(s) => Some(s@),
        None => None,
    }
}

pub open spec fn texts(v: Seq<String>) -> Seq<Seq<char>> {
    Seq::new(v.len(), |i: int| v[i]@)
}

pub open spec fn markets_view(v: Seq<Market>) -> Seq<MarketView> {
    Seq::new(v.len(), |i: int| v[i]@)
}

pub open spec fn events_view(v: Seq<Event>) -> Seq<EventView> {
    Seq::new(v.len(), |i: int| v[i]@)
}

impl View for Market {
    type V = MarketView;

    open spec fn view(&self) -> MarketView {
        MarketView {
            id: self.id@,
            question: text_opt(self.question),
            slug: text_opt(self.slug),
            condition_id: self.condition_id,
            closed: self.closed,
            token_ids: self.token_ids@,
            outcomes: texts(self.outcomes@),
            outcome_prices: self.outcome_prices@,
            best_bid: self.best_bid,
            end: self.end,
        }
    }
}

impl View for Event {
    type V = EventView;

    open spec fn view(&self) -> EventView {
        EventView { slug: text_opt(self.slug), markets: markets_view(self.markets@) }
    }
}

fn clone_text(s: &Option<String>) -> (r: Option<String>)
    ensures
        text_opt(r) == text_opt(*s),
{
    match s {
        Some(s) => Some(s.clone()),
        None => None,
    }
}

impl Clone for Market {
    fn clone(&self) -> (r: Market)
        ensures
            r@ == self@,
    {
        let mut token_ids: Vec<Word> = Vec::new();
        let mut i: usize = 0;
        while i < self.token_ids.len()
            invariant
                i <= self.token_ids@.len(),
                token_ids@ == self.token_ids@.take(i as int),
            decreases self.token_ids@.len() - i,
        {
            token_ids.push(self.token_ids[i]);
            i = i + 1;
        }
        let mut outcomes: Vec<String> = Vec::new();
        let mut j: usize = 0;
        while j < self.outcomes.len()
            invariant
                j <= self.outcomes@.len(),
                texts(outcomes@) == texts(self.outcomes@.take(j as int)),
            decreases self.outcomes@.len() - j,
        {
            let ghost before = texts(outcomes@);
            outcomes.push(self.outcomes[j].clone());
            assert(texts(outcomes@) =~= before.push(self.outcomes@[j as int]@));
            j = j + 1;
            assert(texts(self.outcomes@.take(j as int)) =~= before.push(self.outcomes@[j - 1]@));
        }
        let mut outcome_prices: Vec<Option<Figure>> = Vec::new();
        let mut k: usize = 0;
        while k < self.outcome_prices.len()
            invariant
                k <= self.outcome_prices@.len(),
                outcome_prices@ == self.outcome_prices@.take(k as int),
            decreases self.outcome_prices@.len() - k,
        {
            outcome_prices.push(self.outcome_prices[k]);
            k = k + 1;
        }
        let r = Market {
            id: self.id.clone(),
            question: clone_text(&self.question),
            slug: clone_text(&self.slug),
            condition_id: self.condition_id,
            closed: self.closed,
            token_ids,
            outcomes,
            outcome_prices,
            best_bid: self.best_bid,
            end: self.end,
        };
        assert(self.token_ids@.take(i as int) =~= self.token_ids@);
        assert(self.outcomes@.take(j as int) =~= self.outcomes@);
        assert(self.outcome_prices@.take(k as int) =~= self.outcome_prices@);
        assert(r@ =~= self@);
        r
    }
}

/// A text that may be missing, empty where it is.
pub open spec fn or_empty(s: Option<Seq<char>>) -> Seq<char> {
    match s {
        Some(s) => s,
        None => Seq::empty(),
    }
}

pub(crate) fn text_or_empty(s: &Option<String>) -> (r: String)
    ensures
        r@ == or_empty(text_opt(*s)),
{
    match s {
        Some(s) => s.clone(),
        None => String::new(),
    }
}

/// The text speaks of bitcoin.
pub open spec fn names_bitcoin(s: Seq<char>) -> bool {
    holds(s, "bitcoin"@) || holds(s, "btc"@)
}

/// The question speaks of five or fifteen minutes.
pub open spec fn names_minutes(s: Seq<char>) -> bool {
    ||| holds(s, "5 min"@)
    ||| holds(s, "5-min"@)
    ||| holds(s, "5m"@)
    ||| holds(s, "15 min"@)
    ||| holds(s, "15-min"@)
    ||| holds(s, "15m"@)
}

impl MarketView {
    /// The market says that it is open.
    pub open spec fn open_now(self) -> bool {
        self.closed == Some(false)
    }

    /// A short bitcoin market that can be traded.
    pub open spec fn is_btc_updown(self) -> bool {
        let question = lower(or_empty(self.question));
        let slug = lower(or_empty(self.slug));
        &&& self.token_ids.len() > 0
        &&& names_bitcoin(question)
        &&& names_minutes(question) || holds(slug, "5m"@) || holds(slug, "15m"@)
    }

    /// The place of the outcome "up".
    pub open spec fn up_index(self) -> int {
        up_from(self.outcomes, 0)
    }

    /// The price of an outcome; 0 where it cannot be read.
    pub open spec fn price_or_zero(self, i: int) -> Figure {
        match self.outcome_prices[i] {
            Some(p) => p,
            None => fig(ZERO),
        }
    }

    /// The market can be bought into: it is open and has a token for each side.
    pub open spec fn usable(self) -> bool {
        self.open_now() && self.token_ids.len() >= 2
    }

    /// Whether "up" has won, where the market has two prices or more.
    pub open spec fn up_won(self) -> Option<bool> {
        if self.outcome_prices.len() < 2 {
            None
        } else {
            Some(fig(WON_PRICE).below(self.price_or_zero(self.up_index())))
        }
    }

    /// Which market is resolved, and whether its first outcome has won: known
    /// where the market has an id and one of its first two prices says that it
    /// has won.
    pub open spec fn resolution(self) -> Option<(Word, bool)> {
        if self.condition_id is None || self.outcome_prices.len() < 2 {
            None
        } else {
            let first = fig(WON_PRICE).below(self.price_or_zero(0));
            let second = fig(WON_PRICE).below(self.price_or_zero(1));
            if first || second {
                Some((self.condition_id->0, first))
            } else {
                None
            }
        }
    }
}

/// An outcome that is called "up".
pub open spec fn names_up(outcome: Seq<char>) -> bool {
    holds(lower(outcome), "up"@)
}

/// The first outcome from `i` on that is called "up"; 0 where there is none.
pub open spec fn up_from(outcomes: Seq<Seq<char>>, i: int) -> int
    decreases outcomes.len() - i,
{
    if i >= outcomes.len() {
        0
    } else if names_up(outcomes[i]) {
        i
    } else {
        up_from(outcomes, i + 1)
    }
}

/// The place of the outcome "up" in a list of outcomes; 0 where none is called
/// that.
pub fn find_up(outcomes: &Vec<String>) -> (r: usize)
    ensures
        r == up_from(texts(outcomes@), 0),
        outcomes@.len() > 0 ==> r < outcomes@.len(),
{
    let mut i: usize = 0;
    while i < outcomes.len()
        invariant
            i <= outcomes@.len(),
            up_from(texts(outcomes@), 0) == up_from(texts(outcomes@), i as int),
        decreases outcomes@.len() - i,
    {
        if contains(lowercase(outcomes[i].as_str()).as_str(), "up") {
            return i;
        }
        i = i + 1;
    }
    0
}

/// Whether a market is a short bitcoin market that can be traded.
pub fn filter_btc_updown_market(m: &Market) -> (r: bool)
    ensures
        r == m@.is_btc_updown(),
{
    if m.token_ids.len() == 0 {
        return false;
    }
    let question = lowercase(text_or_empty(&m.question).as_str());
    let slug = lowercase(text_or_empty(&m.slug).as_str());
    let q = question.as_str();
    let s = slug.as_str();
    let is_btc: bool = contains(q, "bitcoin") || contains(q, "btc");
    let is_short: bool = contains(q, "5 min") || contains(q, "5-min") || contains(q, "5m")
        || contains(q, "15 min") || contains(q, "15-min") || contains(q, "15m") || contains(s, "5m")
        || contains(s, "15m");
    is_btc && is_short
}

/// A market with this id is listed.
pub open spec fn listed(all: Seq<MarketView>, id: Seq<char>) -> bool {
    exists|i: int| 0 <= i < all.len() && (#[trigger] all[i]).id == id
}

/// The list with a market added: only a short bitcoin market, and only once.
pub open spec fn taking(all: Seq<MarketView>, m: MarketView) -> Seq<MarketView> {
    if m.is_btc_updown() && !listed(all, m.id) {
        all.push(m)
    } else {
        all
    }
}

/// The list with markets added in order.
pub open spec fn taking_all(all: Seq<MarketView>, ms: Seq<MarketView>) -> Seq<MarketView>
    decreases ms.len(),
{
    if ms.len() == 0 {
        all
    } else {
        taking(taking_all(all, ms.drop_last()), ms.last())
    }
}

/// The list with the open ones among some markets added in order.
pub open spec fn taking_open(all: Seq<MarketView>, ms: Seq<MarketView>) -> Seq<MarketView>
    decreases ms.len(),
{
    if ms.len() == 0 {
        all
    } else {
        let before = taking_open(all, ms.drop_last());
        if ms.last().open_now() {
            taking(before, ms.last())
        } else {
            before
        }
    }
}

/// The event counts: any event does, unless its slug has to speak of
/// "btc-updown".
pub open spec fn event_counts(e: EventView, by_slug: bool) -> bool {
    !by_slug || holds(or_empty(e.slug), "btc-updown"@)
}

/// The list with the open markets of some events added in order.
pub open spec fn taking_events(all: Seq<MarketView>, es: Seq<EventView>, by_slug: bool) -> Seq<
    MarketView,
>
    decreases es.len(),
{
    if es.len() == 0 {
        all
    } else {
        let before = taking_events(all, es.drop_last(), by_slug);
        if event_counts(es.last(), by_slug) {
            taking_open(before, es.last().markets)
        } else {
            before
        }
    }
}

fn take_market(m: &Market, all_markets: &mut Vec<Market>)
    ensures
        markets_view(final(all_markets)@) == taking(markets_view(old(all_markets)@), m@),
{
    let ghost before = markets_view(all_markets@);
    if !filter_btc_updown_market(m) {
        return;
    }
    let mut i: usize = 0;
    while i < all_markets.len()
        invariant
            i <= all_markets@.len(),
            before == markets_view(all_markets@),
            all_markets@ == old(all_markets)@,
            forall|k: int| 0 <= k < i ==> (#[trigger] before[k]).id != m@.id,
        decreases all_markets@.len() - i,
    {
        if same(all_markets[i].id.as_str(), m.id.as_str()) {
            assert(before[i as int].id == m@.id);
            return;
        }
        i = i + 1;
    }
    all_markets.push(m.clone());
    assert(markets_view(all_markets@) =~= before.push(m@));
}

/// Adds the open short bitcoin markets of some events to a list, in order, each
/// once. With `require_btc_updown_slug` only events count whose slug speaks of
/// "btc-updown".
pub fn collect_from_events(
    events: &Vec<Event>,
    all_markets: &mut Vec<Market>,
    require_btc_updown_slug: bool,
)
    ensures
        markets_view(final(all_markets)@) == taking_events(
            markets_view(old(all_markets)@),
            events_view(events@),
            require_btc_updown_slug,
        ),
{
    let ghost all = markets_view(all_markets@);
    let ghost es = events_view(events@);
    let mut i: usize = 0;
    assert(es.take(0) =~= Seq::empty());
    while i < events.len()
        invariant
            i <= events@.len(),
            es == events_view(events@),
            markets_view(all_markets@) == taking_events(
                all,
                es.take(i as int),
                require_btc_updown_slug,
            ),
        decreases events@.len() - i,
    {
        let event = &events[i];
        assert(es.take(i + 1).drop_last() =~= es.take(i as int));
        assert(es.take(i + 1).last() == event@);
        if !require_btc_updown_slug || contains(text_or_empty(&event.slug).as_str(), "btc-updown") {
            let ghost before = markets_view(all_markets@);
            let ghost ms = event@.markets;
            let mut j: usize = 0;
            assert(ms.take(0) =~= Seq::empty());
            while j < event.markets.len()
                invariant
                    j <= event.markets@.len(),
                    ms == markets_view(event.markets@),
                    markets_view(all_markets@) == taking_open(before, ms.take(j as int)),
                decreases event.markets@.len() - j,
            {
                let m = &event.markets[j];
                assert(ms.take(j + 1).drop_last() =~= ms.take(j as int));
                assert(ms.take(j + 1).last() == m@);
                let open: bool = match m.closed {
                    Some(closed) => !closed,
                    None => false,
                };
                if open {
                    take_market(m, all_markets);
                }
                j = j + 1;
            }
            assert(ms.take(j as int) =~= ms);
        }
        i = i + 1;
    }
    assert(es.take(i as int) =~= es);
}

/// Adds the short bitcoin markets among some listed markets to a list, in
/// order, each once.
pub fn collect_from_markets(markets: &Vec<Market>, all_markets: &mut Vec<Market>)
    ensures
        markets_view(final(all_markets)@) == taking_all(
            markets_view(old(all_markets)@),
            markets_view(markets@),
        ),
{
    let ghost all = markets_view(all_markets@);
    let ghost ms = markets_view(markets@);
    let mut j: usize = 0;
    assert(ms.take(0) =~= Seq::empty());
    while j < markets.len()
        invariant
            j <= markets@.len(),
            ms == markets_view(markets@),
            markets_view(all_markets@) == taking_all(all, ms.take(j as int)),
        decreases markets@.len() - j,
    {
        assert(ms.take(j + 1).drop_last() =~= ms.take(j as int));
        assert(ms.take(j + 1).last() == markets@[j as int]@);
        take_market(&markets[j], all_markets);
        j = j + 1;
    }
    assert(ms.take(j as int) =~= ms);
}

/// No two markets of a list share an id, and each is a short bitcoin market.
pub open spec fn sound_list(all: Seq<MarketView>) -> bool {
    &&& forall|i: int, j: int|
        0 <= i < j < all.len() ==> (#[trigger] all[i]).id != (#[trigger] all[j]).id
    &&& forall|i: int| 0 <= i < all.len() ==> (#[trigger] all[i]).is_btc_updown()
}

proof fn lemma_taking(all: Seq<MarketView>, m: MarketView)
    requires
        sound_list(all),
    ensures
        sound_list(taking(all, m)),
        all.is_prefix_of(taking(all, m)),
{
}

proof fn lemma_taking_open(all: Seq<MarketView>, ms: Seq<MarketView>)
    requires
        sound_list(all),
    ensures
        sound_list(taking_open(all, ms)),
        all.is_prefix_of(taking_open(all, ms)),
    decreases ms.len(),
{
    if ms.len() > 0 {
        lemma_taking_open(all, ms.drop_last());
        lemma_taking(taking_open(all, ms.drop_last()), ms.last());
    }
}

/// Collecting from events keeps a list sound and all that it held, in place.
pub proof fn events_keep_the_list_sound(all: Seq<MarketView>, es: Seq<EventView>, by_slug: bool)
    requires
        sound_list(all),
    ensures
        sound_list(taking_events(all, es, by_slug)),
        all.is_prefix_of(taking_events(all, es, by_slug)),
    decreases es.len(),
{
    if es.len() > 0 {
        events_keep_the_list_sound(all, es.drop_last(), by_slug);
        lemma_taking_open(taking_events(all, es.drop_last(), by_slug), es.last().markets);
    }
}

/// Collecting from listed markets keeps a list sound and all that it held, in
/// place.
pub proof fn markets_keep_the_list_sound(all: Seq<MarketView>, ms: Seq<MarketView>)
    requires
        sound_list(all),
    ensures
        sound_list(taking_all(all, ms)),
        all.is_prefix_of(taking_all(all, ms)),
    decreases ms.len(),
{
    if ms.len() > 0 {
        markets_keep_the_list_sound(all, ms.drop_last());
        lemma_taking(taking_all(all, ms.drop_last()), ms.last());
    }
}

/// Collecting the same listed markets again changes nothing.
pub proof fn collecting_twice_is_collecting_once(all: Seq<MarketView>, ms: Seq<MarketView>)
    ensures
        taking_all(taking_all(all, ms), ms) == taking_all(all, ms),
    decreases ms.len(),
{
    short_markets_are_listed(all, ms);
    lemma_taken_stay_out(taking_all(all, ms), ms);
}

/// Every short bitcoin market among some listed markets is in the list afterwards.
pub proof fn short_markets_are_listed(all: Seq<MarketView>, ms: Seq<MarketView>)
    ensures
        forall|i: int|
            0 <= i < ms.len() && (#[trigger] ms[i]).is_btc_updown() ==> listed(
                taking_all(all, ms),
                ms[i].id,
            ),
    decreases ms.len(),
{
    if ms.len() > 0 {
        let before = taking_all(all, ms.drop_last());
        let after = taking_all(all, ms);
        short_markets_are_listed(all, ms.drop_last());
        assert forall|i: int| 0 <= i < ms.len() && (#[trigger] ms[i]).is_btc_updown() implies listed(
            after,
            ms[i].id,
        ) by {
            if i < ms.len() - 1 {
                assert(ms.drop_last()[i] == ms[i]);
                let k = choose|k: int| 0 <= k < before.len() && (#[trigger] before[k]).id == ms[i].id;
                assert(after[k].id == ms[i].id);
            } else if !listed(before, ms[i].id) {
                assert(after[before.len() as int].id == ms[i].id);
            }
        }
    }
}

proof fn lemma_taken_stay_out(all: Seq<MarketView>, ms: Seq<MarketView>)
    requires
        forall|i: int|
            0 <= i < ms.len() && (#[trigger] ms[i]).is_btc_updown() ==> listed(all, ms[i].id),
    ensures
        taking_all(all, ms) == all,
    decreases ms.len(),
{
    if ms.len() > 0 {
        assert forall|i: int|
            0 <= i < ms.drop_last().len() && (#[trigger] ms.drop_last()[i]).is_btc_updown() implies listed(
            all,
            ms.drop_last()[i].id,
        ) by {
            assert(ms.drop_last()[i] == ms[i]);
        }
        lemma_taken_stay_out(all, ms.drop_last());
        assert(ms[ms.len() - 1] == ms.last());
    }
}

proof fn lemma_stays_listed(all: Seq<MarketView>, ms: Seq<MarketView>, id: Seq<char>)
    requires
        listed(all, id),
    ensures
        listed(taking_open(all, ms), id),
    decreases ms.len(),
{
    if ms.len() > 0 {
        lemma_stays_listed(all, ms.drop_last(), id);
        let before = taking_open(all, ms.drop_last());
        let k = choose|k: int| 0 <= k < before.len() && (#[trigger] before[k]).id == id;
        assert(taking_open(all, ms)[k].id == id);
    }
}

proof fn lemma_open_listed(all: Seq<MarketView>, ms: Seq<MarketView>, j: int)
    requires
        0 <= j < ms.len(),
        ms[j].open_now(),
        ms[j].is_btc_updown(),
    ensures
        listed(taking_open(all, ms), ms[j].id),
    decreases ms.len(),
{
    let before = taking_open(all, ms.drop_last());
    let after = taking_open(all, ms);
    if j < ms.len() - 1 {
        assert(ms.drop_last()[j] == ms[j]);
        lemma_open_listed(all, ms.drop_last(), j);
        let k = choose|k: int| 0 <= k < before.len() && (#[trigger] before[k]).id == ms[j].id;
        assert(after[k].id == ms[j].id);
    } else if !listed(before, ms[j].id) {
        assert(after[before.len() as int].id == ms[j].id);
    }
}

/// Every market of the events that counts is listed afterwards: every open short
/// bitcoin market of an event that counts.
pub proof fn eligible_markets_are_listed(
    all: Seq<MarketView>,
    es: Seq<EventView>,
    by_slug: bool,
    i: int,
    j: int,
)
    requires
        0 <= i < es.len(),
        event_counts(es[i], by_slug),
        0 <= j < es[i].markets.len(),
        es[i].markets[j].open_now(),
        es[i].markets[j].is_btc_updown(),
    ensures
        listed(taking_events(all, es, by_slug), es[i].markets[j].id),
    decreases es.len(),
{
    let before = taking_events(all, es.drop_last(), by_slug);
    if i < es.len() - 1 {
        assert(es.drop_last()[i] == es[i]);
        eligible_markets_are_listed(all, es.drop_last(), by_slug, i, j);
        lemma_stays_listed(before, es.last().markets, es[i].markets[j].id);
    } else {
        lemma_open_listed(before, es[i].markets, j);
    }
}

proof fn lemma_open_stay_out(all: Seq<MarketView>, ms: Seq<MarketView>)
    requires
        forall|j: int|
            0 <= j < ms.len() && (#[trigger] ms[j]).open_now() && ms[j].is_btc_updown() ==> listed(
                all,
                ms[j].id,
            ),
    ensures
        taking_open(all, ms) == all,
    decreases ms.len(),
{
    if ms.len() > 0 {
        let rest = ms.drop_last();
        assert forall|j: int|
            0 <= j < rest.len() && (#[trigger] rest[j]).open_now()
                && rest[j].is_btc_updown() implies listed(all, rest[j].id) by {
            assert(rest[j] == ms[j]);
        }
        lemma_open_stay_out(all, rest);
        assert(ms[ms.len() - 1] == ms.last());
    }
}

proof fn lemma_events_stay_out(all: Seq<MarketView>, es: Seq<EventView>, by_slug: bool)
    requires
        forall|i: int, j: int|
            0 <= i < es.len() && event_counts(es[i], by_slug) && 0 <= j < es[i].markets.len() && (
            #[trigger] es[i].markets[j]).open_now() && es[i].markets[j].is_btc_updown() ==> listed(
                all,
                es[i].markets[j].id,
            ),
    ensures
        taking_events(all, es, by_slug) == all,
    decreases es.len(),
{
    if es.len() > 0 {
        let rest = es.drop_last();
        assert forall|i: int, j: int|
            0 <= i < rest.len() && event_counts(rest[i], by_slug) && 0 <= j
                < rest[i].markets.len() && (#[trigger] rest[i].markets[j]).open_now()
                && rest[i].markets[j].is_btc_updown() implies listed(
            all,
            rest[i].markets[j].id,
        ) by {
            assert(rest[i] == es[i]);
            assert(es[i].markets[j].open_now());
        }
        lemma_events_stay_out(all, rest, by_slug);
        if event_counts(es.last(), by_slug) {
            let ms = es.last().markets;
            assert forall|j: int|
                0 <= j < ms.len() && (#[trigger] ms[j]).open_now()
                    && ms[j].is_btc_updown() implies listed(all, ms[j].id) by {
                assert(es[es.len() - 1].markets[j] == ms[j]);
            }
            lemma_open_stay_out(all, ms);
        }
    }
}

/// Collecting from the same events again changes nothing.
pub proof fn collecting_events_twice_is_collecting_once(
    all: Seq<MarketView>,
    es: Seq<EventView>,
    by_slug: bool,
)
    ensures
        taking_events(taking_events(all, es, by_slug), es, by_slug) == taking_events(
            all,
            es,
            by_slug,
        ),
{
    let once = taking_events(all, es, by_slug);
    assert forall|i: int, j: int|
        0 <= i < es.len() && event_counts(es[i], by_slug) && 0 <= j < es[i].markets.len() && (
        #[trigger] es[i].markets[j]).open_now() && es[i].markets[j].is_btc_updown() implies listed(
        once,
        es[i].markets[j].id,
    ) by {
        eligible_markets_are_listed(all, es, by_slug, i, j);
    }
    lemma_events_stay_out(once, es, by_slug);
}

/// How markets are asked for.
#[derive(Clone, Copy, Debug, PartialEq, Eq, Structural)]
pub enum Listing {
    /// The events of a series.
    Series,
    /// The events under a tag.
    Tag,
    /// The events that a search finds.
    Search,
    /// Markets, whatever their event.
    Markets,
}

impl Listing {
    /// Only events count whose slug speaks of "btc-updown": all but those of a
    /// series, which is named for it.
    pub fn requires_slug(self) -> (r: bool)
        ensures
            r == (self is Tag || self is Search),
    {
        match self {
            Listing::Tag | Listing::Search => true,
            _ => false,
        }
    }
}

/// One question to the exchange: what is looked for, and how many answers are
/// asked for, 0 where that is left open.
#[derive(Clone, Copy, Debug)]
pub struct Query {
    pub listing: Listing,
    pub text: &'static str,
    pub limit: u32,
}

/// A question as plain values.
pub open spec fn query(listing: Listing, text: Seq<char>, limit: int) -> (Listing, Seq<char>, int) {
    (listing, text, limit)
}

pub open spec fn queries_view(v: Seq<Query>) -> Seq<(Listing, Seq<char>, int)> {
    Seq::new(v.len(), |i: int| query(v[i].listing, v[i].text@, v[i].limit as int))
}

/// The questions that find the short bitcoin markets, in order.
pub open spec fn discovery() -> Seq<(Listing, Seq<char>, int)> {
    seq![
        query(Listing::Series, "btc-updown-5m"@, 5),
        query(Listing::Series, "btc-updown-15m"@, 5),
        query(Listing::Tag, "5M"@, 50),
        query(Listing::Tag, "15M"@, 50),
        query(Listing::Tag, "btc-updown"@, 50),
        query(Listing::Tag, "crypto"@, 50),
        query(Listing::Search, "bitcoin"@, 0),
        query(Listing::Search, "btc"@, 0),
        query(Listing::Search, "btc-updown-5m"@, 0),
        query(Listing::Search, "btc-updown-15m"@, 0),
        query(Listing::Markets, ""@, 200),
    ]
}

/// The questions that find the short bitcoin markets, in order.
pub fn discovery_plan() -> (r: Vec<Query>)
    ensures
        queries_view(r@) == discovery(),
{
    let r = vec![
        Query { listing: Listing::Series, text: "btc-updown-5m", limit: 5 },
        Query { listing: Listing::Series, text: "btc-updown-15m", limit: 5 },
        Query { listing: Listing::Tag, text: "5M", limit: 50 },
        Query { listing: Listing::Tag, text: "15M", limit: 50 },
        Query { listing: Listing::Tag, text: "btc-updown", limit: 50 },
        Query { listing: Listing::Tag, text: "crypto", limit: 50 },
        Query { listing: Listing::Search, text: "bitcoin", limit: 0 },
        Query { listing: Listing::Search, text: "btc", limit: 0 },
        Query { listing: Listing::Search, text: "btc-updown-5m", limit: 0 },
        Query { listing: Listing::Search, text: "btc-updown-15m", limit: 0 },
        Query { listing: Listing::Markets, text: "", limit: 200 },
    ];
    assert(queries_view(r@) =~= discovery());
    r
}

/// A market to trade in: a token for "up" and one for "down".
#[derive(Debug)]
pub struct TargetMarket {
    pub condition_id: Word,
    pub yes_token_id: Word,
    pub no_token_id: Word,
    pub end: Option<Moment>,
    pub question: String,
}

/// The id of a market that names none.
pub open spec fn no_id() -> Word {
    Word { l0: 0, l1: 0, l2: 0, l3: 0 }
}

impl TargetMarket {
    /// The target that a market with its "up" among the first two outcomes is.
    pub open spec fn is_target_of(self, m: MarketView) -> bool {
        &&& self.condition_id == m.condition_id.unwrap_or(no_id())
        &&& self.yes_token_id == m.token_ids[m.up_index()]
        &&& self.no_token_id == m.token_ids[1 - m.up_index()]
        &&& self.end == m.end
        &&& self.question@ == or_empty(m.question)
    }
}

/// The first market from `i` on that can be bought into, or the number of
/// markets.
pub open spec fn usable_from(ms: Seq<MarketView>, i: int) -> int
    decreases ms.len() - i,
{
    if i >= ms.len() {
        ms.len() as int
    } else if ms[i].usable() {
        i
    } else {
        usable_from(ms, i + 1)
    }
}

fn first_usable(event: &Event) -> (r: usize)
    ensures
        r == usable_from(event@.markets, 0),
        r <= event@.markets.len(),
        r < event@.markets.len() ==> event@.markets[r as int].usable(),
{
    let mut i: usize = 0;
    while i < event.markets.len()
        invariant
            i <= event.markets@.len(),
            event@.markets == markets_view(event.markets@),
            usable_from(event@.markets, 0) == usable_from(event@.markets, i as int),
        decreases event.markets@.len() - i,
    {
        let m = &event.markets[i];
        let open: bool = match m.closed {
            Some(closed) => !closed,
            None => false,
        };
        if open && m.token_ids.len() >= 2 {
            return i;
        }
        i = i + 1;
    }
    i
}

/// The target that an event offers: its first market that is open and has two
/// tokens. The "up" of that market is among its first two outcomes.
pub fn extract_target(event: &Event) -> (r: Option<TargetMarket>)
    requires
        usable_from(event@.markets, 0) < event@.markets.len() ==> event@.markets[usable_from(
            event@.markets,
            0,
        )].up_index() <= 1,
    ensures
        r is None <==> usable_from(event@.markets, 0) >= event@.markets.len(),
        r is Some ==> r->0.is_target_of(event@.markets[usable_from(event@.markets, 0)]),
{
    let k: usize = first_usable(event);
    if k >= event.markets.len() {
        return None;
    }
    let m = &event.markets[k];
    let up: usize = find_up(&m.outcomes);
    let condition_id = match m.condition_id {
        Some(id) => id,
        None => Word::small(0),
    };
    Some(
        TargetMarket {
            condition_id,
            yes_token_id: m.token_ids[up],
            no_token_id: m.token_ids[1 - up],
            end: m.end,
            question: text_or_empty(&m.question),
        },
    )
}

/// The "up" of a market stands where it has no counterpart.
#[derive(Clone, Copy, Debug, PartialEq, Eq, Structural)]
pub struct UpOutOfRange;

/// The first event from `i` on that has a market to buy into, or the number of
/// events.
pub open spec fn offering_from(es: Seq<EventView>, i: int) -> int
    decreases es.len() - i,
{
    if i >= es.len() {
        es.len() as int
    } else if usable_from(es[i].markets, 0) < es[i].markets.len() {
        i
    } else {
        offering_from(es, i + 1)
    }
}

/// The first market to buy into among some events.
pub open spec fn offered(es: Seq<EventView>) -> Option<MarketView> {
    let i = offering_from(es, 0);
    if i < es.len() {
        Some(es[i].markets[usable_from(es[i].markets, 0)])
    } else {
        None
    }
}

/// The target that the first event with one offers; an error where the "up" of
/// its market is not among the first two outcomes.
pub fn first_target(events: &Vec<Event>) -> (r: Result<Option<TargetMarket>, UpOutOfRange>)
    ensures
        match r {
            Ok(None) => offered(events_view(events@)) is None,
            Ok(Some(t)) => {
                &&& offered(events_view(events@)) is Some
                &&& offered(events_view(events@))->0.up_index() <= 1
                &&& t.is_target_of(offered(events_view(events@))->0)
            },
            Err(_) => {
                &&& offered(events_view(events@)) is Some
                &&& offered(events_view(events@))->0.up_index() > 1
            },
        },
{
    let ghost es = events_view(events@);
    let mut i: usize = 0;
    while i < events.len()
        invariant
            i <= events@.len(),
            es == events_view(events@),
            offering_from(es, 0) == offering_from(es, i as int),
        decreases events@.len() - i,
    {
        let event = &events[i];
        assert(es[i as int] == event@);
        let k: usize = first_usable(event);
        if k < event.markets.len() {
            assert(event@.markets[k as int] == event.markets@[k as int]@);
            if find_up(&event.markets[k].outcomes) > 1 {
                return Err(UpOutOfRange);
            }
            return Ok(extract_target(event));
        }
        i = i + 1;
    }
    Ok(None)
}

/// The price of an outcome; 0 where it cannot be read.
pub(crate) fn price_of(m: &Market, i: usize) -> (r: Figure)
    requires
        i < m@.outcome_prices.len(),
    ensures
        r == m@.price_or_zero(i as int),
{
    match m.outcome_prices[i] {
        Some(p) => p,
        None => Figure::from_bits(ZERO),
    }
}

/// Whether "up" has won, where the market has two prices or more, one of them
/// for "up".
pub fn up_has_won(m: &Market) -> (r: Option<bool>)
    requires
        m@.outcome_prices.len() >= 2 ==> m@.up_index() < m@.outcome_prices.len(),
    ensures
        r == m@.up_won(),
{
    if m.outcome_prices.len() < 2 {
        return None;
    }
    let up: usize = find_up(&m.outcomes);
    proof {
        lemma_up_from(m@.outcomes, 0);
    }
    Some(Figure::from_bits(WON_PRICE).lt(price_of(m, up)))
}

proof fn lemma_up_from(outcomes: Seq<Seq<char>>, i: int)
    requires
        0 <= i,
    ensures
        0 <= up_from(outcomes, i),
        i < outcomes.len() ==> up_from(outcomes, i) < outcomes.len(),
    decreases outcomes.len() - i,
{
    if i < outcomes.len() {
        lemma_up_from(outcomes, i + 1);
    }
}

/// `up_has_won`; an error where the market has prices but none for its "up".
pub fn checked_up_has_won(m: &Market) -> (r: Result<Option<bool>, UpOutOfRange>)
    ensures
        match r {
            Ok(won) => {
                &&& won == m@.up_won()
                &&& m@.outcome_prices.len() >= 2 ==> m@.up_index() < m@.outcome_prices.len()
            },
            Err(_) => 2 <= m@.outcome_prices.len() <= m@.up_index(),
        },
{
    if m.outcome_prices.len() >= 2 && find_up(&m.outcomes) >= m.outcome_prices.len() {
        return Err(UpOutOfRange);
    }
    Ok(up_has_won(m))
}

/// The outcomes of the markets that have two prices or more, in order.
pub open spec fn market_verdicts(ms: Seq<MarketView>) -> Seq<bool>
    decreases ms.len(),
{
    if ms.len() == 0 {
        Seq::empty()
    } else {
        let before = market_verdicts(ms.drop_last());
        match ms.last().up_won() {
            Some(won) => before.push(won),
            None => before,
        }
    }
}

/// The outcomes of the markets of some events, in order.
pub open spec fn verdicts_of(es: Seq<EventView>) -> Seq<bool>
    decreases es.len(),
{
    if es.len() == 0 {
        Seq::empty()
    } else {
        verdicts_of(es.drop_last()) + market_verdicts(es.last().markets)
    }
}

/// A market that has prices has one for its "up".
pub open spec fn has_verdict(m: MarketView) -> bool {
    m.outcome_prices.len() >= 2 ==> m.up_index() < m.outcome_prices.len()
}

/// Every market that has prices has one for its "up".
pub open spec fn has_verdicts(es: Seq<EventView>) -> bool {
    forall|i: int, j: int|
        0 <= i < es.len() && 0 <= j < es[i].markets.len() ==> #[trigger] has_verdict(
            es[i].markets[j],
        )
}

/// The outcomes of the markets of some events, in order; an error where a market
/// has prices but none for its "up".
pub fn verdicts(events: &Vec<Event>) -> (r: Result<Vec<bool>, UpOutOfRange>)
    ensures
        match r {
            Ok(all) => has_verdicts(events_view(events@)) && all@ == verdicts_of(
                events_view(events@),
            ),
            Err(_) => !has_verdicts(events_view(events@)),
        },
{
    let ghost es = events_view(events@);
    let mut all: Vec<bool> = Vec::new();
    let mut i: usize = 0;
    assert(es.take(0) =~= Seq::empty());
    while i < events.len()
        invariant
            i <= events@.len(),
            es == events_view(events@),
            has_verdicts(es.take(i as int)),
            all@ == verdicts_of(es.take(i as int)),
        decreases events@.len() - i,
    {
        let event = &events[i];
        let ghost ms = event@.markets;
        assert(es[i as int] == event@);
        let mut j: usize = 0;
        assert(ms.take(0) =~= Seq::empty());
        assert(verdicts_of(es.take(i as int)) + market_verdicts(ms.take(0)) =~= all@);
        while j < event.markets.len()
            invariant
                i < es.len(),
                es == events_view(events@),
                j <= event.markets@.len(),
                ms == event@.markets,
                es[i as int] == event@,
                forall|k: int| 0 <= k < j ==> #[trigger] has_verdict(ms[k]),
                all@ == verdicts_of(es.take(i as int)) + market_verdicts(ms.take(j as int)),
            decreases event.markets@.len() - j,
        {
            let m = &event.markets[j];
            assert(ms[j as int] == m@);
            assert(ms.take(j + 1).drop_last() =~= ms.take(j as int));
            assert(ms.take(j + 1).last() == m@);
            match checked_up_has_won(m) {
                Ok(Some(won)) => {
                    assert((verdicts_of(es.take(i as int)) + market_verdicts(
                        ms.take(j as int),
                    )).push(won) =~= verdicts_of(es.take(i as int)) + market_verdicts(
                        ms.take(j + 1),
                    ));
                    all.push(won);
                },
                Ok(None) => {},
                Err(e) => {
                    assert(!has_verdict(es[i as int].markets[j as int]));
                    return Err(e);
                },
            }
            j = j + 1;
        }
        assert(ms.take(j as int) =~= ms);
        assert(es.take(i + 1).drop_last() =~= es.take(i as int));
        assert(es.take(i + 1).last() == event@);
        assert forall|a: int, b: int|
            0 <= a < i + 1 && 0 <= b < es.take(i + 1)[a].markets.len() implies #[trigger] has_verdict(
            es.take(i + 1)[a].markets[b],
        ) by {
            if a < i {
                assert(has_verdict(es.take(i as int)[a].markets[b]));
            } else {
                assert(has_verdict(ms[b]));
            }
        }
        i = i + 1;
    }
    assert(es.take(i as int) =~= es);
    Ok(all)
}

/// Which market is resolved and whether its first outcome has won.
pub fn resolution_of(m: &Market) -> (r: Option<(Word, bool)>)
    ensures
        r == m@.resolution(),
{
    match m.condition_id {
        Some(id) => {
            if m.outcome_prices.len() < 2 {
                return None;
            }
            let first: bool = Figure::from_bits(WON_PRICE).lt(price_of(m, 0));
            let second: bool = Figure::from_bits(WON_PRICE).lt(price_of(m, 1));
            if first || second {
                Some((id, first))
            } else {
                None
            }
        },
        None => None,
    }
}

/// The "up" of a market is the first of its outcomes whose name, in lower case,
/// holds "up"; the first outcome stands for it where none does.
pub proof fn up_is_the_first_of_its_name(outcomes: Seq<Seq<char>>, k: int)
    requires
        0 <= k <= outcomes.len(),
        forall|i: int| 0 <= i < k ==> !holds(lower(#[trigger] outcomes[i]), "up"@),
        k < outcomes.len() ==> holds(lower(outcomes[k]), "up"@),
    ensures
        k < outcomes.len() ==> up_from(outcomes, 0) == k,
        k == outcomes.len() ==> up_from(outcomes, 0) == 0,
{
    lemma_up_found(outcomes, 0, k);
}

proof fn lemma_up_found(outcomes: Seq<Seq<char>>, i: int, k: int)
    requires
        0 <= i <= k <= outcomes.len(),
        forall|j: int| i <= j < k ==> !holds(lower(#[trigger] outcomes[j]), "up"@),
        k < outcomes.len() ==> holds(lower(outcomes[k]), "up"@),
    ensures
        k < outcomes.len() ==> up_from(outcomes, i) == k,
        k == outcomes.len() ==> up_from(outcomes, i) == 0,
    decreases k - i,
{
    if i < k {
        assert(!holds(lower(outcomes[i]), "up"@));
        lemma_up_found(outcomes, i + 1, k);
    }
}

/// A market with a token counts where its question speaks of bitcoin and its
/// question or its slug of five or fifteen minutes, in whatever case the letters
/// are; the rest of it does not matter.
pub proof fn markets_are_told_by_their_words(m: MarketView, other: MarketView)
    ensures
        ({
            let q = lower(or_empty(m.question));
            let s = lower(or_empty(m.slug));
            let coin = holds(q, "bitcoin"@) || holds(q, "btc"@);
            let five = holds(q, "5 min"@) || holds(q, "5-min"@) || holds(q, "5m"@);
            let fifteen = holds(q, "15 min"@) || holds(q, "15-min"@) || holds(q, "15m"@);
            let slug = holds(s, "5m"@) || holds(s, "15m"@);
            &&& m.token_ids.len() > 0 && coin && five ==> m.is_btc_updown()
            &&& m.token_ids.len() > 0 && coin && fifteen ==> m.is_btc_updown()
            &&& m.token_ids.len() > 0 && coin && slug ==> m.is_btc_updown()
            &&& m.token_ids.len() == 0 ==> !m.is_btc_updown()
            &&& !coin ==> !m.is_btc_updown()
            &&& !five && !fifteen && !slug ==> !m.is_btc_updown()
        }),
        lower(or_empty(m.question)) == lower(or_empty(other.question)) && lower(or_empty(m.slug))
            == lower(or_empty(other.slug)) && m.token_ids.len() == other.token_ids.len()
            ==> m.is_btc_updown() == other.is_btc_updown(),
{
}

/// An event counts by its slug only where the slug is asked for.
pub proof fn events_are_told_by_their_slug(e: EventView)
    ensures
        event_counts(e, false),
        e.slug is Some ==> (event_counts(e, true) <==> holds(e.slug->0, "btc-updown"@)),
        e.slug is None ==> (event_counts(e, true) <==> holds(Seq::empty(), "btc-updown"@)),
{
}

/// The market came from an event that counts, and says that it is open.
pub open spec fn is_open_among(m: MarketView, es: Seq<EventView>, by_slug: bool) -> bool {
    exists|i: int, j: int|
        0 <= i < es.len() && (!by_slug || holds(or_empty(es[i].slug), "btc-updown"@)) && 0 <= j
            < es[i].markets.len() && #[trigger] es[i].markets[j] == m && m.closed == Some(false)
}

/// Whatever events add to a list is an open market of an event that counts.
pub proof fn only_open_markets_are_added(
    all: Seq<MarketView>,
    es: Seq<EventView>,
    by_slug: bool,
    k: int,
)
    requires
        0 <= k < taking_events(all, es, by_slug).len(),
    ensures
        all.contains(taking_events(all, es, by_slug)[k]) || is_open_among(
            taking_events(all, es, by_slug)[k],
            es,
            by_slug,
        ),
    decreases es.len(),
{
    let after = taking_events(all, es, by_slug);
    if es.len() == 0 {
        assert(all[k] == after[k]);
    } else {
        let rest = es.drop_last();
        let before = taking_events(all, rest, by_slug);
        if event_counts(es.last(), by_slug) {
            lemma_added_when_open(before, es.last().markets, k);
        }
        if before.contains(after[k]) {
            let b = choose|b: int| 0 <= b < before.len() && before[b] == after[k];
            only_open_markets_are_added(all, rest, by_slug, b);
            if !all.contains(after[k]) {
                let (i, j) = choose|i: int, j: int|
                    0 <= i < rest.len() && (!by_slug || holds(
                        or_empty(rest[i].slug),
                        "btc-updown"@,
                    )) && 0 <= j < rest[i].markets.len() && #[trigger] rest[i].markets[j]
                        == after[k] && after[k].closed == Some(false);
                assert(es[i].markets[j] == after[k]);
            }
        } else if event_counts(es.last(), by_slug) {
            let ms = es.last().markets;
            let j = choose|j: int|
                0 <= j < ms.len() && #[trigger] ms[j] == after[k] && after[k].closed == Some(false);
            assert(es[es.len() - 1].markets[j] == after[k]);
        } else {
            assert(before[k] == after[k]);
        }
    }
}

proof fn lemma_added_when_open(all: Seq<MarketView>, ms: Seq<MarketView>, k: int)
    requires
        0 <= k < taking_open(all, ms).len(),
    ensures
        all.contains(taking_open(all, ms)[k]) || exists|j: int|
            0 <= j < ms.len() && #[trigger] ms[j] == taking_open(all, ms)[k] && taking_open(
                all,
                ms,
            )[k].closed == Some(false),
    decreases ms.len(),
{
    let after = taking_open(all, ms);
    if ms.len() == 0 {
        assert(all[k] == after[k]);
    } else {
        let rest = ms.drop_last();
        let before = taking_open(all, rest);
        if k < before.len() {
            lemma_added_when_open(all, rest, k);
            assert(before[k] == after[k]);
            if !all.contains(after[k]) {
                let j = choose|j: int|
                    0 <= j < rest.len() && #[trigger] rest[j] == before[k] && before[k].closed
                        == Some(false);
                assert(ms[j] == after[k]);
            }
        } else {
            assert(ms[ms.len() - 1] == after[k]);
        }
    }
}

/// Of the listed markets each is added as it is, and nothing else is.
pub proof fn only_listed_markets_are_added(all: Seq<MarketView>, ms: Seq<MarketView>, k: int)
    requires
        0 <= k < taking_all(all, ms).len(),
    ensures
        all.contains(taking_all(all, ms)[k]) || ms.contains(taking_all(all, ms)[k]),
    decreases ms.len(),
{
    let after = taking_all(all, ms);
    if ms.len() == 0 {
        assert(all[k] == after[k]);
    } else {
        let rest = ms.drop_last();
        let before = taking_all(all, rest);
        if k < before.len() {
            only_listed_markets_are_added(all, rest, k);
            assert(before[k] == after[k]);
            if rest.contains(after[k]) {
                let j = choose|j: int| 0 <= j < rest.len() && rest[j] == after[k];
                assert(ms[j] == after[k]);
            }
        } else {
            assert(ms[ms.len() - 1] == after[k]);
        }
    }
}

/// The market can be bought into: it says that it is open, and has two tokens.
pub open spec fn can_be_bought(m: MarketView) -> bool {
    m.closed == Some(false) && m.token_ids.len() >= 2
}

/// None of some markets can be bought into.
pub open spec fn none_can_be_bought(ms: Seq<MarketView>, n: int) -> bool {
    forall|j: int| 0 <= j < n ==> !can_be_bought(#[trigger] ms[j])
}

/// What is offered is the first market of the first event that has one which is
/// open and has two tokens; nothing is where no event has.
pub proof fn the_first_open_market_is_offered(es: Seq<EventView>, i: int, j: int)
    requires
        0 <= i <= es.len(),
        forall|e: int|
            0 <= e < i ==> none_can_be_bought(
                (#[trigger] es[e]).markets,
                es[e].markets.len() as int,
            ),
        i < es.len() ==> 0 <= j < es[i].markets.len() && none_can_be_bought(es[i].markets, j)
            && can_be_bought(es[i].markets[j]),
    ensures
        i == es.len() ==> offered(es) is None,
        i < es.len() ==> offered(es) == Some(es[i].markets[j]),
{
    lemma_offering(es, 0, i, j);
    if i < es.len() {
        lemma_usable(es[i].markets, 0, j);
    }
}

proof fn lemma_usable(ms: Seq<MarketView>, i: int, k: int)
    requires
        0 <= i <= k <= ms.len(),
        none_can_be_bought(ms, k),
        k < ms.len() ==> can_be_bought(ms[k]),
    ensures
        usable_from(ms, i) == k,
    decreases k - i,
{
    if i < k {
        assert(!can_be_bought(ms[i]));
        lemma_usable(ms, i + 1, k);
    }
}

proof fn lemma_offering(es: Seq<EventView>, a: int, i: int, j: int)
    requires
        0 <= a <= i <= es.len(),
        forall|e: int|
            a <= e < i ==> none_can_be_bought(
                (#[trigger] es[e]).markets,
                es[e].markets.len() as int,
            ),
        i < es.len() ==> 0 <= j < es[i].markets.len() && none_can_be_bought(es[i].markets, j)
            && can_be_bought(es[i].markets[j]),
    ensures
        offering_from(es, a) == i,
    decreases i - a,
{
    if a < i {
        lemma_usable(es[a].markets, 0, es[a].markets.len() as int);
        lemma_offering(es, a + 1, i, j);
    } else if i < es.len() {
        lemma_usable(es[i].markets, 0, j);
    }
}

/// A target names the token of "up" and, as the other, that of "down".
pub proof fn targets_have_both_tokens(t: TargetMarket, m: MarketView)
    requires
        t.is_target_of(m),
    ensures
        m.up_index() == 0 ==> t.yes_token_id == m.token_ids[0] && t.no_token_id == m.token_ids[1],
        m.up_index() == 1 ==> t.yes_token_id == m.token_ids[1] && t.no_token_id == m.token_ids[0],
        m.condition_id is Some ==> Some(t.condition_id) == m.condition_id,
        t.end == m.end,
        m.question is Some ==> m.question == Some(t.question@),
{
}

/// "up" has won exactly where its own price is above the one that says so; a
/// price that cannot be read does not, and without two prices nothing is known.
pub proof fn up_wins_by_its_price(m: MarketView)
    requires
        0 <= m.up_index(),
    ensures
        m.outcome_prices.len() < 2 ==> m.up_won() is None,
        2 <= m.outcome_prices.len() && m.up_index() < m.outcome_prices.len()
            && m.outcome_prices[m.up_index()] is None ==> m.up_won() == Some(false),
        2 <= m.outcome_prices.len() && m.up_index() < m.outcome_prices.len()
            && m.outcome_prices[m.up_index()] is Some ==> {
            let p = m.outcome_prices[m.up_index()]->0;
            m.up_won() == Some(!p.is_nan() && fig(WON_PRICE).rank() < p.rank())
        },
{
}

/// A market with an id is resolved exactly where one of its first two prices is
/// above the one that says so, and its first outcome has won where the first is.
pub proof fn markets_resolve_by_their_prices(m: MarketView)
    ensures
        m.condition_id is None || m.outcome_prices.len() < 2 ==> m.resolution() is None,
        m.condition_id is Some && m.outcome_prices.len() >= 2 ==> {
            let first = m.outcome_prices[0] matches Some(p) && !p.is_nan() && fig(WON_PRICE).rank()
                < p.rank();
            let second = m.outcome_prices[1] matches Some(p) && !p.is_nan() && fig(WON_PRICE).rank()
                < p.rank();
            &&& first ==> m.resolution() == Some((m.condition_id->0, true))
            &&& !first && second ==> m.resolution() == Some((m.condition_id->0, false))
            &&& !first && !second ==> m.resolution() is None
        },
{
}

/// Each market with two prices or more adds its outcome behind those before it.
pub proof fn outcomes_come_in_order(es: Seq<EventView>, e: EventView, ms: Seq<MarketView>, m: MarketView)
    ensures
        verdicts_of(Seq::empty()).len() == 0,
        verdicts_of(es.push(e)) == verdicts_of(es) + market_verdicts(e.markets),
        market_verdicts(Seq::empty()).len() == 0,
        m.outcome_prices.len() < 2 ==> market_verdicts(ms.push(m)) == market_verdicts(ms),
        m.outcome_prices.len() >= 2 ==> market_verdicts(ms.push(m)) == market_verdicts(ms).push(
            m.up_won()->0,
        ),
{
    assert(es.push(e).drop_last() =~= es);
    assert(ms.push(m).drop_last() =~= ms);
}

/// The outcome of a market with prices is known exactly where one of them is that
/// of its "up".
pub proof fn verdicts_need_a_price_for_up(m: MarketView)
    ensures
        has_verdict(m) <==> m.outcome_prices.len() < 2 || m.up_index() < m.outcome_prices.len(),
{
}

/// Both kinds of short market are asked for by series, tag and search, the coin by
/// both of its names, and all open markets besides.
pub proof fn every_way_to_a_market_is_asked_for()
    ensures
        discovery().len() == 11,
        discovery()[0] == (Listing::Series, "btc-updown-5m"@, 5int),
        discovery()[1] == (Listing::Series, "btc-updown-15m"@, 5int),
        discovery()[2] == (Listing::Tag, "5M"@, 50int),
        discovery()[3] == (Listing::Tag, "15M"@, 50int),
        discovery()[4] == (Listing::Tag, "btc-updown"@, 50int),
        discovery()[5] == (Listing::Tag, "crypto"@, 50int),
        discovery()[6] == (Listing::Search, "bitcoin"@, 0int),
        discovery()[7] == (Listing::Search, "btc"@, 0int),
        discovery()[8] == (Listing::Search, "btc-updown-5m"@, 0int),
        discovery()[9] == (Listing::Search, "btc-updown-15m"@, 0int),
        discovery()[10] == (Listing::Markets, ""@, 200int),
{
}

} // verus!
