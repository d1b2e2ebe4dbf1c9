//! The steps of placing one order.

use vstd::prelude::*;

verus! {

/// Which way an order goes. Venues may report sides of their own.
#[derive(Clone, Copy, Debug, PartialEq, Eq, Structural)]
pub enum Side {
    Buy,
    Sell,
    Unknown,
}

impl Side {
    pub open spec fn name(self) -> Seq<char> {
        match self {
            Side::Buy => "BUY"@,
            Side::Sell => "SELL"@,
            Side::Unknown => "?"@,
        }
    }

    /// How a side is written in records and logs.
    pub fn label(self) -> (r: &'static str)
        ensures
            r@ == self.name(),
    {
        match self {
            Side::Buy => "BUY",
            Side::Sell => "SELL",
            Side::Unknown => "?",
        }
    }
}

/// What is to be done next for an order.
#[derive(Clone, Copy, Debug, PartialEq, Eq, Structural)]
pub enum OrderStep {
    /// Log the order as a simulated one.
    Simulate,
    /// Take the amount as a number of shares.
    CountShares,
    /// Take the amount as a sum of USDC.
    CountUsdc,
    /// Build the order.
    Build,
    /// Sign it.
    Sign,
    /// Post it.
    Post,
    /// Nothing more: the order was placed or simulated, or it was not.
    Done { placed: bool },
}

impl OrderStep {
    /// The step that follows, by whether this one succeeded. Posting succeeds
    /// where the exchange answered that it accepted the order.
    pub open spec fn next(self, ok: bool) -> OrderStep {
        match self {
            OrderStep::Simulate => OrderStep::Done { placed: true },
            OrderStep::CountShares | OrderStep::CountUsdc => if ok {
                OrderStep::Build
            } else {
                OrderStep::Done { placed: false }
            },
            OrderStep::Build => if ok {
                OrderStep::Sign
            } else {
                OrderStep::Done { placed: false }
            },
            OrderStep::Sign => if ok {
                OrderStep::Post
            } else {
                OrderStep::Done { placed: false }
            },
            OrderStep::Post => OrderStep::Done { placed: ok },
            OrderStep::Done { placed } => OrderStep::Done { placed },
        }
    }

    /// The first step: a dry run places no order; else an order is simulated
    /// unless both a signer and a client are there; a sale is counted in shares,
    /// everything else in USDC.
    pub open spec fn first(
        dry_run: bool,
        has_signer: bool,
        has_client: bool,
        side: Side,
    ) -> OrderStep {
        if dry_run {
            OrderStep::Done { placed: false }
        } else if !(has_signer && has_client) {
            OrderStep::Simulate
        } else if side == Side::Sell {
            OrderStep::CountShares
        } else {
            OrderStep::CountUsdc
        }
    }

    /// The step after as many successes and failures as `oks` lists.
    pub open spec fn after(self, oks: Seq<bool>) -> OrderStep
        decreases oks.len(),
    {
        if oks.len() == 0 {
            self
        } else {
            self.after(oks.drop_last()).next(oks.last())
        }
    }

    pub fn start(dry_run: bool, has_signer: bool, has_client: bool, side: Side) -> (r: OrderStep)
        ensures
            r == OrderStep::first(dry_run, has_signer, has_client, side),
            dry_run ==> r == (OrderStep::Done { placed: false }),
    {
        if dry_run {
            OrderStep::Done { placed: false }
        } else if !(has_signer && has_client) {
            OrderStep::Simulate
        } else if side == Side::Sell {
            OrderStep::CountShares
        } else {
            OrderStep::CountUsdc
        }
    }

    pub fn advance(self, ok: bool) -> (r: OrderStep)
        ensures
            r == self.next(ok),
    {
        match self {
            OrderStep::Simulate => OrderStep::Done { placed: true },
            OrderStep::CountShares | OrderStep::CountUsdc => if ok {
                OrderStep::Build
            } else {
                OrderStep::Done { placed: false }
            },
            OrderStep::Build => if ok {
                OrderStep::Sign
            } else {
                OrderStep::Done { placed: false }
            },
            OrderStep::Sign => if ok {
                OrderStep::Post
            } else {
                OrderStep::Done { placed: false }
            },
            OrderStep::Post => OrderStep::Done { placed: ok },
            OrderStep::Done { placed } => OrderStep::Done { placed },
        }
    }
}

/// In a dry run no order is placed or reaches the exchange, whatever is reported
/// of it.
pub proof fn dry_runs_place_nothing(
    has_signer: bool,
    has_client: bool,
    side: Side,
    oks: Seq<bool>,
)
    ensures
        OrderStep::first(true, has_signer, has_client, side).after(oks) == (OrderStep::Done {
            placed: false,
        }),
        OrderStep::first(true, has_signer, has_client, side).after(oks) !is Post,
    decreases oks.len(),
{
    if oks.len() > 0 {
        dry_runs_place_nothing(has_signer, has_client, side, oks.drop_last());
    }
}

/// Outside of a dry run an order ends after four steps at most. It counts as
/// placed where it was simulated, or where every one of the four succeeded; and a
/// simulated order never reaches the exchange.
pub proof fn order_is_placed(has_signer: bool, has_client: bool, side: Side, oks: Seq<bool>)
    requires
        oks.len() == 4,
    ensures
        OrderStep::first(false, has_signer, has_client, side).after(oks) == (OrderStep::Done {
            placed: !(has_signer && has_client) || (oks[0] && oks[1] && oks[2] && oks[3]),
        }),
        !(has_signer && has_client) ==> forall|n: int|
            0 <= n <= 4 ==> (#[trigger] OrderStep::first(false, has_signer, has_client, side).after(
                oks.take(n),
            )) !is Post,
{
    let s = OrderStep::first(false, has_signer, has_client, side);
    assert(oks.take(4) =~= oks);
    assert(oks.take(4).drop_last() =~= oks.take(3));
    assert(oks.take(3).drop_last() =~= oks.take(2));
    assert(oks.take(2).drop_last() =~= oks.take(1));
    assert(oks.take(1).drop_last() =~= oks.take(0));
    reveal_with_fuel(OrderStep::after, 5);
    assert(s.after(oks.take(0)) == s);
    assert(s.after(oks.take(1)) == s.next(oks[0]));
    assert(s.after(oks.take(2)) == s.next(oks[0]).next(oks[1]));
    assert(s.after(oks.take(3)) == s.next(oks[0]).next(oks[1]).next(oks[2]));
    assert(s.after(oks.take(4)) == s.next(oks[0]).next(oks[1]).next(oks[2]).next(oks[3]));
    if !(has_signer && has_client) {
        assert forall|n: int| 0 <= n <= 4 implies (#[trigger] s.after(oks.take(n))) !is Post by {
            assert(n == 0 || n == 1 || n == 2 || n == 3 || n == 4);
        }
    }
}

/// A sale is counted in shares and everything else in USDC, where there are both
/// a signer and a client; without one of them an order is simulated.
pub proof fn sales_are_counted_in_shares(has_signer: bool, has_client: bool, side: Side)
    ensures
        ({
            let s = OrderStep::first(false, has_signer, has_client, side);
            &&& s is Simulate <==> !has_signer || !has_client
            &&& s is CountShares <==> has_signer && has_client && side is Sell
            &&& s is CountUsdc <==> has_signer && has_client && !(side is Sell)
        }),
{
}

/// An order is counted, built, signed and posted, in this order and each only
/// after the one before succeeded; and it is over once it failed.
pub proof fn steps_follow_on_success(step: OrderStep, ok: bool)
    ensures
        step.next(ok) is Build <==> ok && (step is CountShares || step is CountUsdc),
        step.next(ok) is Sign <==> ok && step is Build,
        step.next(ok) is Post <==> ok && step is Sign,
        !ok && !(step is Simulate) && !(step is Done) ==> step.next(ok) == (OrderStep::Done {
            placed: false,
        }),
        step is Done ==> step.next(ok) == step,
{
}

} // verus!
