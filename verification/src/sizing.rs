//! How much is spent on one order.

use vstd::prelude::*;

use crate::decimal::{
    dec_text, div_dec, half_even, integer, less, parse_dec, pow10_adds, pow10_is_positive,
    quotient_of, round_dec, rounding_goes_to_the_nearest, text_value, whole,
    whole_quotient_divides, Dec, MAX_SCALE,
};
use crate::figure::{fig, Figure};
use crate::text::pow10;

verus! {

/// The decimal places that USDC has.
pub const USDC_PLACES: u32 = 6;

/// Units of a wallet balance in one USDC.
pub const MICRO: i64 = 1_000_000;

/// 100: the size of the wallet in paper mode, in USDC.
pub const PAPER_WALLET_USDC: u64 = 0x4059_0000_0000_0000;

/// The smallest order, in USDC.
pub const SMALLEST_ORDER: i64 = 1;

/// What is spent where `wanted` is asked for and `balance` is there: the amount
/// to six decimal places, no more than the balance to six decimal places;
/// nothing below the smallest order.
pub open spec fn sized(wanted: Dec, balance: Dec) -> Option<Dec> {
    let asked = wanted.rounded(USDC_PLACES);
    let amount = if balance.units() < asked.units() {
        balance.rounded(USDC_PLACES)
    } else {
        asked
    };
    if amount.units() < integer(SMALLEST_ORDER as int).units() {
        None
    } else {
        Some(amount)
    }
}

/// What is spent where `wanted` is asked for and `balance` is there.
pub fn size_order(wanted: Dec, balance: Dec) -> (r: Option<Dec>)
    requires
        wanted.wf(),
        balance.wf(),
    ensures
        r == sized(wanted, balance),
        r is Some ==> r->0.wf(),
{
    let mut amount = round_dec(wanted, USDC_PLACES);
    if less(balance, amount) {
        amount = round_dec(balance, USDC_PLACES);
    }
    if less(amount, whole(SMALLEST_ORDER)) {
        None
    } else {
        Some(amount)
    }
}

/// What is spent where the size of an order is given as a text with two decimal
/// places; a text that is no number counts as 1.
pub fn size_order_from_text(size: &str, balance: Dec) -> (r: Option<Dec>)
    requires
        balance.wf(),
    ensures
        r == sized(text_value(size@).unwrap_or(integer(1)), balance),
        r is Some ==> r->0.wf(),
{
    let wanted = match parse_dec(size) {
        Some(d) => d,
        None => whole(1),
    };
    size_order(wanted, balance)
}

/// The size of an order in paper mode is at most the paper wallet.
pub fn effective_size(size: Figure, paper: bool) -> (r: Figure)
    ensures
        r == (if paper {
            size.least(fig(PAPER_WALLET_USDC))
        } else {
            size
        }),
{
    if paper {
        size.min(Figure::from_bits(PAPER_WALLET_USDC))
    } else {
        size
    }
}

/// A wallet balance in USDC, from one in millionths.
pub open spec fn usdc_of(micro: Dec) -> Dec {
    quotient_of(micro, integer(MICRO as int)).unwrap_or(integer(0)).rounded(USDC_PLACES)
}

/// A wallet balance in USDC, to six decimal places, from one in millionths. A
/// whole number of millionths is converted without rounding.
pub fn wallet_balance(micro: Dec) -> (r: Dec)
    requires
        micro.wf(),
    ensures
        r == usdc_of(micro),
        r.wf(),
        micro.scale == 0 ==> r.units() * 1_000_000 == micro.units(),
{
    let usdc = div_dec(micro, whole(MICRO)).unwrap();
    let r = round_dec(usdc, USDC_PLACES);
    proof {
        if micro.scale == 0 {
            lemma_rounding_is_exact(micro, usdc);
        }
    }
    r
}

/// What is said of a wallet balance in millionths; without a wallet there is
/// none to speak of.
pub fn balance_report(micro: Option<Dec>) -> (r: String)
    requires
        micro is Some ==> micro->0.wf(),
    ensures
        r@ == (match micro {
            Some(micro) => "USDC balance: "@ + usdc_of(micro).notation(),
            None => "Cannot check balance without POLYMARKET_PRIVATE_KEY"@,
        }),
{
    match micro {
        Some(micro) => {
            let mut text = "USDC balance: ".to_owned();
            text.append(dec_text(wallet_balance(micro)).as_str());
            text
        },
        None => "Cannot check balance without POLYMARKET_PRIVATE_KEY".to_owned(),
    }
}

proof fn lemma_pow10_values()
    ensures
        pow10(6) == 1_000_000,
{
    reveal_with_fuel(pow10, 7);
}

/// A multiple of a divisor is rounded to the multiple.
proof fn lemma_half_even_of_multiple(k: int, d: int)
    requires
        d > 0,
    ensures
        half_even(k * d, d) == k,
{
    let m = k * d;
    if k < 0 {
        assert(m < 0) by (nonlinear_arith)
            requires
                m == k * d,
                k < 0,
                d > 0,
        ;
        assert((-m) / d == -k && (-m) % d == 0) by (nonlinear_arith)
            requires
                m == k * d,
                d > 0,
        ;
    } else {
        assert(m >= 0) by (nonlinear_arith)
            requires
                m == k * d,
                k >= 0,
                d > 0,
        ;
        assert(m / d == k && m % d == 0) by (nonlinear_arith)
            requires
                m == k * d,
                d > 0,
        ;
    }
}

proof fn lemma_rounding_is_exact(micro: Dec, usdc: Dec)
    requires
        micro.wf(),
        usdc.wf(),
        micro.scale == 0,
        usdc.units() * 1_000_000 == micro.units(),
    ensures
        usdc.rounded(USDC_PLACES).units() == usdc.units(),
{
    if usdc.scale > USDC_PLACES {
        let s = usdc.scale as nat;
        let rest = (MAX_SCALE - s) as nat;
        let d = pow10((s - 6) as nat) as int;
        let m = micro.mantissa as int;
        let u = usdc.mantissa as int;
        lemma_pow10_values();
        pow10_is_positive(rest);
        pow10_is_positive((s - 6) as nat);
        pow10_adds(s, rest);
        pow10_adds(6, (s - 6) as nat);
        assert(pow10(28) == pow10(s) * pow10(rest));
        assert(pow10(s) == 1_000_000 * d);
        let p = pow10(rest) as int;
        assert(u * p * 1_000_000 == m * ((1_000_000 * d) * p));
        assert(u == m * d) by (nonlinear_arith)
            requires
                u * p * 1_000_000 == m * ((1_000_000 * d) * p),
                p > 0,
        ;
        lemma_half_even_of_multiple(m, d);
        pow10_adds((s - 6) as nat, rest);
        assert((22 - (s - 6)) as nat == rest);
        assert(pow10(22) == d * p);
        assert(m * (d * p) == (m * d) * p) by (nonlinear_arith);
    }
}

/// An order is at least the smallest one; and where the balance has no more
/// decimal places than USDC, at most the balance.
pub proof fn order_is_affordable(wanted: Dec, balance: Dec)
    requires
        sized(wanted, balance) is Some,
    ensures
        sized(wanted, balance)->0.units() >= integer(SMALLEST_ORDER as int).units(),
        balance.scale <= USDC_PLACES ==> sized(wanted, balance)->0.units() <= balance.units(),
{
}

/// An order with no more decimal places than USDC that the balance covers is
/// spent as it is.
pub proof fn affordable_order_is_kept(wanted: Dec, balance: Dec)
    requires
        wanted.scale <= USDC_PLACES,
        integer(SMALLEST_ORDER as int).units() <= wanted.units() <= balance.units(),
    ensures
        sized(wanted, balance) == Some(wanted),
{
}

/// An order is what was wanted or what is there, whichever is less: exactly so
/// with no more decimal places than USDC has, else up to the sixth place. It is
/// made exactly where that comes to the smallest order.
pub proof fn orders_are_the_lesser_of_wish_and_balance(wanted: Dec, balance: Dec)
    requires
        wanted.wf(),
        balance.wf(),
    ensures
        ({
            let less = if wanted.units() <= balance.units() {
                wanted.units()
            } else {
                balance.units()
            };
            let least = integer(1).units();
            let place = pow10(22) as int;
            let r = sized(wanted, balance);
            &&& r is Some ==> r->0.scale <= 6 && r->0.units() >= least && -place <= r->0.units()
                - less <= place
            &&& less >= least + place ==> r is Some
            &&& less < least - place ==> r is None
            &&& wanted.scale <= 6 && balance.scale <= 6 ==> (r is Some <==> less >= least)
            &&& wanted.scale <= 6 && balance.scale <= 6 && r is Some ==> r->0.units() == less
        }),
{
    rounding_goes_to_the_nearest(wanted, USDC_PLACES);
    rounding_goes_to_the_nearest(balance, USDC_PLACES);
    pow10_is_positive(22);
}

/// What is wanted counts to six decimal places, and the balance to as many where
/// that is more than it; of neither is anything else spent.
pub proof fn orders_are_rounded_before_they_are_compared(wanted: Dec, balance: Dec, amount: Dec)
    requires
        sized(wanted, balance) == Some(amount),
    ensures
        wanted.rounded(6).units() <= balance.units() ==> amount == wanted.rounded(6),
        wanted.rounded(6).units() > balance.units() ==> amount == balance.rounded(6),
{
}

/// A whole number of USDC, counted in millionths, is that number of USDC.
pub proof fn millionths_add_up(micro: Dec)
    requires
        micro.wf(),
        micro.scale == 0,
        micro.mantissa as int % MICRO as int == 0,
    ensures
        usdc_of(micro).units() * MICRO == micro.units(),
{
    let million = integer(MICRO as int);
    let q = quotient_of(micro, million)->0;
    whole_quotient_divides(micro, million);
    assert(q.scale == 0);
    assert(million.units() == MICRO * pow10(28));
    assert(integer(1).units() == 1 * pow10(28));
    pow10_is_positive(28);
    let p = pow10(28) as int;
    assert(q.units() * MICRO == micro.units()) by (nonlinear_arith)
        requires
            q.units() * (MICRO * p) == micro.units() * (1 * p),
            p > 0,
    ;
}

/// In paper mode no more is asked for than the paper wallet holds, and the size
/// itself where it is no more.
pub proof fn paper_orders_fit_the_paper_wallet(size: Figure)
    ensures
        !size.is_nan() && size.rank() <= fig(PAPER_WALLET_USDC).rank() ==> size.least(
            fig(PAPER_WALLET_USDC),
        ) == size,
        size.is_nan() || size.rank() > fig(PAPER_WALLET_USDC).rank() ==> size.least(
            fig(PAPER_WALLET_USDC),
        ) == fig(PAPER_WALLET_USDC),
{
}

} // verus!
