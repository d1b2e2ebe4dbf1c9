//! Identifiers of 256 bits: outcome tokens, market conditions, wallets.

use alloy::primitives::{Address, B256, U256};
use alloy::signers::local::PrivateKeySigner;
use vstd::prelude::*;

use crate::text::numeral;

verus! {

/// A 256-bit number in four 64-bit limbs, the lowest first. A wallet address
/// is held with zeros in front.
#[derive(Clone, Copy, Debug, PartialEq, Eq, Structural)]
pub struct Word {
    pub l0: u64,
    pub l1: u64,
    pub l2: u64,
    pub l3: u64,
}

/// The weight of one limb: 2 to the power of 64.
pub open spec fn limb_base() -> int {
    0x1_0000_0000_0000_0000
}

impl Word {
    pub open spec fn value(self) -> int {
        self.l0 + limb_base() * (self.l1 + limb_base() * (self.l2 + limb_base() * self.l3))
    }

    pub open spec fn is_zero(self) -> bool {
        self.l0 == 0 && self.l1 == 0 && self.l2 == 0 && self.l3 == 0
    }

    pub open spec fn is_max(self) -> bool {
        self.l0 == u64::MAX && self.l1 == u64::MAX && self.l2 == u64::MAX && self.l3 == u64::MAX
    }

    pub fn zero(self) -> (r: bool)
        ensures
            r == self.is_zero(),
    {
        self.l0 == 0 && self.l1 == 0 && self.l2 == 0 && self.l3 == 0
    }

    pub fn max(self) -> (r: bool)
        ensures
            r == self.is_max(),
    {
        self.l0 == u64::MAX && self.l1 == u64::MAX && self.l2 == u64::MAX && self.l3 == u64::MAX
    }

    /// A small number as a word.
    pub fn small(n: u64) -> (r: Word)
        ensures
            r == (Word { l0: n, l1: 0, l2: 0, l3: 0 }),
            r.value() == n,
    {
        Word { l0: n, l1: 0, l2: 0, l3: 0 }
    }
}

/// The number that one hexadecimal digit of either case denotes.
pub open spec fn hex_digit(c: char) -> Option<int> {
    if '0' <= c <= '9' {
        Some(c as int - '0' as int)
    } else if 'a' <= c <= 'f' {
        Some(c as int - 'a' as int + 10)
    } else if 'A' <= c <= 'F' {
        Some(c as int - 'A' as int + 10)
    } else {
        None
    }
}

/// The number that a run of hexadecimal digits denotes.
pub open spec fn hex_value(s: Seq<char>) -> int
    decreases s.len(),
{
    if s.len() == 0 {
        0
    } else {
        hex_value(s.drop_last()) * 16 + hex_digit(s.last()).unwrap_or(0)
    }
}

/// A text without the `0x` or `0X` in front of it.
pub open spec fn without_prefix(s: Seq<char>) -> Seq<char> {
    if s.len() >= 2 && s[0] == '0' && (s[1] == 'x' || s[1] == 'X') {
        s.skip(2)
    } else {
        s
    }
}

/// `s` is `n` hexadecimal digits, with or without a prefix.
pub open spec fn is_hex(s: Seq<char>, n: nat) -> bool {
    let body = without_prefix(s);
    body.len() == n && forall|i: int| 0 <= i < n ==> hex_digit(#[trigger] body[i]) is Some
}

/// Calls `B256::from_str`: 64 hexadecimal digits of either case, with or
/// without a prefix, denote the number that they spell.
#[verifier::external_body]
pub(crate) fn parse_word(s: &str) -> (r: Option<Word>)
    ensures
        r is Some <==> is_hex(s@, 64),
        r is Some ==> r->0.value() == hex_value(without_prefix(s@)),
{
    let parsed: Option<B256> = s.parse().ok();
    parsed.map(|b| U256::from_be_bytes(b.0).into_limbs()).map(
        |l| Word { l0: l[0], l1: l[1], l2: l[2], l3: l[3] },
    )
}

/// Calls `Address::from_str`: 40 hexadecimal digits of either case, with or
/// without a prefix, denote the address that they spell.
#[verifier::external_body]
pub(crate) fn parse_address(s: &str) -> (r: Option<Word>)
    ensures
        r is Some <==> is_hex(s@, 40),
        r is Some ==> r->0.value() == hex_value(without_prefix(s@)),
{
    let parsed: Option<Address> = s.parse().ok();
    parsed.map(|a| U256::from_be_bytes(a.into_word().0).into_limbs()).map(
        |l| Word { l0: l[0], l1: l[1], l2: l[2], l3: l[3] },
    )
}

/// The address that a private key signs for, by its limbs.
pub uninterp spec fn key_address(s: Seq<char>) -> Option<(u64, u64, u64, u64)>;

/// The limbs of an optional word.
pub open spec fn limbs(w: Option<Word>) -> Option<(u64, u64, u64, u64)> {
    match w {
        Some(w) => Some((w.l0, w.l1, w.l2, w.l3)),
        None => None,
    }
}

/// Calls `PrivateKeySigner::from_str` and `PrivateKeySigner::address`: the
/// address of a private key, a function of the key's text. A text that is not
/// 64 hexadecimal digits is no key.
#[verifier::external_body]
pub(crate) fn address_of_key(s: &str) -> (r: Option<Word>)
    ensures
        limbs(r) == key_address(s@),
        r is Some ==> is_hex(s@, 64),
{
    let parsed: Option<PrivateKeySigner> = s.parse().ok();
    parsed.map(|k| U256::from_be_bytes(k.address().into_word().0).into_limbs()).map(
        |l| Word { l0: l[0], l1: l[1], l2: l[2], l3: l[3] },
    )
}

/// Calls the division of `U256`, which drops the remainder.
#[verifier::external_body]
pub(crate) fn div_word(a: Word, b: Word) -> (r: Word)
    requires
        !b.is_zero(),
    ensures
        r.value() == a.value() / b.value(),
{
    let x = U256::from_limbs([a.l0, a.l1, a.l2, a.l3]);
    let y = U256::from_limbs([b.l0, b.l1, b.l2, b.l3]);
    let l = (x / y).into_limbs();
    Word { l0: l[0], l1: l[1], l2: l[2], l3: l[3] }
}

/// Calls `U256::to_string`: the decimal numeral.
#[verifier::external_body]
pub(crate) fn word_text(a: Word) -> (r: String)
    ensures
        r@ == numeral(a.value() as nat),
{
    U256::from_limbs([a.l0, a.l1, a.l2, a.l3]).to_string()
}

/// Two words with one value are the same word.
pub proof fn value_determines_word(a: Word, b: Word)
    requires
        a.value() == b.value(),
    ensures
        a == b,
{
    let base = limb_base();
    let a1 = a.l1 + base * (a.l2 + base * a.l3);
    let b1 = b.l1 + base * (b.l2 + base * b.l3);
    assert(a.l0 == b.l0 && a1 == b1);
    let a2 = a.l2 + base * a.l3;
    let b2 = b.l2 + base * b.l3;
    assert(a.l1 == b.l1 && a2 == b2);
}

/// A word is zero where its value is, and the largest where its value is the
/// largest that 256 bits hold.
pub proof fn zero_and_largest_by_value(w: Word)
    ensures
        w.is_zero() <==> w.value() == 0,
        w.is_max() <==> w.value() + 1 == limb_base() * limb_base() * limb_base() * limb_base(),
        0 <= w.value() < limb_base() * limb_base() * limb_base() * limb_base(),
{
}

/// A hexadecimal digit of either case denotes 0 to 15, and one digit more
/// multiplies what stands before it by 16.
pub proof fn hex_digits_count_by_sixteen(s: Seq<char>, c: char)
    requires
        hex_digit(c) is Some,
    ensures
        0 <= hex_digit(c)->0 < 16,
        hex_value(s.push(c)) == hex_value(s) * 16 + hex_digit(c)->0,
        'a' <= c <= 'f' ==> hex_digit((c as int - 32) as char) == hex_digit(c),
        c == '0' ==> hex_value(s.push(c)) == hex_value(s) * 16,
{
    assert(s.push(c).drop_last() =~= s);
}

} // verus!
