//! Redeeming the tokens of a resolved market.

use vstd::prelude::*;

use crate::ids::{address_of_key, hex_value, is_hex, key_address, limbs, parse_word, without_prefix, Word};

verus! {

/// Why nothing can be redeemed.
#[derive(Clone, Copy, Debug, PartialEq, Eq, Structural)]
pub enum RedeemError {
    /// There is no key.
    NoKey,
    /// The condition is not 32 bytes in hexadecimal digits.
    InvalidCondition,
    /// The key is none.
    InvalidKey,
}

/// What is redeemed, and for whom.
#[derive(Clone, Copy, Debug, PartialEq, Eq, Structural)]
pub struct Redemption {
    pub condition_id: Word,
    pub wallet: Word,
}

/// What is redeemed, and for whom: the condition that a text spells, and the
/// wallet of a key.
pub fn redemption(key: Option<&str>, condition_id_hex: &str) -> (r: Result<Redemption, RedeemError>)
    ensures
        match r {
            Ok(x) => {
                &&& key is Some
                &&& is_hex(condition_id_hex@, 64)
                &&& x.condition_id.value() == hex_value(without_prefix(condition_id_hex@))
                &&& key_address(key->0@) == limbs(Some(x.wallet))
            },
            Err(RedeemError::NoKey) => key is None,
            Err(RedeemError::InvalidCondition) => key is Some && !is_hex(condition_id_hex@, 64),
            Err(RedeemError::InvalidKey) => key is Some && is_hex(condition_id_hex@, 64)
                && key_address(key->0@) is None,
        },
{
    match key {
        Some(key) => match parse_word(condition_id_hex) {
            Some(condition_id) => match address_of_key(key) {
                Some(wallet) => Ok(Redemption { condition_id, wallet }),
                None => Err(RedeemError::InvalidKey),
            },
            None => Err(RedeemError::InvalidCondition),
        },
        None => Err(RedeemError::NoKey),
    }
}

} // verus!
