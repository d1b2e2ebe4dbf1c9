use simple_bot::ids::Word;
use simple_bot::redeem::{redemption, RedeemError};

const KEY: &str = "0x0000000000000000000000000000000000000000000000000000000000000001";

#[test]
fn conditions_are_32_bytes_in_hexadecimal_digits() {
    let hex = "0123456789abcdef0011223344556677FEDCBA98765432108899aabbccddeeff";
    let word = Word {
        l0: 0x8899aabbccddeeff,
        l1: 0xfedcba9876543210,
        l2: 0x0011223344556677,
        l3: 0x0123456789abcdef,
    };
    assert_eq!(redemption(Some(KEY), hex).unwrap().condition_id, word);
    assert_eq!(redemption(Some(KEY), &format!("0x{}", hex)).unwrap().condition_id, word);
}

#[test]
fn redemptions_are_for_the_wallet_of_the_key() {
    let r = redemption(Some(KEY), &"0".repeat(64)).unwrap();
    assert_eq!(
        r.wallet,
        Word { l0: 0xb8c2659029395bdf, l1: 0x091a69125d5dfcb7, l2: 0x7e5f4552, l3: 0 }
    );
}

#[test]
fn redemptions_fail_in_order() {
    assert_eq!(redemption(None, "zz"), Err(RedeemError::NoKey));
    assert_eq!(redemption(Some("zz"), "0xabc123"), Err(RedeemError::InvalidCondition));
    assert_eq!(redemption(Some("zz"), &"a".repeat(64)), Err(RedeemError::InvalidKey));
}
