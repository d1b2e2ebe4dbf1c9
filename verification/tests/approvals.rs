use simple_bot::approvals::{
    approval_targets, approver, format_allowance, needs_approval, status_text, summary_text,
    Approval, ApproveError,
};
use simple_bot::ids::Word;

fn max() -> Word {
    Word { l0: u64::MAX, l1: u64::MAX, l2: u64::MAX, l3: u64::MAX }
}

#[test]
fn allowances_are_shown() {
    assert_eq!(format_allowance(max()), "MAX (unlimited)");
    assert_eq!(format_allowance(Word::small(0)), "0");
    assert_eq!(format_allowance(Word::small(5_999_999)), "5 USDC");
    assert_eq!(format_allowance(Word::small(999_999)), "0 USDC");
    assert_eq!(
        format_allowance(Word { l0: 0, l1: 1, l2: 0, l3: 0 }),
        "18446744073709 USDC"
    );
}

#[test]
fn targets_are_listed_in_order() {
    let (a, b, c) = (Word::small(1), Word::small(2), Word::small(3));
    let two = approval_targets(a, b, None);
    assert_eq!(two.len(), 2);
    let three = approval_targets(a, b, Some(c));
    let names: Vec<&str> = three.iter().map(|t| t.name).collect();
    assert_eq!(names, vec!["CTF Exchange", "Neg Risk CTF Exchange", "Neg Risk Adapter"]);
    assert_eq!(three[0].address, a);
    assert_eq!(three[1].address, b);
    assert_eq!(three[2].address, c);
}

#[test]
fn status_is_told_in_three_lines() {
    let done = Approval { usdc_allowance: max(), ctf_approved: true };
    assert_eq!(
        status_text("CTF Exchange", &done),
        "CTF Exchange:\n  USDC allowance: MAX (unlimited) (OK)\n  CTF approved:   true (OK)"
    );
    let none = Approval { usdc_allowance: Word::small(0), ctf_approved: false };
    assert_eq!(
        status_text("X", &none),
        "X:\n  USDC allowance: 0 (NEEDS APPROVAL)\n  CTF approved:   false (NEEDS APPROVAL)"
    );
    assert_eq!(summary_text("X", &done), "X: USDC=MAX (unlimited), CTF=true");
}

#[test]
fn one_missing_approval_is_enough() {
    let done = Approval { usdc_allowance: Word::small(1), ctf_approved: true };
    let no_usdc = Approval { usdc_allowance: Word::small(0), ctf_approved: true };
    let no_ctf = Approval { usdc_allowance: Word::small(1), ctf_approved: false };
    assert!(!needs_approval(&vec![]));
    assert!(!needs_approval(&vec![done, done]));
    assert!(needs_approval(&vec![done, no_usdc]));
    assert!(needs_approval(&vec![no_ctf, done]));
    assert!(no_usdc.needs_usdc() && !no_usdc.needs_ctf());
    assert!(no_ctf.needs_ctf() && !no_ctf.needs_usdc());
}

#[test]
fn the_wallet_of_the_key_approves() {
    let key = "0000000000000000000000000000000000000000000000000000000000000001";
    let wallet = Word { l0: 0xb8c2659029395bdf, l1: 0x091a69125d5dfcb7, l2: 0x7e5f4552, l3: 0 };
    assert_eq!(approver(Some(key)), Ok(wallet));
    assert_eq!(approver(Some(&format!("0x{}", key))), Ok(wallet));
    assert_eq!(approver(None), Err(ApproveError::NoKey));
    assert_eq!(approver(Some("not a key")), Err(ApproveError::InvalidKey));
    assert_eq!(approver(Some(&"0".repeat(64))), Err(ApproveError::InvalidKey));
}
