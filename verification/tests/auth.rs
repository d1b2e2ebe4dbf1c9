use simple_bot::auth::{named_address, sign_in, signed_in, PaperReason, SignIn, Wallet};
use simple_bot::ids::Word;

const KEY: &str = "0000000000000000000000000000000000000000000000000000000000000001";

fn owner() -> Word {
    // 0x7E5F4552091A69125d5DfCb7b8C2659029395Bdf
    Word { l0: 0xb8c2659029395bdf, l1: 0x091a69125d5dfcb7, l2: 0x7e5f4552, l3: 0 }
}

fn wallet(r: SignIn) -> Wallet {
    match r {
        SignIn::Live(w) => w,
        SignIn::Paper(reason) => panic!("{:?}", reason),
    }
}

#[test]
fn paper_mode_is_asked_for_or_falls_out() {
    assert_eq!(
        sign_in(true, Some(KEY), None, None),
        SignIn::Paper(PaperReason::Requested)
    );
    assert_eq!(sign_in(false, None, None, None), SignIn::Paper(PaperReason::NoKey));
    assert_eq!(
        sign_in(false, Some("not a key"), None, None),
        SignIn::Paper(PaperReason::InvalidKey)
    );
    let zero = "0".repeat(64);
    assert_eq!(
        sign_in(false, Some(&zero), None, None),
        SignIn::Paper(PaperReason::InvalidKey)
    );
}

#[test]
fn keys_with_and_without_prefix_sign_for_one_address() {
    let plain = wallet(sign_in(false, Some(KEY), None, None));
    let prefixed = wallet(sign_in(false, Some(&format!("0x{}", KEY)), None, None));
    assert_eq!(plain.owner, owner());
    assert_eq!(prefixed.owner, owner());
    assert!(!plain.use_proxy && plain.named_funder.is_none());
}

#[test]
fn the_wallet_type_is_read_in_any_case() {
    assert!(wallet(sign_in(false, Some(KEY), Some("Proxy"), None)).use_proxy);
    assert!(wallet(sign_in(false, Some(KEY), Some("PROXY"), None)).use_proxy);
    assert!(!wallet(sign_in(false, Some(KEY), Some("eoa"), None)).use_proxy);
    assert!(!wallet(sign_in(false, Some(KEY), Some(" proxy"), None)).use_proxy);
}

#[test]
fn addresses_are_read_with_anything_around_them() {
    let text = "7E5F4552091A69125d5DfCb7b8C2659029395Bdf";
    assert_eq!(named_address(Some(text)), Some(owner()));
    assert_eq!(named_address(Some(&format!("  0x{}\n", text))), Some(owner()));
    assert_eq!(named_address(Some(&format!("0x0x{}", text))), Some(owner()));
    assert_eq!(named_address(Some(&text[1..])), None);
    assert_eq!(named_address(Some("0x")), None);
    assert_eq!(named_address(None), None);
}

#[test]
fn a_named_funder_wins_over_a_derived_one() {
    let named = Some(Word::small(7));
    let derived = Some(Word::small(8));
    let w = Wallet { owner: owner(), use_proxy: true, named_funder: named };
    assert!(!w.derives());
    assert_eq!(w.signing(derived), (named, true));
    let w = Wallet { owner: owner(), use_proxy: false, named_funder: named };
    assert_eq!(w.signing(None), (named, true));
}

#[test]
fn proxies_derive_their_funder_and_plain_wallets_have_none() {
    let derived = Some(Word::small(8));
    let proxy = Wallet { owner: owner(), use_proxy: true, named_funder: None };
    assert!(proxy.derives());
    assert_eq!(proxy.signing(derived), (derived, true));
    assert_eq!(proxy.signing(None), (None, true));
    let plain = Wallet { owner: owner(), use_proxy: false, named_funder: None };
    assert!(!plain.derives());
    assert_eq!(plain.signing(derived), (None, false));
}

#[test]
fn a_session_is_live_only_where_the_exchange_accepts() {
    let live = sign_in(false, Some(KEY), None, None);
    assert_eq!(signed_in(live, true, true), live);
    assert_eq!(signed_in(live, false, true), SignIn::Paper(PaperReason::NoClient));
    assert_eq!(signed_in(live, true, false), SignIn::Paper(PaperReason::Refused));
    let paper = SignIn::Paper(PaperReason::NoKey);
    assert_eq!(signed_in(paper, true, true), paper);
}
