//! Signing in: paper or live, and with which wallet.

use vstd::prelude::*;

use crate::ids::{
    address_of_key, hex_digit, hex_value, is_hex, key_address, limbs, parse_address,
    without_prefix, Word,
};
use crate::text::{all_ascii, lower, lowercase, same, trim, trimmed};

verus! {

pub const PRIVATE_KEY_VAR: &'static str = "POLYMARKET_PRIVATE_KEY";

pub const WALLET_TYPE_VAR: &'static str = "POLYMARKET_WALLET_TYPE";

pub const FUNDER_ADDRESS_VAR: &'static str = "POLYMARKET_FUNDER_ADDRESS";

/// Why a session trades on paper.
#[derive(Clone, Copy, Debug, PartialEq, Eq, Structural)]
pub enum PaperReason {
    /// It was asked for.
    Requested,
    /// There is no key.
    NoKey,
    /// The key is none.
    InvalidKey,
    /// The exchange could not be reached.
    NoClient,
    /// The exchange refused.
    Refused,
}

/// The wallet that a session signs in with.
#[derive(Clone, Copy, Debug, PartialEq, Eq, Structural)]
pub struct Wallet {
    /// The address of the key.
    pub owner: Word,
    /// The wallet is a proxy by its type.
    pub use_proxy: bool,
    /// The funder that was named.
    pub named_funder: Option<Word>,
}

impl Wallet {
    /// The address of the proxy has to be derived from that of the key.
    pub open spec fn needs_derivation(self) -> bool {
        self.named_funder is None && self.use_proxy
    }

    /// Who pays: the funder that was named, else the derived one of a proxy.
    pub open spec fn funder(self, derived: Option<Word>) -> Option<Word> {
        if self.named_funder is Some {
            self.named_funder
        } else if self.use_proxy {
            derived
        } else {
            None
        }
    }

    /// Orders are signed for a proxy.
    pub open spec fn signs_for_proxy(self, derived: Option<Word>) -> bool {
        self.use_proxy || self.funder(derived) is Some
    }

    pub fn derives(&self) -> (r: bool)
        ensures
            r == self.needs_derivation(),
    {
        self.named_funder.is_none() && self.use_proxy
    }

    /// Who pays, and whether orders are signed for a proxy. `derived` is the
    /// address derived for a proxy, where there is one.
    pub fn signing(&self, derived: Option<Word>) -> (r: (Option<Word>, bool))
        ensures
            r.0 == self.funder(derived),
            r.1 == self.signs_for_proxy(derived),
    {
        let funder = match self.named_funder {
            Some(a) => Some(a),
            None => if self.use_proxy {
                derived
            } else {
                None
            },
        };
        (funder, self.use_proxy || funder.is_some())
    }
}

/// How a session begins.
#[derive(Clone, Copy, Debug, PartialEq, Eq, Structural)]
pub enum SignIn {
    Paper(PaperReason),
    Live(Wallet),
}

/// A text without the `0x` in front of it, however often it stands there.
pub open spec fn bare(s: Seq<char>) -> Seq<char>
    decreases s.len(),
{
    if s.len() >= 2 && s[0] == '0' && s[1] == 'x' {
        bare(s.skip(2))
    } else {
        s
    }
}

fn bare_exec(s: &str) -> (r: &str)
    ensures
        r@ == bare(s@),
    decreases s@.len(),
{
    let n: usize = s.unicode_len();
    if n >= 2 && s.get_char(0) == '0' && s.get_char(1) == 'x' {
        let rest = s.substring_char(2, n);
        assert(rest@ =~= s@.skip(2));
        bare_exec(rest)
    } else {
        s
    }
}

/// The wallet type says that the wallet is a proxy.
pub open spec fn says_proxy(wallet_type: Option<Seq<char>>) -> bool {
    wallet_type is Some && lower(wallet_type->0) == "proxy"@
}

/// The text of an address, without what may stand around it.
pub open spec fn address_text(s: Seq<char>) -> Seq<char> {
    bare(trimmed(s))
}

/// `r` is the address that a text names: white space around it and `0x` in
/// front of it do not matter; none where the rest is no address.
pub open spec fn is_named_address(s: Option<Seq<char>>, r: Option<Word>) -> bool {
    match s {
        Some(s) => {
            &&& r is Some <==> is_hex(address_text(s), 40)
            &&& r is Some ==> r->0.value() == hex_value(without_prefix(address_text(s)))
        },
        None => r is None,
    }
}

pub open spec fn view_opt(s: Option<&str>) -> Option<Seq<char>> {
    match s {
        Some(s) => Some(s@),
        None => None,
    }
}

/// The address that a text names.
pub fn named_address(s: Option<&str>) -> (r: Option<Word>)
    ensures
        is_named_address(view_opt(s), r),
{
    match s {
        Some(s) => parse_address(bare_exec(trim(s))),
        None => None,
    }
}

/// How a session begins: on paper where that is asked for, where there is no
/// key, or where the key is none; else live, with the wallet that the key, the
/// wallet type and the named funder describe.
pub fn sign_in(
    force_paper: bool,
    key: Option<&str>,
    wallet_type: Option<&str>,
    funder: Option<&str>,
) -> (r: SignIn)
    ensures
        match r {
            SignIn::Paper(PaperReason::Requested) => force_paper,
            SignIn::Paper(PaperReason::NoKey) => !force_paper && key is None,
            SignIn::Paper(PaperReason::InvalidKey) => !force_paper && key is Some && key_address(
                key->0@,
            ) is None,
            SignIn::Paper(_) => false,
            SignIn::Live(w) => {
                &&& !force_paper
                &&& key is Some
                &&& key_address(key->0@) == limbs(Some(w.owner))
                &&& w.use_proxy == says_proxy(view_opt(wallet_type))
                &&& is_named_address(view_opt(funder), w.named_funder)
            },
        },
{
    if force_paper {
        return SignIn::Paper(PaperReason::Requested);
    }
    match key {
        Some(key) => match address_of_key(key) {
            Some(owner) => {
                let use_proxy: bool = match wallet_type {
                    Some(t) => same(lowercase(t).as_str(), "proxy"),
                    None => false,
                };
                let named_funder = named_address(funder);
                SignIn::Live(Wallet { owner, use_proxy, named_funder })
            },
            None => SignIn::Paper(PaperReason::InvalidKey),
        },
        None => SignIn::Paper(PaperReason::NoKey),
    }
}

/// A session is live only where the exchange could be reached and accepted the
/// wallet.
pub fn signed_in(plan: SignIn, client: bool, accepted: bool) -> (r: SignIn)
    ensures
        r == (match plan {
            SignIn::Live(w) => if !client {
                SignIn::Paper(PaperReason::NoClient)
            } else if !accepted {
                SignIn::Paper(PaperReason::Refused)
            } else {
                SignIn::Live(w)
            },
            SignIn::Paper(reason) => SignIn::Paper(reason),
        }),
{
    match plan {
        SignIn::Live(w) => if !client {
            SignIn::Paper(PaperReason::NoClient)
        } else if !accepted {
            SignIn::Paper(PaperReason::Refused)
        } else {
            SignIn::Live(w)
        },
        SignIn::Paper(reason) => SignIn::Paper(reason),
    }
}

/// A funder that was named pays, whatever the wallet type; and whoever pays for
/// a wallet, its orders are signed for a proxy.
pub proof fn a_named_funder_pays(w: Wallet, derived: Option<Word>)
    ensures
        w.named_funder is Some ==> w.funder(derived) == w.named_funder,
        w.funder(derived) is Some ==> w.signs_for_proxy(derived),
        !w.use_proxy && w.named_funder is None ==> w.funder(derived) is None && !w.signs_for_proxy(
            derived,
        ),
{
}

/// What is bare stays so.
pub proof fn bare_once_is_enough(s: Seq<char>)
    ensures
        bare(bare(s)) == bare(s),
    decreases s.len(),
{
    if s.len() >= 2 && s[0] == '0' && s[1] == 'x' {
        bare_once_is_enough(s.skip(2));
    }
}

/// Without a named funder a proxy pays with the address that is derived for it,
/// which has to be derived for it alone; any other wallet pays for itself.
pub proof fn a_proxy_pays_with_its_derived_address(w: Wallet, derived: Option<Word>)
    ensures
        w.needs_derivation() <==> w.use_proxy && w.named_funder is None,
        w.use_proxy && w.named_funder is None ==> w.funder(derived) == derived,
        w.signs_for_proxy(derived) <==> w.use_proxy || w.named_funder is Some,
{
}

/// A prefix more makes no difference to what is bare, what has none is bare, and
/// nothing bare has one.
pub proof fn bare_texts_have_no_prefix(s: Seq<char>)
    ensures
        bare(seq!['0', 'x'] + s) == bare(s),
        !(s.len() >= 2 && s[0] == '0' && s[1] == 'x') ==> bare(s) == s,
        bare(s).len() >= 2 ==> bare(s)[0] != '0' || bare(s)[1] != 'x',
    decreases s.len(),
{
    assert((seq!['0', 'x'] + s).skip(2) =~= s);
    if s.len() >= 2 && s[0] == '0' && s[1] == 'x' {
        bare_texts_have_no_prefix(s.skip(2));
    }
}

/// The wallet type says "proxy" in whatever case; without one the wallet is none.
pub proof fn wallet_types_go_by_letters(a: Seq<char>, b: Seq<char>)
    ensures
        says_proxy(Some("proxy"@)),
        !says_proxy(None),
        lower(a) == lower(b) ==> says_proxy(Some(a)) == says_proxy(Some(b)),
        says_proxy(Some(a)) && says_proxy(Some(b)) ==> lower(a) == lower(b),
{
    reveal_strlit("proxy");
    assert(all_ascii("proxy"@));
    assert(lower("proxy"@) =~= "proxy"@);
}

/// An address is read as it is spelled, whatever stands around it: with a prefix
/// more in front it is the same address.
pub proof fn addresses_are_read_as_spelled(s: Seq<char>, r: Option<Word>)
    requires
        is_named_address(Some(s), r),
    ensures
        ({
            let digits = without_prefix(bare(trimmed(s)));
            &&& digits.len() != 40 ==> r is None
            &&& r is Some ==> r->0.value() == hex_value(digits) && forall|i: int|
                0 <= i < 40 ==> hex_digit(#[trigger] digits[i]) is Some
            &&& digits.len() == 40 && (forall|i: int|
                0 <= i < 40 ==> hex_digit(#[trigger] digits[i]) is Some) ==> r is Some
        }),
{
}

} // verus!
