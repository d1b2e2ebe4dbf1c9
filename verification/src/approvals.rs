//! Which contracts may spend a wallet's tokens.

use vstd::prelude::*;

use crate::ids::{
    address_of_key, div_word, key_address, limb_base, limbs, word_text, zero_and_largest_by_value,
    Word,
};
use crate::text::numeral;

verus! {

/// Why nobody can approve.
#[derive(Clone, Copy, Debug, PartialEq, Eq, Structural)]
pub enum ApproveError {
    /// There is no key.
    NoKey,
    /// The key is none.
    InvalidKey,
}

/// The wallet that approves: that of a key.
pub fn approver(key: Option<&str>) -> (r: Result<Word, ApproveError>)
    ensures
        match r {
            Ok(w) => key is Some && key_address(key->0@) == limbs(Some(w)),
            Err(ApproveError::NoKey) => key is None,
            Err(ApproveError::InvalidKey) => key is Some && key_address(key->0@) is None,
        },
{
    match key {
        Some(key) => match address_of_key(key) {
            Some(wallet) => Ok(wallet),
            None => Err(ApproveError::InvalidKey),
        },
        None => Err(ApproveError::NoKey),
    }
}

/// The contracts that need approvals by name: the exchanges always, the adapter
/// where there is one.
pub open spec fn target_names(has_adapter: bool) -> Seq<Seq<char>> {
    if has_adapter {
        seq!["CTF Exchange"@, "Neg Risk CTF Exchange"@, "Neg Risk Adapter"@]
    } else {
        seq!["CTF Exchange"@, "Neg Risk CTF Exchange"@]
    }
}

/// A contract that needs approvals.
#[derive(Clone, Copy, Debug)]
pub struct ApprovalTarget {
    pub name: &'static str,
    pub address: Word,
}

/// The contracts that need approvals, in order.
pub fn approval_targets(exchange: Word, neg_risk_exchange: Word, adapter: Option<Word>) -> (r: Vec<
    ApprovalTarget,
>)
    ensures
        r@.len() == target_names(adapter is Some).len(),
        forall|i: int|
            0 <= i < r@.len() ==> (#[trigger] r@[i]).name@ == target_names(adapter is Some)[i],
        r@[0].address == exchange,
        r@[1].address == neg_risk_exchange,
        adapter is Some ==> r@[2].address == adapter->0,
{
    let mut targets: Vec<ApprovalTarget> = Vec::new();
    targets.push(ApprovalTarget { name: "CTF Exchange", address: exchange });
    targets.push(ApprovalTarget { name: "Neg Risk CTF Exchange", address: neg_risk_exchange });
    if let Some(address) = adapter {
        targets.push(ApprovalTarget { name: "Neg Risk Adapter", address });
    }
    targets
}

/// How an allowance is shown: without end, none, or in whole USDC.
pub open spec fn allowance_text(allowance: Word) -> Seq<char> {
    if allowance.is_max() {
        "MAX (unlimited)"@
    } else if allowance.is_zero() {
        "0"@
    } else {
        numeral((allowance.value() / 1_000_000) as nat) + " USDC"@
    }
}

/// How an allowance is shown.
pub fn format_allowance(allowance: Word) -> (r: String)
    ensures
        r@ == allowance_text(allowance),
{
    if allowance.max() {
        "MAX (unlimited)".to_owned()
    } else if allowance.zero() {
        "0".to_owned()
    } else {
        let mut text = word_text(div_word(allowance, Word::small(1_000_000)));
        text.append(" USDC");
        text
    }
}

/// What a contract may spend: how much USDC, and whether the outcome tokens.
#[derive(Clone, Copy, Debug, PartialEq, Eq, Structural)]
pub struct Approval {
    pub usdc_allowance: Word,
    pub ctf_approved: bool,
}

impl Approval {
    /// Some USDC and the outcome tokens may be spent.
    pub open spec fn complete(self) -> bool {
        !self.usdc_allowance.is_zero() && self.ctf_approved
    }

    /// USDC has to be approved.
    pub fn needs_usdc(&self) -> (r: bool)
        ensures
            r == self.usdc_allowance.is_zero(),
    {
        self.usdc_allowance.zero()
    }

    /// The outcome tokens have to be approved.
    pub fn needs_ctf(&self) -> (r: bool)
        ensures
            r == !self.ctf_approved,
    {
        !self.ctf_approved
    }
}

/// What is said of one of the two approvals.
pub open spec fn verdict(ok: bool) -> Seq<char> {
    if ok {
        "OK"@
    } else {
        "NEEDS APPROVAL"@
    }
}

fn verdict_exec(ok: bool) -> (r: &'static str)
    ensures
        r@ == verdict(ok),
{
    if ok {
        "OK"
    } else {
        "NEEDS APPROVAL"
    }
}

pub open spec fn bool_text(b: bool) -> Seq<char> {
    if b {
        "true"@
    } else {
        "false"@
    }
}

fn bool_exec(b: bool) -> (r: &'static str)
    ensures
        r@ == bool_text(b),
{
    if b {
        "true"
    } else {
        "false"
    }
}

/// The status of one contract.
pub open spec fn status_of(name: Seq<char>, a: Approval) -> Seq<char> {
    name + ":\n  USDC allowance: "@ + allowance_text(a.usdc_allowance) + " ("@ + verdict(
        !a.usdc_allowance.is_zero(),
    ) + ")\n  CTF approved:   "@ + bool_text(a.ctf_approved) + " ("@ + verdict(a.ctf_approved) + ")"@
}

/// The status of one contract, in three lines.
pub fn status_text(name: &str, a: &Approval) -> (r: String)
    ensures
        r@ == status_of(name@, *a),
{
    let mut text = name.to_owned();
    text.append(":\n  USDC allowance: ");
    text.append(format_allowance(a.usdc_allowance).as_str());
    text.append(" (");
    text.append(verdict_exec(!a.usdc_allowance.zero()));
    text.append(")\n  CTF approved:   ");
    text.append(bool_exec(a.ctf_approved));
    text.append(" (");
    text.append(verdict_exec(a.ctf_approved));
    text.append(")");
    text
}

/// What a contract may spend, in one line.
pub open spec fn summary_of(name: Seq<char>, a: Approval) -> Seq<char> {
    name + ": USDC="@ + allowance_text(a.usdc_allowance) + ", CTF="@ + bool_text(a.ctf_approved)
}

/// What a contract may spend, in one line.
pub fn summary_text(name: &str, a: &Approval) -> (r: String)
    ensures
        r@ == summary_of(name@, *a),
{
    let mut text = name.to_owned();
    text.append(": USDC=");
    text.append(format_allowance(a.usdc_allowance).as_str());
    text.append(", CTF=");
    text.append(bool_exec(a.ctf_approved));
    text
}

/// Whether any approval is missing.
pub fn needs_approval(approvals: &Vec<Approval>) -> (r: bool)
    ensures
        r == exists|i: int| 0 <= i < approvals@.len() && !(#[trigger] approvals@[i]).complete(),
{
    let mut i: usize = 0;
    while i < approvals.len()
        invariant
            i <= approvals@.len(),
            forall|k: int| 0 <= k < i ==> (#[trigger] approvals@[k]).complete(),
        decreases approvals@.len() - i,
    {
        if approvals[i].needs_usdc() || approvals[i].needs_ctf() {
            assert(!approvals@[i as int].complete());
            return true;
        }
        i = i + 1;
    }
    false
}

impl Approval {
    /// The approval after what was missing has been approved: USDC without end
    /// where there was none, and the outcome tokens.
    pub open spec fn granted(self) -> Approval {
        Approval {
            usdc_allowance: if self.usdc_allowance.is_zero() {
                Word { l0: u64::MAX, l1: u64::MAX, l2: u64::MAX, l3: u64::MAX }
            } else {
                self.usdc_allowance
            },
            ctf_approved: true,
        }
    }
}

/// Once what is missing has been approved, nothing is missing; and what was
/// complete is left as it was.
pub proof fn granting_completes(a: Approval)
    ensures
        a.granted().complete(),
        a.complete() ==> a.granted() == a,
{
}

/// An allowance is shown as unlimited only at the largest number, as nothing at
/// zero, and else as its millionths in whole USDC, the rest dropped.
pub proof fn allowances_are_shown_in_whole_usdc(allowance: Word, usdc: nat)
    ensures
        allowance.value() == 0 ==> allowance_text(allowance) == "0"@,
        0 < allowance.value() && usdc * 1_000_000 <= allowance.value() < (usdc + 1) * 1_000_000
            && allowance.value() + 1 < limb_base() * limb_base() * limb_base() * limb_base()
            ==> allowance_text(allowance) == numeral(usdc) + " USDC"@,
        allowance.value() + 1 == limb_base() * limb_base() * limb_base() * limb_base()
            ==> allowance_text(allowance) == "MAX (unlimited)"@,
{
    zero_and_largest_by_value(allowance);
}

/// An approval is complete exactly where some USDC and the outcome tokens may be
/// spent.
pub proof fn approvals_are_complete_with_both(a: Approval)
    ensures
        a.complete() <==> a.usdc_allowance.value() > 0 && a.ctf_approved,
{
    zero_and_largest_by_value(a.usdc_allowance);
}

/// The status of a contract tells the two approvals apart: each is said to be
/// needed exactly where it is missing, whatever the other is.
pub proof fn each_approval_is_told_by_itself(name: Seq<char>, a: Approval)
    ensures
        ({
            let usdc = if a.usdc_allowance.value() == 0 {
                "NEEDS APPROVAL"@
            } else {
                "OK"@
            };
            let tokens = if a.ctf_approved {
                "true"@ + " ("@ + "OK"@
            } else {
                "false"@ + " ("@ + "NEEDS APPROVAL"@
            };
            let head = name + ":\n  USDC allowance: "@ + allowance_text(a.usdc_allowance);
            status_of(name, a) =~= head + " ("@ + usdc + ")\n  CTF approved:   "@ + tokens + ")"@
        }),
        a.ctf_approved ==> summary_of(name, a) == name + ": USDC="@ + allowance_text(
            a.usdc_allowance,
        ) + ", CTF="@ + "true"@,
        !a.ctf_approved ==> summary_of(name, a) == name + ": USDC="@ + allowance_text(
            a.usdc_allowance,
        ) + ", CTF="@ + "false"@,
{
    zero_and_largest_by_value(a.usdc_allowance);
}

} // verus!
