//! Inspection of the payment attached to a donation.
//!
//! A donation must attach exactly one coin, of a positive amount, in the
//! configured denomination.  The check itself is made by `cw_utils::must_pay`,
//! whose exact behaviour (read from its source) the trusted wrapper below
//! states over the library's own plain values.

use vstd::prelude::*;

verus! {

/// One attached coin: an amount of a denomination.
#[derive(Clone, Debug, PartialEq, Eq)]
pub struct Coin {
    pub denom: String,
    pub amount: u128,
}

/// Why an attached payment was rejected.
#[derive(Clone, Debug, PartialEq, Eq)]
pub enum PaymentFault {
    /// Nothing attached, or a single coin of amount zero.
    NoFunds,
    /// More than one coin attached.
    MultipleDenoms,
    /// One non-zero coin, but of another denomination; carries the
    /// denomination that was required.
    MissingDenom(String),
}

/// What payment inspection returns: the donated amount, or the fault.
pub type PayResult = Result<u128, PaymentFault>;

/// The attached funds are exactly one positive coin of denomination `denom`.
pub open spec fn valid_payment(funds: Seq<Coin>, denom: Seq<char>) -> bool {
    funds.len() == 1 && funds[0].amount > 0 && funds[0].denom@ == denom
}

/// Exactly what payment inspection returns for given funds: the single
/// positive coin of the right denomination is accepted with its amount, no
/// coins or one zero coin are `NoFunds`, several coins are `MultipleDenoms`,
/// and one positive coin of another denomination is `MissingDenom` carrying
/// the requested denomination.
pub open spec fn pay_outcome(r: PayResult, funds: Seq<Coin>, denom: Seq<char>) -> bool {
    &&& funds.len() == 0 ==> r == Err::<u128, PaymentFault>(PaymentFault::NoFunds)
    &&& funds.len() > 1 ==> r == Err::<u128, PaymentFault>(PaymentFault::MultipleDenoms)
    &&& funds.len() == 1 && funds[0].amount == 0 ==> r == Err::<u128, PaymentFault>(
        PaymentFault::NoFunds,
    )
    &&& valid_payment(funds, denom) ==> r == Ok::<u128, PaymentFault>(funds[0].amount)
    &&& funds.len() == 1 && funds[0].amount > 0 && funds[0].denom@ != denom ==> (r matches Err(e)
        && e matches PaymentFault::MissingDenom(d) && d@ == denom)
}

/// Relies on `cw_utils::must_pay` (via `cw_utils::one_coin`): accepts exactly
/// one coin of non-zero amount in the requested denomination and returns its
/// amount; rejects no coins or a zero coin as `NoFunds`, several coins as
/// `MultipleDenoms`, and one coin of another denomination as `MissingDenom`
/// carrying the requested denomination.  The result depends on the funds and
/// the requested denomination alone; the sender only fills the `MessageInfo`
/// the call takes.
#[verifier::external_body]
fn must_pay_call(sender: &String, funds: &Vec<Coin>, denom: &String) -> (r: PayResult)
    ensures
        pay_outcome(r, funds@, denom@),
{
    let info = cosmwasm_std::MessageInfo {
        sender: cosmwasm_std::Addr::unchecked(sender.as_str()),
        funds: funds.iter().map(|c| cosmwasm_std::Coin::new(c.amount, c.denom.as_str())).collect(),
    };
    match cw_utils::must_pay(&info, denom.as_str()) {
        Ok(amount) => Ok(amount.u128()),
        Err(cw_utils::PaymentError::NoFunds {}) => Err(PaymentFault::NoFunds),
        Err(cw_utils::PaymentError::MultipleDenoms {}) => Err(PaymentFault::MultipleDenoms),
        Err(cw_utils::PaymentError::MissingDenom(d)) => Err(PaymentFault::MissingDenom(d)),
        Err(cw_utils::PaymentError::ExtraDenom(d)) => Err(PaymentFault::MissingDenom(d)),
        Err(cw_utils::PaymentError::NonPayable {}) => Err(PaymentFault::NoFunds),
    }
}

/// The amount donated, or the fault that rejects the payment.  Exactly the
/// attached payments that `valid_payment` admits are accepted.
pub fn donated_amount(sender: &String, funds: &Vec<Coin>, denom: &String) -> (r: PayResult)
    ensures
        pay_outcome(r, funds@, denom@),
        valid_payment(funds@, denom@) <==> (r matches Ok(a) && a == funds@[0].amount),
{
    must_pay_call(sender, funds, denom)
}

} // verus!
