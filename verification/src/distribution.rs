//! The donation distributor: exact integer division of a donation among the
//! current admins, with the undistributed remainder returned to the
//! depositor, so that not one unit of the donation is lost or invented.

use vstd::prelude::*;
use vstd::arithmetic::div_mod::{lemma_fundamental_div_mod, lemma_mod_bound};

verus! {

/// One outbound transfer: `amount` of `denom` to `to`.  Computed by the
/// distributor, executed by the host, never persisted.
#[derive(Clone, Debug, PartialEq, Eq)]
pub struct TransferInstruction {
    pub to: String,
    pub amount: u128,
    pub denom: String,
}

/// The total amount a list of transfers moves.
pub open spec fn sum_amounts(s: Seq<TransferInstruction>) -> int
    decreases s.len(),
{
    if s.len() == 0 {
        0
    } else {
        sum_amounts(s.drop_last()) + s.last().amount
    }
}

/// Exact split law: for every admin count `n >= 1` and donation total `t`,
/// the `n` equal shares `t / n` and the remainder `t % n` add back to exactly
/// `t`, and the remainder is strictly below `n`.
pub proof fn lemma_split_conserves_total(t: u128, n: u128)
    requires
        n >= 1,
    ensures
        (n as int) * ((t as int) / (n as int)) + (t as int) % (n as int) == t as int,
        0 <= (t as int) % (n as int) < n as int,
{
    lemma_fundamental_div_mod(t as int, n as int);
    lemma_mod_bound(t as int, n as int);
}

/// Split `total` evenly: one transfer of `total / n` to each of the `n`
/// admins, in the order given, then one transfer of the remainder
/// `total % n` back to the depositor.  The amounts sum to exactly `total`.
pub fn distribute(total: u128, admins: &Vec<String>, denom: &String, depositor: &String) -> (r: Vec<
    TransferInstruction,
>)
    requires
        admins@.len() >= 1,
    ensures
        r@.len() == admins@.len() + 1,
        forall|i: int|
            0 <= i < admins@.len() ==> {
                &&& (#[trigger] r@[i]).to@ == admins@[i]@
                &&& r@[i].amount == (total as int) / (admins@.len() as int)
                &&& r@[i].denom@ == denom@
            },
        r@[admins@.len() as int].to@ == depositor@,
        r@[admins@.len() as int].amount == (total as int) % (admins@.len() as int),
        r@[admins@.len() as int].denom@ == denom@,
        sum_amounts(r@) == total,
{
    let n = admins.len();
    let share: u128 = total / (n as u128);
    let rem: u128 = total % (n as u128);
    let mut out: Vec<TransferInstruction> = Vec::new();
    let mut i: usize = 0;
    while i < n
        invariant
            i <= n,
            n == admins@.len(),
            n >= 1,
            share as int == (total as int) / (n as int),
            out@.len() == i,
            forall|j: int|
                0 <= j < i ==> {
                    &&& (#[trigger] out@[j]).to@ == admins@[j]@
                    &&& out@[j].amount == share
                    &&& out@[j].denom@ == denom@
                },
            sum_amounts(out@) == (i as int) * (share as int),
        decreases n - i,
    {
        let ghost prev = out@;
        out.push(
            TransferInstruction { to: admins[i].clone(), amount: share, denom: denom.clone() },
        );
        proof {
            assert(out@.drop_last() =~= prev);
            assert((i + 1) as int * (share as int) == (i as int) * (share as int) + share as int)
                by (nonlinear_arith);
        }
        i += 1;
    }
    let ghost shares = out@;
    out.push(TransferInstruction { to: depositor.clone(), amount: rem, denom: denom.clone() });
    proof {
        assert(out@.drop_last() =~= shares);
        lemma_split_conserves_total(total, n as u128);
        assert(sum_amounts(out@) == (n as int) * (share as int) + rem as int);
        assert((n as int) * (share as int) == (n as int) * ((total as int) / (n as int)));
    }
    out
}

} // verus!
