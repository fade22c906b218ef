//! General laws of the ledger, proved over its balance-map model.
//!
//! The operations' contracts in [`crate::ledger`] state each effect as a map
//! transformation ([`credited`], [`transferred`]); the lemmas here state what
//! those transformations do to individual balances, for every identity and
//! every starting map.

use crate::ledger::{bal_in, credited, transferred};
use vstd::prelude::*;

verus! {

/// An identity with no recorded entry — no prior activity — has balance zero.
pub proof fn lemma_untouched_balance_is_zero(m: Map<Seq<u8>, u64>, who: Seq<u8>)
    requires
        !m.contains_key(who),
    ensures
        bal_in(m, who) == 0,
{
}

/// Crediting an identity on a fresh ledger gives it exactly the credited
/// amount, and every other identity still has balance zero.
pub proof fn lemma_credit_on_fresh_ledger(who: Seq<u8>, other: Seq<u8>, amount: u64)
    requires
        other != who,
    ensures
        bal_in(credited(Map::empty(), who, amount), who) == amount,
        bal_in(credited(Map::empty(), who, amount), other) == 0,
{
}

/// A credit grows the credited identity's balance by exactly the amount and
/// changes no other balance: no identity is debited.
pub proof fn lemma_credit_is_exact(m: Map<Seq<u8>, u64>, who: Seq<u8>, amount: u64)
    requires
        bal_in(m, who) + amount <= u64::MAX,
    ensures
        bal_in(credited(m, who, amount), who) == bal_in(m, who) + amount,
        forall|k: Seq<u8>| k != who ==> bal_in(credited(m, who, amount), k) == bal_in(m, k),
{
}

/// A covered transfer between two distinct identities moves exactly the
/// amount: the sender loses it, the recipient gains it, their combined
/// balance is unchanged, and every other balance is untouched.
pub proof fn lemma_transfer_moves_exactly(
    m: Map<Seq<u8>, u64>,
    from: Seq<u8>,
    to: Seq<u8>,
    amount: u64,
)
    requires
        from != to,
        amount <= bal_in(m, from),
        bal_in(m, to) + amount <= u64::MAX,
    ensures
        bal_in(transferred(m, from, to, amount), from) == bal_in(m, from) - amount,
        bal_in(transferred(m, from, to, amount), to) == bal_in(m, to) + amount,
        bal_in(transferred(m, from, to, amount), from) + bal_in(transferred(m, from, to, amount), to)
            == bal_in(m, from) + bal_in(m, to),
        forall|k: Seq<u8>|
            k != from && k != to ==> bal_in(transferred(m, from, to, amount), k) == bal_in(m, k),
{
}

/// A covered transfer from an identity to itself changes no balance at all:
/// the debit and the credit cancel.
pub proof fn lemma_self_transfer_changes_nothing(m: Map<Seq<u8>, u64>, who: Seq<u8>, amount: u64)
    requires
        amount <= bal_in(m, who),
    ensures
        forall|k: Seq<u8>| bal_in(transferred(m, who, who, amount), k) == bal_in(m, k),
{
}

} // verus!
