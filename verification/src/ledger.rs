//! The ledger: one mapping from account identity to 64-bit balance, plus one
//! owner identity recorded at initialization.
//!
//! A ledger is viewed as a `Map<Seq<u8>, u64>` from identity bytes to balance;
//! an identity absent from the map has balance zero. The spec functions
//! [`bal_in`], [`credited`] and [`transferred`] give the mathematical meaning
//! of a balance read, a self-credit and a transfer, and every operation's
//! contract states its effect through them exactly.

use crate::account::Account;
use vstd::pervasive::VecAdditionalExecFns;
use vstd::prelude::*;

verus! {

/// The balance an identity has in a balance map: its entry, or zero where it
/// has none.
pub open spec fn bal_in(m: Map<Seq<u8>, u64>, who: Seq<u8>) -> u64 {
    if m.contains_key(who) {
        m[who]
    } else {
        0
    }
}

/// The balance map after `who` is credited with `amount`: only `who`'s
/// balance changes, and it grows by `amount`. No other identity is debited.
pub open spec fn credited(m: Map<Seq<u8>, u64>, who: Seq<u8>, amount: u64) -> Map<Seq<u8>, u64>
    recommends
        bal_in(m, who) + amount <= u64::MAX,
{
    m.insert(who, (bal_in(m, who) + amount) as u64)
}

/// The balance map after `amount` moves from `from` to `to`: first `from` is
/// debited, then `to` is credited out of the debited map, so a transfer to
/// oneself restores the starting balance.
pub open spec fn transferred(
    m: Map<Seq<u8>, u64>,
    from: Seq<u8>,
    to: Seq<u8>,
    amount: u64,
) -> Map<Seq<u8>, u64>
    recommends
        amount <= bal_in(m, from),
        from != to ==> bal_in(m, to) + amount <= u64::MAX,
{
    let debited = m.insert(from, (bal_in(m, from) - amount) as u64);
    debited.insert(to, (bal_in(debited, to) + amount) as u64)
}

/// Why a mutating ledger operation was refused.
#[derive(Debug, PartialEq, Eq, Structural)]
pub enum WalletError {
    /// The caller's balance is less than the amount to transfer.
    InsufficientBalance,
    /// Reserved for operations restricted to the owner; no current operation
    /// refuses with it.
    Unauthorized,
    /// The amount was zero.
    InvalidAmount,
}

/// The result of a mutating ledger operation.
pub type WalletResult<T> = Result<T, WalletError>;

/// One recorded balance: an account identity and its amount.
struct Entry {
    account: Account,
    amount: u64,
}

/// The identities recorded in `s` are pairwise distinct.
spec fn unique_keys(s: Seq<Entry>) -> bool {
    forall|i: int, j: int|
        #![trigger s[i], s[j]]
        0 <= i < j < s.len() ==> s[i].account@ != s[j].account@
}

/// The balance map the entries `s` record.
spec fn map_of(s: Seq<Entry>) -> Map<Seq<u8>, u64>
    decreases s.len(),
{
    if s.len() == 0 {
        Map::empty()
    } else {
        map_of(s.drop_last()).insert(s.last().account@, s.last().amount)
    }
}

/// The token ledger: every recorded balance, and the owner identity.
pub struct Ledger {
    entries: Vec<Entry>,
    owner: Account,
}

impl View for Ledger {
    type V = Map<Seq<u8>, u64>;

    closed spec fn view(&self) -> Map<Seq<u8>, u64> {
        map_of(self.entries@)
    }
}

proof fn lemma_map_of_contains(s: Seq<Entry>, k: Seq<u8>)
    ensures
        map_of(s).contains_key(k) <==> exists|i: int| 0 <= i < s.len() && s[i].account@ == k,
    decreases s.len(),
{
    if s.len() > 0 {
        lemma_map_of_contains(s.drop_last(), k);
        if s.last().account@ == k {
            assert(s[s.len() - 1].account@ == k);
        } else {
            if map_of(s).contains_key(k) {
                let i = choose|i: int| 0 <= i < s.drop_last().len() && s.drop_last()[i].account@
                    == k;
                assert(s[i].account@ == k);
            }
            if exists|i: int| 0 <= i < s.len() && s[i].account@ == k {
                let i = choose|i: int| 0 <= i < s.len() && s[i].account@ == k;
                assert(i < s.len() - 1);
                assert(s.drop_last()[i].account@ == k);
            }
        }
    }
}

proof fn lemma_map_of_index(s: Seq<Entry>, i: int)
    requires
        unique_keys(s),
        0 <= i < s.len(),
    ensures
        map_of(s).contains_key(s[i].account@),
        map_of(s)[s[i].account@] == s[i].amount,
    decreases s.len(),
{
    if i == s.len() - 1 {
    } else {
        assert(unique_keys(s.drop_last())) by {
            assert forall|a: int, b: int|
                #![trigger s.drop_last()[a], s.drop_last()[b]]
                0 <= a < b < s.drop_last().len() implies s.drop_last()[a].account@
                != s.drop_last()[b].account@ by {
                assert(s.drop_last()[a] == s[a]);
                assert(s.drop_last()[b] == s[b]);
            }
        }
        lemma_map_of_index(s.drop_last(), i);
        assert(s.drop_last()[i] == s[i]);
        assert(s[i].account@ != s.last().account@);
    }
}

proof fn lemma_map_of_absent(s: Seq<Entry>, k: Seq<u8>)
    requires
        forall|i: int| 0 <= i < s.len() ==> s[i].account@ != k,
    ensures
        !map_of(s).contains_key(k),
        bal_in(map_of(s), k) == 0,
{
    lemma_map_of_contains(s, k);
}

proof fn lemma_map_of_update(s: Seq<Entry>, i: int, e: Entry)
    requires
        unique_keys(s),
        0 <= i < s.len(),
        e.account@ == s[i].account@,
    ensures
        map_of(s.update(i, e)) == map_of(s).insert(e.account@, e.amount),
    decreases s.len(),
{
    let s2 = s.update(i, e);
    if i == s.len() - 1 {
        assert(s2.drop_last() =~= s.drop_last());
        assert(map_of(s.drop_last()).insert(s.last().account@, s.last().amount).insert(
            e.account@,
            e.amount,
        ) =~= map_of(s.drop_last()).insert(e.account@, e.amount));
    } else {
        assert(unique_keys(s.drop_last())) by {
            assert forall|a: int, b: int|
                #![trigger s.drop_last()[a], s.drop_last()[b]]
                0 <= a < b < s.drop_last().len() implies s.drop_last()[a].account@
                != s.drop_last()[b].account@ by {
                assert(s.drop_last()[a] == s[a]);
                assert(s.drop_last()[b] == s[b]);
            }
        }
        assert(s.drop_last()[i] == s[i]);
        lemma_map_of_update(s.drop_last(), i, e);
        assert(s2.drop_last() =~= s.drop_last().update(i, e));
        assert(s2.last() == s.last());
        assert(s[i].account@ != s.last().account@);
        assert(map_of(s.drop_last()).insert(e.account@, e.amount).insert(
            s.last().account@,
            s.last().amount,
        ) =~= map_of(s.drop_last()).insert(s.last().account@, s.last().amount).insert(
            e.account@,
            e.amount,
        ));
    }
}

proof fn lemma_map_of_push(s: Seq<Entry>, e: Entry)
    ensures
        map_of(s.push(e)) == map_of(s).insert(e.account@, e.amount),
{
    assert(s.push(e).drop_last() =~= s);
    assert(s.push(e).last() == e);
}

impl Ledger {
    #[verifier::type_invariant]
    spec fn wf(self) -> bool {
        unique_keys(self.entries@)
    }

    /// The identity recorded as the ledger's owner.
    pub closed spec fn owner_id(&self) -> Seq<u8> {
        self.owner@
    }

    /// A fresh ledger: no balances recorded, the anonymous identity as the
    /// sentinel owner until `initialize` records one.
    pub fn new() -> (r: Ledger)
        ensures
            r@ == Map::<Seq<u8>, u64>::empty(),
            r.owner_id() == Account::anonymous_id(),
    {
        Ledger { entries: Vec::new(), owner: Account::anonymous() }
    }

    /// Records `owner` as the ledger's owner and touches nothing else. A
    /// second call silently overwrites the owner.
    pub fn initialize(&mut self, owner: Account)
        ensures
            final(self)@ == old(self)@,
            final(self).owner_id() == owner@,
    {
        proof {
            use_type_invariant(&*self);
        }
        self.owner = owner;
    }

    /// The position of `key`'s entry, if it has one.
    fn find(&self, key: &Account) -> (r: Option<usize>)
        ensures
            match r {
                Some(i) => i < self.entries@.len() && self.entries@[i as int].account@ == key@,
                None => forall|i: int|
                    0 <= i < self.entries@.len() ==> self.entries@[i].account@ != key@,
            },
    {
        let n = self.entries.len();
        let mut i: usize = 0;
        while i < n
            invariant
                i <= n,
                n == self.entries@.len(),
                forall|j: int| 0 <= j < i ==> self.entries@[j].account@ != key@,
            decreases n - i,
        {
            if self.entries[i].account == *key {
                return Some(i);
            }
            i = i + 1;
        }
        None
    }

    /// The recorded balance of `key`, or zero where none is recorded.
    fn lookup(&self, key: &Account) -> (r: u64)
        ensures
            r == bal_in(self@, key@),
    {
        proof {
            use_type_invariant(&*self);
        }
        match self.find(key) {
            Some(i) => {
                proof {
                    lemma_map_of_index(self.entries@, i as int);
                }
                self.entries[i].amount
            },
            None => {
                proof {
                    lemma_map_of_absent(self.entries@, key@);
                }
                0
            },
        }
    }

    /// Records `amount` as the balance of `key`, replacing any earlier entry.
    fn put(&mut self, key: &Account, amount: u64)
        ensures
            final(self)@ == old(self)@.insert(key@, amount),
            final(self).owner_id() == old(self).owner_id(),
    {
        proof {
            use_type_invariant(&*self);
        }
        let idx = self.find(key);
        let mut entries: Vec<Entry> = Vec::new();
        std::mem::swap(&mut entries, &mut self.entries);
        let ghost s = entries@;
        match idx {
            Some(i) => {
                entries.set(i, Entry { account: key.clone(), amount });
                proof {
                    lemma_map_of_update(s, i as int, entries@[i as int]);
                    assert(unique_keys(entries@)) by {
                        assert forall|a: int, b: int|
                            #![trigger entries@[a], entries@[b]]
                            0 <= a < b < entries@.len() implies entries@[a].account@
                            != entries@[b].account@ by {
                            assert(s[a].account@ != s[b].account@);
                        }
                    }
                }
            },
            None => {
                entries.push(Entry { account: key.clone(), amount });
                proof {
                    lemma_map_of_push(s, entries@.last());
                    assert(unique_keys(entries@)) by {
                        assert forall|a: int, b: int|
                            #![trigger entries@[a], entries@[b]]
                            0 <= a < b < entries@.len() implies entries@[a].account@
                            != entries@[b].account@ by {
                            if b < entries@.len() - 1 {
                                assert(s[a].account@ != s[b].account@);
                            } else {
                                assert(s[a].account@ != key@);
                            }
                        }
                    }
                }
            },
        }
        self.entries = entries;
    }

    /// Moves `amount` from the caller to `to`.
    ///
    /// A zero amount is refused with `InvalidAmount`; then a caller balance
    /// below `amount` is refused with `InsufficientBalance`; refusal changes
    /// no balance. Otherwise the caller is debited and `to` credited out of
    /// one consistent balance snapshot, as [`transferred`] states, so a
    /// transfer to oneself succeeds and changes no balance.
    pub fn transfer(&mut self, caller: &Account, to: &Account, amount: u64) -> (r: WalletResult<
        (),
    >)
        requires
            amount > 0 && bal_in(old(self)@, caller@) >= amount && caller@ != to@ ==> bal_in(
                old(self)@,
                to@,
            ) + amount <= u64::MAX,
        ensures
            final(self).owner_id() == old(self).owner_id(),
            amount == 0 ==> r == WalletResult::<()>::Err(WalletError::InvalidAmount) && final(self)@ == old(self)@,
            amount > 0 && bal_in(old(self)@, caller@) < amount ==> r == WalletResult::<()>::Err(WalletError::InsufficientBalance)
                && final(self)@ == old(self)@,
            amount > 0 && bal_in(old(self)@, caller@) >= amount ==> r == WalletResult::<()>::Ok(())
                && final(self)@ == transferred(old(self)@, caller@, to@, amount),
    {
        if amount == 0 {
            return Err(WalletError::InvalidAmount);
        }
        let sender_balance = self.lookup(caller);
        if sender_balance < amount {
            return Err(WalletError::InsufficientBalance);
        }
        self.put(caller, sender_balance - amount);
        let recipient_balance = self.lookup(to);
        proof {
            if caller@ == to@ {
                assert(recipient_balance + amount <= u64::MAX);
            }
        }
        self.put(to, recipient_balance + amount);
        Ok(())
    }

    /// Credits the caller with `amount` on a deposit claim from `_from`, which
    /// is informational only: no account is debited, as [`credited`] states.
    /// A zero amount is refused with `InvalidAmount` and changes no balance.
    pub fn receive_tokens(&mut self, caller: &Account, _from: &Account, amount: u64) -> (r:
        WalletResult<()>)
        requires
            amount > 0 ==> bal_in(old(self)@, caller@) + amount <= u64::MAX,
        ensures
            final(self).owner_id() == old(self).owner_id(),
            amount == 0 ==> r == WalletResult::<()>::Err(WalletError::InvalidAmount) && final(self)@ == old(self)@,
            amount > 0 ==> r == WalletResult::<()>::Ok(()) && final(self)@ == credited(
                old(self)@,
                caller@,
                amount,
            ),
    {
        if amount == 0 {
            return Err(WalletError::InvalidAmount);
        }
        let current_balance = self.lookup(caller);
        self.put(caller, current_balance + amount);
        Ok(())
    }

    /// The caller's balance; zero where the caller has no entry.
    pub fn balance(&self, caller: &Account) -> (r: u64)
        ensures
            r == bal_in(self@, caller@),
    {
        self.lookup(caller)
    }

    /// The balance of `account`; zero where it has no entry. Any caller may
    /// query any account.
    pub fn balance_of(&self, account: &Account) -> (r: u64)
        ensures
            r == bal_in(self@, account@),
    {
        self.lookup(account)
    }
}

} // verus!
