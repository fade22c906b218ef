//! Account identities.
//!
//! An identity is an opaque, immutable byte string; the ledger reads nothing
//! of it but equality. In specifications an account is viewed as the sequence
//! of its bytes.

use vstd::prelude::*;

verus! {

/// An opaque account identity: a byte string compared structurally.
pub struct Account {
    bytes: Vec<u8>,
}

impl View for Account {
    type V = Seq<u8>;

    closed spec fn view(&self) -> Seq<u8> {
        self.bytes@
    }
}

impl Account {
    /// The identity an account made of the given bytes has.
    pub fn new(bytes: Vec<u8>) -> (r: Account)
        ensures
            r@ == bytes@,
    {
        Account { bytes }
    }

    /// The byte string of the anonymous identity: the empty one. It serves as
    /// the sentinel owner of a ledger that was never initialized.
    pub open spec fn anonymous_id() -> Seq<u8> {
        Seq::<u8>::empty()
    }

    /// The anonymous identity.
    pub fn anonymous() -> (r: Account)
        ensures
            r@ == Account::anonymous_id(),
    {
        Account { bytes: Vec::new() }
    }
}

impl Clone for Account {
    fn clone(&self) -> (r: Self)
        ensures
            r@ == self@,
    {
        let bytes = self.bytes.clone();
        proof {
            assert forall|i: int| 0 <= i < self.bytes@.len() implies bytes@[i]
                == self.bytes@[i] by {
                assert(cloned::<u8>(self.bytes@[i], bytes@[i]));
            }
            assert(bytes@ =~= self.bytes@);
        }
        Account { bytes }
    }
}

impl PartialEq for Account {
    fn eq(&self, other: &Account) -> (r: bool) {
        if self.bytes.len() != other.bytes.len() {
            return false;
        }
        let n = self.bytes.len();
        let mut i: usize = 0;
        while i < n
            invariant
                i <= n,
                n == self.bytes@.len(),
                n == other.bytes@.len(),
                forall|j: int| 0 <= j < i ==> self.bytes@[j] == other.bytes@[j],
            decreases n - i,
        {
            if self.bytes[i] != other.bytes[i] {
                return false;
            }
            i = i + 1;
        }
        proof {
            assert(self.bytes@ =~= other.bytes@);
        }
        true
    }
}

impl vstd::std_specs::cmp::PartialEqSpecImpl for Account {
    open spec fn obeys_eq_spec() -> bool {
        true
    }

    open spec fn eq_spec(&self, other: &Account) -> bool {
        self@ == other@
    }
}

} // verus!
