//! The executable ledger: recipient identity plus one entry per contributor,
//! with the accounting operation, the reads, and the administrative update.
//! Every contract is stated over the model in `crate::model`.

use vstd::prelude::*;

use crate::model::{
    accepted, amount_of, distinct_keys, has_key, key_index, lemma_amount_at, page, step, Entry,
    STORAGE_COST,
};
use vstd::pervasive::VecAdditionalExecFns;

verus! {

/// Why a call was rejected. Every error aborts its call before any state
/// change.
#[derive(Clone, Copy, Debug, PartialEq, Eq, Structural)]
pub enum Error {
    /// Construction was attempted while state already exists.
    AlreadyInitialized,
    /// The attached value does not cover the fixed fee.
    InsufficientAttachment,
    /// The donor's accumulated balance cannot absorb the net amount.
    Overflow,
    /// A privileged operation was invoked by a non-privileged caller.
    Unauthorized,
}

/// The observable record of one accepted contribution: who gave, the net
/// amount after the fee, and the donor's new accumulated balance. The host
/// logs it and transfers `net` to the recipient.
#[derive(Debug)]
pub struct Receipt {
    pub donor: String,
    pub net: u128,
    pub new_balance: u128,
}

/// The entries of an executable table, as the model sees them.
pub open spec fn view_entries(s: Seq<(String, u128)>) -> Seq<Entry> {
    s.map_values(|e: (String, u128)| (e.0@, e.1))
}

/// The start index a call asked for: the given index, or zero.
pub open spec fn start_of(from_index: Option<u128>) -> int {
    match from_index {
        Some(s) => s as int,
        None => 0,
    }
}

/// The page size a call asked for: the given limit, or the default of 50.
pub open spec fn limit_of(limit: Option<u64>) -> int {
    match limit {
        Some(l) => l as int,
        None => 50,
    }
}

/// The ledger: the sole payout recipient and the accumulated net amount per
/// contributor, in insertion order.
pub struct Contract {
    beneficiary: String,
    donations: Vec<(String, u128)>,
}

impl Contract {
    /// The recipient identity, as the model sees it.
    pub closed spec fn recipient_id(self) -> Seq<char> {
        self.beneficiary@
    }

    /// The recorded entries, in their stable enumeration order.
    pub closed spec fn entries(self) -> Seq<Entry> {
        view_entries(self.donations@)
    }

    /// Well-formedness: contributor identities are unique and the recipient
    /// identity is non-empty.
    pub open spec fn wf(self) -> bool {
        &&& distinct_keys(self.entries())
        &&& self.recipient_id().len() > 0
    }

    /// The accumulated net amount recorded for `id`, zero when absent.
    pub open spec fn spec_lookup(self, id: Seq<char>) -> u128 {
        amount_of(self.entries(), id)
    }

    /// A fresh ledger: the given recipient and no recorded contributions.
    pub fn new(beneficiary: String) -> (contract: Contract)
        requires
            beneficiary@.len() > 0,
        ensures
            contract.wf(),
            contract.recipient_id() == beneficiary@,
            contract.entries() =~= Seq::<Entry>::empty(),
    {
        Contract { beneficiary, donations: Vec::new() }
    }

    /// The current recipient identity.
    pub fn beneficiary(&self) -> (recipient: String)
        ensures
            recipient@ == self.recipient_id(),
    {
        self.beneficiary.clone()
    }

    /// Replaces the recipient unconditionally. The caller must be the
    /// ledger's own controlling identity; the boundary enforces that before
    /// this operation is reached.
    pub fn change_beneficiary(&mut self, beneficiary: String)
        requires
            old(self).wf(),
            beneficiary@.len() > 0,
        ensures
            final(self).wf(),
            final(self).recipient_id() == beneficiary@,
            final(self).entries() == old(self).entries(),
    {
        self.beneficiary = beneficiary;
    }

    /// The number of distinct contributors recorded.
    pub fn total_donations(&self) -> (count: u64)
        ensures
            count == self.entries().len(),
    {
        self.donations.len() as u64
    }

    /// The position of `id`'s entry, if one exists.
    fn find_donor(&self, id: &String) -> (found: Option<usize>)
        requires
            self.wf(),
        ensures
            match found {
                Some(i) => {
                    &&& i < self.entries().len()
                    &&& self.entries()[i as int].0 == id@
                    &&& has_key(self.entries(), id@)
                    &&& key_index(self.entries(), id@) == i
                },
                None => !has_key(self.entries(), id@),
            },
    {
        let n = self.donations.len();
        let mut i: usize = 0;
        while i < n
            invariant
                n == self.donations@.len(),
                i <= n,
                self.wf(),
                forall|j: int| 0 <= j < i ==> self.entries()[j].0 != id@,
            decreases n - i,
        {
            if self.donations[i].0 == *id {
                proof {
                    let k = key_index(self.entries(), id@);
                    assert(self.entries()[i as int].0 == id@);
                    assert(0 <= k < self.entries().len() && self.entries()[k].0 == id@);
                    if k != i as int {
                        assert(false);
                    }
                }
                return Some(i);
            }
            i = i + 1;
        }
        proof {
            if has_key(self.entries(), id@) {
                let k = key_index(self.entries(), id@);
                assert(self.entries()[k].0 == id@);
                assert(false);
            }
        }
        None
    }

    /// Records one contribution. The host supplies the calling identity and
    /// the attached value; the ledger charges the fixed fee, credits the
    /// remainder to the caller's entry, and reports a receipt whose `net`
    /// amount the host owes the recipient. A call that fails changes nothing.
    pub fn donate(&mut self, donor: String, attached_amount: u128) -> (outcome: Result<
        Receipt,
        Error,
    >)
        requires
            old(self).wf(),
        ensures
            final(self).wf(),
            final(self).recipient_id() == old(self).recipient_id(),
            final(self).entries() == step(old(self).entries(), donor@, attached_amount),
            outcome == Err::<Receipt, Error>(Error::InsufficientAttachment) <==> attached_amount
                < STORAGE_COST,
            outcome == Err::<Receipt, Error>(Error::Overflow) <==> (attached_amount >= STORAGE_COST
                && old(self).spec_lookup(donor@) + (attached_amount - STORAGE_COST) > u128::MAX),
            outcome is Ok <==> accepted(old(self).entries(), donor@, attached_amount),
            outcome is Err ==> *final(self) == *old(self),
            (match outcome {
                Ok(receipt) => {
                    &&& receipt.donor@ == donor@
                    &&& receipt.net == attached_amount - STORAGE_COST
                    &&& receipt.new_balance == old(self).spec_lookup(donor@) + receipt.net
                    &&& final(self).spec_lookup(donor@) == receipt.new_balance
                },
                Err(_) => true,
            }),
    {
        if attached_amount < STORAGE_COST {
            return Err(Error::InsufficientAttachment);
        }
        let net: u128 = attached_amount - STORAGE_COST;
        match self.find_donor(&donor) {
            Some(i) => {
                let current: u128 = self.donations[i].1;
                proof {
                    lemma_amount_at(old(self).entries(), i as int);
                }
                if net > u128::MAX - current {
                    return Err(Error::Overflow);
                }
                let new_balance: u128 = current + net;
                self.donations.set(i, (donor.clone(), new_balance));
                proof {
                    let post = self.entries();
                    let want = step(old(self).entries(), donor@, attached_amount);
                    assert(post =~= want);
                    assert forall|p: int, q: int|
                        0 <= p < q < post.len() implies post[p].0 != post[q].0 by {
                        assert(old(self).entries()[p].0 != old(self).entries()[q].0);
                    }
                    lemma_amount_at(post, i as int);
                }
                Ok(Receipt { donor, net, new_balance })
            },
            None => {
                let new_balance: u128 = net;
                self.donations.push((donor.clone(), new_balance));
                proof {
                    let pre = old(self).entries();
                    let post = self.entries();
                    assert(post =~= step(pre, donor@, attached_amount));
                    assert forall|p: int, q: int|
                        0 <= p < q < post.len() implies post[p].0 != post[q].0 by {
                        if q < pre.len() {
                            assert(pre[p].0 != pre[q].0);
                        } else {
                            assert(post[q].0 == donor@);
                            assert(!(0 <= p < pre.len() && pre[p].0 == donor@));
                        }
                    }
                    lemma_amount_at(post, post.len() - 1);
                }
                Ok(Receipt { donor, net, new_balance })
            },
        }
    }

    /// The accumulated net amount contributed by `account_id`, zero if that
    /// identity never contributed. A pure read with no failure mode.
    pub fn get_donation_for_account(&self, account_id: String) -> (amount: u128)
        requires
            self.wf(),
        ensures
            amount == self.spec_lookup(account_id@),
    {
        match self.find_donor(&account_id) {
            Some(i) => self.donations[i].1,
            None => 0,
        }
    }

    /// The page of recorded entries beginning at the `from_index`-th one
    /// (default zero) and holding at most `limit` entries (default 50), in
    /// the ledger's stable enumeration order. A start at or past the end
    /// gives an empty page, never a failure.
    pub fn get_donations(&self, from_index: Option<u128>, limit: Option<u64>) -> (page_out: Vec<
        (String, u128),
    >)
        requires
            self.wf(),
        ensures
            view_entries(page_out@) == page(self.entries(), start_of(from_index), limit_of(limit)),
            page_out@.len() <= limit_of(limit),
            start_of(from_index) >= self.entries().len() ==> page_out@.len() == 0,
    {
        let len = self.donations.len();
        let start_wanted: u128 = match from_index {
            Some(s) => s,
            None => 0,
        };
        let lim: u64 = match limit {
            Some(l) => l,
            None => 50,
        };
        if start_wanted >= len as u128 {
            let empty: Vec<(String, u128)> = Vec::new();
            proof {
                assert(view_entries(empty@) =~= page(
                    self.entries(),
                    start_of(from_index),
                    limit_of(limit),
                ));
            }
            return empty;
        }
        let start: usize = start_wanted as usize;
        let remaining: usize = len - start;
        let take: usize = if lim >= remaining as u64 {
            remaining
        } else {
            lim as usize
        };
        let mut page_out: Vec<(String, u128)> = Vec::new();
        let mut k: usize = 0;
        while k < take
            invariant
                len == self.donations@.len(),
                start + take <= len,
                k <= take,
                view_entries(page_out@) =~= self.entries().subrange(
                    start as int,
                    start as int + k as int,
                ),
                page_out@.len() == k,
            decreases take - k,
        {
            let entry = &self.donations[start + k];
            page_out.push((entry.0.clone(), entry.1));
            proof {
                assert(view_entries(page_out@) =~= self.entries().subrange(
                    start as int,
                    start as int + k as int + 1,
                ));
            }
            k = k + 1;
        }
        proof {
            assert(view_entries(page_out@) =~= page(
                self.entries(),
                start_of(from_index),
                limit_of(limit),
            ));
        }
        page_out
    }

    /// Rebuilds a ledger from its two persisted fields, as the host's state
    /// store hands them back: the recipient identity and the recorded
    /// entries in their stored order. Returns a ledger exactly when the
    /// fields are well formed: a non-empty recipient identity and pairwise
    /// distinct contributor identities.
    pub fn from_state(beneficiary: String, entries: Vec<(String, u128)>) -> (outcome: Option<
        Contract,
    >)
        ensures
            match outcome {
                Some(contract) => {
                    &&& contract.wf()
                    &&& contract.recipient_id() == beneficiary@
                    &&& contract.entries() == view_entries(entries@)
                },
                None => !(beneficiary@.len() > 0 && distinct_keys(view_entries(entries@))),
            },
    {
        if beneficiary == String::new() {
            proof {
                assert(beneficiary@ =~= Seq::<char>::empty());
            }
            return None;
        }
        let n = entries.len();
        let mut i: usize = 0;
        while i < n
            invariant
                n == entries@.len(),
                i <= n,
                forall|p: int, q: int|
                    0 <= p < q < n && p < i ==> view_entries(entries@)[p].0 != view_entries(
                        entries@,
                    )[q].0,
            decreases n - i,
        {
            let mut j: usize = i + 1;
            while j < n
                invariant
                    n == entries@.len(),
                    i < n,
                    i + 1 <= j <= n,
                    forall|q: int|
                        i < q < j ==> view_entries(entries@)[i as int].0 != view_entries(
                            entries@,
                        )[q].0,
                decreases n - j,
            {
                if entries[i].0 == entries[j].0 {
                    proof {
                        assert(view_entries(entries@)[i as int].0 == view_entries(
                            entries@,
                        )[j as int].0);
                    }
                    return None;
                }
                j = j + 1;
            }
            proof {
                assert forall|p: int, q: int|
                    0 <= p < q < n && p < i + 1 implies view_entries(entries@)[p].0
                    != view_entries(entries@)[q].0 by {
                    if p < i {
                    } else {
                        assert(p == i);
                    }
                }
            }
            i = i + 1;
        }
        proof {
            if beneficiary@.len() == 0 {
                assert(beneficiary@ =~= Seq::<char>::empty());
            }
        }
        Some(Contract { beneficiary, donations: entries })
    }
}

} // verus!
