//! The privileged boundary: the privilege predicate and the two guarded
//! operations. The host hands in the calling identity, the ledger's own
//! controlling identity, and whether state already exists; these functions
//! decide, and change nothing when they reject a call.

use vstd::prelude::*;

use crate::ledger::{Contract, Error};

verus! {

/// A call is self-privileged exactly when the caller is the ledger's own
/// controlling identity.
pub open spec fn spec_is_self(caller: Seq<char>, contract_account: Seq<char>) -> bool {
    caller == contract_account
}

/// The privilege predicate, on the identities the host supplies.
pub fn is_self(caller: &String, contract_account: &String) -> (privileged: bool)
    ensures
        privileged == spec_is_self(caller@, contract_account@),
{
    *caller == *contract_account
}

/// Guarded construction. Only the ledger's own controlling identity may
/// construct, and only while no state exists; otherwise the call is rejected
/// and nothing is created.
pub fn try_new(
    caller: &String,
    contract_account: &String,
    state_exists: bool,
    beneficiary: String,
) -> (outcome: Result<Contract, Error>)
    requires
        beneficiary@.len() > 0,
    ensures
        !spec_is_self(caller@, contract_account@) ==> outcome == Err::<Contract, Error>(
            Error::Unauthorized,
        ),
        spec_is_self(caller@, contract_account@) && state_exists ==> outcome == Err::<
            Contract,
            Error,
        >(Error::AlreadyInitialized),
        spec_is_self(caller@, contract_account@) && !state_exists ==> (match outcome {
            Ok(contract) => {
                &&& contract.wf()
                &&& contract.recipient_id() == beneficiary@
                &&& contract.entries().len() == 0
            },
            Err(_) => false,
        }),
{
    if !is_self(caller, contract_account) {
        return Err(Error::Unauthorized);
    }
    if state_exists {
        return Err(Error::AlreadyInitialized);
    }
    Ok(Contract::new(beneficiary))
}

impl Contract {
    /// Guarded recipient change. Only the ledger's own controlling identity
    /// may redirect where funds flow; any other caller is rejected and the
    /// ledger is left exactly as it was.
    pub fn try_change_beneficiary(
        &mut self,
        caller: &String,
        contract_account: &String,
        beneficiary: String,
    ) -> (outcome: Result<(), Error>)
        requires
            old(self).wf(),
            beneficiary@.len() > 0,
        ensures
            final(self).wf(),
            final(self).entries() == old(self).entries(),
            !spec_is_self(caller@, contract_account@) ==> outcome == Err::<(), Error>(
                Error::Unauthorized,
            ) && *final(self) == *old(self),
            spec_is_self(caller@, contract_account@) ==> outcome == Ok::<(), Error>(())
                && final(self).recipient_id() == beneficiary@,
    {
        if !is_self(caller, contract_account) {
            return Err(Error::Unauthorized);
        }
        self.change_beneficiary(beneficiary);
        Ok(())
    }
}

} // verus!
