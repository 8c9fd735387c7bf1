//! The pieces of revm that the router hands around without looking inside: account
//! addresses, account records, the state delta made of them, the ledger that caches
//! chain state, and the commit of a delta into it.

use revm::db::CacheDB;
use revm::primitives::{Account, Address, EvmState};
use revm::DatabaseCommit;
use vstd::prelude::*;

verus! {

/// revm's 20-byte account address, carried as the key of a state delta.
#[verifier::external_type_specification]
#[verifier::external_body]
pub struct ExAddress(Address);

/// revm's account record (info, storage, status), carried as the value of a state delta.
#[verifier::external_type_specification]
#[verifier::external_body]
pub struct ExAccount(Account);

/// revm's `CacheDB`: the accounts, contracts and block hashes read so far, kept in
/// memory over a read-only source of chain state. It is the ledger of a quote session.
#[verifier::external_type_specification]
#[verifier::external_body]
#[verifier::reject_recursive_types(ExtDB)]
pub struct ExCacheDB<ExtDB>(CacheDB<ExtDB>);

/// What a state delta holds: the account record written for each address it touches.
pub type Delta = Map<Address, Account>;

/// std's `HashMap::extend` on a state delta: every entry of `from` is inserted into
/// `into`, replacing the entry that `into` held for the same address.
#[verifier::external_body]
pub(crate) fn merge_state(into: &mut EvmState, from: EvmState)
    ensures
        final(into)@ == old(into)@.union_prefer_right(from@),
{
    into.extend(from)
}

/// revm's `DatabaseCommit::commit` as `CacheDB` has it: writes the touched accounts of
/// a state delta into the cache. It takes every delta. Nothing is claimed of the ledger
/// afterwards.
#[verifier::external_body]
pub(crate) fn commit_state<ExtDB>(ledger: &mut CacheDB<ExtDB>, changes: EvmState) {
    ledger.commit(changes)
}

} // verus!
