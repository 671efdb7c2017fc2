//! The address-creation command core.
//!
//! Validates the options, records the new address in the wallet and
//! hands its script pubkey back.  Obtaining the wallet key, formatting
//! the timestamp and persisting the wallet afterwards are the caller's
//! job; "address returned" and "address durably persisted" are distinct
//! guarantees.

use vstd::prelude::*;
use crate::constants::TIMESTAMP_BYTES;
use crate::error::Error;
use crate::wallet::{Wallet, NewAddress, add_address_contract};

verus! {

/// Gets/updates an address.
pub struct GetNewAddress;

/// Options of the address-creation command.
pub struct Options {
    /// Which descriptor to generate the address from.
    pub descriptor: usize,
    /// Which derivation index to use; the next unused one when absent.
    pub index: Option<u32>,
    /// Note to attach to the address, as bytes.
    pub note: Vec<u8>,
}

impl GetNewAddress {
    /// Runs the command core against an open wallet, meeting the whole
    /// address-recording contract: success exactly when the descriptor
    /// index is in range, the note fits and the chosen index derives;
    /// on success the derivation index (explicit, or the next unused
    /// one), the script pubkey and the new entry sequence are all
    /// fixed.  The wallet is changed in memory only.
    pub fn execute(options: Options, wallet: &mut Wallet, timestamp: Vec<u8>) -> (r: Result<
        NewAddress,
        Error,
    >)
        requires
            old(wallet)@.wf(),
            timestamp@.len() == TIMESTAMP_BYTES,
        ensures
            add_address_contract(old(wallet)@, final(wallet)@, options.descriptor,
                options.index, timestamp@, options.note@, r),
    {
        wallet.add_address(options.descriptor, options.index, timestamp, options.note)
    }
}

} // verus!
