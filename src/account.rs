//! Account records handed to a program run.
use crate::pubkey::Pubkey;
use vstd::prelude::*;

verus! {

/// One account's metadata and data bytes.
#[derive(Clone, Debug, PartialEq, Eq)]
pub struct Account {
    pub pubkey: Pubkey,
    pub is_signer: bool,
    pub is_writable: bool,
    pub lamports: u64,
    pub data: Vec<u8>,
    pub owner: Pubkey,
    pub executable: bool,
    pub rent_epoch: u64,
}

} // verus!
