//! Runtime ABI of an account-model register virtual machine: the input
//! serializer, the memory layout, the native syscalls and compute metering.
pub mod account;
pub mod aligned;
pub mod bytes;
pub mod context;
pub mod io;
pub mod layout;
pub mod memory;
pub mod pubkey;
pub mod serializer;
pub mod syscalls;
