//! A small password-vault library: a master-secret state machine, an
//! encrypted entry store with dedup and lookup, and the byte framing and
//! key-derivation glue between them.

pub mod account;
pub mod codec;
pub mod encrypt;
pub mod entry;
pub mod master;
pub mod session;
pub mod store;
pub mod util;
