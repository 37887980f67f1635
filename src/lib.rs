//! Core of a JMAP mail server: the varint codec used by persisted records,
//! the change log and Raft log model, the JMAP Email/get projection rules and
//! the decision logic of the per-peer RPC task.

pub mod bitmap;
pub mod blob;
pub mod changes;
pub mod json;
pub mod leb128;
pub mod mail;
pub mod mail_get;
pub mod mail_store;
pub mod peer;
pub mod raft;
pub mod store;
pub mod text;
