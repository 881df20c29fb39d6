//! The client: what it stores, whom it trusts and how it recovers.
pub mod attempts;
pub mod catchup;
pub mod commands;
pub mod complete;
pub mod contacts;
pub mod drive;
pub mod effects;
pub mod errors;
pub mod events;
pub mod groups;
pub mod identity;
pub mod journal;
pub mod keeping;
pub mod laws;
pub mod metrics;
pub mod outgoing;
pub mod pages;
pub mod paging;
pub mod reception;
pub mod state;
pub mod store;
pub mod sync;
pub mod tables;
pub mod trust;
mod undo;
pub mod welcomes;
