//! End-to-end encrypted delivery: wire records, relay rules and client rules.
pub mod arithmetic;
pub mod varint;
pub mod wire;
pub mod bytes;
pub mod collections;
pub mod text;
pub mod crypto;
pub mod ids;
pub mod delivery;
pub mod layout;
pub mod meaning;
pub mod messages;
pub mod requests;
pub mod order;
pub mod protocol;
pub mod frames;
pub mod transcripts;
pub mod table;
pub mod relay;
pub mod sizes;
pub mod sequences;
pub mod files;
pub mod client;
