//! The relay: what it stores, what it accepts and what it answers.
pub mod deliver;
pub mod effects;
pub mod enrollment;
pub mod entry;
pub mod handshake;
pub mod hourly;
pub mod hub;
pub mod index;
pub mod laws;
pub mod limits;
pub mod metrics;
pub mod pages;
pub mod passing_on;
pub mod reading;
pub mod reads;
pub mod service;
pub mod settings;
pub mod sound;
pub mod session;
pub mod state;
pub mod tables;
pub mod tls;
mod undo;
pub mod writes;
