//! Co-evolutionary adversarial-testing engine for a simulated distributed
//! defense substrate.
//!
//! The crate couples a genetic-algorithm harness that evolves attack
//! scenarios with the defender it attacks: a population of autonomous cells
//! whose genome-driven decisions, signal routing and attested trust protocol
//! determine how resistant the substrate is.
//!
//! Every continuous quantity (threat, energy, trust, fitness, stimulus
//! magnitude) is carried as a fixed-point integer in milli-units: the value
//! `1500` stands for one and a half units.

pub mod adversarial;
pub mod cellular;
pub mod config;
pub mod crypto;
pub mod immune;
pub mod millis;
pub mod orchestration;
pub mod rng;
pub mod signaling;
pub mod stimulus;
pub mod strutil;
pub mod table;
pub mod telemetry;
