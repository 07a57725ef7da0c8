//! Telecommand preparation, automation planning and Yamcs request logic for a
//! small satellite ground segment, with contracts checked by Verus.
use vstd::prelude::*;

pub mod text;
pub mod json;
pub mod error;
pub mod xtce_types;
pub mod commands;
pub mod yamcs_client;
pub mod ecss_automation;
pub mod beacon;
pub mod graphics;
pub mod input;

verus! {
} // verus!
