//! Simulation of operational-amplifier circuits: the circuit and signal catalogues,
//! the reading of the values entered in the forms, and the texts of diagram labels.

use vstd::prelude::*;

pub mod backend;
pub mod circuit_data;
pub mod circuits;
pub mod errors;
pub mod form;
pub mod plot;
pub mod signals;
pub mod text;

verus! {
} // verus!
