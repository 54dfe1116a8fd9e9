//! The ways in which building or simulating a circuit can fail.
use vstd::prelude::*;

verus! {

/// Why an operation on a circuit was rejected.
#[derive(Debug, Clone, Copy, PartialEq, Eq, Structural)]
pub enum CircuitError {
    /// A circuit type was looked up that the simulator does not hold.
    UnknownCircuitType,
    /// A pin buffer does not have the size that the circuit's pin counts call for.
    PinCountMismatch,
    /// A truth table does not have one entry per combination of input pins.
    InvalidTruthTable,
    /// A wire names an instance or a pin that the execution context does not hold.
    MalformedConnection,
    /// The instances of a circuit need more pins than a context can address,
    /// or are nested more deeply than distinct circuit types allow.
    CircuitTooLarge,
}

} // verus!
