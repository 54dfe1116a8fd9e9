//! Circuit definitions, execution contexts and the simulation engine.
pub mod acyclic;
pub mod codec;
pub mod context;
pub mod definition;
pub mod engine;
pub mod error;
pub mod laws;
pub mod layout;
pub mod semantics;
pub mod simulator;
pub mod soundness;

pub use self::codec::{decode, encode};
pub use self::context::{Context, ContextModel};
pub use self::definition::{
    CircuitModel, Connection, LogicCircuit, FIRST_CHILD_UID, SELF_UID, TID, UID,
};
pub use self::error::CircuitError;
pub use self::semantics::Run;
pub use self::simulator::{CircuitSimulator, AND_GATE, NOT_GATE};
