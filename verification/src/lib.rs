//! A simulator for digital logic circuits assembled from truth-table gates.
//!
//! Circuits are described as reusable types: a primitive type is a truth
//! table, a composite type instantiates other types and wires their pins
//! together. The simulator evaluates a circuit for a number of discrete ticks
//! over a flat buffer of pins.
pub mod circuit;
