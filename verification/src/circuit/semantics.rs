//! What simulation means, as functions over the models of definitions and
//! contexts.
//!
//! A simulation threads a `Run` through its steps: the context as it stands,
//! and the fault that stopped the simulation, if any. Every step leaves a
//! faulted run as it is, so the first fault and the state at which it arose
//! are what a simulation ends with.
use super::codec::{bits_of, bits_value};
use super::context::ContextModel;
use super::definition::{CircuitModel, Connection, TID};
use super::error::CircuitError;
use vstd::prelude::*;

verus! {

/// A context in the course of a simulation.
pub struct Run {
    /// The context as the steps so far have left it.
    pub ctx: ContextModel,
    /// The fault that stopped the simulation, if one did.
    pub fault: Option<CircuitError>,
}

/// A run that goes on from `ctx`.
pub open spec fn running(ctx: ContextModel) -> Run {
    Run { ctx, fault: None }
}

/// A run that stopped at `ctx` with `fault`.
pub open spec fn faulted(ctx: ContextModel, fault: CircuitError) -> Run {
    Run { ctx, fault: Some(fault) }
}

/// What a simulation reports for the fault of its run.
pub open spec fn verdict(fault: Option<CircuitError>) -> Result<(), CircuitError> {
    match fault {
        Some(e) => Err(e),
        None => Ok(()),
    }
}

/// `pins` with the pins from `at` on replaced by `part`, as far as `part` reaches.
pub open spec fn splice(pins: Seq<bool>, at: int, part: Seq<bool>) -> Seq<bool> {
    Seq::new(
        pins.len(),
        |i: int|
            if at <= i < at + part.len() {
                part[i - at]
            } else {
                pins[i]
            },
    )
}

/// Whether two contexts have the same layout: as many pins, the same
/// offsets and as many places for nested contexts.
pub open spec fn same_shape(a: ContextModel, b: ContextModel) -> bool {
    &&& a.pins.len() == b.pins.len()
    &&& a.offsets == b.offsets
    &&& a.nested.len() == b.nested.len()
}

/// What every registry satisfies: it holds finitely many types, and each
/// definition in it is well-formed and registered under its own type.
pub open spec fn registry_wf(registry: Map<TID, CircuitModel>) -> bool {
    &&& registry.dom().finite()
    &&& forall|tid: TID|
        registry.contains_key(tid) ==> (#[trigger] registry[tid]).tid == tid && registry[tid].wf()
}

/// Whether the context holds both ends of a wire.
pub open spec fn wire_fits(ctx: ContextModel, wire: Connection) -> bool {
    &&& ctx.pin_index(wire.input_uid, wire.input_offset) is Some
    &&& ctx.pin_index(wire.output_uid, wire.output_offset) is Some
}

/// One wire: the destination pin takes the value of the source pin. A wire
/// with an end outside the context is a fault.
pub open spec fn wire_step(run: Run, wire: Connection) -> Run {
    if run.fault is Some {
        run
    } else {
        match (
            run.ctx.pin_index(wire.input_uid, wire.input_offset),
            run.ctx.pin_index(wire.output_uid, wire.output_offset),
        ) {
            (Some(source), Some(target)) => running(
                ContextModel {
                    pins: run.ctx.pins.update(target as int, run.ctx.pins[source as int]),
                    ..run.ctx
                },
            ),
            _ => faulted(run.ctx, CircuitError::MalformedConnection),
        }
    }
}

/// The run after the first `n` wires, each seeing what the wires before it wrote.
pub open spec fn after_wires(wires: Seq<Connection>, n: nat, start: Run) -> Run
    decreases n,
{
    if n == 0 {
        start
    } else {
        wire_step(after_wires(wires, (n - 1) as nat, start), wires[n - 1])
    }
}

/// One pass over all wires, in the order of declaration.
pub open spec fn propagate(wires: Seq<Connection>, start: Run) -> Run {
    after_wires(wires, wires.len(), start)
}

/// The output pins that a primitive's truth table gives for `inputs`.
pub open spec fn table_outputs(circuit: CircuitModel, inputs: Seq<bool>) -> Seq<bool>
    recommends
        circuit.wf(),
        circuit.is_primitive(),
        inputs.len() == circuit.out_offset,
{
    bits_of(
        circuit.truth_table->0[bits_value(inputs) as int] as nat,
        (circuit.pin_count - circuit.out_offset) as nat,
    )
}

/// `pins` after a primitive whose pins begin at `base` has been evaluated:
/// its output pins hold what the table gives for its input pins.
pub open spec fn evaluate_table(circuit: CircuitModel, pins: Seq<bool>, base: int) -> Seq<bool>
    recommends
        circuit.wf(),
        circuit.is_primitive(),
        0 <= base,
        base + circuit.pin_count <= pins.len(),
{
    splice(
        pins,
        base + circuit.out_offset,
        table_outputs(circuit, pins.subrange(base, base + circuit.out_offset)),
    )
}

/// The index at which the pins of child `n` begin in a fresh context, which
/// is the size of the context when `n` is the number of children: the
/// circuit's own pins come first, then each child's, in order. An
/// unregistered child is a fault, and so is a context of more than
/// `u32::MAX` pins.
pub open spec fn layout_end(registry: Map<TID, CircuitModel>, circuit: CircuitModel, n: nat)
    -> Result<nat, CircuitError>
    decreases n,
{
    if n == 0 {
        Ok(circuit.pin_count)
    } else {
        match layout_end(registry, circuit, (n - 1) as nat) {
            Err(e) => Err(e),
            Ok(end) => {
                let tid = circuit.children[n - 1];
                if !registry.contains_key(tid) {
                    Err(CircuitError::UnknownCircuitType)
                } else if end + registry[tid].pin_count > u32::MAX {
                    Err(CircuitError::CircuitTooLarge)
                } else {
                    Ok(end + registry[tid].pin_count)
                }
            },
        }
    }
}

/// The number of pins that a circuit and its first `n` children have
/// together, counting the registered children only.
pub open spec fn pins_needed(registry: Map<TID, CircuitModel>, circuit: CircuitModel, n: nat) -> nat
    decreases n,
{
    if n == 0 {
        circuit.pin_count
    } else {
        let tid = circuit.children[n - 1];
        pins_needed(registry, circuit, (n - 1) as nat) + if registry.contains_key(tid) {
            registry[tid].pin_count
        } else {
            0
        }
    }
}

/// Whether the type of each of the first `n` children is registered.
pub open spec fn children_registered(
    registry: Map<TID, CircuitModel>,
    circuit: CircuitModel,
    n: nat,
) -> bool {
    forall|i: int| 0 <= i < n ==> registry.contains_key(#[trigger] circuit.children[i])
}

/// The context in which a circuit is first evaluated: all pins low, the
/// pins of each child after those of the children before it, and no child
/// evaluated yet.
pub open spec fn fresh_context(registry: Map<TID, CircuitModel>, circuit: CircuitModel) -> Result<
    ContextModel,
    CircuitError,
> {
    match layout_end(registry, circuit, circuit.children.len()) {
        Err(e) => Err(e),
        Ok(size) => Ok(
            ContextModel {
                pins: Seq::new(size, |i: int| false),
                offsets: Seq::new(
                    circuit.children.len(),
                    |i: int| layout_end(registry, circuit, i as nat)->Ok_0 as u32,
                ),
                nested: Seq::new(circuit.children.len(), |i: int| None::<ContextModel>),
            },
        ),
    }
}

/// Whether a context has the shape that simulating `circuit` in it takes:
/// room for the circuit's own pins, and one entry for each child.
pub open spec fn context_fits(circuit: CircuitModel, ctx: ContextModel) -> bool {
    &&& circuit.pin_count <= ctx.pins.len()
    &&& ctx.offsets.len() == circuit.children.len()
    &&& ctx.nested.len() == circuit.children.len()
}

/// The evaluation of child `i` of `circuit`.
///
/// A primitive child is evaluated in place. A composite child is simulated
/// for one tick in its own context, which is made when the child is first
/// evaluated and kept from then on; its pins are handed in from the
/// parent's buffer and copied back when the tick succeeds. `depth` is the
/// number of levels of composite children that may still be entered.
pub open spec fn child_step(
    registry: Map<TID, CircuitModel>,
    circuit: CircuitModel,
    i: nat,
    run: Run,
    depth: nat,
) -> Run
    recommends
        i < circuit.children.len(),
        context_fits(circuit, run.ctx),
    decreases depth, 0nat, 0nat,
{
    let ctx = run.ctx;
    let tid = circuit.children[i as int];
    if run.fault is Some {
        run
    } else if !registry.contains_key(tid) {
        faulted(ctx, CircuitError::UnknownCircuitType)
    } else {
        let child = registry[tid];
        let base = ctx.offsets[i as int] as int;
        if base + child.pin_count > ctx.pins.len() {
            faulted(ctx, CircuitError::PinCountMismatch)
        } else if child.is_primitive() {
            running(ContextModel { pins: evaluate_table(child, ctx.pins, base), ..ctx })
        } else if depth == 0 {
            faulted(ctx, CircuitError::CircuitTooLarge)
        } else {
            let entered = match ctx.nested[i as int] {
                Some(kept) => Ok(kept),
                None => fresh_context(registry, child),
            };
            match entered {
                Err(e) => faulted(ctx, e),
                Ok(inner) => {
                    let sub = simulate_in(
                        registry,
                        child,
                        inner,
                        ctx.pins.subrange(base, base + child.pin_count),
                        1,
                        (depth - 1) as nat,
                    );
                    let nested = ctx.nested.update(i as int, Some(sub.ctx));
                    match sub.fault {
                        Some(e) => faulted(ContextModel { nested, ..ctx }, e),
                        None => running(
                            ContextModel {
                                pins: splice(
                                    ctx.pins,
                                    base,
                                    sub.ctx.pins.take(child.pin_count as int),
                                ),
                                nested,
                                ..ctx
                            },
                        ),
                    }
                },
            }
        }
    }
}

/// The run after the first `n` children have been evaluated, in the order
/// of declaration.
pub open spec fn after_children(
    registry: Map<TID, CircuitModel>,
    circuit: CircuitModel,
    n: nat,
    start: Run,
    depth: nat,
) -> Run
    decreases depth, 0nat, n,
{
    if n == 0 {
        start
    } else {
        child_step(
            registry,
            circuit,
            (n - 1) as nat,
            after_children(registry, circuit, (n - 1) as nat, start, depth),
            depth,
        )
    }
}

/// One tick: a primitive is evaluated by its table, a composite by
/// evaluating its children; then every wire is followed once.
pub open spec fn tick(
    registry: Map<TID, CircuitModel>,
    circuit: CircuitModel,
    run: Run,
    depth: nat,
) -> Run
    decreases depth, 1nat, 0nat,
{
    if run.fault is Some {
        run
    } else {
        let evaluated = if circuit.is_primitive() {
            running(ContextModel { pins: evaluate_table(circuit, run.ctx.pins, 0), ..run.ctx })
        } else {
            after_children(registry, circuit, circuit.children.len(), run, depth)
        };
        propagate(circuit.connections, evaluated)
    }
}

/// The run after `n` ticks.
pub open spec fn after_ticks(
    registry: Map<TID, CircuitModel>,
    circuit: CircuitModel,
    n: nat,
    start: Run,
    depth: nat,
) -> Run
    decreases depth, 2nat, n,
{
    if n == 0 {
        start
    } else {
        tick(
            registry,
            circuit,
            after_ticks(registry, circuit, (n - 1) as nat, start, depth),
            depth,
        )
    }
}

/// A simulation of `circuit` in the context `ctx`.
///
/// The buffer `pins` must hold one value for each pin of the circuit, and
/// the context must fit the circuit; otherwise nothing is done. The values
/// are loaded into the circuit's own pins, every wire is followed once, and
/// then `ticks` ticks are run.
pub open spec fn simulate_in(
    registry: Map<TID, CircuitModel>,
    circuit: CircuitModel,
    ctx: ContextModel,
    pins: Seq<bool>,
    ticks: nat,
    depth: nat,
) -> Run
    decreases depth, 3nat, 0nat,
{
    if pins.len() != circuit.pin_count || !context_fits(circuit, ctx) {
        faulted(ctx, CircuitError::PinCountMismatch)
    } else {
        let loaded = running(ContextModel { pins: splice(ctx.pins, 0, pins), ..ctx });
        after_ticks(registry, circuit, ticks, propagate(circuit.connections, loaded), depth)
    }
}

/// The values that a simulation hands back in the caller's buffer: the
/// circuit's own pins where the run succeeded, and what the buffer held
/// where it did not.
pub open spec fn pins_after(circuit: CircuitModel, pins: Seq<bool>, run: Run) -> Seq<bool> {
    if run.fault is None {
        run.ctx.pins.take(circuit.pin_count as int)
    } else {
        pins
    }
}

/// A simulation of `circuit` in a context of its own: the context that the
/// simulation leaves, or the fault that stopped it. The number of levels of
/// composite children that can be entered is the number of registered types.
pub open spec fn simulate_fresh(
    registry: Map<TID, CircuitModel>,
    circuit: CircuitModel,
    pins: Seq<bool>,
    ticks: nat,
) -> Result<ContextModel, CircuitError> {
    if pins.len() != circuit.pin_count {
        Err(CircuitError::PinCountMismatch)
    } else {
        match fresh_context(registry, circuit) {
            Err(e) => Err(e),
            Ok(ctx) => {
                let run = simulate_in(registry, circuit, ctx, pins, ticks, registry.dom().len());
                match run.fault {
                    Some(e) => Err(e),
                    None => Ok(run.ctx),
                }
            },
        }
    }
}

} // verus!
