//! Which circuits a simulation cannot fail on.
//!
//! Every fault but that of the caller's buffer comes from the definitions:
//! an unregistered child, a wire that leaves the context, too many pins or
//! too deep a nesting. A circuit without any of these is sound, and a
//! simulation of a sound circuit succeeds.
use super::context::ContextModel;
use super::definition::{CircuitModel, Connection, TID};
use super::laws::{
    lemma_children_keep_fault, lemma_fresh_context_fits, lemma_fresh_ranges_disjoint,
    lemma_propagate_faults, lemma_ticks_keep_fault, lemma_wires_keep_fault,
};
use super::layout::{
    laid_out, lemma_children_keep_laid_out, lemma_fresh_is_laid_out, lemma_laid_out_by_shape,
    lemma_ticks_keep_laid_out, lemma_wires_keep_laid_out,
};
use super::semantics::{
    after_children, after_ticks, child_step, evaluate_table, fresh_context, propagate, running,
    same_shape, simulate_fresh, simulate_in, splice, tick, wire_fits,
};
use vstd::prelude::*;

verus! {

/// Whether nothing in `circuit` itself can stop a simulation: a context can
/// be laid out for it, and that context holds both ends of every wire.
pub open spec fn locally_sound(registry: Map<TID, CircuitModel>, circuit: CircuitModel) -> bool {
    &&& fresh_context(registry, circuit) is Ok
    &&& forall|k: int|
        0 <= k < circuit.connections.len() ==> wire_fits(
            fresh_context(registry, circuit)->Ok_0,
            #[trigger] circuit.connections[k],
        )
}

/// Whether nothing in `circuit` or below it can stop a simulation: the
/// circuit is sound in itself, and every composite child is sound in turn,
/// with composite children nested at most `depth` levels deep.
pub open spec fn sound(registry: Map<TID, CircuitModel>, circuit: CircuitModel, depth: nat) -> bool
    decreases depth,
{
    &&& locally_sound(registry, circuit)
    &&& forall|i: int|
        0 <= i < circuit.children.len() && !registry[#[trigger] circuit.children[i]].is_primitive()
            ==> depth > 0 && sound(registry, registry[circuit.children[i]], (depth - 1) as nat)
}

/// Whether a simulation of `circuit` in a context of its own succeeds,
/// given the size of the caller's buffer and the number of ticks: the
/// buffer has one value for each pin, and the circuit is sound, or, where no
/// tick is run and so no child is met, sound in itself.
pub open spec fn succeeds(
    registry: Map<TID, CircuitModel>,
    circuit: CircuitModel,
    buffer_len: nat,
    ticks: nat,
) -> bool {
    &&& buffer_len == circuit.pin_count
    &&& if ticks >= 1 {
        sound(registry, circuit, registry.dom().len())
    } else {
        locally_sound(registry, circuit)
    }
}

/// Whether a wire fits a context depends on the layout of the context only.
pub proof fn lemma_wire_fits_by_shape(a: ContextModel, b: ContextModel, wire: Connection)
    requires
        same_shape(a, b),
    ensures
        wire_fits(a, wire) == wire_fits(b, wire),
{
}

/// In a context laid out for a sound circuit, a pass over the wires succeeds.
pub proof fn lemma_sound_wires(
    registry: Map<TID, CircuitModel>,
    circuit: CircuitModel,
    ctx: ContextModel,
    depth: nat,
)
    requires
        sound(registry, circuit, depth),
        laid_out(registry, circuit, ctx, depth),
    ensures
        propagate(circuit.connections, running(ctx)).fault is None,
{
    lemma_propagate_faults(circuit.connections, ctx);
    assert forall|k: int| 0 <= k < circuit.connections.len() implies wire_fits(
        ctx,
        #[trigger] circuit.connections[k],
    ) by {
        lemma_wire_fits_by_shape(
            ctx,
            fresh_context(registry, circuit)->Ok_0,
            circuit.connections[k],
        );
    }
}

/// In a context laid out for a sound circuit, the evaluation of a child
/// succeeds.
pub proof fn lemma_sound_child(
    registry: Map<TID, CircuitModel>,
    circuit: CircuitModel,
    i: nat,
    ctx: ContextModel,
    depth: nat,
)
    requires
        sound(registry, circuit, depth),
        laid_out(registry, circuit, ctx, depth),
        i < circuit.children.len(),
    ensures
        child_step(registry, circuit, i, running(ctx), depth).fault is None,
    decreases depth, 0nat, 0nat,
{
    let tid = circuit.children[i as int];
    lemma_fresh_ranges_disjoint(registry, circuit, i as int, i as int);
    let child = registry[tid];
    let base = ctx.offsets[i as int] as int;
    let fresh = fresh_context(registry, circuit)->Ok_0;
    assert(fresh.offsets[i as int] == ctx.offsets[i as int]);
    if !child.is_primitive() {
        let below = (depth - 1) as nat;
        assert(sound(registry, child, below));
        let inner = match ctx.nested[i as int] {
            Some(kept) => kept,
            None => fresh_context(registry, child)->Ok_0,
        };
        if ctx.nested[i as int] is None {
            lemma_fresh_is_laid_out(registry, child, below);
        }
        lemma_sound_simulation(
            registry,
            child,
            inner,
            ctx.pins.subrange(base, base + child.pin_count),
            1,
            below,
        );
    }
}

/// In a context laid out for a sound circuit, the evaluation of the
/// children succeeds.
pub proof fn lemma_sound_children(
    registry: Map<TID, CircuitModel>,
    circuit: CircuitModel,
    n: nat,
    ctx: ContextModel,
    depth: nat,
)
    requires
        sound(registry, circuit, depth),
        laid_out(registry, circuit, ctx, depth),
        n <= circuit.children.len(),
    ensures
        after_children(registry, circuit, n, running(ctx), depth).fault is None,
    decreases depth, 0nat, n,
{
    if n > 0 {
        let before = after_children(registry, circuit, (n - 1) as nat, running(ctx), depth);
        lemma_sound_children(registry, circuit, (n - 1) as nat, ctx, depth);
        lemma_children_keep_laid_out(registry, circuit, (n - 1) as nat, running(ctx), depth);
        assert(before == running(before.ctx));
        lemma_sound_child(registry, circuit, (n - 1) as nat, before.ctx, depth);
    }
}

/// In a context laid out for a sound circuit, a tick succeeds.
pub proof fn lemma_sound_tick(
    registry: Map<TID, CircuitModel>,
    circuit: CircuitModel,
    ctx: ContextModel,
    depth: nat,
)
    requires
        sound(registry, circuit, depth),
        laid_out(registry, circuit, ctx, depth),
    ensures
        tick(registry, circuit, running(ctx), depth).fault is None,
    decreases depth, 1nat, 0nat,
{
    let evaluated = if circuit.is_primitive() {
        running(ContextModel { pins: evaluate_table(circuit, ctx.pins, 0), ..ctx })
    } else {
        after_children(registry, circuit, circuit.children.len(), running(ctx), depth)
    };
    if circuit.is_primitive() {
        lemma_laid_out_by_shape(registry, circuit, ctx, evaluated.ctx, depth);
    } else {
        lemma_sound_children(registry, circuit, circuit.children.len(), ctx, depth);
        lemma_children_keep_laid_out(
            registry,
            circuit,
            circuit.children.len(),
            running(ctx),
            depth,
        );
    }
    assert(evaluated == running(evaluated.ctx));
    lemma_sound_wires(registry, circuit, evaluated.ctx, depth);
}

/// In a context laid out for a sound circuit, ticks succeed.
pub proof fn lemma_sound_ticks(
    registry: Map<TID, CircuitModel>,
    circuit: CircuitModel,
    n: nat,
    ctx: ContextModel,
    depth: nat,
)
    requires
        sound(registry, circuit, depth),
        laid_out(registry, circuit, ctx, depth),
    ensures
        after_ticks(registry, circuit, n, running(ctx), depth).fault is None,
    decreases depth, 2nat, n,
{
    if n > 0 {
        let before = after_ticks(registry, circuit, (n - 1) as nat, running(ctx), depth);
        lemma_sound_ticks(registry, circuit, (n - 1) as nat, ctx, depth);
        lemma_ticks_keep_laid_out(registry, circuit, (n - 1) as nat, running(ctx), depth);
        assert(before == running(before.ctx));
        lemma_sound_tick(registry, circuit, before.ctx, depth);
    }
}

/// A simulation of a sound circuit, in a context laid out for it and with
/// one value for each of its pins, succeeds.
pub proof fn lemma_sound_simulation(
    registry: Map<TID, CircuitModel>,
    circuit: CircuitModel,
    ctx: ContextModel,
    pins: Seq<bool>,
    ticks: nat,
    depth: nat,
)
    requires
        sound(registry, circuit, depth),
        laid_out(registry, circuit, ctx, depth),
        pins.len() == circuit.pin_count,
    ensures
        simulate_in(registry, circuit, ctx, pins, ticks, depth).fault is None,
    decreases depth, 3nat, 0nat,
{
    lemma_fresh_context_fits(registry, circuit);
    let loaded = ContextModel { pins: splice(ctx.pins, 0, pins), ..ctx };
    lemma_laid_out_by_shape(registry, circuit, ctx, loaded, depth);
    lemma_sound_wires(registry, circuit, loaded, depth);
    let wired = propagate(circuit.connections, running(loaded));
    lemma_wires_keep_laid_out(registry, circuit, circuit.connections, running(loaded), depth);
    assert(wired == running(wired.ctx));
    lemma_sound_ticks(registry, circuit, ticks, wired.ctx, depth);
}

/// A simulation of a sound circuit in a context of its own succeeds,
/// whatever the values handed in and however many ticks are run, as long as
/// there is one value for each pin.
pub proof fn lemma_sound_fresh_simulation(
    registry: Map<TID, CircuitModel>,
    circuit: CircuitModel,
    pins: Seq<bool>,
    ticks: nat,
)
    requires
        sound(registry, circuit, registry.dom().len()),
        pins.len() == circuit.pin_count,
    ensures
        simulate_fresh(registry, circuit, pins, ticks) is Ok,
{
    let depth = registry.dom().len();
    lemma_fresh_is_laid_out(registry, circuit, depth);
    lemma_sound_simulation(
        registry,
        circuit,
        fresh_context(registry, circuit)->Ok_0,
        pins,
        ticks,
        depth,
    );
}

/// A simulation of one tick or more that succeeds, in a context laid out
/// for the circuit, shows the circuit to be sound: the first tick meets
/// every wire and every child.
pub proof fn lemma_success_shows_sound(
    registry: Map<TID, CircuitModel>,
    circuit: CircuitModel,
    ctx: ContextModel,
    pins: Seq<bool>,
    ticks: nat,
    depth: nat,
)
    requires
        circuit.is_primitive() ==> circuit.children.len() == 0,
        laid_out(registry, circuit, ctx, depth),
        ticks >= 1,
        simulate_in(registry, circuit, ctx, pins, ticks, depth).fault is None,
    ensures
        pins.len() == circuit.pin_count,
        sound(registry, circuit, depth),
    decreases depth, 1nat,
{
    lemma_fresh_context_fits(registry, circuit);
    let fresh = fresh_context(registry, circuit)->Ok_0;
    let loaded = ContextModel { pins: splice(ctx.pins, 0, pins), ..ctx };
    let wired = propagate(circuit.connections, running(loaded));
    lemma_laid_out_by_shape(registry, circuit, ctx, loaded, depth);
    lemma_wires_keep_laid_out(registry, circuit, circuit.connections, running(loaded), depth);
    if wired.fault is Some {
        lemma_ticks_keep_fault(registry, circuit, 0, ticks, wired, depth);
    }
    assert(wired == running(wired.ctx));
    lemma_propagate_faults(circuit.connections, loaded);
    assert forall|k: int| 0 <= k < circuit.connections.len() implies wire_fits(
        fresh,
        #[trigger] circuit.connections[k],
    ) by {
        lemma_wire_fits_by_shape(loaded, fresh, circuit.connections[k]);
    }
    let first = after_ticks(registry, circuit, 1, wired, depth);
    if first.fault is Some {
        lemma_ticks_keep_fault(registry, circuit, 1, ticks, wired, depth);
    }
    assert(after_ticks(registry, circuit, 0, wired, depth) == wired);
    assert(first == tick(registry, circuit, wired, depth));
    if !circuit.is_primitive() {
        let count = circuit.children.len();
        let evaluated = after_children(registry, circuit, count, wired, depth);
        if evaluated.fault is Some {
            lemma_wires_keep_fault(circuit.connections, 0, circuit.connections.len(), evaluated);
        }
        assert forall|i: int|
            0 <= i < count && !registry[#[trigger] circuit.children[i]].is_primitive() implies depth
            > 0 && sound(registry, registry[circuit.children[i]], (depth - 1) as nat) by {
            let before = after_children(registry, circuit, i as nat, wired, depth);
            let after = after_children(registry, circuit, (i + 1) as nat, wired, depth);
            if before.fault is Some {
                lemma_children_keep_fault(registry, circuit, i as nat, count, wired, depth);
            }
            if after.fault is Some {
                lemma_children_keep_fault(registry, circuit, (i + 1) as nat, count, wired, depth);
            }
            lemma_children_keep_laid_out(registry, circuit, i as nat, wired, depth);
            assert(after == child_step(registry, circuit, i as nat, before, depth));
            lemma_child_success_shows_sound(registry, circuit, i as nat, before.ctx, depth);
        }
    }
}

/// The evaluation of a composite child that succeeds shows the child to
/// be sound.
proof fn lemma_child_success_shows_sound(
    registry: Map<TID, CircuitModel>,
    circuit: CircuitModel,
    i: nat,
    ctx: ContextModel,
    depth: nat,
)
    requires
        laid_out(registry, circuit, ctx, depth),
        i < circuit.children.len(),
        !registry[circuit.children[i as int]].is_primitive(),
        child_step(registry, circuit, i, running(ctx), depth).fault is None,
    ensures
        depth > 0,
        sound(registry, registry[circuit.children[i as int]], (depth - 1) as nat),
    decreases depth, 0nat,
{
    let child = registry[circuit.children[i as int]];
    let base = ctx.offsets[i as int] as int;
    let below = (depth - 1) as nat;
    let inner = match ctx.nested[i as int] {
        Some(kept) => kept,
        None => fresh_context(registry, child)->Ok_0,
    };
    if ctx.nested[i as int] is None {
        lemma_fresh_is_laid_out(registry, child, below);
    }
    lemma_success_shows_sound(
        registry,
        child,
        inner,
        ctx.pins.subrange(base, base + child.pin_count),
        1,
        below,
    );
}

/// A simulation without ticks in a context of its own succeeds if and
/// only if the caller hands in one value for each pin and the circuit is
/// sound in itself: the children are not met.
proof fn lemma_fresh_simulation_without_ticks(
    registry: Map<TID, CircuitModel>,
    circuit: CircuitModel,
    pins: Seq<bool>,
)
    ensures
        simulate_fresh(registry, circuit, pins, 0) is Ok <==> pins.len() == circuit.pin_count
            && locally_sound(registry, circuit),
{
    if pins.len() == circuit.pin_count && fresh_context(registry, circuit) is Ok {
        let depth = registry.dom().len();
        let fresh = fresh_context(registry, circuit)->Ok_0;
        lemma_fresh_context_fits(registry, circuit);
        let loaded = ContextModel { pins: splice(fresh.pins, 0, pins), ..fresh };
        let wired = propagate(circuit.connections, running(loaded));
        assert(after_ticks(registry, circuit, 0, wired, depth) == wired);
        lemma_propagate_faults(circuit.connections, loaded);
        assert forall|k: int| 0 <= k < circuit.connections.len() implies wire_fits(
            fresh,
            #[trigger] circuit.connections[k],
        ) == wire_fits(loaded, circuit.connections[k]) by {
            lemma_wire_fits_by_shape(loaded, fresh, circuit.connections[k]);
        }
    }
}

/// A simulation in a context of its own succeeds if and only if the
/// caller hands in one value for each pin and the circuit is sound, or,
/// without ticks, sound in itself.
pub proof fn lemma_fresh_simulation_succeeds(
    registry: Map<TID, CircuitModel>,
    circuit: CircuitModel,
    pins: Seq<bool>,
    ticks: nat,
)
    requires
        circuit.wf(),
    ensures
        simulate_fresh(registry, circuit, pins, ticks) is Ok <==> succeeds(
            registry,
            circuit,
            pins.len(),
            ticks,
        ),
{
    let depth = registry.dom().len();
    if ticks == 0 {
        lemma_fresh_simulation_without_ticks(registry, circuit, pins);
    } else if pins.len() == circuit.pin_count {
        if sound(registry, circuit, depth) {
            lemma_sound_fresh_simulation(registry, circuit, pins, ticks);
        }
        if simulate_fresh(registry, circuit, pins, ticks) is Ok {
            lemma_fresh_is_laid_out(registry, circuit, depth);
            lemma_success_shows_sound(
                registry,
                circuit,
                fresh_context(registry, circuit)->Ok_0,
                pins,
                ticks,
                depth,
            );
        }
    }
}

} // verus!
