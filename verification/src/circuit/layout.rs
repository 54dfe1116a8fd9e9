//! Contexts that are laid out for a circuit, and what simulating in them
//! keeps.
//!
//! A simulation never changes the layout of a context, and it lays out
//! the contexts of composite children as it makes them. So a context that
//! was laid out for a circuit stays so, and the only buffer that a
//! simulation in it can find to be of the wrong size is the caller's.
use super::context::ContextModel;
use super::definition::{CircuitModel, Connection, TID};
use super::error::CircuitError;
use super::laws::{lemma_fresh_context_fits, lemma_fresh_ranges_disjoint, lemma_wires_keep_layout};
use super::semantics::{
    after_children, after_ticks, after_wires, child_step, context_fits, evaluate_table,
    fresh_context, layout_end, propagate, running, same_shape, simulate_fresh, simulate_in, splice,
    tick, Run,
};
use vstd::prelude::*;

verus! {

/// Whether `ctx` is laid out for `circuit`: it has the layout of a fresh
/// context, and every context that it keeps for a child is laid out for
/// that child's type. Kept contexts are nested at most `depth` levels deep.
pub open spec fn laid_out(
    registry: Map<TID, CircuitModel>,
    circuit: CircuitModel,
    ctx: ContextModel,
    depth: nat,
) -> bool
    decreases depth,
{
    &&& fresh_context(registry, circuit) is Ok
    &&& same_shape(ctx, fresh_context(registry, circuit)->Ok_0)
    &&& forall|i: int|
        0 <= i < ctx.nested.len() ==> match #[trigger] ctx.nested[i] {
            Some(kept) => depth > 0 && registry.contains_key(circuit.children[i]) && laid_out(
                registry,
                registry[circuit.children[i]],
                kept,
                (depth - 1) as nat,
            ),
            None => true,
        }
}

/// Whether a run has not found a buffer of the wrong size.
pub open spec fn sizes_agree(run: Run) -> bool {
    run.fault != Some(CircuitError::PinCountMismatch)
}

/// A fresh context is laid out for its circuit.
pub proof fn lemma_fresh_is_laid_out(
    registry: Map<TID, CircuitModel>,
    circuit: CircuitModel,
    depth: nat,
)
    requires
        fresh_context(registry, circuit) is Ok,
    ensures
        laid_out(registry, circuit, fresh_context(registry, circuit)->Ok_0, depth),
{
}

/// A context that is laid out for some depth is laid out for every
/// greater depth.
pub proof fn lemma_laid_out_deeper(
    registry: Map<TID, CircuitModel>,
    circuit: CircuitModel,
    ctx: ContextModel,
    depth: nat,
    deeper: nat,
)
    requires
        laid_out(registry, circuit, ctx, depth),
        depth <= deeper,
    ensures
        laid_out(registry, circuit, ctx, deeper),
    decreases depth,
{
    assert forall|i: int| 0 <= i < ctx.nested.len() implies match #[trigger] ctx.nested[i] {
        Some(kept) => deeper > 0 && registry.contains_key(circuit.children[i]) && laid_out(
            registry,
            registry[circuit.children[i]],
            kept,
            (deeper - 1) as nat,
        ),
        None => true,
    } by {
        if let Some(kept) = ctx.nested[i] {
            lemma_laid_out_deeper(
                registry,
                registry[circuit.children[i]],
                kept,
                (depth - 1) as nat,
                (deeper - 1) as nat,
            );
        }
    }
}

/// A context that is laid out stays so when only its pins are written.
pub proof fn lemma_laid_out_by_shape(
    registry: Map<TID, CircuitModel>,
    circuit: CircuitModel,
    before: ContextModel,
    after: ContextModel,
    depth: nat,
)
    requires
        laid_out(registry, circuit, before, depth),
        same_shape(after, before),
        after.nested == before.nested,
    ensures
        laid_out(registry, circuit, after, depth),
{
}

/// Following wires keeps a context laid out, and finds no buffer of the
/// wrong size.
pub proof fn lemma_wires_keep_laid_out(
    registry: Map<TID, CircuitModel>,
    circuit: CircuitModel,
    wires: Seq<Connection>,
    start: Run,
    depth: nat,
)
    requires
        laid_out(registry, circuit, start.ctx, depth),
        sizes_agree(start),
    ensures
        laid_out(registry, circuit, propagate(wires, start).ctx, depth),
        sizes_agree(propagate(wires, start)),
{
    lemma_wires_keep_layout(wires, wires.len(), start);
    lemma_laid_out_by_shape(registry, circuit, start.ctx, propagate(wires, start).ctx, depth);
    lemma_wires_agree(wires, wires.len(), start);
}

proof fn lemma_wires_agree(wires: Seq<Connection>, n: nat, start: Run)
    requires
        sizes_agree(start),
    ensures
        sizes_agree(after_wires(wires, n, start)),
    decreases n,
{
    if n > 0 {
        lemma_wires_agree(wires, (n - 1) as nat, start);
    }
}

/// Evaluating a child keeps the parent's context laid out, and finds no
/// buffer of the wrong size.
pub proof fn lemma_child_keeps_laid_out(
    registry: Map<TID, CircuitModel>,
    circuit: CircuitModel,
    i: nat,
    run: Run,
    depth: nat,
)
    requires
        i < circuit.children.len(),
        laid_out(registry, circuit, run.ctx, depth),
        sizes_agree(run),
    ensures
        laid_out(registry, circuit, child_step(registry, circuit, i, run, depth).ctx, depth),
        sizes_agree(child_step(registry, circuit, i, run, depth)),
    decreases depth, 0nat, 0nat,
{
    let ctx = run.ctx;
    let tid = circuit.children[i as int];
    let out = child_step(registry, circuit, i, run, depth);
    if run.fault is None && registry.contains_key(tid) {
        let child = registry[tid];
        let base = ctx.offsets[i as int] as int;
        let fresh = fresh_context(registry, circuit)->Ok_0;
        lemma_fresh_ranges_disjoint(registry, circuit, i as int, i as int);
        assert(fresh.offsets[i as int] == ctx.offsets[i as int]);
        assert(base + child.pin_count <= ctx.pins.len());
        if child.is_primitive() {
            lemma_laid_out_by_shape(registry, circuit, ctx, out.ctx, depth);
        } else if depth > 0 {
            let below = (depth - 1) as nat;
            let entered = match ctx.nested[i as int] {
                Some(kept) => Ok(kept),
                None => fresh_context(registry, child),
            };
            lemma_layout_faults(registry, child, child.children.len());
            if entered is Ok {
                let inner = entered->Ok_0;
                if ctx.nested[i as int] is None {
                    lemma_fresh_is_laid_out(registry, child, below);
                }
                assert(laid_out(registry, child, inner, below));
                let handed = ctx.pins.subrange(base, base + child.pin_count);
                lemma_simulation_keeps_laid_out(registry, child, inner, handed, 1, below);
                let sub = simulate_in(registry, child, inner, handed, 1, below);
                assert(out.ctx.nested == ctx.nested.update(i as int, Some(sub.ctx)));
                assert(same_shape(out.ctx, ctx));
                let nested = out.ctx.nested;
                assert forall|j: int| 0 <= j < nested.len() implies match #[trigger] nested[j] {
                    Some(kept) => depth > 0 && registry.contains_key(circuit.children[j])
                        && laid_out(registry, registry[circuit.children[j]], kept, below),
                    None => true,
                } by {
                    if j != i {
                        assert(out.ctx.nested[j] == ctx.nested[j]);
                    }
                }
            }
        }
    }
}

/// Evaluating children keeps the parent's context laid out, and finds no
/// buffer of the wrong size.
pub proof fn lemma_children_keep_laid_out(
    registry: Map<TID, CircuitModel>,
    circuit: CircuitModel,
    n: nat,
    start: Run,
    depth: nat,
)
    requires
        n <= circuit.children.len(),
        laid_out(registry, circuit, start.ctx, depth),
        sizes_agree(start),
    ensures
        laid_out(registry, circuit, after_children(registry, circuit, n, start, depth).ctx, depth),
        sizes_agree(after_children(registry, circuit, n, start, depth)),
    decreases depth, 0nat, n,
{
    if n > 0 {
        lemma_children_keep_laid_out(registry, circuit, (n - 1) as nat, start, depth);
        lemma_child_keeps_laid_out(
            registry,
            circuit,
            (n - 1) as nat,
            after_children(registry, circuit, (n - 1) as nat, start, depth),
            depth,
        );
    }
}

/// A tick keeps a context laid out, and finds no buffer of the wrong size.
pub proof fn lemma_tick_keeps_laid_out(
    registry: Map<TID, CircuitModel>,
    circuit: CircuitModel,
    run: Run,
    depth: nat,
)
    requires
        laid_out(registry, circuit, run.ctx, depth),
        sizes_agree(run),
    ensures
        laid_out(registry, circuit, tick(registry, circuit, run, depth).ctx, depth),
        sizes_agree(tick(registry, circuit, run, depth)),
    decreases depth, 1nat, 0nat,
{
    if run.fault is None {
        let evaluated = if circuit.is_primitive() {
            running(ContextModel { pins: evaluate_table(circuit, run.ctx.pins, 0), ..run.ctx })
        } else {
            after_children(registry, circuit, circuit.children.len(), run, depth)
        };
        if circuit.is_primitive() {
            lemma_laid_out_by_shape(registry, circuit, run.ctx, evaluated.ctx, depth);
        } else {
            lemma_children_keep_laid_out(registry, circuit, circuit.children.len(), run, depth);
        }
        lemma_wires_keep_laid_out(registry, circuit, circuit.connections, evaluated, depth);
    }
}

/// Ticks keep a context laid out, and find no buffer of the wrong size.
pub proof fn lemma_ticks_keep_laid_out(
    registry: Map<TID, CircuitModel>,
    circuit: CircuitModel,
    n: nat,
    start: Run,
    depth: nat,
)
    requires
        laid_out(registry, circuit, start.ctx, depth),
        sizes_agree(start),
    ensures
        laid_out(registry, circuit, after_ticks(registry, circuit, n, start, depth).ctx, depth),
        sizes_agree(after_ticks(registry, circuit, n, start, depth)),
    decreases depth, 2nat, n,
{
    if n > 0 {
        lemma_ticks_keep_laid_out(registry, circuit, (n - 1) as nat, start, depth);
        lemma_tick_keeps_laid_out(
            registry,
            circuit,
            after_ticks(registry, circuit, (n - 1) as nat, start, depth),
            depth,
        );
    }
}

/// A simulation in a context that is laid out for the circuit leaves the
/// context laid out, and finds no buffer of the wrong size but the caller's.
pub proof fn lemma_simulation_keeps_laid_out(
    registry: Map<TID, CircuitModel>,
    circuit: CircuitModel,
    ctx: ContextModel,
    pins: Seq<bool>,
    ticks: nat,
    depth: nat,
)
    requires
        laid_out(registry, circuit, ctx, depth),
    ensures
        laid_out(
            registry,
            circuit,
            simulate_in(registry, circuit, ctx, pins, ticks, depth).ctx,
            depth,
        ),
        pins.len() == circuit.pin_count ==> sizes_agree(
            simulate_in(registry, circuit, ctx, pins, ticks, depth),
        ),
    decreases depth, 3nat, 0nat,
{
    lemma_fresh_context_fits(registry, circuit);
    assert(context_fits(circuit, ctx));
    if pins.len() == circuit.pin_count {
        let loaded = running(ContextModel { pins: splice(ctx.pins, 0, pins), ..ctx });
        lemma_laid_out_by_shape(registry, circuit, ctx, loaded.ctx, depth);
        lemma_wires_keep_laid_out(registry, circuit, circuit.connections, loaded, depth);
        lemma_ticks_keep_laid_out(
            registry,
            circuit,
            ticks,
            propagate(circuit.connections, loaded),
            depth,
        );
    }
}

/// A simulation in a context of its own fails with `PinCountMismatch` if
/// and only if the caller's buffer has not one value for each pin of the
/// circuit, and the context that it returns is laid out for the circuit.
pub proof fn lemma_fresh_simulation_sizes(
    registry: Map<TID, CircuitModel>,
    circuit: CircuitModel,
    pins: Seq<bool>,
    ticks: nat,
)
    ensures
        simulate_fresh(registry, circuit, pins, ticks) == Err::<ContextModel, CircuitError>(
            CircuitError::PinCountMismatch,
        ) <==> pins.len() != circuit.pin_count,
        simulate_fresh(registry, circuit, pins, ticks) is Ok ==> laid_out(
            registry,
            circuit,
            simulate_fresh(registry, circuit, pins, ticks)->Ok_0,
            registry.dom().len(),
        ),
{
    let depth = registry.dom().len();
    if pins.len() == circuit.pin_count {
        if fresh_context(registry, circuit) is Ok {
            lemma_fresh_is_laid_out(registry, circuit, depth);
            lemma_simulation_keeps_laid_out(
                registry,
                circuit,
                fresh_context(registry, circuit)->Ok_0,
                pins,
                ticks,
                depth,
            );
        } else {
            lemma_layout_faults(registry, circuit, circuit.children.len());
        }
    }
}

/// The layout of a context fails for an unregistered child or for too many
/// pins, and for nothing else.
pub proof fn lemma_layout_faults(registry: Map<TID, CircuitModel>, circuit: CircuitModel, n: nat)
    ensures
        layout_end(registry, circuit, n) matches Err(e) ==> e == CircuitError::UnknownCircuitType
            || e == CircuitError::CircuitTooLarge,
    decreases n,
{
    if n > 0 {
        lemma_layout_faults(registry, circuit, (n - 1) as nat);
    }
}

} // verus!
