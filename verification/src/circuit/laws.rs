//! Facts about wires, layouts and simulations that hold of every circuit.
use super::context::ContextModel;
use super::definition::{CircuitModel, Connection, TID};
use super::error::CircuitError;
use super::semantics::{
    after_children, after_ticks, after_wires, child_step, children_registered, context_fits,
    evaluate_table, faulted, fresh_context, layout_end, pins_needed, propagate, running,
    same_shape, simulate_fresh, simulate_in, splice, table_outputs, tick, wire_fits, Run,
};
use vstd::prelude::*;

verus! {

/// Once a run has faulted, further wires change nothing.
pub proof fn lemma_wires_keep_fault(wires: Seq<Connection>, n: nat, m: nat, start: Run)
    requires
        n <= m,
        after_wires(wires, n, start).fault is Some,
    ensures
        after_wires(wires, m, start) == after_wires(wires, n, start),
    decreases m,
{
    if n < m {
        lemma_wires_keep_fault(wires, n, (m - 1) as nat, start);
    }
}

/// Following wires writes pins and nothing else: the layout stays, and so
/// do the contexts of the children.
pub proof fn lemma_wires_keep_layout(wires: Seq<Connection>, n: nat, start: Run)
    ensures
        same_shape(after_wires(wires, n, start).ctx, start.ctx),
        after_wires(wires, n, start).ctx.nested == start.ctx.nested,
    decreases n,
{
    if n > 0 {
        lemma_wires_keep_layout(wires, (n - 1) as nat, start);
    }
}

/// A pass over the wires succeeds if and only if the context holds both
/// ends of every wire; otherwise it stops with `MalformedConnection`.
pub proof fn lemma_propagate_faults(wires: Seq<Connection>, ctx: ContextModel)
    ensures
        propagate(wires, running(ctx)).fault == if forall|i: int|
            0 <= i < wires.len() ==> wire_fits(ctx, #[trigger] wires[i]) {
            None
        } else {
            Some(CircuitError::MalformedConnection)
        },
{
    lemma_wires_fault(wires, wires.len(), ctx);
}

/// The first `n` wires succeed if and only if the context holds both ends
/// of each of them.
proof fn lemma_wires_fault(wires: Seq<Connection>, n: nat, ctx: ContextModel)
    requires
        n <= wires.len(),
    ensures
        after_wires(wires, n, running(ctx)).fault == if forall|i: int|
            0 <= i < n ==> wire_fits(ctx, #[trigger] wires[i]) {
            None
        } else {
            Some(CircuitError::MalformedConnection)
        },
    decreases n,
{
    if n > 0 {
        let before = after_wires(wires, (n - 1) as nat, running(ctx));
        lemma_wires_fault(wires, (n - 1) as nat, ctx);
        lemma_wires_keep_layout(wires, (n - 1) as nat, running(ctx));
        let wire = wires[n - 1];
        assert(wire_fits(before.ctx, wire) == wire_fits(ctx, wire));
        if !wire_fits(ctx, wire) {
            assert(!wire_fits(ctx, wires[n - 1]));
        }
    }
}

/// Once the layout of a context has failed at some child, it fails the
/// same way for every later child.
pub proof fn lemma_layout_keeps_fault(
    registry: Map<TID, CircuitModel>,
    circuit: CircuitModel,
    n: nat,
    m: nat,
)
    requires
        n <= m,
        layout_end(registry, circuit, n) is Err,
    ensures
        layout_end(registry, circuit, m) == layout_end(registry, circuit, n),
    decreases m,
{
    if n < m {
        lemma_layout_keeps_fault(registry, circuit, n, (m - 1) as nat);
    }
}

/// Once a run has faulted, evaluating further children changes nothing.
pub proof fn lemma_children_keep_fault(
    registry: Map<TID, CircuitModel>,
    circuit: CircuitModel,
    n: nat,
    m: nat,
    start: Run,
    depth: nat,
)
    requires
        n <= m,
        after_children(registry, circuit, n, start, depth).fault is Some,
    ensures
        after_children(registry, circuit, m, start, depth) == after_children(
            registry,
            circuit,
            n,
            start,
            depth,
        ),
    decreases m,
{
    if n < m {
        lemma_children_keep_fault(registry, circuit, n, (m - 1) as nat, start, depth);
        let before = after_children(registry, circuit, (m - 1) as nat, start, depth);
        assert(after_children(registry, circuit, m, start, depth) == child_step(
            registry,
            circuit,
            (m - 1) as nat,
            before,
            depth,
        ));
        assert(child_step(registry, circuit, (m - 1) as nat, before, depth) == before);
    }
}

/// Once a run has faulted, further ticks change nothing.
pub proof fn lemma_ticks_keep_fault(
    registry: Map<TID, CircuitModel>,
    circuit: CircuitModel,
    n: nat,
    m: nat,
    start: Run,
    depth: nat,
)
    requires
        n <= m,
        after_ticks(registry, circuit, n, start, depth).fault is Some,
    ensures
        after_ticks(registry, circuit, m, start, depth) == after_ticks(
            registry,
            circuit,
            n,
            start,
            depth,
        ),
    decreases m,
{
    if n < m {
        lemma_ticks_keep_fault(registry, circuit, n, (m - 1) as nat, start, depth);
        let before = after_ticks(registry, circuit, (m - 1) as nat, start, depth);
        assert(after_ticks(registry, circuit, m, start, depth) == tick(
            registry,
            circuit,
            before,
            depth,
        ));
        assert(tick(registry, circuit, before, depth) == before);
    }
}

/// Where the layout of a context succeeds up to child `m`, it succeeds up
/// to every earlier child `n`, and the pins of the children from `n` to `m`
/// lie between the two ends.
pub proof fn lemma_layout_grows(
    registry: Map<TID, CircuitModel>,
    circuit: CircuitModel,
    n: nat,
    m: nat,
)
    requires
        n <= m,
        layout_end(registry, circuit, m) is Ok,
    ensures
        layout_end(registry, circuit, n) is Ok,
        layout_end(registry, circuit, n)->Ok_0 <= layout_end(registry, circuit, m)->Ok_0,
        layout_end(registry, circuit, m)->Ok_0 <= u32::MAX || m == 0,
        n < m ==> registry.contains_key(circuit.children[n as int]) && layout_end(
            registry,
            circuit,
            n,
        )->Ok_0 + registry[circuit.children[n as int]].pin_count <= layout_end(
            registry,
            circuit,
            m,
        )->Ok_0,
    decreases m,
{
    if n < m {
        lemma_layout_grows(registry, circuit, n, (m - 1) as nat);
    }
}

/// The pins of a circuit and its children are counted without loss.
pub proof fn lemma_pins_needed_grows(
    registry: Map<TID, CircuitModel>,
    circuit: CircuitModel,
    n: nat,
    m: nat,
)
    requires
        n <= m,
    ensures
        pins_needed(registry, circuit, n) <= pins_needed(registry, circuit, m),
    decreases m,
{
    if n < m {
        lemma_pins_needed_grows(registry, circuit, n, (m - 1) as nat);
    }
}

/// The layout of a context succeeds up to child `n` if and only if the
/// types of the first `n` children are registered and the circuit and
/// these children have no more than `u32::MAX` pins together. The end of
/// the layout is then the number of these pins.
pub proof fn lemma_layout_succeeds(registry: Map<TID, CircuitModel>, circuit: CircuitModel, n: nat)
    requires
        circuit.pin_count <= u32::MAX,
    ensures
        layout_end(registry, circuit, n) is Ok <==> children_registered(registry, circuit, n)
            && pins_needed(registry, circuit, n) <= u32::MAX,
        layout_end(registry, circuit, n) is Ok ==> layout_end(registry, circuit, n)->Ok_0
            == pins_needed(registry, circuit, n),
    decreases n,
{
    if n > 0 {
        let before = (n - 1) as nat;
        lemma_layout_succeeds(registry, circuit, before);
        lemma_pins_needed_grows(registry, circuit, before, n);
        if layout_end(registry, circuit, n) is Ok {
            assert(children_registered(registry, circuit, before));
            assert forall|i: int| 0 <= i < n implies registry.contains_key(
                #[trigger] circuit.children[i],
            ) by {
                assert(i < before || i == n - 1);
            }
        }
        if children_registered(registry, circuit, n) && pins_needed(registry, circuit, n)
            <= u32::MAX {
            assert(registry.contains_key(circuit.children[n - 1]));
            assert(children_registered(registry, circuit, before));
        }
    }
}

/// A context can be laid out for a circuit if and only if the type of
/// every child is registered and the circuit and its children have no more
/// than `u32::MAX` pins together; the context then has that many pins.
pub proof fn lemma_fresh_context_succeeds(registry: Map<TID, CircuitModel>, circuit: CircuitModel)
    requires
        circuit.pin_count <= u32::MAX,
    ensures
        fresh_context(registry, circuit) is Ok <==> children_registered(
            registry,
            circuit,
            circuit.children.len(),
        ) && pins_needed(registry, circuit, circuit.children.len()) <= u32::MAX,
        fresh_context(registry, circuit) is Ok ==> fresh_context(registry, circuit)->Ok_0.pins.len()
            == pins_needed(registry, circuit, circuit.children.len()),
{
    lemma_layout_succeeds(registry, circuit, circuit.children.len());
}

/// In a fresh context, the pins of a circuit and of its children never
/// overlap: each child's pins begin after the circuit's own pins, end before
/// the pins of every later child begin, and lie within the buffer.
pub proof fn lemma_fresh_ranges_disjoint(
    registry: Map<TID, CircuitModel>,
    circuit: CircuitModel,
    i: int,
    j: int,
)
    requires
        fresh_context(registry, circuit) is Ok,
        0 <= i <= j < circuit.children.len(),
    ensures
        registry.contains_key(circuit.children[i]),
        registry.contains_key(circuit.children[j]),
        circuit.pin_count <= fresh_context(registry, circuit)->Ok_0.offsets[i],
        i < j ==> fresh_context(registry, circuit)->Ok_0.offsets[i]
            + registry[circuit.children[i]].pin_count <= fresh_context(
            registry,
            circuit,
        )->Ok_0.offsets[j],
        fresh_context(registry, circuit)->Ok_0.offsets[j]
            + registry[circuit.children[j]].pin_count <= fresh_context(
            registry,
            circuit,
        )->Ok_0.pins.len(),
{
    let count = circuit.children.len();
    lemma_layout_grows(registry, circuit, j as nat, count);
    lemma_layout_grows(registry, circuit, i as nat, count);
    lemma_layout_grows(registry, circuit, i as nat, j as nat);
    lemma_layout_grows(registry, circuit, 0, i as nat);
}

/// A fresh context fits the circuit that it was laid out for.
pub proof fn lemma_fresh_context_fits(registry: Map<TID, CircuitModel>, circuit: CircuitModel)
    requires
        fresh_context(registry, circuit) is Ok,
    ensures
        context_fits(circuit, fresh_context(registry, circuit)->Ok_0),
{
    lemma_layout_grows(registry, circuit, 0, circuit.children.len());
}

/// A buffer that has not one value for each pin of the circuit is refused
/// before anything is done: the context is left as it was, whatever the
/// registry, the context and the number of ticks.
pub proof fn lemma_pin_count_mismatch(
    registry: Map<TID, CircuitModel>,
    circuit: CircuitModel,
    ctx: ContextModel,
    pins: Seq<bool>,
    ticks: nat,
    depth: nat,
)
    requires
        pins.len() != circuit.pin_count,
    ensures
        simulate_in(registry, circuit, ctx, pins, ticks, depth) == faulted(
            ctx,
            CircuitError::PinCountMismatch,
        ),
        simulate_fresh(registry, circuit, pins, ticks) == Err::<ContextModel, CircuitError>(
            CircuitError::PinCountMismatch,
        ),
{
}

/// Evaluating a primitive a second time changes nothing: the table reads
/// the input pins only, and writes the output pins only.
pub proof fn lemma_evaluate_table_settles(circuit: CircuitModel, pins: Seq<bool>, base: int)
    requires
        circuit.wf(),
        0 <= base,
        base + circuit.pin_count <= pins.len(),
    ensures
        evaluate_table(circuit, evaluate_table(circuit, pins, base), base) == evaluate_table(
            circuit,
            pins,
            base,
        ),
{
    let once = evaluate_table(circuit, pins, base);
    assert(once.subrange(base, base + circuit.out_offset) =~= pins.subrange(
        base,
        base + circuit.out_offset,
    ));
    assert(evaluate_table(circuit, once, base) =~= once);
}

/// A primitive without wires computes its truth table: after one tick or
/// more, in a context of its own, its input pins are as they were handed
/// in and its output pins hold what the table gives for them.
pub proof fn lemma_primitive_computes_table(
    registry: Map<TID, CircuitModel>,
    circuit: CircuitModel,
    pins: Seq<bool>,
    ticks: nat,
)
    requires
        circuit.wf(),
        circuit.is_primitive(),
        circuit.connections.len() == 0,
        pins.len() == circuit.pin_count,
        ticks >= 1,
    ensures
        simulate_fresh(registry, circuit, pins, ticks) is Ok,
        simulate_fresh(registry, circuit, pins, ticks)->Ok_0.pins == pins.take(
            circuit.out_offset as int,
        ) + table_outputs(circuit, pins.take(circuit.out_offset as int)),
{
    let depth = registry.dom().len();
    let fresh = fresh_context(registry, circuit)->Ok_0;
    assert(fresh_context(registry, circuit) is Ok);
    let loaded = ContextModel { pins: splice(fresh.pins, 0, pins), ..fresh };
    assert(loaded.pins =~= pins);
    let wired = propagate(circuit.connections, running(loaded));
    assert(wired == running(loaded));
    let settled = ContextModel { pins: evaluate_table(circuit, pins, 0), ..fresh };
    lemma_primitive_ticks(registry, circuit, loaded, ticks, depth);
    assert(pins.subrange(0, 0int + circuit.out_offset) =~= pins.take(circuit.out_offset as int));
    assert(settled.pins =~= pins.take(circuit.out_offset as int) + table_outputs(
        circuit,
        pins.take(circuit.out_offset as int),
    ));
}

/// After one tick or more, a primitive without wires stands as one
/// evaluation of its table leaves it.
proof fn lemma_primitive_ticks(
    registry: Map<TID, CircuitModel>,
    circuit: CircuitModel,
    start: ContextModel,
    ticks: nat,
    depth: nat,
)
    requires
        circuit.wf(),
        circuit.is_primitive(),
        circuit.connections.len() == 0,
        circuit.pin_count <= start.pins.len(),
        ticks >= 1,
    ensures
        after_ticks(registry, circuit, ticks, running(start), depth) == running(
            ContextModel { pins: evaluate_table(circuit, start.pins, 0), ..start },
        ),
    decreases ticks,
{
    let settled = ContextModel { pins: evaluate_table(circuit, start.pins, 0), ..start };
    let before = after_ticks(registry, circuit, (ticks - 1) as nat, running(start), depth);
    assert(after_ticks(registry, circuit, ticks, running(start), depth) == tick(
        registry,
        circuit,
        before,
        depth,
    ));
    if ticks == 1 {
        assert(before == running(start));
        assert(tick(registry, circuit, before, depth) == propagate(
            circuit.connections,
            running(settled),
        ));
    } else {
        lemma_primitive_ticks(registry, circuit, start, (ticks - 1) as nat, depth);
        lemma_evaluate_table_settles(circuit, start.pins, 0);
        assert(tick(registry, circuit, before, depth) == propagate(
            circuit.connections,
            running(settled),
        ));
    }
}

} // verus!
