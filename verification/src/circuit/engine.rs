//! The steps that a simulation takes within one context: loading and
//! reading back the circuit's own pins, following wires, and evaluating a
//! primitive by its truth table.
use super::codec::{bit_at, bits_of, bits_value, encode, lemma_bits_value_bound, word_modulus};
use super::context::{Context, ContextModel};
use super::definition::{Connection, LogicCircuit};
use super::error::CircuitError;
use super::laws::{lemma_propagate_faults, lemma_wires_keep_fault};
use super::semantics::{
    after_wires, evaluate_table, faulted, propagate, running, same_shape, splice, table_outputs,
    verdict, wire_fits, wire_step,
};
use vstd::arithmetic::div_mod::lemma_small_mod;
use vstd::prelude::*;

verus! {

/// Copies `pins` into the pins of the context that begin at `at`.
pub(crate) fn load_pins(context: &mut Context, at: usize, pins: &[bool])
    requires
        at + pins@.len() <= old(context)@.pins.len(),
    ensures
        final(context)@ == (ContextModel {
            pins: splice(old(context)@.pins, at as int, pins@),
            ..old(context)@
        }),
{
    let total: usize = context.pin_total();
    let mut i: usize = 0;
    assert(context@.pins =~= splice(context@.pins, at as int, pins@.take(0)));
    while i < pins.len()
        invariant
            i <= pins@.len(),
            at + pins@.len() <= context@.pins.len(),
            context@.pins.len() == total,
            context@ == (ContextModel {
                pins: splice(old(context)@.pins, at as int, pins@.take(i as int)),
                ..old(context)@
            }),
        decreases pins@.len() - i,
    {
        context.set_pin(at + i, pins[i]);
        i += 1;
        assert(context@.pins =~= splice(old(context)@.pins, at as int, pins@.take(i as int)));
    }
    assert(pins@.take(i as int) =~= pins@);
}

/// Copies the first pins of the context into `pins`.
pub(crate) fn store_pins(context: &Context, pins: &mut [bool])
    requires
        old(pins)@.len() <= context@.pins.len(),
    ensures
        final(pins)@ == context@.pins.take(old(pins)@.len() as int),
{
    let count: usize = pins.len();
    let mut i: usize = 0;
    while i < count
        invariant
            i <= count,
            pins@.len() == count,
            count <= context@.pins.len(),
            forall|j: int| 0 <= j < i ==> pins@[j] == context@.pins[j],
        decreases count - i,
    {
        pins[i] = context.pin(i);
        i += 1;
    }
    assert(pins@ =~= context@.pins.take(count as int));
}

/// Follows every wire once, in the order of declaration: the destination
/// pin takes the value that the source pin holds at that moment.
///
/// Stops at the first wire with an end that the context does not hold.
pub fn propagate_wires(wires: &Vec<Connection>, context: &mut Context) -> (done: Result<
    (),
    CircuitError,
>)
    ensures
        final(context)@ == propagate(wires@, running(old(context)@)).ctx,
        done == verdict(propagate(wires@, running(old(context)@)).fault),
        same_shape(final(context)@, old(context)@),
        done is Ok <==> forall|i: int|
            0 <= i < wires@.len() ==> wire_fits(old(context)@, #[trigger] wires@[i]),
        done is Err ==> done == Err::<(), CircuitError>(CircuitError::MalformedConnection),
{
    proof {
        lemma_propagate_faults(wires@, context@);
    }
    let ghost start = running(context@);
    let mut i: usize = 0;
    while i < wires.len()
        invariant
            i <= wires@.len(),
            start == running(old(context)@),
            same_shape(context@, old(context)@),
            running(context@) == after_wires(wires@, i as nat, start),
        decreases wires@.len() - i,
    {
        let wire: Connection = wires[i];
        let ghost before = running(context@);
        assert(after_wires(wires@, (i + 1) as nat, start) == wire_step(before, wire));
        let source = context.pin_index(wire.input_uid, wire.input_offset);
        let target = context.pin_index(wire.output_uid, wire.output_offset);
        match (source, target) {
            (Some(from), Some(to)) => {
                let value: bool = context.pin(from);
                context.set_pin(to, value);
            },
            _ => {
                proof {
                    assert(wire_step(before, wire) == faulted(
                        before.ctx,
                        CircuitError::MalformedConnection,
                    ));
                    lemma_wires_keep_fault(wires@, (i + 1) as nat, wires@.len(), start);
                }
                return Err(CircuitError::MalformedConnection);
            },
        }
        i += 1;
    }
    Ok(())
}

/// Evaluates a primitive whose pins begin at `base`: its input pins are
/// encoded, and the table's entry at that index is decoded into its output
/// pins.
pub fn evaluate_primitive(circuit: &LogicCircuit, context: &mut Context, base: usize)
    requires
        circuit@.is_primitive(),
        base + circuit@.pin_count <= old(context)@.pins.len(),
    ensures
        final(context)@ == (ContextModel {
            pins: evaluate_table(circuit@, old(context)@.pins, base as int),
            ..old(context)@
        }),
{
    proof {
        use_type_invariant(circuit);
    }
    let table: &Vec<usize> = match circuit.truth_table() {
        Some(rows) => rows,
        None => {
            return ;
        },
    };
    let total: usize = context.pin_total();
    let first_output: usize = base + circuit.out_offset() as usize;
    let end: usize = base + circuit.pin_count() as usize;
    let width: usize = end - first_output;
    let ghost inputs = context@.pins.subrange(base as int, first_output as int);
    let index: usize = encode(&context.pins()[base..first_output]);
    proof {
        lemma_bits_value_bound(inputs);
        assert(table.len() <= usize::MAX);
        lemma_small_mod(bits_value(inputs), word_modulus());
    }
    let value: usize = table[index];
    let ghost outputs = table_outputs(circuit@, inputs);
    let mut j: usize = 0;
    assert(context@.pins =~= splice(context@.pins, first_output as int, outputs.take(0)));
    while j < width
        invariant
            j <= width,
            first_output + width == end,
            end <= context@.pins.len(),
            outputs == bits_of(value as nat, width as nat),
            context@ == (ContextModel {
                pins: splice(old(context)@.pins, first_output as int, outputs.take(j as int)),
                ..old(context)@
            }),
        decreases width - j,
    {
        context.set_pin(first_output + j, bit_at(value, width - 1 - j));
        j += 1;
        assert(context@.pins =~= splice(
            old(context)@.pins,
            first_output as int,
            outputs.take(j as int),
        ));
    }
    assert(outputs.take(j as int) =~= outputs);
}

} // verus!
