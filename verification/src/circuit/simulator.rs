//! The simulator: a registry of circuit types, and the simulation of a
//! circuit against it.
use super::context::{Context, ContextModel};
use super::definition::{CircuitModel, LogicCircuit, TID};
use super::engine::{evaluate_primitive, load_pins, propagate_wires, store_pins};
use super::error::CircuitError;
use super::laws::{
    lemma_children_keep_fault, lemma_fresh_context_fits, lemma_fresh_context_succeeds,
    lemma_layout_keeps_fault, lemma_ticks_keep_fault, lemma_wires_keep_fault,
};
use super::layout::{laid_out, lemma_fresh_simulation_sizes, lemma_simulation_keeps_laid_out};
use super::semantics::{
    after_children, after_ticks, child_step, children_registered, context_fits, faulted,
    fresh_context, layout_end, pins_after, pins_needed, propagate, registry_wf, running,
    same_shape, simulate_fresh, simulate_in, tick, verdict,
};
use super::soundness::{
    lemma_fresh_simulation_succeeds, lemma_sound_simulation, lemma_success_shows_sound, sound,
    succeeds,
};
use std::collections::HashMap;
use vstd::prelude::*;
use vstd::slice::slice_to_vec;

verus! {

/// The type under which a new simulator holds the two-input AND gate.
pub const AND_GATE: TID = 1;

/// The type under which a new simulator holds the NOT gate.
pub const NOT_GATE: TID = 2;

/// The two-input AND gate: pins 0 and 1 are inputs, pin 2 is their conjunction.
pub open spec fn and_gate_model() -> CircuitModel {
    CircuitModel {
        tid: AND_GATE,
        pin_count: 3,
        out_offset: 2,
        truth_table: Some(seq![0usize, 0usize, 0usize, 1usize]),
        children: Seq::empty(),
        connections: Seq::empty(),
    }
}

/// The NOT gate: pin 0 is the input, pin 1 its negation.
pub open spec fn not_gate_model() -> CircuitModel {
    CircuitModel {
        tid: NOT_GATE,
        pin_count: 2,
        out_offset: 1,
        truth_table: Some(seq![1usize, 0usize]),
        children: Seq::empty(),
        connections: Seq::empty(),
    }
}

/// A registry of circuit types, against which circuits are simulated.
///
/// Each definition is registered under its own type.
#[derive(Debug)]
pub struct CircuitSimulator {
    circuit_library: HashMap<TID, LogicCircuit>,
}

impl CircuitSimulator {
    /// Every definition is well-formed and registered under its own type.
    #[verifier::type_invariant]
    spec fn inv(&self) -> bool {
        forall|tid: TID| #[trigger]
            self.circuit_library@.contains_key(tid) ==> self.circuit_library@[tid]@.tid == tid
                && self.circuit_library@[tid]@.wf()
    }

    /// The registry of a simulator is well-formed.
    proof fn lemma_registry_wf(&self)
        requires
            self.inv(),
        ensures
            registry_wf(self@),
    {
        assert(self@.dom() =~= self.circuit_library@.dom());
    }
}

impl View for CircuitSimulator {
    type V = Map<TID, CircuitModel>;

    closed spec fn view(&self) -> Map<TID, CircuitModel> {
        Map::new(
            |tid: TID| self.circuit_library@.contains_key(tid),
            |tid: TID| self.circuit_library@[tid]@,
        )
    }
}

/// Whether what a simulation in a fresh context returned is what the
/// simulation is defined to give.
pub open spec fn agrees(
    made: Result<Context, CircuitError>,
    expected: Result<ContextModel, CircuitError>,
) -> bool {
    match made {
        Ok(context) => expected == Ok::<ContextModel, CircuitError>(context@),
        Err(e) => expected == Err::<ContextModel, CircuitError>(e),
    }
}

/// What the caller's buffer holds after a simulation in a fresh context:
/// the circuit's own pins where it succeeded, and what it held before where
/// it did not.
pub open spec fn buffer_after(
    circuit: CircuitModel,
    pins: Seq<bool>,
    expected: Result<ContextModel, CircuitError>,
) -> Seq<bool> {
    match expected {
        Ok(ctx) => ctx.pins.take(circuit.pin_count as int),
        Err(_) => pins,
    }
}

impl CircuitSimulator {
    /// The type under which a new simulator holds the two-input AND gate.
    pub const AND_GATE: TID = AND_GATE;

    /// The type under which a new simulator holds the NOT gate.
    pub const NOT_GATE: TID = NOT_GATE;

    /// A simulator that holds the two-input AND gate and the NOT gate.
    pub fn default() -> (simulator: CircuitSimulator)
        ensures
            simulator@ == Map::<TID, CircuitModel>::empty().insert(
                AND_GATE,
                and_gate_model(),
            ).insert(NOT_GATE, not_gate_model()),
            registry_wf(simulator@),
    {
        proof {
            vstd::arithmetic::power2::lemma2_to64();
        }
        let mut circuit_library: HashMap<TID, LogicCircuit> = HashMap::new();
        let and_table: Vec<usize> = vec![0, 0, 0, 1];
        assert(and_table@ =~= seq![0usize, 0usize, 0usize, 1usize]);
        let and_gate = LogicCircuit::from_truth_table(AND_GATE, 2, 1, and_table);
        circuit_library.insert(AND_GATE, and_gate.unwrap());
        let not_table: Vec<usize> = vec![1, 0];
        assert(not_table@ =~= seq![1usize, 0usize]);
        let not_gate = LogicCircuit::from_truth_table(NOT_GATE, 1, 1, not_table);
        circuit_library.insert(NOT_GATE, not_gate.unwrap());
        let simulator = CircuitSimulator { circuit_library };
        assert(simulator@ =~= Map::<TID, CircuitModel>::empty().insert(
            AND_GATE,
            and_gate_model(),
        ).insert(NOT_GATE, not_gate_model()));
        proof {
            simulator.lemma_registry_wf();
        }
        simulator
    }

    /// Registers `circuit` under its type, in place of any definition that
    /// the type had before.
    pub fn register_circuit(&mut self, circuit: LogicCircuit)
        ensures
            final(self)@ == old(self)@.insert(circuit@.tid, circuit@),
            registry_wf(final(self)@),
    {
        proof {
            use_type_invariant(&*self);
            use_type_invariant(&circuit);
        }
        let tid: TID = circuit.tid();
        // The library is moved out while it changes, so that the simulator
        // is well-formed at every step.
        let mut library: HashMap<TID, LogicCircuit> = HashMap::new();
        std::mem::swap(&mut self.circuit_library, &mut library);
        library.insert(tid, circuit);
        std::mem::swap(&mut self.circuit_library, &mut library);
        assert(self@ =~= old(self)@.insert(circuit@.tid, circuit@));
        proof {
            self.lemma_registry_wf();
        }
    }

    /// The number of registered types, which bounds how deeply the
    /// composite children of a simulated circuit may be nested.
    fn nesting_limit(&self) -> (limit: usize)
        ensures
            limit == self@.dom().len(),
    {
        assert(self@.dom() =~= self.circuit_library@.dom());
        self.circuit_library.len()
    }

    /// Simulates the circuit registered as `tid` in a context of its own.
    /// See `simulate`.
    ///
    /// Fails with `UnknownCircuitType`, leaving `pins` as they were, if no
    /// circuit is registered as `tid`.
    pub fn simulate_by_tid(&self, tid: TID, pins: &mut [bool], tick_count: u32) -> (made: Result<
        Context,
        CircuitError,
    >)
        ensures
            !self@.contains_key(tid) ==> made is Err && made->Err_0
                == CircuitError::UnknownCircuitType && final(pins)@ == old(pins)@,
            self@.contains_key(tid) ==> agrees(
                made,
                simulate_fresh(self@, self@[tid], old(pins)@, tick_count as nat),
            ) && final(pins)@ == buffer_after(
                self@[tid],
                old(pins)@,
                simulate_fresh(self@, self@[tid], old(pins)@, tick_count as nat),
            ),
            made is Err ==> final(pins)@ == old(pins)@,
            made is Ok <==> self@.contains_key(tid) && succeeds(
                self@,
                self@[tid],
                old(pins)@.len(),
                tick_count as nat,
            ),
            made is Ok ==> laid_out(self@, self@[tid], made->Ok_0@, self@.dom().len()),
            registry_wf(self@),
    {
        match self.get_circuit(tid) {
            Some(circuit) => self.simulate(circuit, pins, tick_count),
            None => Err(CircuitError::UnknownCircuitType),
        }
    }

    /// Simulates the circuit registered as `tid` in `context`. See
    /// `simulate_with_context`.
    ///
    /// Fails with `UnknownCircuitType`, leaving `context` and `pins` as they
    /// were, if no circuit is registered as `tid`.
    pub fn simulate_by_tid_with_context(
        &self,
        context: &mut Context,
        tid: TID,
        pins: &mut [bool],
        tick_count: u32,
    ) -> (done: Result<(), CircuitError>)
        ensures
            !self@.contains_key(tid) ==> done == Err::<(), CircuitError>(
                CircuitError::UnknownCircuitType,
            ) && final(context)@ == old(context)@ && final(pins)@ == old(pins)@,
            self@.contains_key(tid) ==> {
                let run = simulate_in(
                    self@,
                    self@[tid],
                    old(context)@,
                    old(pins)@,
                    tick_count as nat,
                    self@.dom().len(),
                );
                &&& final(context)@ == run.ctx
                &&& done == verdict(run.fault)
                &&& final(pins)@ == pins_after(self@[tid], old(pins)@, run)
            },
            same_shape(final(context)@, old(context)@),
            done is Err ==> final(pins)@ == old(pins)@,
            registry_wf(self@),
    {
        match self.get_circuit(tid) {
            Some(circuit) => self.simulate_with_context(context, circuit, pins, tick_count),
            None => Err(CircuitError::UnknownCircuitType),
        }
    }

    /// Simulates `circuit` for `tick_count` ticks in a context of its own,
    /// and returns that context.
    ///
    /// `pins` holds one value for each pin of the circuit. The values are
    /// loaded into the circuit's own pins and every wire is followed once.
    /// Each tick then evaluates the circuit, by its truth table or child by
    /// child, and follows every wire once more. At the end `pins` holds the
    /// circuit's own pins.
    ///
    /// Fails, leaving `pins` as they were, with `PinCountMismatch` if `pins`
    /// has not one value for each pin, and otherwise with the first fault
    /// that laying out the context or running the simulation meets.
    pub fn simulate(&self, circuit: &LogicCircuit, pins: &mut [bool], tick_count: u32) -> (made:
        Result<Context, CircuitError>)
        ensures
            agrees(made, simulate_fresh(self@, circuit@, old(pins)@, tick_count as nat)),
            final(pins)@ == buffer_after(
                circuit@,
                old(pins)@,
                simulate_fresh(self@, circuit@, old(pins)@, tick_count as nat),
            ),
            (made is Err && made->Err_0 == CircuitError::PinCountMismatch) <==> old(pins)@.len()
                != circuit@.pin_count,
            made is Err ==> final(pins)@ == old(pins)@,
            made is Ok ==> laid_out(self@, circuit@, made->Ok_0@, self@.dom().len()),
            made is Ok <==> succeeds(self@, circuit@, old(pins)@.len(), tick_count as nat),
            registry_wf(self@),
    {
        proof {
            use_type_invariant(self);
            self.lemma_registry_wf();
            use_type_invariant(circuit);
            lemma_fresh_simulation_sizes(self@, circuit@, pins@, tick_count as nat);
            lemma_fresh_simulation_succeeds(self@, circuit@, pins@, tick_count as nat);
        }
        if pins.len() != circuit.pin_count() as usize {
            return Err(CircuitError::PinCountMismatch);
        }
        let mut context: Context = match self.create_execution_context(circuit) {
            Ok(fresh) => fresh,
            Err(e) => {
                return Err(e);
            },
        };
        match self.simulate_with_context(&mut context, circuit, pins, tick_count) {
            Ok(()) => Ok(context),
            Err(e) => Err(e),
        }
    }

    /// Simulates `circuit` for `tick_count` ticks in `context`, which keeps
    /// the state of the circuit's instances from one call to the next.
    ///
    /// Proceeds as `simulate` does. On a fault `pins` are left as they
    /// were, and `context` is left as it stood when the fault arose.
    ///
    /// Fails with `PinCountMismatch` if `pins` has not one value for each
    /// pin, or if `context` was not laid out for a circuit with these pins
    /// and children.
    pub fn simulate_with_context(
        &self,
        context: &mut Context,
        circuit: &LogicCircuit,
        pins: &mut [bool],
        tick_count: u32,
    ) -> (done: Result<(), CircuitError>)
        ensures
            final(context)@ == simulate_in(
                self@,
                circuit@,
                old(context)@,
                old(pins)@,
                tick_count as nat,
                self@.dom().len(),
            ).ctx,
            done == verdict(
                simulate_in(
                    self@,
                    circuit@,
                    old(context)@,
                    old(pins)@,
                    tick_count as nat,
                    self@.dom().len(),
                ).fault,
            ),
            final(pins)@ == pins_after(
                circuit@,
                old(pins)@,
                simulate_in(
                    self@,
                    circuit@,
                    old(context)@,
                    old(pins)@,
                    tick_count as nat,
                    self@.dom().len(),
                ),
            ),
            same_shape(final(context)@, old(context)@),
            old(pins)@.len() != circuit@.pin_count ==> done == Err::<(), CircuitError>(
                CircuitError::PinCountMismatch,
            ) && final(context)@ == old(context)@,
            done is Err ==> final(pins)@ == old(pins)@,
            laid_out(self@, circuit@, old(context)@, self@.dom().len()) ==> laid_out(
                self@,
                circuit@,
                final(context)@,
                self@.dom().len(),
            ) && (done == Err::<(), CircuitError>(CircuitError::PinCountMismatch)
                <==> old(pins)@.len() != circuit@.pin_count),
            laid_out(self@, circuit@, old(context)@, self@.dom().len()) && sound(
                self@,
                circuit@,
                self@.dom().len(),
            ) && old(pins)@.len() == circuit@.pin_count ==> done is Ok,
            laid_out(self@, circuit@, old(context)@, self@.dom().len()) && tick_count >= 1
                && done is Ok ==> sound(self@, circuit@, self@.dom().len()),
            registry_wf(self@),
    {
        proof {
            use_type_invariant(self);
            self.lemma_registry_wf();
            use_type_invariant(circuit);
            let depth = self@.dom().len();
            if laid_out(self@, circuit@, context@, depth) {
                lemma_simulation_keeps_laid_out(
                    self@,
                    circuit@,
                    context@,
                    pins@,
                    tick_count as nat,
                    depth,
                );
                if sound(self@, circuit@, depth) && pins@.len() == circuit@.pin_count {
                    lemma_sound_simulation(
                        self@,
                        circuit@,
                        context@,
                        pins@,
                        tick_count as nat,
                        depth,
                    );
                }
                if tick_count >= 1 && simulate_in(
                    self@,
                    circuit@,
                    context@,
                    pins@,
                    tick_count as nat,
                    depth,
                ).fault is None {
                    lemma_success_shows_sound(
                        self@,
                        circuit@,
                        context@,
                        pins@,
                        tick_count as nat,
                        depth,
                    );
                }
            }
        }
        let depth: usize = self.nesting_limit();
        self.run(context, circuit, pins, tick_count, depth)
    }

    /// The definition registered as `tid`, if there is one. A definition
    /// is registered under its own type, so what is found describes `tid`.
    pub fn get_circuit(&self, tid: TID) -> (found: Option<&LogicCircuit>)
        ensures
            match found {
                Some(circuit) => self@.contains_key(tid) && self@[tid] == circuit@ && circuit@.tid
                    == tid && circuit@.wf(),
                None => !self@.contains_key(tid),
            },
            registry_wf(self@),
    {
        proof {
            use_type_invariant(self);
            self.lemma_registry_wf();
        }
        self.circuit_library.get(&tid)
    }

    /// Lays out a context for `circuit`: its own pins first, then the pins
    /// of each child, in the order of declaration. All pins are low and no
    /// child has a context of its own yet.
    ///
    /// Fails with `UnknownCircuitType` at the first child whose type is not
    /// registered, and with `CircuitTooLarge` at the first child that takes
    /// the context beyond `u32::MAX` pins.
    pub fn create_execution_context(&self, circuit: &LogicCircuit) -> (made: Result<
        Context,
        CircuitError,
    >)
        ensures
            match made {
                Ok(context) => fresh_context(self@, circuit@) == Ok::<ContextModel, CircuitError>(
                    context@,
                ),
                Err(e) => fresh_context(self@, circuit@) == Err::<ContextModel, CircuitError>(e),
            },
            made is Ok ==> context_fits(circuit@, made->Ok_0@),
            made is Ok <==> children_registered(self@, circuit@, circuit@.children.len())
                && pins_needed(self@, circuit@, circuit@.children.len()) <= u32::MAX,
            registry_wf(self@),
    {
        proof {
            use_type_invariant(self);
            self.lemma_registry_wf();
            use_type_invariant(circuit);
        }
        let children = circuit.children();
        let mut offsets: Vec<u32> = Vec::new();
        let mut end: u32 = circuit.pin_count();
        let mut i: usize = 0;
        while i < children.len()
            invariant
                i <= children@.len(),
                children@ == circuit@.children,
                circuit@.pin_count <= u32::MAX,
                offsets@.len() == i,
                layout_end(self@, circuit@, i as nat) == Ok::<nat, CircuitError>(end as nat),
                forall|j: int|
                    0 <= j < i ==> layout_end(self@, circuit@, j as nat) == Ok::<nat, CircuitError>(
                        #[trigger] offsets@[j] as nat,
                    ),
            decreases children@.len() - i,
        {
            let next: u64 = match self.get_circuit(children[i]) {
                Some(child) => end as u64 + child.pin_count() as u64,
                None => {
                    proof {
                        lemma_layout_keeps_fault(
                            self@,
                            circuit@,
                            (i + 1) as nat,
                            children@.len(),
                        );
                        lemma_fresh_context_succeeds(self@, circuit@);
                    }
                    return Err(CircuitError::UnknownCircuitType);
                },
            };
            if next > u32::MAX as u64 {
                proof {
                    lemma_layout_keeps_fault(self@, circuit@, (i + 1) as nat, children@.len());
                    lemma_fresh_context_succeeds(self@, circuit@);
                }
                return Err(CircuitError::CircuitTooLarge);
            }
            offsets.push(end);
            end = next as u32;
            i += 1;
        }
        let pins: Vec<bool> = vec![false; end as usize];
        let context = Context::new(pins, offsets);
        proof {
            let expected = fresh_context(self@, circuit@)->Ok_0;
            assert(context@.pins =~= expected.pins);
            assert(context@.offsets =~= expected.offsets);
            assert(context@.nested =~= expected.nested);
            lemma_fresh_context_fits(self@, circuit@);
            lemma_fresh_context_succeeds(self@, circuit@);
        }
        Ok(context)
    }

    /// Evaluates child `index` of `circuit` in the parent's context.
    fn evaluate_child(
        &self,
        circuit: &LogicCircuit,
        index: usize,
        context: &mut Context,
        depth: usize,
    ) -> (done: Result<(), CircuitError>)
        requires
            index < circuit@.children.len(),
            context_fits(circuit@, old(context)@),
        ensures
            final(context)@ == child_step(
                self@,
                circuit@,
                index as nat,
                running(old(context)@),
                depth as nat,
            ).ctx,
            done == verdict(
                child_step(
                    self@,
                    circuit@,
                    index as nat,
                    running(old(context)@),
                    depth as nat,
                ).fault,
            ),
            same_shape(final(context)@, old(context)@),
        decreases depth, 0nat,
    {
        let tid: TID = circuit.children()[index];
        let child: &LogicCircuit = match self.get_circuit(tid) {
            Some(found) => found,
            None => {
                return Err(CircuitError::UnknownCircuitType);
            },
        };
        let base: usize = context.child_base(index) as usize;
        let count: usize = child.pin_count() as usize;
        let total: usize = context.pin_total();
        if count > total || base > total - count {
            return Err(CircuitError::PinCountMismatch);
        }
        if child.is_primitive() {
            evaluate_primitive(child, context, base);
            return Ok(());
        }
        if depth == 0 {
            return Err(CircuitError::CircuitTooLarge);
        }
        let kept = context.take_nested(index);
        let mut inner: Context = match kept {
            Some(nested) => nested,
            None => match self.create_execution_context(child) {
                Ok(fresh) => fresh,
                Err(e) => {
                    assert(context@.nested =~= old(context)@.nested);
                    return Err(e);
                },
            },
        };
        let mut buffer: Vec<bool> = slice_to_vec(&context.pins()[base..base + count]);
        let done = self.run(&mut inner, child, buffer.as_mut_slice(), 1, depth - 1);
        context.put_nested(index, inner);
        assert(context@.nested =~= old(context)@.nested.update(index as int, Some(inner@)));
        match done {
            Err(e) => Err(e),
            Ok(()) => {
                load_pins(context, base, buffer.as_slice());
                Ok(())
            },
        }
    }

    /// Evaluates every child of `circuit`, in the order of declaration.
    fn evaluate_children(
        &self,
        circuit: &LogicCircuit,
        context: &mut Context,
        depth: usize,
    ) -> (done: Result<(), CircuitError>)
        requires
            context_fits(circuit@, old(context)@),
        ensures
            final(context)@ == after_children(
                self@,
                circuit@,
                circuit@.children.len(),
                running(old(context)@),
                depth as nat,
            ).ctx,
            done == verdict(
                after_children(
                    self@,
                    circuit@,
                    circuit@.children.len(),
                    running(old(context)@),
                    depth as nat,
                ).fault,
            ),
            same_shape(final(context)@, old(context)@),
        decreases depth, 1nat,
    {
        let ghost start = running(context@);
        let count: usize = circuit.children().len();
        let mut i: usize = 0;
        while i < count
            invariant
                i <= count,
                count == circuit@.children.len(),
                start == running(old(context)@),
                same_shape(context@, old(context)@),
                context_fits(circuit@, context@),
                running(context@) == after_children(
                    self@,
                    circuit@,
                    i as nat,
                    start,
                    depth as nat,
                ),
            decreases count - i,
        {
            let ghost before = running(context@);
            assert(after_children(self@, circuit@, (i + 1) as nat, start, depth as nat)
                == child_step(self@, circuit@, i as nat, before, depth as nat));
            match self.evaluate_child(circuit, i, context, depth) {
                Ok(()) => {},
                Err(e) => {
                    proof {
                        lemma_children_keep_fault(
                            self@,
                            circuit@,
                            (i + 1) as nat,
                            count as nat,
                            start,
                            depth as nat,
                        );
                    }
                    return Err(e);
                },
            }
            i += 1;
        }
        Ok(())
    }

    /// Runs one tick of `circuit` in `context`.
    fn run_tick(
        &self,
        circuit: &LogicCircuit,
        context: &mut Context,
        depth: usize,
    ) -> (done: Result<(), CircuitError>)
        requires
            context_fits(circuit@, old(context)@),
        ensures
            final(context)@ == tick(self@, circuit@, running(old(context)@), depth as nat).ctx,
            done == verdict(tick(self@, circuit@, running(old(context)@), depth as nat).fault),
            same_shape(final(context)@, old(context)@),
        decreases depth, 2nat,
    {
        if circuit.is_primitive() {
            evaluate_primitive(circuit, context, 0);
        } else {
            match self.evaluate_children(circuit, context, depth) {
                Ok(()) => {},
                Err(e) => {
                    proof {
                        lemma_wires_keep_fault(
                            circuit@.connections,
                            0,
                            circuit@.connections.len(),
                            faulted(context@, e),
                        );
                    }
                    return Err(e);
                },
            }
        }
        propagate_wires(circuit.connections(), context)
    }

    /// Simulates `circuit` in `context`, entering at most `depth` levels of
    /// composite children.
    fn run(
        &self,
        context: &mut Context,
        circuit: &LogicCircuit,
        pins: &mut [bool],
        tick_count: u32,
        depth: usize,
    ) -> (done: Result<(), CircuitError>)
        ensures
            final(context)@ == simulate_in(
                self@,
                circuit@,
                old(context)@,
                old(pins)@,
                tick_count as nat,
                depth as nat,
            ).ctx,
            done == verdict(
                simulate_in(
                    self@,
                    circuit@,
                    old(context)@,
                    old(pins)@,
                    tick_count as nat,
                    depth as nat,
                ).fault,
            ),
            final(pins)@ == pins_after(
                circuit@,
                old(pins)@,
                simulate_in(
                    self@,
                    circuit@,
                    old(context)@,
                    old(pins)@,
                    tick_count as nat,
                    depth as nat,
                ),
            ),
            final(pins)@.len() == old(pins)@.len(),
            same_shape(final(context)@, old(context)@),
        decreases depth, 3nat,
    {
        let count: usize = circuit.pin_count() as usize;
        if pins.len() != count || context.pin_total() < count || context.offset_total()
            != circuit.children().len() || context.nested_total() != circuit.children().len() {
            return Err(CircuitError::PinCountMismatch);
        }
        load_pins(context, 0, pins);
        let ghost loaded = running(context@);
        match propagate_wires(circuit.connections(), context) {
            Ok(()) => {},
            Err(e) => {
                proof {
                    lemma_ticks_keep_fault(
                        self@,
                        circuit@,
                        0,
                        tick_count as nat,
                        propagate(circuit@.connections, loaded),
                        depth as nat,
                    );
                }
                return Err(e);
            },
        }
        let ghost wired = running(context@);
        let ghost goal = simulate_in(
            self@,
            circuit@,
            old(context)@,
            old(pins)@,
            tick_count as nat,
            depth as nat,
        );
        assert(goal == after_ticks(self@, circuit@, tick_count as nat, wired, depth as nat));
        let mut elapsed: u32 = 0;
        while elapsed < tick_count
            invariant
                elapsed <= tick_count,
                goal == simulate_in(
                    self@,
                    circuit@,
                    old(context)@,
                    old(pins)@,
                    tick_count as nat,
                    depth as nat,
                ),
                goal == after_ticks(self@, circuit@, tick_count as nat, wired, depth as nat),
                same_shape(context@, old(context)@),
                pins@ == old(pins)@,
                pins@.len() == count,
                count == circuit@.pin_count,
                context_fits(circuit@, context@),
                running(context@) == after_ticks(
                    self@,
                    circuit@,
                    elapsed as nat,
                    wired,
                    depth as nat,
                ),
            decreases tick_count - elapsed,
        {
            let ghost before = running(context@);
            assert(after_ticks(self@, circuit@, (elapsed + 1) as nat, wired, depth as nat) == tick(
                self@,
                circuit@,
                before,
                depth as nat,
            ));
            match self.run_tick(circuit, context, depth) {
                Ok(()) => {},
                Err(e) => {
                    proof {
                        lemma_ticks_keep_fault(
                            self@,
                            circuit@,
                            (elapsed + 1) as nat,
                            tick_count as nat,
                            wired,
                            depth as nat,
                        );
                    }
                    return Err(e);
                },
            }
            elapsed += 1;
        }
        store_pins(context, pins);
        Ok(())
    }
}

} // verus!
