//! Circuit types: primitive gates given by a truth table, and composite
//! circuits given by child instances and wires.
use super::error::CircuitError;
use vstd::arithmetic::power2::{lemma_pow2_strictly_increases, pow2};
use vstd::bits::{lemma_usize_pow2_no_overflow, lemma_usize_shl_is_mul};
use vstd::prelude::*;
use vstd::std_specs::cmp::PartialEqSpecImpl;

verus! {

/// Identifies a circuit type within a simulator.
pub type TID = u32;

/// Identifies an instance within a circuit definition.
pub type UID = u32;

/// The instance identifier under which a circuit addresses its own pins.
pub const SELF_UID: UID = 1;

/// The instance identifier of the first child added to a circuit.
pub const FIRST_CHILD_UID: UID = 2;

/// A wire that copies the value of one pin to another.
///
/// Each end names an instance of the enclosing circuit and a pin offset
/// within that instance.
#[derive(Debug, Clone, Copy)]
pub struct Connection {
    pub input_uid: UID,
    pub input_offset: u32,
    pub output_uid: UID,
    pub output_offset: u32,
}

impl Connection {
    /// A wire from pin `input_offset` of `input_uid` to pin `output_offset`
    /// of `output_uid`.
    pub fn new(input_uid: UID, input_offset: u32, output_uid: UID, output_offset: u32) -> (wire:
        Connection)
        ensures
            wire == (Connection { input_uid, input_offset, output_uid, output_offset }),
    {
        Connection { input_uid, input_offset, output_uid, output_offset }
    }
}

/// The mathematical content of a circuit definition.
pub struct CircuitModel {
    /// The type that the definition describes.
    pub tid: TID,
    /// Number of pins, inputs first.
    pub pin_count: nat,
    /// Index of the first output pin, which is the number of input pins.
    pub out_offset: nat,
    /// For a primitive, the encoded outputs for each encoded input.
    pub truth_table: Option<Seq<usize>>,
    /// The type of each child instance, in the order of declaration. The
    /// child at index `i` has the instance identifier `i + 2`.
    pub children: Seq<TID>,
    /// The wires, in the order of declaration.
    pub connections: Seq<Connection>,
}

impl CircuitModel {
    /// A primitive is evaluated by its truth table.
    pub open spec fn is_primitive(self) -> bool {
        self.truth_table is Some
    }

    /// What every definition satisfies: outputs follow inputs, a truth table
    /// covers every input combination, a primitive has no children, and
    /// every child has an instance identifier.
    pub open spec fn wf(self) -> bool {
        &&& self.out_offset <= self.pin_count <= u32::MAX
        &&& self.children.len() + 1 <= u32::MAX
        &&& match self.truth_table {
            Some(table) => table.len() == pow2(self.out_offset) && self.children.len() == 0,
            None => true,
        }
    }
}

/// The definition of one circuit type.
#[derive(Debug)]
pub struct LogicCircuit {
    tid: TID,
    pin_count: u32,
    out_offset: u32,
    truth_table: Option<Vec<usize>>,
    children: Vec<TID>,
    connections: Vec<Connection>,
}

impl View for LogicCircuit {
    type V = CircuitModel;

    closed spec fn view(&self) -> CircuitModel {
        CircuitModel {
            tid: self.tid,
            pin_count: self.pin_count as nat,
            out_offset: self.out_offset as nat,
            truth_table: match self.truth_table {
                Some(table) => Some(table@),
                None => None,
            },
            children: self.children@,
            connections: self.connections@,
        }
    }
}

impl LogicCircuit {
    #[verifier::type_invariant]
    pub open spec fn inv(&self) -> bool {
        self@.wf()
    }

    /// The type that the definition describes.
    pub fn tid(&self) -> (tid: TID)
        ensures
            tid == self@.tid,
    {
        self.tid
    }

    /// The number of pins, inputs and outputs together.
    pub fn pin_count(&self) -> (count: u32)
        ensures
            count == self@.pin_count,
    {
        self.pin_count
    }

    /// The index of the first output pin.
    pub fn out_offset(&self) -> (offset: u32)
        ensures
            offset == self@.out_offset,
    {
        self.out_offset
    }

    /// Whether the circuit is evaluated by a truth table.
    pub fn is_primitive(&self) -> (primitive: bool)
        ensures
            primitive == self@.is_primitive(),
    {
        self.truth_table.is_some()
    }

    /// The truth table, if the circuit is a primitive.
    pub fn truth_table(&self) -> (table: Option<&Vec<usize>>)
        ensures
            match table {
                Some(rows) => self@.truth_table == Some(rows@),
                None => self@.truth_table is None,
            },
    {
        self.truth_table.as_ref()
    }

    /// The type of each child instance, in the order of declaration.
    pub fn children(&self) -> (children: &Vec<TID>)
        ensures
            children@ == self@.children,
    {
        &self.children
    }

    /// The wires, in the order of declaration.
    pub fn connections(&self) -> (connections: &Vec<Connection>)
        ensures
            connections@ == self@.connections,
    {
        &self.connections
    }

    /// An empty composite circuit with the given numbers of input and output pins.
    pub fn new(type_id: TID, input_pin_count: u32, output_pin_count: u32) -> (circuit: LogicCircuit)
        requires
            input_pin_count + output_pin_count <= u32::MAX,
        ensures
            circuit@ == (CircuitModel {
                tid: type_id,
                pin_count: (input_pin_count + output_pin_count) as nat,
                out_offset: input_pin_count as nat,
                truth_table: None,
                children: Seq::empty(),
                connections: Seq::empty(),
            }),
            circuit@.wf(),
    {
        LogicCircuit {
            tid: type_id,
            pin_count: input_pin_count + output_pin_count,
            out_offset: input_pin_count,
            truth_table: None,
            children: Vec::new(),
            connections: Vec::new(),
        }
    }

    /// A primitive circuit that maps each combination of its input pins to
    /// the outputs encoded at that index of `truth_table`.
    ///
    /// The table must hold exactly `2^input_pin_count` entries.
    pub fn from_truth_table(
        type_id: TID,
        input_pin_count: u32,
        output_pin_count: u32,
        truth_table: Vec<usize>,
    ) -> (made: Result<LogicCircuit, CircuitError>)
        requires
            input_pin_count + output_pin_count <= u32::MAX,
        ensures
            truth_table@.len() == pow2(input_pin_count as nat) ==> made is Ok && made->Ok_0@ == (
            CircuitModel {
                tid: type_id,
                pin_count: (input_pin_count + output_pin_count) as nat,
                out_offset: input_pin_count as nat,
                truth_table: Some(truth_table@),
                children: Seq::empty(),
                connections: Seq::empty(),
            }) && made->Ok_0@.wf(),
            truth_table@.len() != pow2(input_pin_count as nat) ==> made == Err::<
                LogicCircuit,
                CircuitError,
            >(CircuitError::InvalidTruthTable),
    {
        if input_pin_count >= usize::BITS {
            proof {
                vstd::arithmetic::power2::lemma2_to64();
                vstd::arithmetic::power2::lemma2_to64_rest();
                if input_pin_count > usize::BITS {
                    lemma_pow2_strictly_increases(usize::BITS as nat, input_pin_count as nat);
                }
                assert(truth_table.len() <= usize::MAX);
            }
            return Err(CircuitError::InvalidTruthTable);
        }
        let rows: usize = 1usize << input_pin_count;
        proof {
            lemma_usize_pow2_no_overflow(input_pin_count as nat);
            lemma_usize_shl_is_mul(1usize, input_pin_count as usize);
        }
        if truth_table.len() != rows {
            return Err(CircuitError::InvalidTruthTable);
        }
        Ok(
            LogicCircuit {
                tid: type_id,
                pin_count: input_pin_count + output_pin_count,
                out_offset: input_pin_count,
                truth_table: Some(truth_table),
                children: Vec::new(),
                connections: Vec::new(),
            },
        )
    }

    /// Declares a child instance of type `circuit_type_id` and returns its
    /// instance identifier. Identifiers are handed out in order, starting at 2.
    ///
    /// The child's type need not be registered yet; it is looked up when the
    /// circuit is simulated.
    pub fn add(&mut self, circuit_type_id: TID) -> (uid: UID)
        requires
            !old(self)@.is_primitive(),
            old(self)@.children.len() + 2 <= u32::MAX,
        ensures
            uid == old(self)@.children.len() + 2,
            final(self)@ == (CircuitModel {
                children: old(self)@.children.push(circuit_type_id),
                ..old(self)@
            }),
            final(self)@.wf(),
    {
        proof {
            use_type_invariant(&*self);
        }
        // The list is moved out while it grows, so that the definition is
        // well-formed at every step.
        let mut children: Vec<TID> = Vec::new();
        std::mem::swap(&mut self.children, &mut children);
        children.push(circuit_type_id);
        let uid: u32 = (children.len() + 1) as u32;
        std::mem::swap(&mut self.children, &mut children);
        uid
    }

    /// Declares a wire from pin `input_offset` of instance `input_uid` to pin
    /// `output_offset` of instance `output_uid`.
    ///
    /// The ends are not checked here: a wire that names an instance or a pin
    /// that does not exist is reported when the circuit is simulated.
    pub fn add_connection(
        &mut self,
        input_uid: UID,
        input_offset: u32,
        output_uid: UID,
        output_offset: u32,
    )
        ensures
            final(self)@ == (CircuitModel {
                connections: old(self)@.connections.push(
                    Connection { input_uid, input_offset, output_uid, output_offset },
                ),
                ..old(self)@
            }),
            final(self)@.wf(),
    {
        proof {
            use_type_invariant(&*self);
        }
        let mut connections: Vec<Connection> = Vec::new();
        std::mem::swap(&mut self.connections, &mut connections);
        connections.push(Connection::new(input_uid, input_offset, output_uid, output_offset));
        std::mem::swap(&mut self.connections, &mut connections);
    }
}

/// Two definitions are equal when they describe the same type.
impl PartialEq for LogicCircuit {
    fn eq(&self, other: &Self) -> (equal: bool) {
        self.tid == other.tid
    }
}

impl PartialEqSpecImpl for LogicCircuit {
    open spec fn obeys_eq_spec() -> bool {
        true
    }

    open spec fn eq_spec(&self, other: &Self) -> bool {
        self@.tid == other@.tid
    }
}

impl Eq for LogicCircuit {

}

} // verus!
