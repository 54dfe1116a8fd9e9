use logic_circuit_simulator::circuit::{
    CircuitError, CircuitSimulator, Connection, LogicCircuit, FIRST_CHILD_UID, SELF_UID,
};

#[test]
fn new_makes_an_empty_composite() {
    let circuit = LogicCircuit::new(7, 2, 1);
    assert_eq!(circuit.tid(), 7);
    assert_eq!(circuit.pin_count(), 3);
    assert_eq!(circuit.out_offset(), 2);
    assert!(!circuit.is_primitive());
    assert!(circuit.truth_table().is_none());
    assert!(circuit.children().is_empty());
    assert!(circuit.connections().is_empty());
}

#[test]
fn from_truth_table_makes_a_primitive() {
    let circuit = LogicCircuit::from_truth_table(8, 2, 1, vec![0, 1, 1, 0]).unwrap();
    assert_eq!(circuit.tid(), 8);
    assert_eq!(circuit.pin_count(), 3);
    assert_eq!(circuit.out_offset(), 2);
    assert!(circuit.is_primitive());
    assert_eq!(circuit.truth_table().unwrap(), &vec![0, 1, 1, 0]);
    assert!(circuit.children().is_empty());
}

#[test]
fn from_truth_table_without_inputs_takes_one_row() {
    let circuit = LogicCircuit::from_truth_table(8, 0, 2, vec![3]).unwrap();
    assert_eq!(circuit.pin_count(), 2);
    assert_eq!(circuit.out_offset(), 0);
}

#[test]
fn from_truth_table_refuses_a_table_of_the_wrong_length() {
    assert_eq!(
        LogicCircuit::from_truth_table(8, 2, 1, vec![0, 0, 0]).unwrap_err(),
        CircuitError::InvalidTruthTable
    );
    assert_eq!(
        LogicCircuit::from_truth_table(8, 2, 1, vec![0, 0, 0, 1, 0]).unwrap_err(),
        CircuitError::InvalidTruthTable
    );
    assert_eq!(
        LogicCircuit::from_truth_table(8, 1, 1, vec![]).unwrap_err(),
        CircuitError::InvalidTruthTable
    );
    assert_eq!(
        LogicCircuit::from_truth_table(8, 0, 1, vec![]).unwrap_err(),
        CircuitError::InvalidTruthTable
    );
}

#[test]
fn from_truth_table_refuses_more_inputs_than_a_table_can_cover() {
    assert_eq!(
        LogicCircuit::from_truth_table(8, usize::BITS, 1, vec![0, 1]).unwrap_err(),
        CircuitError::InvalidTruthTable
    );
    assert_eq!(
        LogicCircuit::from_truth_table(8, 4_000_000_000, 1, vec![0]).unwrap_err(),
        CircuitError::InvalidTruthTable
    );
}

#[test]
fn add_hands_out_instance_identifiers_from_two() {
    let mut circuit = LogicCircuit::new(9, 1, 1);
    assert_eq!(circuit.add(CircuitSimulator::AND_GATE), 2);
    assert_eq!(circuit.add(CircuitSimulator::NOT_GATE), 3);
    assert_eq!(circuit.add(CircuitSimulator::NOT_GATE), 4);
    assert_eq!(
        circuit.children(),
        &vec![
            CircuitSimulator::AND_GATE,
            CircuitSimulator::NOT_GATE,
            CircuitSimulator::NOT_GATE
        ]
    );
    assert_eq!(SELF_UID, 1);
    assert_eq!(FIRST_CHILD_UID, 2);
}

#[test]
fn add_connection_appends_wires_unchecked() {
    let mut circuit = LogicCircuit::new(9, 1, 1);
    circuit.add_connection(1, 0, 1, 1);
    circuit.add_connection(42, 17, 0, 99);
    let wires = circuit.connections();
    assert_eq!(wires.len(), 2);
    assert_eq!(
        (wires[0].input_uid, wires[0].input_offset, wires[0].output_uid, wires[0].output_offset),
        (1, 0, 1, 1)
    );
    assert_eq!(
        (wires[1].input_uid, wires[1].input_offset, wires[1].output_uid, wires[1].output_offset),
        (42, 17, 0, 99)
    );
}

#[test]
fn connection_new_keeps_its_ends() {
    let wire = Connection::new(2, 3, 4, 5);
    assert_eq!(wire.input_uid, 2);
    assert_eq!(wire.input_offset, 3);
    assert_eq!(wire.output_uid, 4);
    assert_eq!(wire.output_offset, 5);
}

#[test]
fn definitions_are_equal_when_their_types_are() {
    let a = LogicCircuit::new(5, 1, 1);
    let b = LogicCircuit::from_truth_table(5, 1, 1, vec![1, 0]).unwrap();
    let c = LogicCircuit::new(6, 1, 1);
    assert!(a == b);
    assert!(a != c);
}
