use logic_circuit_simulator::circuit::{CircuitSimulator, LogicCircuit, TID};

const NAND_GATE: TID = 3;
const OR_GATE: TID = 4;

#[test]
fn circuit_test_default_and_gate() {
    let interpreter = CircuitSimulator::default();
    let and_gate = interpreter.get_circuit(CircuitSimulator::AND_GATE).unwrap();

    let mut pins = [false, false, false];
    interpreter.simulate(&and_gate, &mut pins, 1).unwrap();
    assert_eq!(pins.iter().eq([false, false, false].iter()), true);

    pins = [true, false, false];
    interpreter.simulate(&and_gate, &mut pins, 1).unwrap();
    assert_eq!(pins.iter().eq([true, false, false].iter()), true);

    pins = [false, true, false];
    interpreter.simulate(&and_gate, &mut pins, 1).unwrap();
    assert_eq!(pins.iter().eq([false, true, false].iter()), true);

    pins = [true, true, true];
    interpreter.simulate(&and_gate, &mut pins, 1).unwrap();
    assert_eq!(pins.iter().eq([true, true, true].iter()), true);
}

#[test]
fn circuit_test_default_not_gate() {
    let interpreter = CircuitSimulator::default();
    let not_gate = interpreter.get_circuit(CircuitSimulator::NOT_GATE).unwrap();

    let mut pins = [false, false];
    interpreter.simulate(&not_gate, &mut pins, 1).unwrap();
    assert_eq!(pins.iter().eq([false, true].iter()), true);

    pins = [true, false];
    interpreter.simulate(&not_gate, &mut pins, 1).unwrap();
    assert_eq!(pins.iter().eq([true, false].iter()), true);
}

fn register_nand_gate(interpreter: &mut CircuitSimulator) {
    let mut nand_gate = LogicCircuit::new(NAND_GATE, 2, 1);
    nand_gate.add(CircuitSimulator::AND_GATE);
    nand_gate.add(CircuitSimulator::NOT_GATE);

    nand_gate.add_connection(1, 0, 2, 0);
    nand_gate.add_connection(1, 1, 2, 1);
    nand_gate.add_connection(2, 2, 3, 0);
    nand_gate.add_connection(3, 1, 1, 2);

    interpreter.register_circuit(nand_gate);
}

fn register_or_gate(interpreter: &mut CircuitSimulator) {
    register_nand_gate(interpreter);

    let mut or_gate = LogicCircuit::new(OR_GATE, 2, 1);
    or_gate.add(NAND_GATE);
    or_gate.add(NAND_GATE);
    or_gate.add(NAND_GATE);
    or_gate.add_connection(1, 0, 2, 0);
    or_gate.add_connection(1, 0, 2, 1);
    or_gate.add_connection(1, 1, 3, 0);
    or_gate.add_connection(1, 1, 3, 1);
    or_gate.add_connection(2, 2, 4, 0);
    or_gate.add_connection(3, 2, 4, 1);
    or_gate.add_connection(4, 2, 1, 2);

    interpreter.register_circuit(or_gate);
}

#[test]
fn circuit_test_test_nand_gate() {
    let mut interpreter = CircuitSimulator::default();
    register_nand_gate(&mut interpreter);

    let mut pins = [false, false, false];
    interpreter.simulate_by_tid(NAND_GATE, &mut pins, 2).unwrap();
    assert_eq!(pins.iter().eq([false, false, true].iter()), true);

    let mut pins = [false, true, false];
    interpreter.simulate_by_tid(NAND_GATE, &mut pins, 2).unwrap();
    assert_eq!(pins.iter().eq([false, true, true].iter()), true);

    let mut pins = [true, false, false];
    interpreter.simulate_by_tid(NAND_GATE, &mut pins, 2).unwrap();
    assert_eq!(pins.iter().eq([true, false, true].iter()), true);

    let mut pins = [true, true, false];
    interpreter.simulate_by_tid(NAND_GATE, &mut pins, 2).unwrap();
    assert_eq!(pins.iter().eq([true, true, false].iter()), true);
}

#[test]
fn circuit_test_test_or_gate() {
    let mut interpreter = CircuitSimulator::default();
    register_or_gate(&mut interpreter);

    let mut pins = [false, false, false];
    interpreter.simulate_by_tid(OR_GATE, &mut pins, 4).unwrap();
    assert_eq!(pins.iter().eq([false, false, false].iter()), true);

    let mut pins = [false, true, false];
    interpreter.simulate_by_tid(OR_GATE, &mut pins, 4).unwrap();
    assert_eq!(pins.iter().eq([false, true, true].iter()), true);

    let mut pins = [true, false, false];
    interpreter.simulate_by_tid(OR_GATE, &mut pins, 4).unwrap();
    assert_eq!(pins.iter().eq([true, false, true].iter()), true);

    let mut pins = [true, true, false];
    interpreter.simulate_by_tid(OR_GATE, &mut pins, 4).unwrap();
    assert_eq!(pins.iter().eq([true, true, true].iter()), true);
}
