use fib_circuit::circuit::{Column, ColumnKind, ConstraintSystem, Selector};
use fib_circuit::fibonacci::Config;
use fib_circuit::field::Fe;
use fib_circuit::layout::{AssignedCell, Error, Layouter};
use fib_circuit::value::Value;

fn known(n: u64) -> Value {
    Value::known(Fe::from_u64(n))
}

fn value_of(v: &Value) -> Option<[u8; 32]> {
    match v {
        Value::Known(f) => Some(f.to_bytes()),
        Value::Unknown => None,
    }
}

fn bytes_of(n: u64) -> [u8; 32] {
    let mut b = [0u8; 32];
    b[..8].copy_from_slice(&n.to_le_bytes());
    b
}

fn configured() -> (ConstraintSystem, Config) {
    let mut cs = ConstraintSystem::new();
    let config = Config::configure(&mut cs);
    (cs, config)
}

fn public(n: u64) -> Vec<Vec<Fe>> {
    vec![vec![Fe::from_u64(n)]]
}

#[test]
fn test_fib() {
    let (cs, config) = configured();
    let lay = config.synthesize(&cs, known(1), known(1), 7, 32).unwrap();
    assert!(lay.is_satisfied(&cs, &public(55)));
}

#[test]
fn final_value_is_55_after_seven_steps() {
    let (cs, config) = configured();
    let lay = config.synthesize(&cs, known(1), known(1), 7, 32).unwrap();
    assert_eq!(lay.next_row, 8);
    assert_eq!(lay.cells.len(), 24);
    assert_eq!(value_of(&lay.cells[23].value), Some(bytes_of(55)));
}

#[test]
fn wrong_public_input_is_unsatisfied() {
    let (cs, config) = configured();
    let lay = config.synthesize(&cs, known(1), known(1), 7, 32).unwrap();
    assert!(!lay.is_satisfied(&cs, &public(54)));
    assert!(!lay.is_satisfied(&cs, &vec![vec![]]));
    assert!(!lay.is_satisfied(&cs, &vec![]));
}

#[test]
fn other_seeds_follow_the_recurrence() {
    let (cs, config) = configured();
    // 2, 5, 7, 12, 19, 31
    let lay = config.synthesize(&cs, known(2), known(5), 3, 8).unwrap();
    assert_eq!(value_of(&lay.cells[11].value), Some(bytes_of(31)));
    assert!(lay.is_satisfied(&cs, &public(31)));
    let lay = config.synthesize(&cs, known(4), known(9), 0, 1).unwrap();
    assert!(lay.is_satisfied(&cs, &public(13)));
}

#[test]
fn weighted_gate_rejects_an_honest_trace() {
    let mut cs = ConstraintSystem::new();
    let elem_1 = cs.advice_column();
    cs.enable_equality(elem_1);
    let elem_2 = cs.advice_column();
    cs.enable_equality(elem_2);
    let elem_3 = cs.advice_column();
    cs.enable_equality(elem_3);
    let instance = cs.instance_column();
    cs.enable_equality(instance);
    let q_fib = cs.selector();
    // elem_1 + 2 * elem_2 - elem_3
    cs.create_gate(String::from("weighted"), q_fib, vec![elem_1, elem_2, elem_2], elem_3);
    let config = Config { elem_1, elem_2, elem_3, q_fib, instance };
    let lay = config.synthesize(&cs, known(1), known(1), 7, 32).unwrap();
    assert!(!lay.is_satisfied(&cs, &public(55)));
}

#[test]
fn copies_carry_the_previous_cells() {
    let (cs, config) = configured();
    let mut lay = Layouter::new(&cs, 4);
    let (b, c) = config.init(&mut lay, known(3), known(4)).unwrap();
    assert_eq!(value_of(&c.value), Some(bytes_of(7)));
    let (b2, c2) = config.assign(&mut lay, &b, &c).unwrap();
    assert_eq!(lay.cells.len(), 6);
    assert_eq!(value_of(&lay.cells[3].value), value_of(&b.value));
    assert_eq!(value_of(&lay.cells[4].value), value_of(&c.value));
    assert_eq!(lay.copies, vec![(b.cell, 3), (c.cell, 4)]);
    assert_eq!(b2.cell, 4);
    assert_eq!(c2.cell, 5);
    assert_eq!(value_of(&c2.value), Some(bytes_of(11)));
    assert_eq!(lay.enabled, vec![(config.q_fib.index, 0), (config.q_fib.index, 1)]);
}

#[test]
fn shape_pass_matches_witness_pass() {
    let (cs, config) = configured();
    let shape = config.synthesize(&cs, Value::unknown(), Value::unknown(), 7, 32).unwrap();
    let witness = config.synthesize(&cs, known(1), known(1), 7, 32).unwrap();
    assert_eq!(shape.next_row, witness.next_row);
    assert_eq!(shape.enabled, witness.enabled);
    assert_eq!(shape.copies, witness.copies);
    assert_eq!(shape.exposed, witness.exposed);
    assert_eq!(shape.cells.len(), witness.cells.len());
    for (s, w) in shape.cells.iter().zip(witness.cells.iter()) {
        assert_eq!((s.column, s.row), (w.column, w.row));
        assert!(!s.value.is_known());
        assert!(w.value.is_known());
    }
    assert!(!shape.is_satisfied(&cs, &public(55)));
}

#[test]
fn configure_declares_the_geometry() {
    let (cs, config) = configured();
    assert_eq!(cs.num_advice, 3);
    assert_eq!(cs.num_instance, 1);
    assert_eq!(cs.num_selectors, 1);
    assert_eq!(config.elem_1, Column { kind: ColumnKind::Advice, index: 0 });
    assert_eq!(config.elem_3, Column { kind: ColumnKind::Advice, index: 2 });
    assert_eq!(config.instance, Column { kind: ColumnKind::Instance, index: 0 });
    assert_eq!(config.q_fib, Selector { index: 0 });
    assert_eq!(cs.equality.len(), 4);
    assert_eq!(cs.gates.len(), 1);
    assert_eq!(cs.gates[0].inputs, vec![0, 1]);
    assert_eq!(cs.gates[0].output, 2);
}

#[test]
fn enabling_equality_twice_lists_a_column_once() {
    let mut cs = ConstraintSystem::new();
    let c = cs.advice_column();
    cs.enable_equality(c);
    cs.enable_equality(c);
    assert_eq!(cs.equality.len(), 1);
    assert!(cs.is_equality_enabled(c));
}

#[test]
fn too_few_rows_is_an_error() {
    let (cs, config) = configured();
    assert_eq!(config.synthesize(&cs, known(1), known(1), 7, 7).unwrap_err(), Error::NotEnoughRows);
    assert!(config.synthesize(&cs, known(1), known(1), 7, 8).is_ok());
    let mut lay = Layouter::new(&cs, 0);
    assert_eq!(config.init(&mut lay, known(1), known(1)).unwrap_err(), Error::NotEnoughRows);
    assert_eq!(lay.cells.len(), 0);
}

#[test]
fn undeclared_column_is_an_error() {
    let (cs, mut config) = configured();
    config.elem_3 = Column { kind: ColumnKind::Advice, index: 9 };
    assert_eq!(config.synthesize(&cs, known(1), known(1), 2, 8).unwrap_err(), Error::NotDeclared);
    let mut lay = Layouter::new(&cs, 8);
    assert_eq!(config.init(&mut lay, known(1), known(1)).unwrap_err(), Error::NotDeclared);
}

#[test]
fn shared_column_is_an_error() {
    let (cs, mut config) = configured();
    config.elem_2 = config.elem_1;
    assert_eq!(config.synthesize(&cs, known(1), known(1), 2, 8).unwrap_err(), Error::AlreadyAssigned);
}

#[test]
fn copy_without_equality_is_an_error() {
    let mut cs = ConstraintSystem::new();
    let elem_1 = cs.advice_column();
    let elem_2 = cs.advice_column();
    let elem_3 = cs.advice_column();
    let instance = cs.instance_column();
    let q_fib = cs.selector();
    cs.create_gate(String::from("fibonacci"), q_fib, vec![elem_1, elem_2], elem_3);
    let config = Config { elem_1, elem_2, elem_3, q_fib, instance };
    assert_eq!(config.synthesize(&cs, known(1), known(1), 2, 8).unwrap_err(), Error::NotInPermutation);
    let mut lay = Layouter::new(&cs, 8);
    let (b, c) = config.init(&mut lay, known(1), known(1)).unwrap();
    assert_eq!(config.assign(&mut lay, &b, &c).unwrap_err(), Error::NotInPermutation);
    assert_eq!(config.expose_public(&mut lay, &c, 0).unwrap_err(), Error::NotInPermutation);
}

#[test]
fn unknown_handle_is_an_error() {
    let (cs, config) = configured();
    let mut lay = Layouter::new(&cs, 8);
    let (b, _) = config.init(&mut lay, known(1), known(1)).unwrap();
    let bogus = AssignedCell { cell: 99, value: known(1) };
    assert_eq!(config.assign(&mut lay, &b, &bogus).unwrap_err(), Error::UnknownCell);
    assert_eq!(config.expose_public(&mut lay, &bogus, 0).unwrap_err(), Error::UnknownCell);
    assert_eq!(lay.next_row, 1);
}

#[test]
fn public_slot_out_of_range_is_an_error() {
    let (cs, config) = configured();
    let mut lay = Layouter::new(&cs, 4);
    let (_, c) = config.init(&mut lay, known(1), known(1)).unwrap();
    assert_eq!(config.expose_public(&mut lay, &c, 4).unwrap_err(), Error::NotEnoughRows);
    assert!(config.expose_public(&mut lay, &c, 3).is_ok());
    assert_eq!(lay.exposed, vec![(c.cell, 0, 3)]);
}

#[test]
fn cells_are_never_reassigned() {
    let (cs, config) = configured();
    let mut lay = Layouter::new(&cs, 4);
    let row = lay.region().unwrap();
    assert!(lay.assign_advice(config.elem_1, row, known(1)).is_ok());
    assert_eq!(lay.assign_advice(config.elem_1, row, known(2)).unwrap_err(), Error::AlreadyAssigned);
    assert_eq!(lay.assign_advice(config.elem_1, row + 1, known(2)).unwrap_err(), Error::NotEnoughRows);
    assert_eq!(lay.assign_advice(config.instance, row, known(2)).unwrap_err(), Error::NotDeclared);
    assert_eq!(lay.enable_selector(Selector { index: 3 }, row).unwrap_err(), Error::NotDeclared);
}

#[test]
fn field_addition_and_encoding() {
    let two = Fe::from_u64(2);
    let three = Fe::from_u64(3);
    assert_eq!(two.add(&three).to_bytes(), bytes_of(5));
    assert_eq!(Fe::from_u64(u64::MAX).add(&Fe::from_u64(1)).to_bytes()[8], 1);
    assert_eq!(Fe::zero().to_bytes(), [0u8; 32]);
    assert_eq!(Fe::from_u64(55).to_bytes(), bytes_of(55));
    assert!(two.same(&Fe::from_u64(2)));
    assert!(!two.same(&three));
}

#[test]
fn unknown_propagates_through_addition() {
    assert!(!known(1).add(&Value::unknown()).is_known());
    assert!(!Value::unknown().add(&known(1)).is_known());
    assert_eq!(value_of(&known(1).add(&known(2))), Some(bytes_of(3)));
    assert!(known(4).known_eq(&known(4)));
    assert!(!known(4).known_eq(&known(5)));
    assert!(!Value::unknown().known_eq(&Value::unknown()));
}
