//! End-to-end tests of the molecule model, isomorphism grouping and labeling.

use std::cell::RefCell;

use anakin::matcher::{PatternMatcher, TableMatcher};
use anakin::smirnoff::bonds::Bond as BondParameter;
use anakin::smirnoff::{
    label, uncovered_bonds, ConfigurationError, Parameter, ParameterEntry, ParameterHandler,
    Quantity, Unit,
};
use anakin::topology::molecule::{Atom, Bond, Molecule, Stereochemistry};
use anakin::topology::{ChemicalEnvironment, ChemicalEnvironmentMatch, Topology};

fn atom(atomic_number: usize, formal_charge: isize) -> Atom {
    Atom::new(atomic_number, formal_charge, false, None, Stereochemistry::Unspecified)
}

fn bond(a: usize, b: usize) -> Bond {
    Bond {
        atom1_index: a,
        atom2_index: b,
        bond_order: 1,
        is_aromatic: false,
        stereochemistry: Stereochemistry::Unspecified,
    }
}

/// Water as O, H, H.
fn water() -> Molecule {
    Molecule {
        name: "water".to_string(),
        atoms: vec![atom(8, 0), atom(1, 0), atom(1, 0)],
        bonds: vec![bond(0, 1), bond(0, 2)],
    }
}

/// Water with its atoms listed H, O, H.
fn water_shuffled() -> Molecule {
    Molecule {
        name: "water-shuffled".to_string(),
        atoms: vec![atom(1, 0), atom(8, 0), atom(1, 0)],
        bonds: vec![bond(1, 0), bond(1, 2)],
    }
}

/// Ethanol with explicit hydrogens: C C O H H H H H H.
fn ethanol() -> Molecule {
    Molecule {
        name: "ethanol".to_string(),
        atoms: vec![
            atom(6, 0),
            atom(6, 0),
            atom(8, 0),
            atom(1, 0),
            atom(1, 0),
            atom(1, 0),
            atom(1, 0),
            atom(1, 0),
            atom(1, 0),
        ],
        bonds: vec![
            bond(0, 1),
            bond(1, 2),
            bond(0, 3),
            bond(0, 4),
            bond(0, 5),
            bond(1, 6),
            bond(1, 7),
            bond(2, 8),
        ],
    }
}

fn quantity(v: &str) -> Quantity {
    Quantity { value: v.to_string(), unit: Unit::Unit("kilocalorie_per_mole".to_string()) }
}

fn bond_parameter(id: &str, smirks: &str) -> ParameterEntry {
    ParameterEntry::Bond(BondParameter {
        smirks: smirks.to_string(),
        k: quantity("1.0"),
        id: id.to_string(),
        length: quantity("1.5"),
        parameterize: None,
    })
}

fn table(entries: Vec<(&str, Vec<Vec<usize>>)>) -> TableMatcher {
    TableMatcher::new(
        entries.into_iter().map(|(p, ts)| (p.to_string(), ts)).collect(),
    )
}

fn lookup<'a>(
    matches: &'a [(Vec<usize>, String)],
    key: &[usize],
) -> Option<&'a str> {
    matches.iter().find(|(k, _)| k.as_slice() == key).map(|(_, v)| v.as_str())
}

#[test]
fn element_symbols_by_atomic_number() {
    assert_eq!(atom(1, 0).symbol(), "H");
    assert_eq!(atom(6, 0).symbol(), "C");
    assert_eq!(atom(8, 0).symbol(), "O");
    assert_eq!(atom(0, 0).symbol(), "X");
}

#[test]
fn isomorphic_to_itself_by_identity() {
    let w1 = water();
    let w2 = water();
    let map = w1.are_isomorphic(&w2).expect("water must match water");
    assert_eq!(map, vec![0, 1, 2]);
}

#[test]
fn isomorphic_under_relabeling() {
    let w1 = water();
    let w2 = water_shuffled();
    let map = w1.are_isomorphic(&w2).expect("shuffled water must match water");
    // oxygen 0 -> position 1; the least witness sends the hydrogens in order
    assert_eq!(map, vec![1, 0, 2]);
}

#[test]
fn different_formal_charge_is_not_isomorphic() {
    let w1 = water();
    let mut w2 = water();
    w2.atoms[1].set_formal_charge(1);
    assert!(w1.are_isomorphic(&w2).is_none());
}

#[test]
fn different_bond_order_is_not_isomorphic() {
    let w1 = water();
    let mut w2 = water();
    w2.bonds[0].bond_order = 2;
    assert!(w1.are_isomorphic(&w2).is_none());
}

#[test]
fn duplicated_solvent_forms_one_group() {
    let top = Topology::from_molecules(vec![water(), water_shuffled(), water()]);
    let groups = top.identical_molecule_groups();
    assert_eq!(groups.len(), 1);
    let (rep, members) = &groups[0];
    assert_eq!(*rep, 0);
    assert_eq!(members.len(), 3);
    assert_eq!(members[0], (0, vec![0, 1, 2]));
    assert_eq!(members[1], (1, vec![1, 0, 2]));
    assert_eq!(members[2], (2, vec![0, 1, 2]));
}

#[test]
fn near_duplicate_with_charge_splits_groups() {
    let mut charged = water();
    charged.atoms[0].set_formal_charge(-1);
    let top = Topology::from_molecules(vec![water(), charged]);
    let groups = top.identical_molecule_groups();
    assert_eq!(groups.len(), 2);
    assert_eq!(groups[0].0, 0);
    assert_eq!(groups[0].1.len(), 1);
    assert_eq!(groups[1].0, 1);
    assert_eq!(groups[1].1.len(), 1);
}

#[test]
fn well_formedness_check_rejects_bad_bonds() {
    assert!(water().check_wf());
    assert!(Topology::from_molecules(vec![water(), ethanol()]).check_wf());
    let mut dangling = water();
    dangling.bonds.push(bond(0, 9));
    assert!(!dangling.check_wf());
    let mut looped = water();
    looped.bonds.push(bond(1, 1));
    assert!(!looped.check_wf());
    let mut doubled = water();
    doubled.bonds.push(bond(1, 0));
    assert!(!doubled.check_wf());
    assert!(!Topology::from_molecules(vec![water(), doubled]).check_wf());
}

#[test]
fn global_atom_indices_are_offsets() {
    let top = Topology::from_molecules(vec![water(), ethanol(), water()]);
    assert_eq!(top.atom_offset(0), 0);
    assert_eq!(top.atom_offset(1), 3);
    assert_eq!(top.atom_offset(2), 12);
    assert_eq!(top.atom_index(1, 4), 7);
    assert_eq!(top.atom_index(2, 2), 14);
}

#[test]
fn ethanol_bond_labels_and_coverage_gaps() {
    let matcher = table(vec![
        ("C-C", vec![vec![0, 1], vec![1, 0]]),
        ("C-O", vec![vec![1, 2], vec![2, 1]]),
    ]);
    let handler = ParameterHandler::new(
        vec![bond_parameter("b1", "C-C"), bond_parameter("b2", "C-O")],
        true,
    )
    .unwrap();
    let mol = ethanol();
    let matches = handler.find_matches(&mol, &matcher);
    assert_eq!(lookup(&matches, &[0, 1]), Some("b1"));
    assert_eq!(lookup(&matches, &[1, 2]), Some("b2"));
    // both orientations collapse onto one canonical key each
    assert_eq!(matches.len(), 2);
    // the C-H and O-H bonds are absent and reported as coverage gaps
    assert_eq!(lookup(&matches, &[0, 3]), None);
    let gaps = uncovered_bonds(&mol, &matches);
    assert_eq!(gaps, vec![(0, 3), (0, 4), (0, 5), (1, 6), (1, 7), (2, 8)]);
}

#[test]
fn later_parameter_overrides_earlier() {
    // a matches X union Y, b matches Y: every tuple of Y goes to b,
    // the rest of X stays with a
    let matcher = table(vec![
        ("X|Y", vec![vec![0, 1], vec![1, 2]]),
        ("Y", vec![vec![1, 2]]),
    ]);
    let handler = ParameterHandler::new(
        vec![bond_parameter("a", "X|Y"), bond_parameter("b", "Y")],
        true,
    )
    .unwrap();
    let matches = handler.find_matches(&ethanol(), &matcher);
    assert_eq!(lookup(&matches, &[0, 1]), Some("a"));
    assert_eq!(lookup(&matches, &[1, 2]), Some("b"));
}

#[test]
fn torsion_tuples_keep_their_orientation() {
    let matcher = table(vec![("T", vec![vec![3, 0, 1, 2]])]);
    let handler = ParameterHandler::new(vec![bond_parameter("t1", "T")], false).unwrap();
    let matches = handler.find_matches(&ethanol(), &matcher);
    assert_eq!(lookup(&matches, &[3, 0, 1, 2]), Some("t1"));
    assert_eq!(lookup(&matches, &[2, 1, 0, 3]), None);
}

#[test]
fn out_of_range_tuples_are_dropped() {
    let matcher = table(vec![("P", vec![vec![0, 99], vec![0, 1]])]);
    let mol = water();
    let tuples = matcher.match_pattern(&mol, &"P".to_string());
    assert_eq!(tuples, vec![vec![0, 1]]);
}

#[test]
fn duplicate_parameter_ids_are_rejected() {
    let err = ParameterHandler::new(
        vec![bond_parameter("b1", "C-C"), bond_parameter("b1", "C-O")],
        true,
    )
    .unwrap_err();
    assert!(matches!(err, ConfigurationError::DuplicateParameterId { id } if id == "b1"));
}

#[test]
fn get_parameter_by_id_finds_first_or_nothing() {
    let handler = ParameterHandler::new(
        vec![bond_parameter("b1", "C-C"), bond_parameter("b2", "C-O")],
        true,
    )
    .unwrap();
    let p = handler.get_parameter_by_id(&"b2".to_string()).expect("b2 is present");
    assert_eq!(p.id(), "b2");
    assert_eq!(p.smirks(), "C-O");
    assert!(handler.get_parameter_by_id(&"b9".to_string()).is_none());
}

#[test]
fn labels_propagate_to_every_instance() {
    let matcher = table(vec![("O-H", vec![vec![0, 1], vec![0, 2]])]);
    let handler = ParameterHandler::new(vec![bond_parameter("w1", "O-H")], true).unwrap();
    let handlers = vec![("Bonds".to_string(), handler)];
    let top = Topology::from_molecules(vec![water(), water_shuffled(), water()]);
    let out = label(&top, &handlers, &matcher);
    assert_eq!(out.len(), 3);
    // instance 0: oxygen at global 0
    assert_eq!(lookup(&out[0][0].1, &[0, 1]), Some("w1"));
    assert_eq!(lookup(&out[0][0].1, &[0, 2]), Some("w1"));
    // instance 1 lists its atoms H, O, H at offset 3: oxygen is global 4
    assert_eq!(lookup(&out[1][0].1, &[4, 3]), Some("w1"));
    assert_eq!(lookup(&out[1][0].1, &[4, 5]), Some("w1"));
    // instance 2 at offset 6
    assert_eq!(lookup(&out[2][0].1, &[6, 7]), Some("w1"));
    assert_eq!(lookup(&out[2][0].1, &[6, 8]), Some("w1"));
}

#[test]
fn isomorphic_instances_get_identical_id_multisets() {
    let matcher = table(vec![("O-H", vec![vec![0, 1]]), ("H", vec![vec![2]])]);
    let handlers = vec![(
        "Bonds".to_string(),
        ParameterHandler::new(
            vec![bond_parameter("w1", "O-H"), bond_parameter("w2", "H")],
            true,
        )
        .unwrap(),
    )];
    let top = Topology::from_molecules(vec![water(), water_shuffled()]);
    let out = label(&top, &handlers, &matcher);
    let ids = |j: usize| {
        let mut v: Vec<&str> =
            out[j][0].1.iter().map(|(_, id)| id.as_str()).collect();
        v.sort();
        v
    };
    assert_eq!(ids(0), ids(1));
}

#[test]
fn labeling_twice_is_byte_identical() {
    let matcher = table(vec![
        ("C-C", vec![vec![0, 1]]),
        ("C-O", vec![vec![1, 2]]),
    ]);
    let handlers = vec![(
        "Bonds".to_string(),
        ParameterHandler::new(
            vec![bond_parameter("b1", "C-C"), bond_parameter("b2", "C-O")],
            true,
        )
        .unwrap(),
    )];
    let top = Topology::from_molecules(vec![ethanol(), water(), ethanol()]);
    let first = label(&top, &handlers, &matcher);
    let second = label(&top, &handlers, &matcher);
    assert_eq!(first, second);
}

/// A matcher that answers from a table and counts how often it is consulted.
struct CountingMatcher {
    inner: TableMatcher,
    calls: RefCell<usize>,
}

impl PatternMatcher for CountingMatcher {
    fn match_pattern(&self, molecule: &Molecule, pattern: &String) -> Vec<Vec<usize>> {
        *self.calls.borrow_mut() += 1;
        self.inner.match_pattern(molecule, pattern)
    }
}

#[test]
fn matcher_runs_once_per_parameter_and_unique_molecule() {
    let matcher = CountingMatcher {
        inner: table(vec![("O-H", vec![vec![0, 1], vec![0, 2]]), ("H-H", vec![])]),
        calls: RefCell::new(0),
    };
    let handlers = vec![(
        "Bonds".to_string(),
        ParameterHandler::new(
            vec![bond_parameter("w1", "O-H"), bond_parameter("w2", "H-H")],
            true,
        )
        .unwrap(),
    )];
    // three isomorphic copies of one molecule
    let top = Topology::from_molecules(vec![water(), water_shuffled(), water()]);
    let out = label(&top, &handlers, &matcher);
    assert_eq!(out.len(), 3);
    // two parameters, one unique molecule: exactly two matcher calls, not six
    assert_eq!(*matcher.calls.borrow(), 2);
}

#[test]
fn environment_types_hold_their_tuples() {
    let empty = ChemicalEnvironment::default();
    assert!(empty.topology_atom_indices.is_empty());
    let m = ChemicalEnvironmentMatch::new(vec![0, 1], vec![3, 4]);
    assert_eq!(m.reference_atom_indices, vec![0, 1]);
    assert_eq!(m.topology_atom_indices, vec![3, 4]);
}

#[test]
fn environment_matches_cover_every_instance() {
    let matcher = table(vec![("O-H", vec![vec![0, 1]])]);
    let top = Topology::from_molecules(vec![water(), water_shuffled()]);
    let found = top.chemical_environment_matches(&"O-H".to_string(), &matcher);
    assert_eq!(found.len(), 2);
    assert_eq!(found[0].reference_atom_indices, vec![0, 1]);
    assert_eq!(found[0].topology_atom_indices, vec![0, 1]);
    assert_eq!(found[1].reference_atom_indices, vec![0, 1]);
    // in the shuffled instance the oxygen sits at local 1, global 4
    assert_eq!(found[1].topology_atom_indices, vec![4, 3]);
}
