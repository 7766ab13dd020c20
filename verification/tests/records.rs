//! Tests of the archive-client data models and the force-field handlers.

use anakin::qcsubmit::client::collection::{
    Attributes, CollectionGetBody, CollectionType, TorsionDriveResult,
};
use anakin::qcsubmit::client::molecule::MoleculeGetBody;
use anakin::qcsubmit::client::procedure::ProcedureGetBody;
use anakin::qcsubmit::client::{id_chunks, parse_grid_id, Body, Status};
use anakin::qcsubmit::results::{Entry, Filters, Provenance, ResultCollection};
use anakin::matcher::TableMatcher;
use anakin::smirnoff::bonds::{Bond, Bonds};
use anakin::topology::molecule::{Atom, Bond as MolBond, Molecule, Stereochemistry};
use anakin::topology::Topology;
use anakin::smirnoff::{
    Angle, Angles, ConfigurationError, Constraints, Electrostatics, ForceField, ImproperTorsions,
    LibraryCharges, Parameter, Proper, ProperTorsions, Quantity, ToolkitAM1BCC, Unit, Vdw,
};

fn quantity(v: &str, u: &str) -> Quantity {
    Quantity { value: v.to_string(), unit: Unit::Unit(u.to_string()) }
}

fn bond(id: &str, smirks: &str) -> Bond {
    Bond {
        smirks: smirks.to_string(),
        k: quantity("430.2", "kilocalorie_per_mole * angstrom ** -2"),
        id: id.to_string(),
        length: quantity("1.5", "angstrom"),
        parameterize: None,
    }
}

fn angle(id: &str, smirks: &str) -> Angle {
    Angle {
        smirks: smirks.to_string(),
        id: id.to_string(),
        k: quantity("100.0", "kilocalorie_per_mole * radian ** -2"),
        angle: quantity("109.5", "degree"),
        parameterize: None,
    }
}

fn force_field(bonds: Vec<Bond>, angles: Vec<Angle>) -> ForceField {
    ForceField {
        version: "0.3".to_string(),
        aromaticity_model: "OEAroModel_MDL".to_string(),
        author: "tests".to_string(),
        date: "today".to_string(),
        constraints: Constraints { version: "0.3".to_string(), constraints: vec![] },
        bonds: Bonds {
            version: "0.3".to_string(),
            potential: "harmonic".to_string(),
            fractional_bondorder_method: "AM1-Wiberg".to_string(),
            fractional_bondorder_interpolation: "linear".to_string(),
            bonds,
        },
        angles: Angles { version: "0.3".to_string(), potential: "harmonic".to_string(), angles },
        proper_torsions: ProperTorsions {
            version: "0.3".to_string(),
            potential: "k*(1+cos(periodicity*theta-phase))".to_string(),
            default_idivf: "auto".to_string(),
            fractional_bondorder_method: "AM1-Wiberg".to_string(),
            fractional_bondorder_interpolation: "linear".to_string(),
            proper_torsions: vec![],
        },
        improper_torsions: ImproperTorsions {
            version: "0.3".to_string(),
            potential: "k*(1+cos(periodicity*theta-phase))".to_string(),
            default_idivf: "auto".to_string(),
            improper_torsions: vec![],
        },
        vdw: Vdw {
            version: "0.3".to_string(),
            potential: "Lennard-Jones-12-6".to_string(),
            combining_rules: "Lorentz-Berthelot".to_string(),
            scale12: "0.0".to_string(),
            scale13: "0.0".to_string(),
            scale14: "0.5".to_string(),
            scale15: "1.0".to_string(),
            cutoff: "9.0 * angstrom".to_string(),
            switch_width: "1.0 * angstrom".to_string(),
            method: "cutoff".to_string(),
            atoms: vec![],
        },
        electrostatics: Electrostatics {
            version: "0.3".to_string(),
            scale12: "0.0".to_string(),
            scale13: "0.0".to_string(),
            scale14: "0.8333333333".to_string(),
            scale15: "1.0".to_string(),
            cutoff: "9.0 * angstrom".to_string(),
            switch_width: "0.0 * angstrom".to_string(),
            method: Some("PME".to_string()),
        },
        library_charges: LibraryCharges { version: "0.3".to_string(), library_charges: vec![] },
        toolkit_am1_bcc: ToolkitAM1BCC { version: "0.3".to_string() },
    }
}

#[test]
fn status_complete_is_complete() {
    assert!(Status::Complete.is_complete());
    assert!(!Status::Error.is_complete());
}

#[test]
fn collection_type_from_str_round_trips() {
    assert!(matches!(
        CollectionType::from_str("TorsionDrive"),
        Ok(CollectionType::TorsionDrive)
    ));
    assert!(matches!(
        CollectionType::from_str("Optimization"),
        Ok(CollectionType::Optimization)
    ));
    assert!(matches!(CollectionType::from_str("SinglePoint"), Ok(CollectionType::SinglePoint)));
    let err = CollectionType::from_str("Basic").unwrap_err();
    assert_eq!(err, "unmatched CollectionType: `Basic`");
}

#[test]
fn collection_body_names_the_data_set() {
    let body = CollectionGetBody::new(
        CollectionType::TorsionDrive,
        "OpenFF multiplicity correction torsion drive data v1.1".to_string(),
    );
    assert_eq!(body.data.collection, "torsiondrivedataset");
    assert_eq!(body.data.name, "OpenFF multiplicity correction torsion drive data v1.1");
    assert!(body.meta.includes.is_none());
    assert!(body.meta.exclude.is_none());
}

#[test]
fn torsion_drive_result_accessors() {
    let result = TorsionDriveResult {
        name: "c1ccccc1".to_string(),
        attributes: Attributes {
            canonical_isomeric_explicit_hydrogen_mapped_smiles: "[cH:1]1[cH:2]...".to_string(),
            inchi_key: "UHOVQNZJYSORNB-UHFFFAOYSA-N".to_string(),
        },
        object_map: vec![("default".to_string(), "104321688".to_string())],
    };
    assert_eq!(result.record_id(), "104321688");
    assert_eq!(result.cmiles(), "[cH:1]1[cH:2]...");
    assert_eq!(result.inchi_key(), "UHOVQNZJYSORNB-UHFFFAOYSA-N");
}

#[test]
fn procedure_body_asks_for_complete_records() {
    let ids = vec!["1".to_string(), "2".to_string()];
    let body = ProcedureGetBody::new(ids.clone());
    assert_eq!(body.data.id, ids);
    assert!(body.data.status.is_complete());
    assert!(body.meta.limit.is_none());
    assert_eq!(body.meta.skip, 0);
}

#[test]
fn molecule_body_holds_the_ids() {
    let ids = vec!["7".to_string()];
    let body = MoleculeGetBody::new(ids.clone());
    assert_eq!(body.data.id, ids);
    assert!(body.data.molecule_hash.is_none());
    assert!(body.data.molecular_formula.is_none());
}

#[test]
fn id_chunks_split_and_flatten_back() {
    let ids: Vec<String> = (0..5).map(|i| i.to_string()).collect();
    let chunks = id_chunks(&ids, 2);
    assert_eq!(chunks.len(), 3);
    assert_eq!(chunks[0], vec!["0".to_string(), "1".to_string()]);
    assert_eq!(chunks[1], vec!["2".to_string(), "3".to_string()]);
    assert_eq!(chunks[2], vec!["4".to_string()]);
    let flat: Vec<String> = chunks.into_iter().flatten().collect();
    assert_eq!(flat, ids);
}

#[test]
fn id_chunks_of_exact_multiple() {
    let ids: Vec<String> = (0..4).map(|i| i.to_string()).collect();
    let chunks = id_chunks(&ids, 2);
    assert_eq!(chunks.len(), 2);
    assert_eq!(chunks[0].len(), 2);
    assert_eq!(chunks[1].len(), 2);
}

#[test]
fn quantity_text_splits_into_value_and_unit() {
    let q = Quantity::from_text(
        "430.25933261181706 * kilocalorie_per_mole * angstrom ** -2",
    )
    .expect("text holds a quantity");
    assert_eq!(q.value, "430.25933261181706");
    let Unit::Unit(u) = q.unit;
    assert_eq!(u, "*kilocalorie_per_mole*angstrom**-2");
    let bare = Quantity::from_text("1.5").unwrap();
    assert_eq!(bare.value, "1.5");
    let Unit::Unit(bare_unit) = bare.unit;
    assert_eq!(bare_unit, "");
    assert!(Quantity::from_text("   ").is_none());
    assert!(Quantity::from_text("").is_none());
}

#[test]
fn grid_ids_parse_to_their_integers() {
    assert_eq!(parse_grid_id("[-120]"), Some(-120));
    assert_eq!(parse_grid_id("[0]"), Some(0));
    assert_eq!(parse_grid_id("[15]"), Some(15));
    assert_eq!(parse_grid_id("165"), Some(165));
    assert_eq!(parse_grid_id("[[7]]"), Some(7));
    assert_eq!(parse_grid_id("[]"), None);
    assert_eq!(parse_grid_id("[-]"), None);
    assert_eq!(parse_grid_id("[12a]"), None);
    assert_eq!(parse_grid_id("[--5]"), None);
    assert_eq!(parse_grid_id("[99999999999999999999999999]"), None);
    assert_eq!(parse_grid_id(&format!("[{}]", isize::MAX)), Some(isize::MAX));
    assert_eq!(parse_grid_id(&format!("[{}]", isize::MIN)), Some(isize::MIN));
}

fn entry(record_id: &str) -> Entry {
    Entry {
        typ: "torsion".to_string(),
        record_id: record_id.to_string(),
        cmiles: "CC".to_string(),
        inchi_key: "KEY".to_string(),
    }
}

fn collection(groups: Vec<(&str, Vec<Entry>)>) -> ResultCollection {
    ResultCollection {
        entries: groups.into_iter().map(|(k, v)| (k.to_string(), v)).collect(),
        provenance: Provenance { applied_filters: Filters::new() },
        typ: "TorsionDriveResultCollection".to_string(),
    }
}

#[test]
fn result_collection_len_and_empty() {
    let c = collection(vec![
        ("https://a", vec![entry("1"), entry("2")]),
        ("https://b", vec![entry("3")]),
    ]);
    assert_eq!(c.len(), 3);
    assert!(!c.is_empty());
    let empty = collection(vec![("https://a", vec![])]);
    assert_eq!(empty.len(), 0);
    assert!(empty.is_empty());
}

#[test]
fn result_collection_single_group_entries() {
    let c = collection(vec![("https://a", vec![entry("1")])]);
    let es = c.entries().expect("one group");
    assert_eq!(es.len(), 1);
    assert_eq!(es[0].record_id, "1");
    let two = collection(vec![("https://a", vec![]), ("https://b", vec![])]);
    assert!(two.entries().is_none());
}

#[test]
fn result_collection_into_entries_flattens_in_order() {
    let c = collection(vec![
        ("https://a", vec![entry("1"), entry("2")]),
        ("https://b", vec![entry("3")]),
    ]);
    let flat = c.into_entries();
    let ids: Vec<&str> = flat.iter().map(|e| e.record_id.as_str()).collect();
    assert_eq!(ids, vec!["1", "2", "3"]);
}

#[test]
fn unknown_handler_tag_is_a_configuration_error() {
    let ff = force_field(vec![bond("b1", "[#6:1]-[#6:2]")], vec![]);
    let err = ff.get_parameter_handler(&"Librarycharges".to_string()).unwrap_err();
    assert!(matches!(err, ConfigurationError::UnknownParameterType { tag } if tag == "Librarycharges"));
}

#[test]
fn handlers_carry_the_sections_in_order() {
    let ff = force_field(
        vec![bond("b1", "[#6:1]-[#6:2]"), bond("b2", "[#6:1]-[#8:2]")],
        vec![angle("a1", "[*:1]~[#6:2]~[*:3]")],
    );
    let bonds = ff.get_parameter_handler(&"Bonds".to_string()).unwrap();
    assert_eq!(bonds.inner.len(), 2);
    assert_eq!(bonds.inner[0].id(), "b1");
    assert_eq!(bonds.inner[1].id(), "b2");
    assert!(bonds.symmetric_tuples);
    let propers = ff.get_parameter_handler(&"ProperTorsions".to_string()).unwrap();
    assert_eq!(propers.inner.len(), 0);
    assert!(!propers.symmetric_tuples);
    let all = ff.parameter_handlers().unwrap();
    let tags: Vec<&str> = all.iter().map(|(t, _)| t.as_str()).collect();
    assert_eq!(tags, vec!["Bonds", "Angles", "ProperTorsions", "ImproperTorsions"]);
}

#[test]
fn duplicate_section_ids_refuse_a_handler() {
    let ff = force_field(vec![bond("b1", "x"), bond("b1", "y")], vec![]);
    let err = ff.get_parameter_handler(&"Bonds".to_string()).unwrap_err();
    assert!(matches!(err, ConfigurationError::DuplicateParameterId { .. }));
}

#[test]
fn force_field_labels_a_topology() {
    let water = Molecule {
        name: "water".to_string(),
        atoms: vec![
            Atom::new(8, 0, false, None, Stereochemistry::Unspecified),
            Atom::new(1, 0, false, None, Stereochemistry::Unspecified),
            Atom::new(1, 0, false, None, Stereochemistry::Unspecified),
        ],
        bonds: vec![
            MolBond {
                atom1_index: 0,
                atom2_index: 1,
                bond_order: 1,
                is_aromatic: false,
                stereochemistry: Stereochemistry::Unspecified,
            },
            MolBond {
                atom1_index: 0,
                atom2_index: 2,
                bond_order: 1,
                is_aromatic: false,
                stereochemistry: Stereochemistry::Unspecified,
            },
        ],
    };
    let top = Topology::from_molecules(vec![water.clone(), water]);
    let ff = force_field(vec![bond("b1", "[#8:1]-[#1:2]")], vec![]);
    let matcher = TableMatcher::new(vec![(
        "[#8:1]-[#1:2]".to_string(),
        vec![vec![0, 1], vec![0, 2]],
    )]);
    let labels = ff.label_molecules(&top, &matcher).unwrap();
    assert_eq!(labels.len(), 2);
    for (j, per_mol) in labels.iter().enumerate() {
        assert_eq!(per_mol.len(), 4);
        assert_eq!(per_mol[0].0, "Bonds");
        let offset = 3 * j;
        let ids: Vec<_> = per_mol[0]
            .1
            .iter()
            .map(|(t, id)| (t.clone(), id.as_str()))
            .collect();
        assert_eq!(
            ids,
            vec![
                (vec![offset, offset + 1], "b1"),
                (vec![offset, offset + 2], "b1"),
            ]
        );
        // the torsion sections carry no parameters and assign nothing
        assert!(per_mol[2].1.is_empty());
        assert!(per_mol[3].1.is_empty());
    }
}

#[test]
fn parameter_term_values_by_key() {
    let b = bond("b1", "[#6:1]-[#6:2]");
    let k = b.as_hash(&"k".to_string()).expect("k is stored");
    assert_eq!(k.value, "430.2");
    let length = b.as_hash(&"length".to_string()).expect("length is stored");
    assert_eq!(length.value, "1.5");
    assert!(b.as_hash(&"angle".to_string()).is_none());
    let a = angle("a1", "[*:1]~[#6:2]~[*:3]");
    assert_eq!(a.as_hash(&"angle".to_string()).unwrap().value, "109.5");
    assert_eq!(a.as_hash(&"k".to_string()).unwrap().value, "100.0");
}

#[test]
fn proper_torsion_term_values_by_key() {
    let p = Proper {
        smirks: "[*:1]~[#6:2]-[#6:3]~[*:4]".to_string(),
        id: "t1".to_string(),
        periodicity1: "3".to_string(),
        phase1: "0.0 * degree".to_string(),
        k1: quantity("0.15", "kilocalorie_per_mole"),
        idivf1: "1.0".to_string(),
        periodicity2: None,
        phase2: None,
        k2: None,
        idivf2: None,
        periodicity3: None,
        phase3: None,
        k3: None,
        idivf3: None,
        k4: None,
        k5: None,
        k6: None,
        parameterize: None,
    };
    assert_eq!(p.as_hash(&"k1".to_string()).unwrap().value, "0.15");
    assert!(p.as_hash(&"k2".to_string()).is_none());
    assert!(p.as_hash(&"k6".to_string()).is_none());
    // a key outside k1..k6 names no term at all
    assert!(p.as_hash(&"length".to_string()).is_none());
    assert!(p.as_hash(&"k7".to_string()).is_none());
}

#[test]
fn labeling_succeeds_exactly_when_section_ids_are_unique() {
    let water = Molecule {
        name: "water".to_string(),
        atoms: vec![
            Atom::new(8, 0, false, None, Stereochemistry::Unspecified),
            Atom::new(1, 0, false, None, Stereochemistry::Unspecified),
            Atom::new(1, 0, false, None, Stereochemistry::Unspecified),
        ],
        bonds: vec![],
    };
    let top = Topology::from_molecules(vec![water]);
    let matcher = TableMatcher::new(vec![]);
    let clean = force_field(vec![bond("b1", "x"), bond("b2", "y")], vec![]);
    assert!(clean.label_molecules(&top, &matcher).is_ok());
    assert!(clean.parameter_handlers().is_ok());
    let tainted = force_field(vec![bond("b1", "x"), bond("b1", "y")], vec![]);
    assert!(matches!(
        tainted.label_molecules(&top, &matcher),
        Err(ConfigurationError::DuplicateParameterId { .. })
    ));
    assert!(matches!(
        tainted.parameter_handlers(),
        Err(ConfigurationError::DuplicateParameterId { .. })
    ));
}

#[test]
fn labeling_reports_bond_coverage_gaps_alongside() {
    // ethanol with explicit hydrogens: C C O H H H H H H
    let mut atoms = vec![
        Atom::new(6, 0, false, None, Stereochemistry::Unspecified),
        Atom::new(6, 0, false, None, Stereochemistry::Unspecified),
        Atom::new(8, 0, false, None, Stereochemistry::Unspecified),
    ];
    for _ in 0..6 {
        atoms.push(Atom::new(1, 0, false, None, Stereochemistry::Unspecified));
    }
    let bonds = [(0, 1), (1, 2), (0, 3), (0, 4), (0, 5), (1, 6), (1, 7), (2, 8)]
        .iter()
        .map(|&(a, b)| MolBond {
            atom1_index: a,
            atom2_index: b,
            bond_order: 1,
            is_aromatic: false,
            stereochemistry: Stereochemistry::Unspecified,
        })
        .collect();
    let ethanol = Molecule { name: "ethanol".to_string(), atoms, bonds };
    let top = Topology::from_molecules(vec![ethanol.clone(), ethanol]);
    let ff = force_field(vec![bond("b1", "C-C"), bond("b2", "C-O")], vec![]);
    let matcher = TableMatcher::new(vec![
        ("C-C".to_string(), vec![vec![0, 1]]),
        ("C-O".to_string(), vec![vec![1, 2]]),
    ]);
    let (labels, gaps) = ff.label_molecules_with_bond_coverage(&top, &matcher).unwrap();
    // the partial mapping is returned, and the uncovered C-H and O-H bonds
    // come back alongside it, per instance in global indices
    assert_eq!(labels.len(), 2);
    assert_eq!(gaps.len(), 2);
    assert_eq!(gaps[0], vec![(0, 3), (0, 4), (0, 5), (1, 6), (1, 7), (2, 8)]);
    assert_eq!(gaps[1], vec![(9, 12), (9, 13), (9, 14), (10, 15), (10, 16), (11, 17)]);
    let covered: Vec<_> = labels[1][0].1.iter().map(|(t, id)| (t.clone(), id.as_str())).collect();
    assert_eq!(covered, vec![(vec![9, 10], "b1"), (vec![10, 11], "b2")]);
}
