//! Molecule queries: asking the archive for molecule records by id.

use vstd::prelude::*;

use super::Body;

verus! {

/// Paging switches of a molecule query.
#[derive(Clone, Copy, Debug)]
pub struct QueryFilter {
    pub limit: Option<usize>,
    pub skip: usize,
}

/// The ids and optional filters of a molecule query.
#[derive(Clone, Debug)]
pub struct Data {
    pub id: Vec<String>,
    pub molecule_hash: Option<String>,
    pub molecular_formula: Option<String>,
}

/// The body of a molecule query.
#[derive(Clone, Debug)]
pub struct MoleculeGetBody {
    pub meta: QueryFilter,
    pub data: Data,
}

impl Body for MoleculeGetBody {
    open spec fn spec_ids(&self) -> Seq<Seq<char>> {
        self.data.id@.map_values(|s: String| s@)
    }

    fn new(id: Vec<String>) -> (r: Self) {
        Self {
            meta: QueryFilter { limit: None, skip: 0 },
            data: Data { id, molecule_hash: None, molecular_formula: None },
        }
    }
}

/// Identifying strings of an archived molecule record.
#[derive(Clone, Debug)]
pub struct Identifiers {
    pub molecule_hash: String,
    pub molecular_formula: String,
}

} // verus!
