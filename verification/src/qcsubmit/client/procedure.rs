//! Procedure queries: asking the archive for computed procedures by id.

use vstd::prelude::*;

use super::{Body, Status};

verus! {

/// Paging and filter switches of a procedure query.
#[derive(Clone, Copy, Debug)]
pub struct QueryFilter {
    pub includes: Option<usize>,
    pub exclude: Option<usize>,
    pub limit: Option<usize>,
    pub skip: usize,
}

/// The ids and status filter of a procedure query.
#[derive(Clone, Debug)]
pub struct Data {
    pub id: Vec<String>,
    pub task_id: Option<usize>,
    pub procedure: Option<usize>,
    pub program: Option<usize>,
    pub hash_index: Option<usize>,
    pub status: Status,
}

/// The body of a procedure query: it asks for completed records.
#[derive(Clone, Debug)]
pub struct ProcedureGetBody {
    pub meta: QueryFilter,
    pub data: Data,
}

impl Body for ProcedureGetBody {
    open spec fn spec_ids(&self) -> Seq<Seq<char>> {
        self.data.id@.map_values(|s: String| s@)
    }

    fn new(id: Vec<String>) -> (r: Self) {
        Self {
            meta: QueryFilter { includes: None, exclude: None, limit: None, skip: 0 },
            data: Data {
                id,
                task_id: None,
                procedure: None,
                program: None,
                hash_index: None,
                status: Status::Complete,
            },
        }
    }
}

} // verus!
