//! Result collections: what a stored query against the archive holds.

use vstd::prelude::*;

verus! {

/// One entry of a result collection.
#[derive(Clone, Debug)]
pub struct Entry {
    pub typ: String,
    pub record_id: String,
    pub cmiles: String,
    pub inchi_key: String,
}

/// A filter that was applied while assembling a collection; numeric filter
/// settings are kept as the verbatim text of the file.
#[derive(Clone, Debug)]
pub enum Filter {
    HydrogenBond { method: String },
    RecordStatus { status: String },
    Connectivity { tolerance: String },
    UnperceivableStereo { toolkits: Vec<String> },
    Element { allowed_elements: Vec<String> },
    /// Catch-all for filters this model does not distinguish.
    Misc(String),
}

/// The filters applied to a collection, in application order.
#[derive(Clone, Debug)]
pub struct Filters(pub Vec<Filter>);

impl Filters {
    pub fn new() -> (r: Self)
        ensures
            r.0@.len() == 0,
    {
        Self(Vec::new())
    }
}

/// How a collection came to be: the filters applied to it.
#[derive(Clone, Debug)]
pub struct Provenance {
    pub applied_filters: Filters,
}

/// A stored result collection: entries grouped by the address they were
/// fetched from, with provenance.
#[derive(Clone, Debug)]
pub struct ResultCollection {
    pub entries: Vec<(String, Vec<Entry>)>,
    pub provenance: Provenance,
    pub typ: String,
}

/// Total number of entries across the first `k` groups.
pub open spec fn spec_total_entries(groups: Seq<(String, Vec<Entry>)>, k: int) -> int
    decreases k,
{
    if k <= 0 {
        0
    } else {
        spec_total_entries(groups, k - 1) + groups[k - 1].1@.len()
    }
}

proof fn lemma_total_entries_zero(groups: Seq<(String, Vec<Entry>)>, k: int)
    requires
        0 <= k <= groups.len(),
    ensures
        (spec_total_entries(groups, k) == 0) <==> (forall|l: int|
            0 <= l < k ==> (#[trigger] groups[l]).1@.len() == 0),
        spec_total_entries(groups, k) >= 0,
    decreases k,
{
    if k > 0 {
        lemma_total_entries_zero(groups, k - 1);
    }
}

/// The entries of the first `k` groups, flattened in order.
pub open spec fn spec_flat_entries(groups: Seq<(String, Vec<Entry>)>, k: int) -> Seq<Entry>
    decreases k,
{
    if k <= 0 {
        Seq::empty()
    } else {
        spec_flat_entries(groups, k - 1) + groups[k - 1].1@
    }
}

impl ResultCollection {
    /// In the common case of a single group, its entries; with several
    /// groups, nothing.
    pub fn entries(&self) -> (r: Option<&Vec<Entry>>)
        ensures
            match r {
                Some(v) => self.entries@.len() == 1 && v == &self.entries@[0].1,
                None => self.entries@.len() != 1,
            },
    {
        if self.entries.len() == 1 {
            return Some(&self.entries[0].1);
        }
        None
    }

    /// All entries of the collection, flattened in group order.
    pub fn into_entries(self) -> (r: Vec<Entry>)
        ensures
            r@ == spec_flat_entries(self.entries@, self.entries@.len() as int),
    {
        let ghost groups = self.entries@;
        let mut r: Vec<Entry> = Vec::new();
        let mut remaining = self.entries;
        let ghost mut processed: int = 0int;
        proof {
            assert(r@ =~= spec_flat_entries(groups, 0));
            assert(remaining@ =~= groups.subrange(0, groups.len() as int));
        }
        while remaining.len() > 0
            invariant
                0 <= processed <= groups.len(),
                remaining@ == groups.subrange(processed, groups.len() as int),
                r@ == spec_flat_entries(groups, processed),
            decreases remaining@.len(),
        {
            let ghost before = r@;
            let (_key, mut v) = remaining.remove(0);
            let ghost vfull = v@;
            proof {
                assert(groups.subrange(processed, groups.len() as int)[0] == groups[processed]);
                assert(vfull == groups[processed].1@);
                assert(remaining@ =~= groups.subrange(processed + 1, groups.len() as int));
            }
            while v.len() > 0
                invariant
                    0 <= processed < groups.len(),
                    vfull == groups[processed].1@,
                    v@.len() <= vfull.len(),
                    v@ == vfull.subrange(vfull.len() - v@.len(), vfull.len() as int),
                    r@ == before + vfull.take(vfull.len() - v@.len()),
                decreases v@.len(),
            {
                let ghost e = vfull.len() - v@.len();
                let x = v.remove(0);
                proof {
                    assert(x == vfull[e]);
                }
                r.push(x);
                proof {
                    assert(vfull.take(e + 1) =~= vfull.take(e).push(vfull[e]));
                    assert(r@ =~= before + vfull.take(e + 1));
                    assert(v@ =~= vfull.subrange(vfull.len() - v@.len(), vfull.len() as int));
                }
            }
            proof {
                assert(vfull.take(vfull.len() as int) =~= vfull);
                assert(r@ =~= spec_flat_entries(groups, processed + 1));
                processed = processed + 1;
            }
        }
        proof {
            assert(processed == groups.len());
        }
        r
    }

    /// The total number of entries across all groups.
    pub fn len(&self) -> (r: usize)
        requires
            spec_total_entries(self.entries@, self.entries@.len() as int) <= usize::MAX,
        ensures
            r == spec_total_entries(self.entries@, self.entries@.len() as int),
    {
        let ghost groups = self.entries@;
        let mut sum: usize = 0;
        let mut g: usize = 0;
        while g < self.entries.len()
            invariant
                groups == self.entries@,
                g <= groups.len(),
                sum == spec_total_entries(groups, g as int),
                spec_total_entries(groups, groups.len() as int) <= usize::MAX,
            decreases groups.len() - g,
        {
            proof {
                lemma_total_entries_monotonic(groups, g + 1, groups.len() as int);
            }
            sum = sum + self.entries[g].1.len();
            g = g + 1;
        }
        sum
    }

    /// Whether the collection holds no entries at all.
    pub fn is_empty(&self) -> (r: bool)
        ensures
            r == (spec_total_entries(self.entries@, self.entries@.len() as int) == 0),
    {
        let ghost groups = self.entries@;
        proof {
            lemma_total_entries_zero(groups, groups.len() as int);
        }
        let mut g: usize = 0;
        while g < self.entries.len()
            invariant
                groups == self.entries@,
                g <= groups.len(),
                forall|l: int| 0 <= l < g ==> (#[trigger] groups[l]).1@.len() == 0,
            decreases groups.len() - g,
        {
            if self.entries[g].1.len() > 0 {
                proof {
                    lemma_total_entries_zero(groups, groups.len() as int);
                }
                return false;
            }
            g = g + 1;
        }
        true
    }
}

proof fn lemma_total_entries_monotonic(groups: Seq<(String, Vec<Entry>)>, a: int, b: int)
    requires
        0 <= a <= b,
    ensures
        spec_total_entries(groups, a) <= spec_total_entries(groups, b),
    decreases b - a,
{
    if a < b {
        lemma_total_entries_monotonic(groups, a, b - 1);
    }
}

} // verus!
