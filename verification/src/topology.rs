//! Topologies: ordered collections of molecule instances with a flat global
//! atom numbering, and their partition into classes of chemically identical
//! instances.
//!
//! The global index of an atom is the sum of the atom counts of all preceding
//! molecules plus its local position, so global indices are contiguous and
//! strictly increasing across molecule boundaries.
//!
//! [`Topology::identify_chemically_identical_molecules`] assigns to every
//! molecule instance a representative: instances are scanned in input order,
//! each one is matched against the earlier representatives in order, and the
//! first isomorphic representative claims it — ties are broken by "first in
//! input order".  An instance matching no earlier representative becomes a
//! representative itself, with the identity atom map; this is a normal
//! outcome, not an error.  [`Topology::identical_molecule_groups`] arranges
//! the same assignment by group.

pub mod molecule;

use vstd::prelude::*;

use crate::matcher::{matches_valid, tuple_views, valid_tuple, PatternMatcher};
use crate::topology::molecule::{
    canonical_iso, copy_indices, identity_map, is_isomorphism, isomorphic,
    lemma_identity_isomorphism, lemma_identity_minimal, lemma_isomorphic_symmetric,
    lemma_isomorphic_transitive, Molecule,
};

verus! {

/// An atom tuple expressed in global topology indices.
#[derive(Clone, Debug)]
pub struct ChemicalEnvironment {
    pub topology_atom_indices: Vec<usize>,
}

impl Default for ChemicalEnvironment {
    fn default() -> (r: Self)
        ensures
            r.topology_atom_indices@.len() == 0,
    {
        Self { topology_atom_indices: Vec::new() }
    }
}

/// One match of a pattern inside a topology: the matched atom tuple as
/// positions of the reference (representative) molecule, and the same tuple
/// as global indices of the instance in which it was found.
#[derive(Clone, Debug)]
pub struct ChemicalEnvironmentMatch {
    pub reference_atom_indices: Vec<usize>,
    pub topology_atom_indices: Vec<usize>,
}

impl ChemicalEnvironmentMatch {
    pub fn new(reference_atom_indices: Vec<usize>, topology_atom_indices: Vec<usize>) -> (r: Self)
        ensures
            r.reference_atom_indices == reference_atom_indices,
            r.topology_atom_indices == topology_atom_indices,
    {
        Self { reference_atom_indices, topology_atom_indices }
    }
}

/// An ordered sequence of molecule instances.
#[derive(Clone, Debug)]
pub struct Topology {
    pub molecules: Vec<Molecule>,
}

/// Sum of the atom counts of the first `k` molecules: the global index of the
/// first atom of molecule `k`.
pub open spec fn spec_atom_offset(mols: Seq<Molecule>, k: int) -> int
    decreases k,
{
    if k <= 0 {
        0
    } else {
        spec_atom_offset(mols, k - 1) + mols[k - 1].atoms@.len()
    }
}

pub proof fn lemma_atom_offset_monotonic(mols: Seq<Molecule>, a: int, b: int)
    requires
        0 <= a <= b,
    ensures
        spec_atom_offset(mols, a) <= spec_atom_offset(mols, b),
    decreases b - a,
{
    if a < b {
        lemma_atom_offset_monotonic(mols, a, b - 1);
    }
}

/// In a well-formed topology every single molecule's atom count is
/// addressable, since the total is.
pub proof fn lemma_molecule_len_bound(top: Topology, j: int)
    requires
        top.wf(),
        0 <= j < top.molecules@.len(),
    ensures
        top.molecules@[j].atoms@.len() <= usize::MAX,
{
    let mols = top.molecules@;
    lemma_atom_offset_monotonic(mols, 0, j);
    lemma_atom_offset_monotonic(mols, j + 1, mols.len() as int);
    assert(spec_atom_offset(mols, j + 1) == spec_atom_offset(mols, j) + mols[j].atoms@.len());
}

impl Topology {
    /// Every molecule is well formed and the total atom count is addressable.
    pub open spec fn wf(self) -> bool {
        &&& forall|i: int| 0 <= i < self.molecules@.len() ==> (#[trigger] self.molecules@[i]).wf()
        &&& spec_atom_offset(self.molecules@, self.molecules@.len() as int) <= usize::MAX
    }

    pub fn from_molecules(molecules: Vec<Molecule>) -> (r: Self)
        ensures
            r.molecules == molecules,
    {
        Self { molecules }
    }

    /// Decide well-formedness: every molecule is well formed and the total
    /// atom count is addressable.  A caller outside the verified world checks
    /// this before labeling.
    pub fn check_wf(&self) -> (r: bool)
        ensures
            r == self.wf(),
    {
        let n = self.molecules.len();
        let mut sum: usize = 0;
        let mut i: usize = 0;
        while i < n
            invariant
                n == self.molecules@.len(),
                i <= n,
                forall|x: int| 0 <= x < i ==> (#[trigger] self.molecules@[x]).wf(),
                sum == spec_atom_offset(self.molecules@, i as int),
            decreases n - i,
        {
            if !self.molecules[i].check_wf() {
                return false;
            }
            let m_len = self.molecules[i].atoms.len();
            if m_len > usize::MAX - sum {
                proof {
                    lemma_atom_offset_monotonic(self.molecules@, i + 1, n as int);
                }
                return false;
            }
            sum = sum + m_len;
            i = i + 1;
        }
        true
    }

    /// Global index of the first atom of molecule `molecule_index`.
    pub fn atom_offset(&self, molecule_index: usize) -> (r: usize)
        requires
            self.wf(),
            molecule_index <= self.molecules@.len(),
        ensures
            r == spec_atom_offset(self.molecules@, molecule_index as int),
    {
        let mut sum: usize = 0;
        let mut i: usize = 0;
        while i < molecule_index
            invariant
                self.wf(),
                i <= molecule_index <= self.molecules@.len(),
                sum == spec_atom_offset(self.molecules@, i as int),
            decreases molecule_index - i,
        {
            proof {
                lemma_atom_offset_monotonic(
                    self.molecules@,
                    i + 1,
                    self.molecules@.len() as int,
                );
            }
            sum = sum + self.molecules[i].atoms.len();
            i = i + 1;
        }
        sum
    }

    /// Global topology index of the atom at `atom_position` within molecule
    /// `molecule_index`.
    pub fn atom_index(&self, molecule_index: usize, atom_position: usize) -> (r: usize)
        requires
            self.wf(),
            molecule_index < self.molecules@.len(),
            atom_position < self.molecules@[molecule_index as int].atoms@.len(),
        ensures
            r == spec_atom_offset(self.molecules@, molecule_index as int) + atom_position,
    {
        proof {
            lemma_atom_offset_monotonic(
                self.molecules@,
                molecule_index + 1,
                self.molecules@.len() as int,
            );
        }
        self.atom_offset(molecule_index) + atom_position
    }
}

/// Global atom indices never collide: distinct (molecule, position) pairs get
/// distinct global indices, and indices are strictly increasing across
/// molecule boundaries.
pub proof fn lemma_atom_index_injective(
    mols: Seq<Molecule>,
    m1: int,
    p1: int,
    m2: int,
    p2: int,
)
    requires
        0 <= m1 <= m2 < mols.len(),
        0 <= p1 < mols[m1].atoms@.len(),
        0 <= p2 < mols[m2].atoms@.len(),
        (m1, p1) != (m2, p2),
    ensures
        spec_atom_offset(mols, m1) + p1 != spec_atom_offset(mols, m2) + p2,
    decreases m2 - m1,
{
    if m1 == m2 {
    } else {
        lemma_atom_offset_monotonic(mols, m1 + 1, m2);
        assert(spec_atom_offset(mols, m1 + 1) == spec_atom_offset(mols, m1)
            + mols[m1].atoms@.len());
    }
}

impl Molecule {
    /// Decide well-formedness: every bond joins two distinct valid atom
    /// positions and no two bonds join the same pair.
    pub fn check_wf(&self) -> (r: bool)
        ensures
            r == self.wf(),
    {
        let n = self.atoms.len();
        let mut k: usize = 0;
        while k < self.bonds.len()
            invariant
                n == self.atoms@.len(),
                k <= self.bonds@.len(),
                forall|x: int|
                    0 <= x < k ==> crate::topology::molecule::bond_wf(
                        #[trigger] self.bonds@[x],
                        n as int,
                    ),
                forall|x: int, y: int|
                    0 <= x < y < k ==> !crate::topology::molecule::same_pair(
                        self.bonds@[x],
                        self.bonds@[y],
                    ),
            decreases self.bonds@.len() - k,
        {
            let b = &self.bonds[k];
            if b.atom1_index >= n || b.atom2_index >= n || b.atom1_index == b.atom2_index {
                return false;
            }
            let mut l: usize = 0;
            while l < k
                invariant
                    k < self.bonds@.len(),
                    l <= k,
                    b == &self.bonds@[k as int],
                    forall|x: int|
                        0 <= x < l ==> !crate::topology::molecule::same_pair(
                            #[trigger] self.bonds@[x],
                            self.bonds@[k as int],
                        ),
                decreases k - l,
            {
                let o = &self.bonds[l];
                if (o.atom1_index == b.atom1_index && o.atom2_index == b.atom2_index) || (
                o.atom1_index == b.atom2_index && o.atom2_index == b.atom1_index) {
                    proof {
                        assert(crate::topology::molecule::same_pair(
                            self.bonds@[l as int],
                            self.bonds@[k as int],
                        ));
                    }
                    return false;
                }
                l = l + 1;
            }
            k = k + 1;
        }
        true
    }

    /// A topology holding this molecule as its only instance.
    pub fn to_topology(self) -> (r: Topology)
        ensures
            r.molecules@.len() == 1,
            r.molecules@[0] == self,
    {
        let mut molecules: Vec<Molecule> = Vec::new();
        molecules.push(self);
        Topology::from_molecules(molecules)
    }
}

/// First index `l` in `[i, j)` that is its own representative in `prev` and
/// whose molecule is isomorphic to molecule `j`; `j` itself if there is none.
pub open spec fn scan_rep(mols: Seq<Molecule>, prev: Seq<int>, j: int, i: int) -> int
    decreases j - i,
{
    if i < 0 || i >= j {
        j
    } else if prev[i] == i && isomorphic(mols[i], mols[j]) {
        i
    } else {
        scan_rep(mols, prev, j, i + 1)
    }
}

/// Representatives of the first `j` molecules, assigned in input order: each
/// molecule goes to the first earlier representative isomorphic to it, or
/// becomes a representative itself.
pub open spec fn reps_upto(mols: Seq<Molecule>, j: int) -> Seq<int>
    decreases j,
{
    if j <= 0 {
        Seq::empty()
    } else {
        let prev = reps_upto(mols, j - 1);
        prev.push(scan_rep(mols, prev, j - 1, 0))
    }
}

/// The representative of molecule `j` within `mols`.
pub open spec fn representative_of(mols: Seq<Molecule>, j: int) -> int {
    reps_upto(mols, j + 1)[j]
}

proof fn lemma_reps_len(mols: Seq<Molecule>, j: int)
    requires
        0 <= j,
    ensures
        reps_upto(mols, j).len() == j,
    decreases j,
{
    if j > 0 {
        lemma_reps_len(mols, j - 1);
    }
}

proof fn lemma_reps_prefix(mols: Seq<Molecule>, a: int, b: int)
    requires
        0 <= a <= b,
    ensures
        forall|j: int| 0 <= j < a ==> reps_upto(mols, b)[j] == reps_upto(mols, a)[j],
    decreases b - a,
{
    if a < b {
        lemma_reps_prefix(mols, a, b - 1);
        lemma_reps_len(mols, b - 1);
        assert(forall|j: int|
            0 <= j < b - 1 ==> reps_upto(mols, b)[j] == reps_upto(mols, b - 1)[j]);
    }
}

/// `reps_upto(mols, b)[j]` agrees with `representative_of(mols, j)` for `j < b`.
proof fn lemma_reps_index(mols: Seq<Molecule>, j: int, b: int)
    requires
        0 <= j < b,
    ensures
        reps_upto(mols, b)[j] == representative_of(mols, j),
{
    lemma_reps_prefix(mols, j + 1, b);
}

proof fn lemma_scan_rep_props(mols: Seq<Molecule>, prev: Seq<int>, j: int, i: int)
    requires
        0 <= i <= j,
    ensures
        i <= scan_rep(mols, prev, j, i) <= j,
        scan_rep(mols, prev, j, i) < j ==> {
            let s = scan_rep(mols, prev, j, i);
            prev[s] == s && isomorphic(mols[s], mols[j])
        },
        forall|l: int|
            i <= l < scan_rep(mols, prev, j, i) ==> !((#[trigger] prev[l]) == l && isomorphic(
                mols[l],
                mols[j],
            )),
    decreases j - i,
{
    if i < j && !(prev[i] == i && isomorphic(mols[i], mols[j])) {
        lemma_scan_rep_props(mols, prev, j, i + 1);
    }
}

/// What the representative assignment guarantees: every molecule's
/// representative is the first representative in input order isomorphic to
/// it, representatives are their own representatives, and each molecule is
/// isomorphic to its representative.
pub proof fn lemma_representative_correct(mols: Seq<Molecule>, j: int)
    requires
        0 <= j < mols.len(),
        mols[j].atoms@.len() <= usize::MAX,
    ensures
        0 <= representative_of(mols, j) <= j,
        representative_of(mols, representative_of(mols, j)) == representative_of(mols, j),
        isomorphic(mols[representative_of(mols, j)], mols[j]),
        forall|l: int|
            0 <= l < representative_of(mols, j) ==> !(representative_of(mols, l) == l
                && isomorphic(mols[l], mols[j])),
{
    let prev = reps_upto(mols, j);
    let s = scan_rep(mols, prev, j, 0);
    lemma_reps_len(mols, j);
    lemma_reps_len(mols, j + 1);
    assert(representative_of(mols, j) == s);
    lemma_scan_rep_props(mols, prev, j, 0);
    assert forall|l: int| 0 <= l < j implies (#[trigger] prev[l]) == representative_of(
        mols,
        l,
    ) by {
        lemma_reps_index(mols, l, j);
    }
    if s < j {
        lemma_reps_index(mols, s, j);
    } else {
        let idmap = Seq::new(mols[j].atoms@.len(), |i: int| i as usize);
        assert forall|i: int| 0 <= i < idmap.len() implies (#[trigger] idmap[i]) == i by {
            assert(idmap[i] == i as usize);
        }
        lemma_identity_isomorphism(mols[j], idmap);
        assert(is_isomorphism(mols[j], mols[j], idmap));
    }
    assert forall|l: int| 0 <= l < s implies !(representative_of(mols, l) == l && isomorphic(
        mols[l],
        mols[j],
    )) by {
        assert(prev[l] == representative_of(mols, l));
        assert(!(prev[l] == l && isomorphic(mols[l], mols[j])));
    }
}

proof fn lemma_members_upto_contains(mols: Seq<Molecule>, rep: int, k: int, j: int)
    requires
        0 <= k,
    ensures
        members_upto(mols, rep, k).contains(j) <==> (0 <= j < k && representative_of(mols, j)
            == rep),
    decreases k,
{
    if k > 0 {
        lemma_members_upto_contains(mols, rep, k - 1, j);
        let rest = members_upto(mols, rep, k - 1);
        if representative_of(mols, k - 1) == rep {
            let cur = rest.push(k - 1);
            assert forall|y: int| #[trigger] cur.contains(y) implies rest.contains(y) || y == k
                - 1 by {
                let i = choose|i: int| 0 <= i < cur.len() && cur[i] == y;
                if i < rest.len() {
                    assert(rest[i] == y);
                }
            }
            assert forall|y: int| rest.contains(y) implies #[trigger] cur.contains(y) by {
                let i = choose|i: int| 0 <= i < rest.len() && rest[i] == y;
                assert(cur[i] == y);
            }
            assert(cur[rest.len() as int] == k - 1);
            assert(cur.contains(k - 1));
        }
    }
}

proof fn lemma_members_upto_no_duplicates(mols: Seq<Molecule>, rep: int, k: int)
    requires
        0 <= k,
    ensures
        members_upto(mols, rep, k).no_duplicates(),
    decreases k,
{
    lemma_members_upto_props(mols, rep, k);
    if k > 0 {
        lemma_members_upto_no_duplicates(mols, rep, k - 1);
        lemma_members_upto_props(mols, rep, k - 1);
        let rest = members_upto(mols, rep, k - 1);
        if representative_of(mols, k - 1) == rep {
            let cur = rest.push(k - 1);
            assert forall|x: int, y: int|
                0 <= x < cur.len() && 0 <= y < cur.len() && x != y implies cur[x] != cur[y] by {
                if x < rest.len() && y < rest.len() {
                    assert(rest[x] != rest[y]);
                } else if x < rest.len() {
                    assert(rest[x] < k - 1);
                } else {
                    assert(rest[y] < k - 1);
                }
            }
        }
    }
}

/// The isomorphism groups partition the molecule indices of a topology:
/// every index stands in the member list of its own representative's group,
/// that list repeats no index, and no other group's list holds it.
pub proof fn lemma_groups_partition(mols: Seq<Molecule>, j: int)
    requires
        0 <= j < mols.len(),
    ensures
        members_upto(mols, representative_of(mols, j), mols.len() as int).contains(j),
        members_upto(mols, representative_of(mols, j), mols.len() as int).no_duplicates(),
        forall|r: int|
            r != representative_of(mols, j) ==> !members_upto(
                mols,
                r,
                mols.len() as int,
            ).contains(j),
{
    let rep = representative_of(mols, j);
    lemma_members_upto_contains(mols, rep, mols.len() as int, j);
    lemma_members_upto_no_duplicates(mols, rep, mols.len() as int);
    assert forall|r: int| r != rep implies !members_upto(mols, r, mols.len() as int).contains(
        j,
    ) by {
        lemma_members_upto_contains(mols, r, mols.len() as int, j);
    }
}

/// Graph-isomorphic instances of one topology fall into the same group: the
/// representative assignment respects chemical identity, whichever instance
/// comes first.
pub proof fn lemma_isomorphic_same_representative(top: Topology, j1: int, j2: int)
    requires
        top.wf(),
        0 <= j1 < top.molecules@.len(),
        0 <= j2 < top.molecules@.len(),
        isomorphic(top.molecules@[j1], top.molecules@[j2]),
    ensures
        representative_of(top.molecules@, j1) == representative_of(top.molecules@, j2),
{
    let mols = top.molecules@;
    lemma_molecule_len_bound(top, j1);
    lemma_molecule_len_bound(top, j2);
    lemma_representative_correct(mols, j1);
    lemma_representative_correct(mols, j2);
    let r1 = representative_of(mols, j1);
    let r2 = representative_of(mols, j2);
    lemma_molecule_len_bound(top, r1);
    lemma_molecule_len_bound(top, r2);
    lemma_isomorphic_transitive(mols[r1], mols[j1], mols[j2]);
    lemma_isomorphic_symmetric(mols[j1], mols[j2]);
    lemma_isomorphic_transitive(mols[r2], mols[j2], mols[j1]);
    if r1 < r2 {
        assert(representative_of(mols, r1) == r1);
        assert(isomorphic(mols[r1], mols[j2]));
        assert(false);
    } else if r2 < r1 {
        assert(representative_of(mols, r2) == r2);
        assert(isomorphic(mols[r2], mols[j1]));
        assert(false);
    }
}

impl Topology {
    /// Assign to every molecule instance its representative and the canonical
    /// atom map from representative positions to its own positions.  The
    /// entry for molecule `j` is `(representative_of(j), map)` where `map` is
    /// the identity for a representative and the canonical isomorphism
    /// witness otherwise.
    pub fn identify_chemically_identical_molecules(&self) -> (r: Vec<(usize, Vec<usize>)>)
        requires
            self.wf(),
        ensures
            r@.len() == self.molecules@.len(),
            forall|j: int|
                0 <= j < r@.len() ==> (#[trigger] r@[j]).0 == representative_of(
                    self.molecules@,
                    j,
                ),
            forall|j: int|
                0 <= j < r@.len() ==> (#[trigger] r@[j]).1@ == canonical_iso(
                    self.molecules@[r@[j].0 as int],
                    self.molecules@[j],
                ),
            forall|j: int|
                0 <= j < r@.len() ==> is_isomorphism(
                    self.molecules@[(#[trigger] r@[j]).0 as int],
                    self.molecules@[j],
                    r@[j].1@,
                ),
    {
        let n = self.molecules.len();
        let mut result: Vec<(usize, Vec<usize>)> = Vec::new();
        let mut j: usize = 0;
        while j < n
            invariant
                self.wf(),
                n == self.molecules@.len(),
                j <= n,
                result@.len() == j,
                forall|l: int|
                    0 <= l < j ==> (#[trigger] result@[l]).0 == representative_of(
                        self.molecules@,
                        l,
                    ),
                forall|l: int|
                    0 <= l < j ==> (#[trigger] result@[l]).1@ == canonical_iso(
                        self.molecules@[result@[l].0 as int],
                        self.molecules@[l],
                    ),
                forall|l: int|
                    0 <= l < j ==> is_isomorphism(
                        self.molecules@[(#[trigger] result@[l]).0 as int],
                        self.molecules@[l],
                        result@[l].1@,
                    ),
            decreases n - j,
        {
            match find_representative(&self.molecules, &result, j) {
                Some(entry) => {
                    result.push(entry);
                },
                None => {
                    let id = identity_map(self.molecules[j].atoms.len());
                    proof {
                        lemma_identity_minimal(self.molecules@[j as int], id@);
                        lemma_identity_isomorphism(self.molecules@[j as int], id@);
                    }
                    result.push((j, id));
                },
            }
            j = j + 1;
        }
        result
    }
}

/// Indices among the first `j` molecules that are their own representatives,
/// in ascending order.
pub open spec fn rep_list(mols: Seq<Molecule>, j: int) -> Seq<int>
    decreases j,
{
    if j <= 0 {
        Seq::empty()
    } else {
        let rest = rep_list(mols, j - 1);
        if representative_of(mols, j - 1) == j - 1 {
            rest.push(j - 1)
        } else {
            rest
        }
    }
}

/// Indices among the first `j` molecules whose representative is `rep`, in
/// ascending order.
pub open spec fn members_upto(mols: Seq<Molecule>, rep: int, j: int) -> Seq<int>
    decreases j,
{
    if j <= 0 {
        Seq::empty()
    } else {
        let rest = members_upto(mols, rep, j - 1);
        if representative_of(mols, j - 1) == rep {
            rest.push(j - 1)
        } else {
            rest
        }
    }
}

impl Topology {
    /// The members of each isomorphism class, arranged by group: one entry
    /// per representative, in ascending order, holding every instance of that
    /// class (the representative included) with its canonical atom map from
    /// representative positions to instance positions.  The groups partition
    /// the molecule indices of the topology.
    pub fn identical_molecule_groups(&self) -> (r: Vec<(usize, Vec<(usize, Vec<usize>)>)>)
        requires
            self.wf(),
        ensures
            r@.len() == rep_list(self.molecules@, self.molecules@.len() as int).len(),
            forall|g: int|
                0 <= g < r@.len() ==> (#[trigger] r@[g]).0 == rep_list(
                    self.molecules@,
                    self.molecules@.len() as int,
                )[g],
            forall|g: int|
                0 <= g < r@.len() ==> group_entry_correct(self.molecules@, #[trigger] r@[g]),
    {
        let ghost mols = self.molecules@;
        let n = self.molecules.len();
        let ident = self.identify_chemically_identical_molecules();
        let mut r: Vec<(usize, Vec<(usize, Vec<usize>)>)> = Vec::new();
        let mut i: usize = 0;
        while i < n
            invariant
                self.wf(),
                mols == self.molecules@,
                n == mols.len(),
                i <= n,
                ident@.len() == n,
                forall|j: int|
                    0 <= j < n ==> (#[trigger] ident@[j]).0 == representative_of(mols, j),
                forall|j: int|
                    0 <= j < n ==> (#[trigger] ident@[j]).1@ == canonical_iso(
                        mols[ident@[j].0 as int],
                        mols[j],
                    ),
                forall|j: int|
                    0 <= j < n ==> is_isomorphism(
                        mols[(#[trigger] ident@[j]).0 as int],
                        mols[j],
                        ident@[j].1@,
                    ),
                r@.len() == rep_list(mols, i as int).len(),
                forall|g: int|
                    0 <= g < r@.len() ==> (#[trigger] r@[g]).0 == rep_list(mols, i as int)[g],
                forall|g: int| 0 <= g < r@.len() ==> group_entry_correct(mols, #[trigger] r@[g]),
            decreases n - i,
        {
            if ident[i].0 == i {
                let members = collect_members(&self.molecules, &ident, i);
                r.push((i, members));
                proof {
                    assert(rep_list(mols, i + 1) =~= rep_list(mols, i as int).push(i as int));
                }
            } else {
                proof {
                    assert(rep_list(mols, i + 1) =~= rep_list(mols, i as int));
                }
            }
            i = i + 1;
        }
        r
    }
}

/// The group entry holds, for its representative, exactly the instances whose
/// representative it is, ascending, each with its canonical atom map.
pub open spec fn group_entry_correct(
    mols: Seq<Molecule>,
    entry: (usize, Vec<(usize, Vec<usize>)>),
) -> bool {
    let members = members_upto(mols, entry.0 as int, mols.len() as int);
    &&& entry.1@.len() == members.len()
    &&& forall|m: int| 0 <= m < members.len() ==> (#[trigger] entry.1@[m]).0 == members[m]
    &&& forall|m: int|
        0 <= m < members.len() ==> (#[trigger] entry.1@[m]).1@ == canonical_iso(
            mols[entry.0 as int],
            mols[entry.1@[m].0 as int],
        )
    &&& forall|m: int|
        0 <= m < members.len() ==> is_isomorphism(
            mols[entry.0 as int],
            mols[(#[trigger] entry.1@[m]).0 as int],
            entry.1@[m].1@,
        )
}

/// Collect, ascending, the molecules whose representative is `rep`, with
/// their canonical maps.
fn collect_members(
    molecules: &Vec<Molecule>,
    ident: &Vec<(usize, Vec<usize>)>,
    rep: usize,
) -> (members: Vec<(usize, Vec<usize>)>)
    requires
        ident@.len() == molecules@.len(),
        forall|j: int|
            0 <= j < ident@.len() ==> (#[trigger] ident@[j]).0 == representative_of(
                molecules@,
                j,
            ),
        forall|j: int|
            0 <= j < ident@.len() ==> (#[trigger] ident@[j]).1@ == canonical_iso(
                molecules@[ident@[j].0 as int],
                molecules@[j],
            ),
        forall|j: int|
            0 <= j < ident@.len() ==> is_isomorphism(
                molecules@[(#[trigger] ident@[j]).0 as int],
                molecules@[j],
                ident@[j].1@,
            ),
    ensures
        group_entry_correct(molecules@, (rep, members)),
{
    let ghost mols = molecules@;
    let n = molecules.len();
    let mut members: Vec<(usize, Vec<usize>)> = Vec::new();
    let mut j: usize = 0;
    while j < n
        invariant
            mols == molecules@,
            n == mols.len(),
            j <= n,
            ident@.len() == n,
            forall|l: int| 0 <= l < n ==> (#[trigger] ident@[l]).0 == representative_of(mols, l),
            forall|l: int|
                0 <= l < n ==> (#[trigger] ident@[l]).1@ == canonical_iso(
                    mols[ident@[l].0 as int],
                    mols[l],
                ),
            forall|l: int|
                0 <= l < n ==> is_isomorphism(
                    mols[(#[trigger] ident@[l]).0 as int],
                    mols[l],
                    ident@[l].1@,
                ),
            members@.len() == members_upto(mols, rep as int, j as int).len(),
            forall|m: int|
                0 <= m < members@.len() ==> (#[trigger] members@[m]).0 == members_upto(
                    mols,
                    rep as int,
                    j as int,
                )[m],
            forall|m: int|
                0 <= m < members@.len() ==> (#[trigger] members@[m]).1@ == canonical_iso(
                    mols[rep as int],
                    mols[members@[m].0 as int],
                ),
            forall|m: int|
                0 <= m < members@.len() ==> is_isomorphism(
                    mols[rep as int],
                    mols[(#[trigger] members@[m]).0 as int],
                    members@[m].1@,
                ),
        decreases n - j,
    {
        if ident[j].0 == rep {
            let map = copy_indices(&ident[j].1);
            members.push((j, map));
            proof {
                assert(members_upto(mols, rep as int, j + 1) =~= members_upto(
                    mols,
                    rep as int,
                    j as int,
                ).push(j as int));
            }
        } else {
            proof {
                assert(members_upto(mols, rep as int, j + 1) =~= members_upto(
                    mols,
                    rep as int,
                    j as int,
                ));
            }
        }
        j = j + 1;
    }
    members
}

proof fn lemma_rep_list_props(mols: Seq<Molecule>, j: int)
    requires
        0 <= j,
    ensures
        forall|g: int|
            0 <= g < rep_list(mols, j).len() ==> 0 <= #[trigger] rep_list(mols, j)[g] < j
                && representative_of(mols, rep_list(mols, j)[g]) == rep_list(mols, j)[g],
    decreases j,
{
    if j > 0 {
        lemma_rep_list_props(mols, j - 1);
        let rest = rep_list(mols, j - 1);
        assert forall|g: int| 0 <= g < rep_list(mols, j).len() implies 0 <= #[trigger] rep_list(
            mols,
            j,
        )[g] < j && representative_of(mols, rep_list(mols, j)[g]) == rep_list(mols, j)[g] by {
            if g < rest.len() {
                assert(rep_list(mols, j)[g] == rest[g]);
            }
        }
    }
}

proof fn lemma_members_upto_props(mols: Seq<Molecule>, rep: int, j: int)
    requires
        0 <= j,
    ensures
        forall|m: int|
            0 <= m < members_upto(mols, rep, j).len() ==> 0 <= #[trigger] members_upto(
                mols,
                rep,
                j,
            )[m] < j && representative_of(mols, members_upto(mols, rep, j)[m]) == rep,
    decreases j,
{
    if j > 0 {
        lemma_members_upto_props(mols, rep, j - 1);
        let rest = members_upto(mols, rep, j - 1);
        assert forall|m: int| 0 <= m < members_upto(mols, rep, j).len() implies 0
            <= #[trigger] members_upto(mols, rep, j)[m] < j && representative_of(
            mols,
            members_upto(mols, rep, j)[m],
        ) == rep by {
            if m < rest.len() {
                assert(members_upto(mols, rep, j)[m] == rest[m]);
            }
        }
    }
}

/// The views of a list of environment matches: (reference tuple, topology
/// tuple) pairs.
pub open spec fn env_views(s: Seq<ChemicalEnvironmentMatch>) -> Seq<(Seq<usize>, Seq<usize>)> {
    s.map_values(
        |m: ChemicalEnvironmentMatch| (m.reference_atom_indices@, m.topology_atom_indices@),
    )
}

/// `t` carried through the atom map `amap` and rebased at `offset`: the global
/// form of a reference-molecule tuple within one instance.
pub open spec fn remap_tuple(t: Seq<usize>, amap: Seq<usize>, offset: int) -> Seq<usize> {
    t.map_values(|idx: usize| (amap[idx as int] + offset) as usize)
}

/// The environment matches contributed by one instance: every reference tuple
/// paired with its remapped, rebased form.
pub open spec fn member_env_matches(
    mol_matches: Seq<Seq<usize>>,
    amap: Seq<usize>,
    offset: int,
) -> Seq<(Seq<usize>, Seq<usize>)> {
    mol_matches.map_values(|t: Seq<usize>| (t, remap_tuple(t, amap, offset)))
}

/// The environment matches of one isomorphism group: the contributions of its
/// first `m` members, in order.
pub open spec fn group_env_matches(
    mols: Seq<Molecule>,
    mol_matches: Seq<Seq<usize>>,
    rep: int,
    members: Seq<int>,
) -> Seq<(Seq<usize>, Seq<usize>)>
    decreases members.len(),
{
    if members.len() == 0 {
        Seq::empty()
    } else {
        group_env_matches(mols, mol_matches, rep, members.drop_last()) + member_env_matches(
            mol_matches,
            canonical_iso(mols[rep], mols[members.last()]),
            spec_atom_offset(mols, members.last()),
        )
    }
}

proof fn lemma_group_env_matches_empty(
    mols: Seq<Molecule>,
    mol_matches: Seq<Seq<usize>>,
    rep: int,
    members: Seq<int>,
)
    requires
        mol_matches.len() == 0,
    ensures
        group_env_matches(mols, mol_matches, rep, members).len() == 0,
    decreases members.len(),
{
    if members.len() > 0 {
        lemma_group_env_matches_empty(mols, mol_matches, rep, members.drop_last());
        assert(group_env_matches(mols, mol_matches, rep, members) =~= Seq::empty());
    }
}

/// All environment matches of the first `g` isomorphism groups of the
/// topology for one pattern, group by group, members in ascending order
/// within a group.
pub open spec fn topology_env_matches<M: PatternMatcher>(
    top: Topology,
    matcher: M,
    pattern: Seq<char>,
    g: int,
) -> Seq<(Seq<usize>, Seq<usize>)>
    decreases g,
{
    let mols = top.molecules@;
    let reps = rep_list(mols, mols.len() as int);
    if g <= 0 {
        Seq::empty()
    } else {
        topology_env_matches(top, matcher, pattern, g - 1) + group_env_matches(
            mols,
            matcher.pattern_matches(mols[reps[g - 1]], pattern),
            reps[g - 1],
            members_upto(mols, reps[g - 1], mols.len() as int),
        )
    }
}

impl Topology {
    /// Every match of `smirks` across the topology: the pattern is evaluated
    /// once per unique molecule, and each match is replayed into every
    /// instance of that molecule's group through the instance's atom map,
    /// rebased to global topology indices.
    pub fn chemical_environment_matches<M: PatternMatcher>(
        &self,
        smirks: &String,
        matcher: &M,
    ) -> (r: Vec<ChemicalEnvironmentMatch>)
        requires
            self.wf(),
        ensures
            env_views(r@) == topology_env_matches(
                *self,
                *matcher,
                smirks@,
                rep_list(self.molecules@, self.molecules@.len() as int).len() as int,
            ),
    {
        let ghost mols = self.molecules@;
        let ghost nreps = rep_list(mols, mols.len() as int).len() as int;
        let groups = self.identical_molecule_groups();
        proof {
            lemma_rep_list_props(mols, mols.len() as int);
        }
        let mut result: Vec<ChemicalEnvironmentMatch> = Vec::new();
        let mut g: usize = 0;
        while g < groups.len()
            invariant
                self.wf(),
                mols == self.molecules@,
                g <= groups@.len(),
                groups@.len() == rep_list(mols, mols.len() as int).len(),
                nreps == rep_list(mols, mols.len() as int).len() as int,
                forall|x: int|
                    0 <= x < groups@.len() ==> (#[trigger] groups@[x]).0 == rep_list(
                        mols,
                        mols.len() as int,
                    )[x],
                forall|x: int|
                    0 <= x < groups@.len() ==> group_entry_correct(mols, #[trigger] groups@[x]),
                forall|x: int|
                    0 <= x < rep_list(mols, mols.len() as int).len() ==> 0 <= #[trigger] rep_list(
                        mols,
                        mols.len() as int,
                    )[x] < mols.len(),
                env_views(result@) == topology_env_matches(*self, *matcher, smirks@, g as int),
            decreases groups@.len() - g,
        {
            let rep = groups[g].0;
            let mol_matches = matcher.match_pattern(&self.molecules[rep], smirks);
            let ghost mm = matcher.pattern_matches(mols[rep as int], smirks@);
            let ghost members = members_upto(mols, rep as int, mols.len() as int);
            if mol_matches.len() == 0 {
                proof {
                    assert(mm.len() == 0);
                    lemma_group_env_matches_empty(mols, mm, rep as int, members);
                    assert(env_views(result@) =~= topology_env_matches(
                        *self,
                        *matcher,
                        smirks@,
                        g + 1,
                    ));
                }
                g = g + 1;
                continue ;
            }
            let members_vec = &groups[g].1;
            let mut m: usize = 0;
            while m < members_vec.len()
                invariant
                    self.wf(),
                    mols == self.molecules@,
                    g < groups@.len(),
                    members_vec == &groups@[g as int].1,
                    rep == groups@[g as int].0,
                    group_entry_correct(mols, groups@[g as int]),
                    rep < mols.len(),
                    members == members_upto(mols, rep as int, mols.len() as int),
                    tuple_views(mol_matches@) == mm,
                    mm == matcher.pattern_matches(mols[rep as int], smirks@),
                    matches_valid(mm, mols[rep as int].atoms@.len() as int),
                    m <= members_vec@.len(),
                    env_views(result@) == topology_env_matches(*self, *matcher, smirks@, g as int)
                        + group_env_matches(mols, mm, rep as int, members.take(m as int)),
                decreases members_vec@.len() - m,
            {
                proof {
                    lemma_members_upto_props(mols, rep as int, mols.len() as int);
                }
                let member_index = members_vec[m].0;
                let amap = &members_vec[m].1;
                let offset = self.atom_offset(member_index);
                let ghost amaps = canonical_iso(mols[rep as int], mols[member_index as int]);
                proof {
                    assert(members_vec@[m as int].1@ == amaps);
                    assert(is_isomorphism(mols[rep as int], mols[member_index as int], amaps));
                    lemma_atom_offset_monotonic(mols, member_index + 1, mols.len() as int);
                }
                let mut t: usize = 0;
                while t < mol_matches.len()
                    invariant
                        self.wf(),
                        mols == self.molecules@,
                        rep < mols.len(),
                        member_index < mols.len(),
                        amap@ == amaps,
                        is_isomorphism(mols[rep as int], mols[member_index as int], amaps),
                        offset == spec_atom_offset(mols, member_index as int),
                        spec_atom_offset(mols, member_index + 1) <= usize::MAX,
                        tuple_views(mol_matches@) == mm,
                        matches_valid(mm, mols[rep as int].atoms@.len() as int),
                        t <= mol_matches@.len(),
                        env_views(result@) == topology_env_matches(
                            *self,
                            *matcher,
                            smirks@,
                            g as int,
                        ) + group_env_matches(mols, mm, rep as int, members.take(m as int))
                            + member_env_matches(mm, amaps, offset as int).take(t as int),
                    decreases mol_matches@.len() - t,
                {
                    let tuple = &mol_matches[t];
                    proof {
                        assert(mm[t as int] == tuple@);
                        assert(valid_tuple(tuple@, mols[rep as int].atoms@.len() as int));
                        assert(amaps.len() == mols[rep as int].atoms@.len());
                    }
                    let mut global: Vec<usize> = Vec::new();
                    let mut k: usize = 0;
                    while k < tuple.len()
                        invariant
                            k <= tuple@.len(),
                            valid_tuple(tuple@, amaps.len() as int),
                            amap@ == amaps,
                            mols == self.molecules@,
                            member_index < mols.len(),
                            forall|i: int|
                                0 <= i < amaps.len() ==> (#[trigger] amaps[i])
                                    < mols[member_index as int].atoms@.len(),
                            offset == spec_atom_offset(mols, member_index as int),
                            spec_atom_offset(mols, member_index + 1) <= usize::MAX,
                            global@ == remap_tuple(tuple@, amaps, offset as int).take(k as int),
                        decreases tuple@.len() - k,
                    {
                        let idx = tuple[k];
                        proof {
                            assert(spec_atom_offset(mols, member_index + 1) == spec_atom_offset(
                                mols,
                                member_index as int,
                            ) + mols[member_index as int].atoms@.len());
                        }
                        let gidx = amap[idx] + offset;
                        global.push(gidx);
                        proof {
                            assert(remap_tuple(tuple@, amaps, offset as int).take(k + 1)
                                =~= remap_tuple(tuple@, amaps, offset as int).take(
                                k as int,
                            ).push(gidx));
                        }
                        k = k + 1;
                    }
                    proof {
                        assert(remap_tuple(tuple@, amaps, offset as int).take(
                            tuple@.len() as int,
                        ) =~= remap_tuple(tuple@, amaps, offset as int));
                    }
                    let reference = copy_indices(tuple);
                    let ghost before = result@;
                    let cem = ChemicalEnvironmentMatch::new(reference, global);
                    result.push(cem);
                    proof {
                        let full = topology_env_matches(*self, *matcher, smirks@, g as int)
                            + group_env_matches(mols, mm, rep as int, members.take(m as int));
                        let layer = member_env_matches(mm, amaps, offset as int);
                        assert(layer[t as int] == (mm[t as int], remap_tuple(
                            mm[t as int],
                            amaps,
                            offset as int,
                        )));
                        assert(cem.reference_atom_indices@ == mm[t as int]);
                        assert(cem.topology_atom_indices@ == remap_tuple(
                            mm[t as int],
                            amaps,
                            offset as int,
                        ));
                        assert(layer.take(t + 1) =~= layer.take(t as int).push(layer[t as int]));
                        assert(env_views(result@) =~= env_views(before).push(
                            (cem.reference_atom_indices@, cem.topology_atom_indices@),
                        ));
                        assert(env_views(result@) =~= full + layer.take(t + 1));
                    }
                    t = t + 1;
                }
                proof {
                    let layer = member_env_matches(mm, amaps, offset as int);
                    assert(layer.take(mol_matches@.len() as int) =~= layer);
                    assert(members.take(m + 1).drop_last() =~= members.take(m as int));
                    assert(members.take(m + 1).last() == members[m as int]);
                    assert(members[m as int] == member_index as int) by {
                        assert(groups@[g as int].1@[m as int].0 == members[m as int]);
                    }
                    assert(group_env_matches(mols, mm, rep as int, members.take(m + 1))
                        =~= group_env_matches(mols, mm, rep as int, members.take(m as int))
                        + layer);
                    assert(env_views(result@) =~= topology_env_matches(
                        *self,
                        *matcher,
                        smirks@,
                        g as int,
                    ) + group_env_matches(mols, mm, rep as int, members.take(m + 1)));
                }
                m = m + 1;
            }
            proof {
                assert(members.take(members.len() as int) =~= members);
                assert(members_vec@.len() == members.len());
                assert(env_views(result@) =~= topology_env_matches(
                    *self,
                    *matcher,
                    smirks@,
                    g + 1,
                ));
            }
            g = g + 1;
        }
        proof {
            assert(groups@.len() == nreps);
        }
        result
    }
}

/// Scan the representatives among the first `j` molecules, in order, for one
/// isomorphic to molecule `j`.
fn find_representative(
    molecules: &Vec<Molecule>,
    result: &Vec<(usize, Vec<usize>)>,
    j: usize,
) -> (r: Option<(usize, Vec<usize>)>)
    requires
        forall|i: int| 0 <= i < molecules@.len() ==> (#[trigger] molecules@[i]).wf(),
        j < molecules@.len(),
        result@.len() == j,
        forall|l: int|
            0 <= l < j ==> (#[trigger] result@[l]).0 == representative_of(molecules@, l),
    ensures
        match r {
            Some(entry) => entry.0 == representative_of(molecules@, j as int) && entry.0 < j
                && entry.1@ == canonical_iso(molecules@[entry.0 as int], molecules@[j as int])
                && is_isomorphism(molecules@[entry.0 as int], molecules@[j as int], entry.1@),
            None => representative_of(molecules@, j as int) == j,
        },
{
    let ghost mols = molecules@;
    let ghost prev = reps_upto(mols, j as int);
    proof {
        lemma_reps_len(mols, j as int);
        lemma_reps_len(mols, j + 1);
        assert forall|l: int| 0 <= l < j implies (#[trigger] prev[l]) == result@[l].0 by {
            lemma_reps_index(mols, l, j as int);
        }
        assert(representative_of(mols, j as int) == scan_rep(mols, prev, j as int, 0));
    }
    let mut i: usize = 0;
    while i < j
        invariant
            forall|l: int| 0 <= l < molecules@.len() ==> (#[trigger] molecules@[l]).wf(),
            j < molecules@.len(),
            result@.len() == j,
            mols == molecules@,
            prev == reps_upto(mols, j as int),
            forall|l: int|
                0 <= l < j ==> (#[trigger] result@[l]).0 == representative_of(molecules@, l),
            forall|l: int| 0 <= l < j ==> (#[trigger] prev[l]) == result@[l].0,
            prev.len() == j,
            representative_of(mols, j as int) == scan_rep(mols, prev, j as int, 0),
            i <= j,
            scan_rep(mols, prev, j as int, 0) == scan_rep(mols, prev, j as int, i as int),
        decreases j - i,
    {
        if result[i].0 == i {
            proof {
                assert(prev[i as int] == i);
            }
            match molecules[i].are_isomorphic(&molecules[j]) {
                Some(m) => {
                    proof {
                        assert(is_isomorphism(mols[i as int], mols[j as int], m@));
                        assert(isomorphic(mols[i as int], mols[j as int]));
                        assert(scan_rep(mols, prev, j as int, i as int) == i);
                        lemma_reps_index(mols, i as int, j as int);
                    }
                    return Some((i, m));
                },
                None => {
                    proof {
                        assert(scan_rep(mols, prev, j as int, i as int) == scan_rep(
                            mols,
                            prev,
                            j as int,
                            i + 1,
                        ));
                    }
                },
            }
        } else {
            proof {
                assert(prev[i as int] != i);
                assert(scan_rep(mols, prev, j as int, i as int) == scan_rep(
                    mols,
                    prev,
                    j as int,
                    i + 1,
                ));
            }
        }
        i = i + 1;
    }
    proof {
        assert(scan_rep(mols, prev, j as int, j as int) == j);
    }
    None
}

} // verus!
