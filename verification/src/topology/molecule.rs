//! Molecules as atom/bond graphs, and attribute-aware graph isomorphism.
//!
//! A [`Molecule`] owns an ordered array of [`Atom`]s and a list of [`Bond`]s
//! that reference atom positions; atoms carry no back-pointer to their
//! molecule, so an atom is addressed everywhere as a (molecule, position)
//! pair.  Two molecules are considered chemically identical when some
//! bijection of atom positions preserves both the bond structure and the
//! per-atom attributes (atomic number, formal charge, aromaticity);
//! [`Molecule::are_isomorphic`] decides that relation and returns a witness
//! bijection.

use vstd::prelude::*;

verus! {

/// Stereochemistry tag of an atom or a bond.
#[derive(Clone, Copy, Debug, PartialEq, Eq, Structural)]
pub enum Stereochemistry {
    R,
    S,
    Unspecified,
}

/// A chemical atom: element, formal charge, aromaticity, an optional name and
/// an optional stereochemistry tag.  An atom is owned by exactly one molecule
/// and addressed by its position in that molecule's atom array.
#[derive(Clone, Debug)]
pub struct Atom {
    pub atomic_number: usize,
    pub formal_charge: isize,
    pub is_aromatic: bool,
    pub name: Option<String>,
    pub stereochemistry: Stereochemistry,
}

impl Atom {
    pub fn new(
        atomic_number: usize,
        formal_charge: isize,
        is_aromatic: bool,
        name: Option<String>,
        stereochemistry: Stereochemistry,
    ) -> (r: Self)
        ensures
            r.atomic_number == atomic_number,
            r.formal_charge == formal_charge,
            r.is_aromatic == is_aromatic,
            r.name == name,
            r.stereochemistry == stereochemistry,
    {
        Self { atomic_number, formal_charge, is_aromatic, name, stereochemistry }
    }

    pub fn atomic_number(&self) -> (r: usize)
        ensures
            r == self.atomic_number,
    {
        self.atomic_number
    }

    pub fn formal_charge(&self) -> (r: isize)
        ensures
            r == self.formal_charge,
    {
        self.formal_charge
    }

    pub fn set_formal_charge(&mut self, charge: isize)
        ensures
            *final(self) == (Atom { formal_charge: charge, ..*old(self) }),
    {
        self.formal_charge = charge;
    }

    pub fn is_aromatic(&self) -> (r: bool)
        ensures
            r == self.is_aromatic,
    {
        self.is_aromatic
    }

    pub fn stereochemistry(&self) -> (r: Stereochemistry)
        ensures
            r == self.stereochemistry,
    {
        self.stereochemistry
    }

    pub fn set_stereochemistry(&mut self, stereochemistry: Stereochemistry)
        ensures
            *final(self) == (Atom { stereochemistry, ..*old(self) }),
    {
        self.stereochemistry = stereochemistry;
    }

    pub fn name(&self) -> (r: Option<&String>)
        ensures
            match r {
                Some(n) => self.name is Some && n == self.name->0,
                None => self.name is None,
            },
    {
        self.name.as_ref()
    }

    pub fn set_name(&mut self, name: String)
        ensures
            *final(self) == (Atom { name: Some(name), ..*old(self) }),
    {
        self.name = Some(name);
    }
}

/// Element symbols indexed by atomic number; index 0 is the placeholder "X".
pub const SYMBOLS: [&'static str; 117] = [
    "X", "H", "He", "Li", "Be", "B", "C", "N", "O", "F", "Ne", "Na", "Mg", "Al", "Si", "P", "S",
    "Cl", "Ar", "K", "Ca", "Sc", "Ti", "V", "Cr", "Mn", "Fe", "Co", "Ni", "Cu", "Zn", "Ga", "Ge",
    "As", "Se", "Br", "Kr", "Rb", "Sr", "Y", "Zr", "Nb", "Mo", "Tc", "Ru", "Rh", "Pd", "Ag", "Cd",
    "In", "Sn", "Sb", "Te", "I", "Xe", "Cs", "Ba", "La", "Ce", "Pr", "Nd", "Pm", "Sm", "Eu", "Gd",
    "Tb", "Dy", "Ho", "Er", "Tm", "Yb", "Lu", "Hf", "Ta", "W", "Re", "Os", "Ir", "Pt", "Au", "Hg",
    "Tl", "Pb", "Bi", "Po", "At", "Rn", "Fr", "Ra", "Ac", "Th", "Pa", "U", "Np", "Pu", "Am", "Cm",
    "Bk", "Cf", "Es", "Fm", "Md", "No", "Lr", "Rf", "Db", "Sg", "Bh", "Hs", "Mt", "Ds", "Rg",
    "Uub", "Uut", "Uuq", "Uup", "Uuh",
];

impl Atom {
    /// The element symbol of the atom's atomic number.
    pub fn symbol(&self) -> (r: &'static str)
        requires
            self.atomic_number < 117,
        ensures
            r == SYMBOLS@[self.atomic_number as int],
    {
        SYMBOLS[self.atomic_number]
    }
}

/// A bond between two atom positions of the same molecule, with a bond order
/// and an aromaticity flag.
#[derive(Clone, Debug)]
pub struct Bond {
    pub atom1_index: usize,
    pub atom2_index: usize,
    pub bond_order: usize,
    pub is_aromatic: bool,
    pub stereochemistry: Stereochemistry,
}

/// `b` joins atom positions `i` and `j`, in either orientation.
pub open spec fn bond_connects(b: Bond, i: int, j: int) -> bool {
    (b.atom1_index == i && b.atom2_index == j) || (b.atom1_index == j && b.atom2_index == i)
}

/// `b` is a valid bond of a molecule with `n` atoms: both endpoints are
/// distinct atom positions below `n`.
pub open spec fn bond_wf(b: Bond, n: int) -> bool {
    b.atom1_index < n && b.atom2_index < n && b.atom1_index != b.atom2_index
}

/// The two bonds join the same unordered pair of atom positions.
pub open spec fn same_pair(b1: Bond, b2: Bond) -> bool {
    bond_connects(b2, b1.atom1_index as int, b1.atom2_index as int)
}

/// The per-atom attributes that chemical identity compares: atomic number,
/// formal charge and aromaticity.  Names and stereochemistry tags do not
/// separate otherwise identical molecules.
pub open spec fn atoms_compatible(a: Atom, b: Atom) -> bool {
    a.atomic_number == b.atomic_number && a.formal_charge == b.formal_charge && a.is_aromatic
        == b.is_aromatic
}

/// A molecule: an ordered, fixed array of atoms and a list of bonds over atom
/// positions.
#[derive(Clone, Debug)]
pub struct Molecule {
    pub name: String,
    pub atoms: Vec<Atom>,
    pub bonds: Vec<Bond>,
}

impl Molecule {
    /// Every bond joins two distinct valid atom positions, and no two bonds
    /// join the same unordered pair.
    pub open spec fn wf(self) -> bool {
        &&& forall|k: int|
            0 <= k < self.bonds@.len() ==> bond_wf(
                #[trigger] self.bonds@[k],
                self.atoms@.len() as int,
            )
        &&& forall|k: int, l: int|
            0 <= k < l < self.bonds@.len() ==> !same_pair(self.bonds@[k], self.bonds@[l])
    }

    /// Some bond of `self` joins atom positions `i` and `j`.
    pub open spec fn has_bond(self, i: int, j: int) -> bool {
        exists|k: int| 0 <= k < self.bonds@.len() && bond_connects(#[trigger] self.bonds@[k], i, j)
    }

    /// The bond joining positions `i` and `j`; meaningful only when
    /// `has_bond(i, j)` holds and the molecule is well formed, which makes the
    /// bond unique.
    pub open spec fn bond_at(self, i: int, j: int) -> Bond {
        self.bonds@[choose|k: int|
            0 <= k < self.bonds@.len() && bond_connects(self.bonds@[k], i, j)]
    }
}

/// In a well-formed molecule the bond joining a given pair is unique, so any
/// bond found to connect `i` and `j` is `bond_at(i, j)`.
pub proof fn lemma_bond_at(m: Molecule, i: int, j: int, k: int)
    requires
        m.wf(),
        0 <= k < m.bonds@.len(),
        bond_connects(m.bonds@[k], i, j),
    ensures
        m.has_bond(i, j),
        m.bond_at(i, j) == m.bonds@[k],
{
    assert(m.has_bond(i, j));
    let l = choose|l: int| 0 <= l < m.bonds@.len() && bond_connects(m.bonds@[l], i, j);
    if l != k {
        if l < k {
            assert(!same_pair(m.bonds@[l], m.bonds@[k]));
        } else {
            assert(!same_pair(m.bonds@[k], m.bonds@[l]));
        }
        assert(false);
    }
}

/// The bonds that `map` carries positions `i` and `j` to agree with the bonds
/// at `i` and `j`: a bond exists on one side exactly when it exists on the
/// other, with the same order and aromaticity.
pub open spec fn bonds_agree(m1: Molecule, m2: Molecule, map: Seq<usize>, i: int, j: int) -> bool {
    &&& (m1.has_bond(i, j) <==> m2.has_bond(map[i] as int, map[j] as int))
    &&& (m1.has_bond(i, j) ==> {
        let b1 = m1.bond_at(i, j);
        let b2 = m2.bond_at(map[i] as int, map[j] as int);
        b1.bond_order == b2.bond_order && b1.is_aromatic == b2.is_aromatic
    })
}

/// `map` assigns to the first `map.len()` atom positions of `m1` distinct
/// positions of `m2` with compatible atoms, preserving all bonds among the
/// assigned positions.  A full-length consistent prefix is an isomorphism.
pub open spec fn consistent_prefix(m1: Molecule, m2: Molecule, map: Seq<usize>) -> bool {
    &&& m1.atoms@.len() == m2.atoms@.len()
    &&& map.len() <= m1.atoms@.len()
    &&& forall|i: int| 0 <= i < map.len() ==> (#[trigger] map[i]) < m2.atoms@.len()
    &&& forall|i: int, j: int| 0 <= i < j < map.len() ==> map[i] != map[j]
    &&& forall|i: int|
        0 <= i < map.len() ==> atoms_compatible(
            m1.atoms@[i],
            m2.atoms@[#[trigger] map[i] as int],
        )
    &&& forall|i: int, j: int| 0 <= i < j < map.len() ==> #[trigger] bonds_agree(m1, m2, map, i, j)
}

/// `map` is an atom-position bijection from `m1` onto `m2` that preserves the
/// compared atom attributes and the bond structure.
pub open spec fn is_isomorphism(m1: Molecule, m2: Molecule, map: Seq<usize>) -> bool {
    consistent_prefix(m1, m2, map) && map.len() == m1.atoms@.len()
}

/// The two molecules are chemically identical: some atom-position bijection
/// preserves atom attributes and bond structure.
pub open spec fn isomorphic(m1: Molecule, m2: Molecule) -> bool {
    exists|map: Seq<usize>| is_isomorphism(m1, m2, map)
}

/// `a` precedes `b` in lexicographic order: at the first position where the
/// two differ, `a` holds the smaller value.
pub open spec fn lex_less(a: Seq<usize>, b: Seq<usize>) -> bool {
    exists|d: int|
        0 <= d < a.len() && d < b.len() && #[trigger] a.take(d) == #[trigger] b.take(d) && a[d]
            < b[d]
}

/// The position of the first difference between `a` and `b`, scanning from
/// `i`; their common length if they agree everywhere.
pub open spec fn first_diff(a: Seq<usize>, b: Seq<usize>, i: int) -> int
    decreases a.len() - i,
{
    if i < 0 || i >= a.len() || i >= b.len() {
        i
    } else if a[i] != b[i] {
        i
    } else {
        first_diff(a, b, i + 1)
    }
}

proof fn lemma_first_diff(a: Seq<usize>, b: Seq<usize>, i: int)
    requires
        a.len() == b.len(),
        0 <= i <= a.len(),
        forall|l: int| 0 <= l < i ==> a[l] == b[l],
    ensures
        i <= first_diff(a, b, i) <= a.len(),
        a.take(first_diff(a, b, i)) == b.take(first_diff(a, b, i)),
        first_diff(a, b, i) < a.len() ==> a[first_diff(a, b, i)] != b[first_diff(a, b, i)],
        first_diff(a, b, i) == a.len() ==> a == b,
    decreases a.len() - i,
{
    let d = first_diff(a, b, i);
    if i >= a.len() {
        assert(a =~= b);
        assert(a.take(d) =~= b.take(d));
    } else if a[i] != b[i] {
        assert(a.take(i) =~= b.take(i));
    } else {
        lemma_first_diff(a, b, i + 1);
    }
}

/// Lexicographic order is irreflexive and antisymmetric.
pub proof fn lemma_lex_antisymmetric(a: Seq<usize>, b: Seq<usize>)
    requires
        lex_less(a, b),
    ensures
        !lex_less(b, a),
        a != b,
{
    let d1 = choose|d: int|
        0 <= d < a.len() && d < b.len() && #[trigger] a.take(d) == b.take(d) && a[d] < b[d];
    if a == b {
        assert(a[d1] == b[d1]);
    }
    if lex_less(b, a) {
        let d2 = choose|d: int|
            0 <= d < b.len() && d < a.len() && #[trigger] b.take(d) == a.take(d) && b[d] < a[d];
        if d1 < d2 {
            assert(b.take(d2)[d1] == b[d1]);
            assert(a.take(d2)[d1] == a[d1]);
        } else if d2 < d1 {
            assert(b.take(d1)[d2] == b[d2]);
            assert(a.take(d1)[d2] == a[d2]);
        }
    }
}

/// `f` is the lexicographically least isomorphism from `m1` onto `m2`.
pub open spec fn minimal_iso(m1: Molecule, m2: Molecule, f: Seq<usize>) -> bool {
    &&& is_isomorphism(m1, m2, f)
    &&& forall|g: Seq<usize>| #[trigger] is_isomorphism(m1, m2, g) && g != f ==> lex_less(f, g)
}

/// The canonical (lexicographically least) isomorphism from `m1` onto `m2`;
/// meaningful only when the molecules are isomorphic.
pub open spec fn canonical_iso(m1: Molecule, m2: Molecule) -> Seq<usize> {
    choose|f: Seq<usize>| minimal_iso(m1, m2, f)
}

/// At most one isomorphism is lexicographically least.
pub proof fn lemma_minimal_iso_unique(m1: Molecule, m2: Molecule, f1: Seq<usize>, f2: Seq<usize>)
    requires
        minimal_iso(m1, m2, f1),
        minimal_iso(m1, m2, f2),
    ensures
        f1 == f2,
{
    if f1 != f2 {
        assert(lex_less(f1, f2));
        assert(lex_less(f2, f1));
        lemma_lex_antisymmetric(f1, f2);
    }
}

/// The identity map is the canonical isomorphism of a molecule with itself:
/// it is the lexicographically least injective sequence altogether.
pub proof fn lemma_identity_minimal(m: Molecule, map: Seq<usize>)
    requires
        map.len() == m.atoms@.len(),
        forall|i: int| 0 <= i < map.len() ==> (#[trigger] map[i]) == i,
    ensures
        minimal_iso(m, m, map),
        canonical_iso(m, m) == map,
{
    lemma_identity_isomorphism(m, map);
    assert forall|g: Seq<usize>| #[trigger] is_isomorphism(m, m, g) && g != map implies lex_less(
        map,
        g,
    ) by {
        lemma_first_diff(map, g, 0);
        let d = first_diff(map, g, 0);
        assert(d < map.len());
        assert(map[d] == d);
        if g[d] < d {
            // g would repeat the value g[d], already used at position g[d]
            assert(g.take(d)[g[d] as int] == g[g[d] as int]);
            assert(map.take(d)[g[d] as int] == map[g[d] as int]);
            assert(g[g[d] as int] == map[g[d] as int]);
            assert(g[g[d] as int] == g[d]);
            assert(!(forall|i: int, j: int| 0 <= i < j < g.len() ==> g[i] != g[j]));
            assert(!is_isomorphism(m, m, g));
        }
        assert(map[d] < g[d]);
        assert(lex_less(map, g));
    }
    assert(minimal_iso(m, m, map));
    assert(exists|f: Seq<usize>| minimal_iso(m, m, f));
    assert(minimal_iso(m, m, canonical_iso(m, m)));
    lemma_minimal_iso_unique(m, m, map, canonical_iso(m, m));
}

/// Restricting an isomorphism to its first `k` positions leaves a consistent
/// prefix.
pub proof fn lemma_iso_prefix_consistent(m1: Molecule, m2: Molecule, f: Seq<usize>, k: int)
    requires
        is_isomorphism(m1, m2, f),
        0 <= k <= f.len(),
    ensures
        consistent_prefix(m1, m2, f.take(k)),
{
    let p = f.take(k);
    assert forall|i: int, j: int| 0 <= i < j < p.len() implies #[trigger] bonds_agree(
        m1,
        m2,
        p,
        i,
        j,
    ) by {
        assert(p[i] == f[i]);
        assert(p[j] == f[j]);
        assert(bonds_agree(m1, m2, f, i, j));
    }
}

/// The identity map on atom positions is an isomorphism of a molecule with
/// itself.
pub proof fn lemma_identity_isomorphism(m: Molecule, map: Seq<usize>)
    requires
        map.len() == m.atoms@.len(),
        forall|i: int| 0 <= i < map.len() ==> (#[trigger] map[i]) == i,
    ensures
        is_isomorphism(m, m, map),
{
    assert forall|i: int, j: int| 0 <= i < j < map.len() implies #[trigger] bonds_agree(
        m,
        m,
        map,
        i,
        j,
    ) by {
        assert(map[i] == i && map[j] == j);
    }
}

/// In a well-formed molecule the bond between two positions reads the same in
/// either orientation.
pub proof fn lemma_bond_at_symmetric(m: Molecule, i: int, j: int)
    requires
        m.wf(),
        m.has_bond(i, j),
    ensures
        m.has_bond(j, i),
        m.bond_at(i, j) == m.bond_at(j, i),
{
    let k = choose|k: int| 0 <= k < m.bonds@.len() && bond_connects(m.bonds@[k], i, j);
    lemma_bond_at(m, i, j, k);
    lemma_bond_at(m, j, i, k);
}

/// Between well-formed molecules an isomorphism preserves bonds between any
/// two distinct assigned positions, in either order.
pub proof fn lemma_iso_bonds_agree_any(m1: Molecule, m2: Molecule, f: Seq<usize>, a: int, b: int)
    requires
        m1.wf(),
        m2.wf(),
        is_isomorphism(m1, m2, f),
        0 <= a < f.len(),
        0 <= b < f.len(),
        a != b,
    ensures
        bonds_agree(m1, m2, f, a, b),
{
    if a < b {
        assert(bonds_agree(m1, m2, f, a, b));
    } else {
        assert(bonds_agree(m1, m2, f, b, a));
        if m1.has_bond(a, b) {
            lemma_bond_at_symmetric(m1, a, b);
            lemma_bond_at_symmetric(m2, f[a] as int, f[b] as int);
        }
        if m2.has_bond(f[a] as int, f[b] as int) {
            lemma_bond_at_symmetric(m2, f[a] as int, f[b] as int);
        }
    }
}

/// Some position of `f` holds the value `v`.
pub open spec fn has_preimage(f: Seq<usize>, v: int) -> bool {
    exists|i: int| 0 <= i < f.len() && (#[trigger] f[i]) == v
}

/// The position of `f` holding the value `v`; meaningful when one exists.
pub open spec fn inverse_at(f: Seq<usize>, v: int) -> usize {
    (choose|i: int| 0 <= i < f.len() && (#[trigger] f[i]) == v) as usize
}

/// A total injective map on `n` positions reaches every position: the
/// pigeonhole principle that lets an isomorphism be inverted.
proof fn lemma_injective_surjective(f: Seq<usize>, n: int)
    requires
        f.len() == n,
        forall|i: int| 0 <= i < n ==> (#[trigger] f[i]) < n,
        forall|i: int, j: int| 0 <= i < j < n ==> f[i] != f[j],
    ensures
        forall|v: int| 0 <= v < n ==> #[trigger] has_preimage(f, v),
{
    let fi = Seq::new(n as nat, |i: int| f[i] as int);
    assert(fi.no_duplicates()) by {
        assert forall|i: int, j: int| 0 <= i < fi.len() && 0 <= j < fi.len() && i != j implies fi[i]
            != fi[j] by {
            if i < j {
                assert(f[i] != f[j]);
            } else {
                assert(f[j] != f[i]);
            }
        }
    }
    fi.unique_seq_to_set();
    vstd::set_lib::lemma_int_range(0, n);
    assert forall|v: int| 0 <= v < n implies #[trigger] has_preimage(f, v) by {
        if !fi.to_set().contains(v) {
            let smaller = vstd::set_lib::set_int_range(0, n).remove(v);
            assert(fi.to_set().subset_of(smaller)) by {
                assert forall|x: int| fi.to_set().contains(x) implies smaller.contains(x) by {
                    let i = choose|i: int| 0 <= i < fi.len() && fi[i] == x;
                    assert(0 <= x < n);
                }
            }
            vstd::set_lib::lemma_len_subset(fi.to_set(), smaller);
            assert(smaller.len() == n - 1);
            assert(false);
        }
        let i = choose|i: int| 0 <= i < fi.len() && fi[i] == v;
        assert(f[i] == v);
    }
}

/// Chemical identity is symmetric: the inverse of an isomorphism is an
/// isomorphism.
pub proof fn lemma_isomorphic_symmetric(m1: Molecule, m2: Molecule)
    requires
        m1.wf(),
        m2.wf(),
        m1.atoms@.len() <= usize::MAX,
        isomorphic(m1, m2),
    ensures
        isomorphic(m2, m1),
{
    let f = choose|f: Seq<usize>| is_isomorphism(m1, m2, f);
    let n = f.len() as int;
    assert forall|i: int, j: int| 0 <= i < n && 0 <= j < n && i != j implies f[i] != f[j] by {
        if i < j {
        } else {
            assert(f[j] != f[i]);
        }
    }
    lemma_injective_surjective(f, n);
    let g = Seq::new(n as nat, |v: int| inverse_at(f, v));
    assert forall|v: int| 0 <= v < n implies (#[trigger] g[v]) < n && f[g[v] as int] == v by {
        assert(has_preimage(f, v));
        assert(exists|i: int| 0 <= i < f.len() && (#[trigger] f[i]) == v);
        let c = choose|i: int| 0 <= i < f.len() && (#[trigger] f[i]) == v;
        assert(0 <= c < n && f[c] == v);
        assert(inverse_at(f, v) == c as usize);
        assert(g[v] == inverse_at(f, v));
        assert(g[v] == c as usize && c <= usize::MAX);
    }
    assert(is_isomorphism(m2, m1, g)) by {
        assert forall|v1: int, v2: int| 0 <= v1 < v2 < n implies g[v1] != g[v2] by {
            assert(f[g[v1] as int] == v1 && f[g[v2] as int] == v2);
        }
        assert forall|v: int| 0 <= v < n implies atoms_compatible(
            m2.atoms@[v],
            m1.atoms@[#[trigger] g[v] as int],
        ) by {
            let i = g[v] as int;
            assert(atoms_compatible(m1.atoms@[i], m2.atoms@[f[i] as int]));
        }
        assert forall|v1: int, v2: int| 0 <= v1 < v2 < n implies #[trigger] bonds_agree(
            m2,
            m1,
            g,
            v1,
            v2,
        ) by {
            let i1 = g[v1] as int;
            let i2 = g[v2] as int;
            assert(f[i1] == v1 && f[i2] == v2);
            assert(i1 != i2);
            lemma_iso_bonds_agree_any(m1, m2, f, i1, i2);
            assert(bonds_agree(m1, m2, f, i1, i2));
            if m2.has_bond(v1, v2) {
                lemma_bond_at_symmetric(m2, v1, v2);
            }
        }
    }
}

/// Chemical identity is transitive: isomorphisms compose.
pub proof fn lemma_isomorphic_transitive(m1: Molecule, m2: Molecule, m3: Molecule)
    requires
        m1.wf(),
        m2.wf(),
        m3.wf(),
        isomorphic(m1, m2),
        isomorphic(m2, m3),
    ensures
        isomorphic(m1, m3),
{
    let f1 = choose|f: Seq<usize>| is_isomorphism(m1, m2, f);
    let f2 = choose|f: Seq<usize>| is_isomorphism(m2, m3, f);
    let n = f1.len() as int;
    let h = Seq::new(n as nat, |i: int| f2[f1[i] as int]);
    assert(is_isomorphism(m1, m3, h)) by {
        assert forall|i: int, j: int| 0 <= i < j < n implies h[i] != h[j] by {
            assert(f1[i] != f1[j]);
            if (f1[i] as int) < (f1[j] as int) {
                assert(f2[f1[i] as int] != f2[f1[j] as int]);
            } else {
                assert(f2[f1[j] as int] != f2[f1[i] as int]);
            }
        }
        assert forall|i: int| 0 <= i < n implies atoms_compatible(
            m1.atoms@[i],
            m3.atoms@[#[trigger] h[i] as int],
        ) by {
            assert(atoms_compatible(m1.atoms@[i], m2.atoms@[f1[i] as int]));
            assert(atoms_compatible(m2.atoms@[f1[i] as int], m3.atoms@[f2[f1[i] as int] as int]));
        }
        assert forall|i: int, j: int| 0 <= i < j < n implies #[trigger] bonds_agree(
            m1,
            m3,
            h,
            i,
            j,
        ) by {
            assert(bonds_agree(m1, m2, f1, i, j));
            lemma_iso_bonds_agree_any(m2, m3, f2, f1[i] as int, f1[j] as int);
            assert(bonds_agree(m2, m3, f2, f1[i] as int, f1[j] as int));
        }
    }
}

/// A fresh vector holding the same atom indices.
pub(crate) fn copy_indices(t: &Vec<usize>) -> (r: Vec<usize>)
    ensures
        r@ == t@,
{
    let mut r: Vec<usize> = Vec::new();
    let mut k: usize = 0;
    while k < t.len()
        invariant
            k <= t@.len(),
            r@ == t@.take(k as int),
        decreases t@.len() - k,
    {
        r.push(t[k]);
        proof {
            assert(t@.take(k + 1) =~= t@.take(k as int).push(t@[k as int]));
        }
        k = k + 1;
    }
    proof {
        assert(t@.take(t@.len() as int) =~= t@);
    }
    r
}

/// The identity map of length `n` as a vector.
pub fn identity_map(n: usize) -> (r: Vec<usize>)
    ensures
        r@.len() == n,
        forall|i: int| 0 <= i < n ==> (#[trigger] r@[i]) == i,
{
    let mut r: Vec<usize> = Vec::new();
    let mut i: usize = 0;
    while i < n
        invariant
            i <= n,
            r@.len() == i,
            forall|k: int| 0 <= k < i ==> (#[trigger] r@[k]) == k,
        decreases n - i,
    {
        r.push(i);
        i = i + 1;
    }
    r
}

fn atoms_match(a: &Atom, b: &Atom) -> (r: bool)
    ensures
        r == atoms_compatible(*a, *b),
{
    a.atomic_number == b.atomic_number && a.formal_charge == b.formal_charge && a.is_aromatic
        == b.is_aromatic
}

/// Index of the bond joining positions `i` and `j`, if one exists.
fn find_bond(m: &Molecule, i: usize, j: usize) -> (r: Option<usize>)
    ensures
        match r {
            Some(k) => 0 <= k < m.bonds@.len() && bond_connects(m.bonds@[k as int], i as int, j as int),
            None => !m.has_bond(i as int, j as int),
        },
{
    let mut k: usize = 0;
    while k < m.bonds.len()
        invariant
            k <= m.bonds@.len(),
            forall|l: int| 0 <= l < k ==> !bond_connects(#[trigger] m.bonds@[l], i as int, j as int),
        decreases m.bonds@.len() - k,
    {
        let b = &m.bonds[k];
        if (b.atom1_index == i && b.atom2_index == j) || (b.atom1_index == j && b.atom2_index == i) {
            return Some(k);
        }
        k = k + 1;
    }
    None
}

/// Whether extending the consistent prefix `map` by sending the next position
/// of `m1` to position `v` of `m2` keeps it consistent.
fn candidate_ok(m1: &Molecule, m2: &Molecule, map: &Vec<usize>, used: &Vec<bool>, v: usize) -> (r:
    bool)
    requires
        m1.wf(),
        m2.wf(),
        consistent_prefix(*m1, *m2, map@),
        map@.len() < m1.atoms@.len(),
        v < m2.atoms@.len(),
        used@.len() == m2.atoms@.len(),
        forall|w: int|
            0 <= w < used@.len() ==> ((#[trigger] used@[w]) <==> exists|i: int|
                0 <= i < map@.len() && map@[i] == w),
    ensures
        r == consistent_prefix(*m1, *m2, map@.push(v)),
{
    let ghost ext = map@.push(v);
    let k = map.len();
    proof {
        assert(ext.len() == k + 1);
        assert(forall|i: int| 0 <= i < k ==> ext[i] == map@[i]);
        assert(ext[k as int] == v);
    }
    if used[v] {
        proof {
            let i = choose|i: int| 0 <= i < map@.len() && map@[i] == v;
            assert(ext[i] == ext[k as int]);
        }
        return false;
    }
    if !atoms_match(&m1.atoms[k], &m2.atoms[v]) {
        return false;
    }
    let mut j: usize = 0;
    while j < k
        invariant
            m1.wf(),
            m2.wf(),
            consistent_prefix(*m1, *m2, map@),
            map@.len() == k < m1.atoms@.len(),
            v < m2.atoms@.len(),
            ext == map@.push(v),
            j <= k,
            forall|l: int| 0 <= l < j ==> #[trigger] bonds_agree(*m1, *m2, ext, l, k as int),
        decreases k - j,
    {
        let b1 = find_bond(m1, j, k);
        let b2 = find_bond(m2, map[j], v);
        proof {
            assert(ext[j as int] == map@[j as int]);
            assert(ext[k as int] == v);
        }
        match (b1, b2) {
            (Some(k1), Some(k2)) => {
                let bond1 = &m1.bonds[k1];
                let bond2 = &m2.bonds[k2];
                proof {
                    lemma_bond_at(*m1, j as int, k as int, k1 as int);
                    lemma_bond_at(*m2, map@[j as int] as int, v as int, k2 as int);
                }
                if !(bond1.bond_order == bond2.bond_order && bond1.is_aromatic
                    == bond2.is_aromatic) {
                    proof {
                        assert(!bonds_agree(*m1, *m2, ext, j as int, k as int));
                    }
                    return false;
                }
            },
            (None, None) => {},
            _ => {
                proof {
                    assert(!bonds_agree(*m1, *m2, ext, j as int, k as int));
                }
                return false;
            },
        }
        proof {
            assert(bonds_agree(*m1, *m2, ext, j as int, k as int));
        }
        j = j + 1;
    }
    proof {
        assert forall|i: int, jj: int| 0 <= i < jj < ext.len() implies #[trigger] bonds_agree(
            *m1,
            *m2,
            ext,
            i,
            jj,
        ) by {
            if jj < k {
                assert(bonds_agree(*m1, *m2, map@, i, jj));
                assert(ext[i] == map@[i] && ext[jj] == map@[jj]);
            } else {
                assert(jj == k);
                assert(bonds_agree(*m1, *m2, ext, i, k as int));
            }
        }
        assert(consistent_prefix(*m1, *m2, ext));
    }
    true
}

/// Depth-first search for an isomorphism extending the consistent prefix
/// `map`.  On failure it restores `map` and `used` and guarantees that no
/// isomorphism extends the prefix; this completeness clause is what makes a
/// negative answer of [`Molecule::are_isomorphic`] trustworthy.
fn extend_map(m1: &Molecule, m2: &Molecule, map: &mut Vec<usize>, used: &mut Vec<bool>) -> (found:
    bool)
    requires
        m1.wf(),
        m2.wf(),
        consistent_prefix(*m1, *m2, old(map)@),
        old(used)@.len() == m2.atoms@.len(),
        forall|w: int|
            0 <= w < old(used)@.len() ==> ((#[trigger] old(used)@[w]) <==> exists|i: int|
                0 <= i < old(map)@.len() && old(map)@[i] == w),
    ensures
        found ==> is_isomorphism(*m1, *m2, final(map)@) && final(map)@.take(old(map)@.len() as int)
            == old(map)@ && (forall|g: Seq<usize>|
            is_isomorphism(*m1, *m2, g) && #[trigger] g.take(old(map)@.len() as int) == old(map)@
                && g != final(map)@ ==> lex_less(final(map)@, g)),
        !found ==> final(map)@ == old(map)@ && final(used)@ == old(used)@ && (forall|f: Seq<usize>|
            is_isomorphism(*m1, *m2, f) ==> f.take(old(map)@.len() as int) != old(map)@),
    decreases m1.atoms@.len() - old(map)@.len(),
{
    let k = map.len();
    let n = m1.atoms.len();
    if k == n {
        proof {
            assert(map@.take(k as int) =~= map@);
            assert forall|g: Seq<usize>|
                is_isomorphism(*m1, *m2, g) && #[trigger] g.take(k as int) == map@ implies g
                == map@ by {
                assert(g.take(k as int) =~= g);
            }
        }
        return true;
    }
    let ghost map0 = map@;
    let ghost used0 = used@;
    let mut v: usize = 0;
    while v < n
        invariant
            m1.wf(),
            m2.wf(),
            consistent_prefix(*m1, *m2, map0),
            map0 == old(map)@,
            used0 == old(used)@,
            map@ == map0,
            used@ == used0,
            map0.len() == k < n,
            n == m1.atoms@.len() == m2.atoms@.len(),
            used0.len() == n,
            v <= n,
            forall|w: int|
                0 <= w < used0.len() ==> ((#[trigger] used0[w]) <==> exists|i: int|
                    0 <= i < map0.len() && map0[i] == w),
            forall|f: Seq<usize>|
                is_isomorphism(*m1, *m2, f) && #[trigger] f.take(k as int) == map0 ==> !(f[k as int]
                    < v),
        decreases n - v,
    {
        if candidate_ok(m1, m2, map, used, v) {
            map.push(v);
            used[v] = true;
            proof {
                assert forall|w: int| 0 <= w < used@.len() implies ((#[trigger] used@[w])
                    <==> exists|i: int| 0 <= i < map@.len() && map@[i] == w) by {
                    if w == v {
                        assert(map@[k as int] == w);
                    } else {
                        assert(used@[w] == used0[w]);
                        if used0[w] {
                            let i = choose|i: int| 0 <= i < map0.len() && map0[i] == w;
                            assert(map@[i] == w);
                        }
                        if exists|i: int| 0 <= i < map@.len() && map@[i] == w {
                            let i = choose|i: int| 0 <= i < map@.len() && map@[i] == w;
                            assert(i < k ==> map0[i] == w);
                        }
                    }
                }
            }
            let found = extend_map(m1, m2, map, used);
            if found {
                proof {
                    assert(map@.take((k + 1) as int).take(k as int) =~= map@.take(k as int));
                    assert(map0.push(v).take(k as int) =~= map0);
                    assert(map@.take(k as int) == map0);
                    assert(map@.take((k + 1) as int)[k as int] == map@[k as int]);
                    assert(map@[k as int] == v);
                    assert forall|g: Seq<usize>|
                        is_isomorphism(*m1, *m2, g) && #[trigger] g.take(k as int) == map0 && g
                            != map@ implies lex_less(map@, g) by {
                        assert(g.len() == m1.atoms@.len());
                        assert(!(g[k as int] < v));
                        if g[k as int] == v {
                            assert(g.take((k + 1) as int) =~= map0.push(v));
                        } else {
                            assert(g[k as int] > v);
                            assert(map@.take(k as int) == g.take(k as int));
                            assert(0 <= k < map@.len() && k < g.len() && map@[k as int] < g[k
                                as int]);
                            assert(lex_less(map@, g));
                        }
                    }
                }
                return true;
            }
            let _ = map.pop();
            used[v] = false;
            proof {
                assert(map@ =~= map0);
                assert(used@ =~= used0);
            }
        } else {
            proof {
                assert forall|f: Seq<usize>|
                    is_isomorphism(*m1, *m2, f) && #[trigger] f.take(k as int) == map0 implies f[k
                    as int] != v by {
                    if f[k as int] == v {
                        lemma_iso_prefix_consistent(*m1, *m2, f, k + 1);
                        assert(f.take((k + 1) as int) =~= map0.push(v));
                    }
                }
            }
        }
        proof {
            // in both surviving branches no isomorphism sends position k to v
            assert forall|f: Seq<usize>|
                is_isomorphism(*m1, *m2, f) && #[trigger] f.take(k as int) == map0 implies !(f[k
                as int] < v + 1) by {
                if f[k as int] == v {
                    lemma_iso_prefix_consistent(*m1, *m2, f, k + 1);
                    assert(f.take((k + 1) as int) =~= map0.push(v));
                }
            }
        }
        v = v + 1;
    }
    proof {
        assert forall|f: Seq<usize>| is_isomorphism(*m1, *m2, f) implies f.take(k as int) != map0
            by {
            if f.take(k as int) == map0 {
                assert(0 <= k < f.len());
                assert(f[k as int] < m2.atoms@.len());
            }
        }
    }
    false
}

impl Molecule {
    /// Decide whether `self` and `other` are chemically identical, and if so
    /// return a witness: a bijection from atom positions of `self` to atom
    /// positions of `other` preserving atom attributes and bonds.  The
    /// witness is pinned down exactly: it is the lexicographically least such
    /// bijection, so equal inputs always yield equal answers.
    pub fn are_isomorphic(&self, other: &Molecule) -> (r: Option<Vec<usize>>)
        requires
            self.wf(),
            other.wf(),
        ensures
            match r {
                Some(m) => minimal_iso(*self, *other, m@) && m@ == canonical_iso(*self, *other),
                None => !isomorphic(*self, *other),
            },
            r is Some <==> isomorphic(*self, *other),
    {
        if self.atoms.len() != other.atoms.len() {
            proof {
                assert forall|f: Seq<usize>| !is_isomorphism(*self, *other, f) by {}
            }
            return None;
        }
        let n = other.atoms.len();
        let mut map: Vec<usize> = Vec::new();
        let mut used: Vec<bool> = Vec::new();
        let mut i: usize = 0;
        while i < n
            invariant
                i <= n,
                used@.len() == i,
                forall|w: int| 0 <= w < i ==> !(#[trigger] used@[w]),
            decreases n - i,
        {
            used.push(false);
            i = i + 1;
        }
        if extend_map(self, other, &mut map, &mut used) {
            proof {
                assert forall|g: Seq<usize>| #[trigger] is_isomorphism(*self, *other, g) && g
                    != map@ implies lex_less(map@, g) by {
                    assert(g.take(0) =~= Seq::<usize>::empty());
                    assert(map@.take(0) =~= Seq::<usize>::empty());
                }
                assert(minimal_iso(*self, *other, map@));
                assert(exists|f: Seq<usize>| minimal_iso(*self, *other, f));
                assert(minimal_iso(*self, *other, canonical_iso(*self, *other)));
                lemma_minimal_iso_unique(*self, *other, map@, canonical_iso(*self, *other));
            }
            Some(map)
        } else {
            proof {
                if isomorphic(*self, *other) {
                    let f = choose|f: Seq<usize>| is_isomorphism(*self, *other, f);
                    assert(f.take(0) =~= Seq::<usize>::empty());
                    assert(map@ =~= Seq::<usize>::empty());
                }
            }
            None
        }
    }
}

} // verus!
