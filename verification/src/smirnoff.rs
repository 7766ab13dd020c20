//! SMIRNOFF-style force fields: typed parameter lists and the hierarchical
//! matching that assigns parameters to atom tuples.
//!
//! A force field carries, per term category (bonds, angles, proper and
//! improper torsions), an ordered list of parameters; the order is
//! semantically significant.  [`ParameterHandler::find_matches`] walks the
//! list in order and writes each parameter's matches into one map keyed by
//! the matched atom tuple, so that among all parameters matching a tuple the
//! one listed last determines the final assignment — the hierarchical
//! override rule.  Tuple keys are canonicalized under the term type's
//! symmetry before insertion (a bond or angle read in either direction is one
//! key); torsion tuples are asymmetric and kept exactly as the matcher
//! returned them.
//!
//! Term values are kept as the verbatim text of the force-field file
//! (a number and a unit expression); interpreting units is out of scope.

use vstd::prelude::*;
use vstd::string::{StrSliceExecFns, StringExecFns};

use crate::matcher::{matches_valid, tuple_views, valid_tuple, PatternMatcher};
use crate::topology::molecule::{canonical_iso, Molecule};
use crate::topology::{
    lemma_atom_offset_monotonic, lemma_molecule_len_bound, lemma_representative_correct,
    remap_tuple, representative_of, spec_atom_offset, Topology,
};

pub mod bonds;

verus! {

/// A unit expression, kept as text.
#[derive(Clone, Debug)]
pub enum Unit {
    Unit(String),
}

/// A physical quantity: a numeric value and a unit, both kept as the verbatim
/// text of the force-field file.
#[derive(Clone, Debug)]
pub struct Quantity {
    pub value: String,
    pub unit: Unit,
}

/// The two unit expressions carry the same text.
pub open spec fn unit_eqv(a: Unit, b: Unit) -> bool {
    match (a, b) {
        (Unit::Unit(ua), Unit::Unit(ub)) => ua@ == ub@,
    }
}

/// The two quantities carry the same value and unit text.
pub open spec fn quantity_eqv(a: Quantity, b: Quantity) -> bool {
    a.value@ == b.value@ && unit_eqv(a.unit, b.unit)
}

/// Both absent, or both present with the same text.
pub open spec fn option_string_eqv(a: Option<String>, b: Option<String>) -> bool {
    match (a, b) {
        (Some(sa), Some(sb)) => sa@ == sb@,
        (None, None) => true,
        _ => false,
    }
}

/// The borrowed option mirrors the owned one.
pub open spec fn option_ref_matches(r: Option<&Quantity>, q: Option<Quantity>) -> bool {
    match r {
        Some(x) => q is Some && *x == q->0,
        None => q is None,
    }
}

/// Both absent, or both present and equivalent.
pub open spec fn option_quantity_eqv(a: Option<Quantity>, b: Option<Quantity>) -> bool {
    match (a, b) {
        (Some(qa), Some(qb)) => quantity_eqv(qa, qb),
        (None, None) => true,
        _ => false,
    }
}

/// The character separates tokens of a quantity: ascii whitespace.
pub open spec fn is_space(c: char) -> bool {
    c == ' ' || c == '\t' || c == '\n' || c == '\r' || c == '\u{000C}'
}

/// First non-whitespace position at or after `i`; the length if none.
pub open spec fn token_start(s: Seq<char>, i: int) -> int
    decreases s.len() - i,
{
    if i < 0 || i >= s.len() {
        s.len() as int
    } else if is_space(s[i]) {
        token_start(s, i + 1)
    } else {
        i
    }
}

/// First whitespace position at or after `i`; the length if none.
pub open spec fn token_end(s: Seq<char>, i: int) -> int
    decreases s.len() - i,
{
    if i < 0 || i >= s.len() {
        s.len() as int
    } else if is_space(s[i]) {
        i
    } else {
        token_end(s, i + 1)
    }
}

/// `t` with every whitespace character removed: what joining the remaining
/// tokens yields.
pub open spec fn non_space_chars(t: Seq<char>) -> Seq<char>
    decreases t.len(),
{
    if t.len() == 0 {
        Seq::empty()
    } else {
        let rest = non_space_chars(t.drop_last());
        if is_space(t.last()) {
            rest
        } else {
            rest.push(t.last())
        }
    }
}

impl Quantity {
    /// A fresh quantity with the same contents.
    pub fn duplicate(&self) -> (r: Quantity)
        ensures
            quantity_eqv(*self, r),
    {
        Quantity {
            value: self.value.clone(),
            unit: match &self.unit {
                Unit::Unit(u) => Unit::Unit(u.clone()),
            },
        }
    }

    /// Split a quantity out of attribute text such as
    /// "430.25 * kilocalorie_per_mole * angstrom ** -2": the first
    /// whitespace-separated token is the value, the remaining tokens joined
    /// are the unit.  Text without any token holds no quantity.
    pub fn from_text(s: &str) -> (r: Option<Quantity>)
        ensures
            match r {
                Some(q) => {
                    let lo = token_start(s@, 0);
                    let hi = token_end(s@, lo);
                    &&& lo < s@.len()
                    &&& q.value@ == s@.subrange(lo, hi)
                    &&& match q.unit {
                        Unit::Unit(u) => u@ == non_space_chars(
                            s@.subrange(hi, s@.len() as int),
                        ),
                    }
                },
                None => token_start(s@, 0) == s@.len(),
            },
    {
        let n = s.unicode_len();
        let mut lo: usize = 0;
        while lo < n && is_space_char(s.get_char(lo))
            invariant
                n == s@.len(),
                lo <= n,
                token_start(s@, 0) == token_start(s@, lo as int),
            decreases n - lo,
        {
            lo = lo + 1;
        }
        if lo == n {
            return None;
        }
        let mut hi: usize = lo;
        while hi < n && !is_space_char(s.get_char(hi))
            invariant
                n == s@.len(),
                lo <= hi <= n,
                token_end(s@, lo as int) == token_end(s@, hi as int),
            decreases n - hi,
        {
            hi = hi + 1;
        }
        let value = s.substring_char(lo, hi).to_owned();
        let mut unit = String::new();
        let mut k: usize = hi;
        proof {
            assert(s@.subrange(hi as int, hi as int) =~= Seq::<char>::empty());
        }
        while k < n
            invariant
                n == s@.len(),
                hi <= k <= n,
                unit@ == non_space_chars(s@.subrange(hi as int, k as int)),
            decreases n - k,
        {
            proof {
                assert(s@.subrange(hi as int, k + 1).drop_last() =~= s@.subrange(
                    hi as int,
                    k as int,
                ));
                assert(s@.subrange(hi as int, k + 1).last() == s@[k as int]);
            }
            if !is_space_char(s.get_char(k)) {
                let piece = s.substring_char(k, k + 1);
                unit.append(piece);
                proof {
                    assert(piece@ =~= seq![s@[k as int]]);
                    assert(unit@ =~= non_space_chars(s@.subrange(hi as int, k as int)).push(
                        s@[k as int],
                    ));
                }
            }
            k = k + 1;
        }
        Some(Quantity { value, unit: Unit::Unit(unit) })
    }
}

/// Whether the character is ascii whitespace for token splitting.
fn is_space_char(c: char) -> (r: bool)
    ensures
        r == is_space(c),
{
    c == ' ' || c == '\t' || c == '\n' || c == '\r' || c == '\u{000C}'
}

fn clone_option_string(o: &Option<String>) -> (r: Option<String>)
    ensures
        option_string_eqv(*o, r),
{
    match o {
        Some(s) => Some(s.clone()),
        None => None,
    }
}

fn clone_option_quantity(o: &Option<Quantity>) -> (r: Option<Quantity>)
    ensures
        option_quantity_eqv(*o, r),
{
    match o {
        Some(q) => Some(q.duplicate()),
        None => None,
    }
}

/// A fatal configuration error: the force field cannot serve the request at
/// all, as opposed to a parameter id that merely is not present.
#[derive(Debug)]
pub enum ConfigurationError {
    /// A parameter type was requested that the force field does not define.
    UnknownParameterType { tag: String },
    /// Two parameters of one handler share an id.
    DuplicateParameterId { id: String },
}

/// Uniform access to the id and pattern of any force-field parameter.
pub trait Parameter: Sized {
    /// The parameter's unique id.
    spec fn spec_id(&self) -> Seq<char>;

    /// The parameter's substructure pattern.
    spec fn spec_smirks(&self) -> Seq<char>;

    fn id(&self) -> (r: &String)
        ensures
            r@ == self.spec_id(),
    ;

    fn smirks(&self) -> (r: &String)
        ensures
            r@ == self.spec_smirks(),
    ;

    /// The name of the parameter's term category.
    fn typ(&self) -> &'static str;
}

/// An angle-bend parameter.
#[derive(Clone, Debug)]
pub struct Angle {
    pub smirks: String,
    pub id: String,
    pub k: Quantity,
    pub angle: Quantity,
    pub parameterize: Option<String>,
}

/// The two angle parameters carry the same text and term values.
pub open spec fn angle_eqv(a: Angle, b: Angle) -> bool {
    &&& a.smirks@ == b.smirks@
    &&& a.id@ == b.id@
    &&& quantity_eqv(a.k, b.k)
    &&& quantity_eqv(a.angle, b.angle)
    &&& option_string_eqv(a.parameterize, b.parameterize)
}

impl Angle {
    /// A fresh angle parameter with the same contents.
    pub fn duplicate(&self) -> (r: Angle)
        ensures
            angle_eqv(*self, r),
    {
        Angle {
            smirks: self.smirks.clone(),
            id: self.id.clone(),
            k: self.k.duplicate(),
            angle: self.angle.duplicate(),
            parameterize: clone_option_string(&self.parameterize),
        }
    }

    /// The term value stored under `key`: "angle" or "k".
    pub fn as_hash(&self, key: &String) -> (r: Option<&Quantity>)
        ensures
            key@ == "angle"@ ==> r == Some(&self.angle),
            key@ == "k"@ ==> r == Some(&self.k),
            key@ != "angle"@ && key@ != "k"@ ==> r is None,
    {
        proof {
            reveal_strlit("angle");
            reveal_strlit("k");
            assert("angle"@.len() == 5);
            assert("k"@.len() == 1);
        }
        if *key == "angle".to_owned() {
            Some(&self.angle)
        } else if *key == "k".to_owned() {
            Some(&self.k)
        } else {
            None
        }
    }
}

impl Parameter for Angle {
    open spec fn spec_id(&self) -> Seq<char> {
        self.id@
    }

    open spec fn spec_smirks(&self) -> Seq<char> {
        self.smirks@
    }

    fn id(&self) -> &String {
        &self.id
    }

    fn smirks(&self) -> &String {
        &self.smirks
    }

    fn typ(&self) -> &'static str {
        "Angle"
    }
}

/// The ordered angle-parameter section of a force field.
#[derive(Clone, Debug)]
pub struct Angles {
    pub version: String,
    pub potential: String,
    pub angles: Vec<Angle>,
}

impl Angles {
    pub fn get(&self, index: usize) -> (r: &Angle)
        requires
            index < self.angles@.len(),
        ensures
            r == &self.angles@[index as int],
    {
        &self.angles[index]
    }

    pub fn len(&self) -> (r: usize)
        ensures
            r == self.angles@.len(),
    {
        self.angles.len()
    }
}

/// A proper-torsion parameter with up to six periodic terms.
#[derive(Clone, Debug)]
pub struct Proper {
    pub smirks: String,
    pub id: String,
    pub periodicity1: String,
    pub phase1: String,
    pub k1: Quantity,
    pub idivf1: String,
    pub periodicity2: Option<String>,
    pub phase2: Option<String>,
    pub k2: Option<Quantity>,
    pub idivf2: Option<String>,
    pub periodicity3: Option<String>,
    pub phase3: Option<String>,
    pub k3: Option<Quantity>,
    pub idivf3: Option<String>,
    pub k4: Option<Quantity>,
    pub k5: Option<Quantity>,
    pub k6: Option<Quantity>,
    pub parameterize: Option<String>,
}

/// The two proper-torsion parameters carry the same text and term values.
pub open spec fn proper_eqv(a: Proper, b: Proper) -> bool {
    &&& a.smirks@ == b.smirks@
    &&& a.id@ == b.id@
    &&& a.periodicity1@ == b.periodicity1@
    &&& a.phase1@ == b.phase1@
    &&& quantity_eqv(a.k1, b.k1)
    &&& a.idivf1@ == b.idivf1@
    &&& option_string_eqv(a.periodicity2, b.periodicity2)
    &&& option_string_eqv(a.phase2, b.phase2)
    &&& option_quantity_eqv(a.k2, b.k2)
    &&& option_string_eqv(a.idivf2, b.idivf2)
    &&& option_string_eqv(a.periodicity3, b.periodicity3)
    &&& option_string_eqv(a.phase3, b.phase3)
    &&& option_quantity_eqv(a.k3, b.k3)
    &&& option_string_eqv(a.idivf3, b.idivf3)
    &&& option_quantity_eqv(a.k4, b.k4)
    &&& option_quantity_eqv(a.k5, b.k5)
    &&& option_quantity_eqv(a.k6, b.k6)
    &&& option_string_eqv(a.parameterize, b.parameterize)
}

impl Proper {
    /// A fresh proper-torsion parameter with the same contents.
    pub fn duplicate(&self) -> (r: Proper)
        ensures
            proper_eqv(*self, r),
    {
        Proper {
            smirks: self.smirks.clone(),
            id: self.id.clone(),
            periodicity1: self.periodicity1.clone(),
            phase1: self.phase1.clone(),
            k1: self.k1.duplicate(),
            idivf1: self.idivf1.clone(),
            periodicity2: clone_option_string(&self.periodicity2),
            phase2: clone_option_string(&self.phase2),
            k2: clone_option_quantity(&self.k2),
            idivf2: clone_option_string(&self.idivf2),
            periodicity3: clone_option_string(&self.periodicity3),
            phase3: clone_option_string(&self.phase3),
            k3: clone_option_quantity(&self.k3),
            idivf3: clone_option_string(&self.idivf3),
            k4: clone_option_quantity(&self.k4),
            k5: clone_option_quantity(&self.k5),
            k6: clone_option_quantity(&self.k6),
            parameterize: clone_option_string(&self.parameterize),
        }
    }

    /// The term value stored under `key`: one of "k1" through "k6".
    pub fn as_hash(&self, key: &String) -> (r: Option<&Quantity>)
        ensures
            key@ == "k1"@ ==> r == Some(&self.k1),
            key@ == "k2"@ ==> option_ref_matches(r, self.k2),
            key@ == "k3"@ ==> option_ref_matches(r, self.k3),
            key@ == "k4"@ ==> option_ref_matches(r, self.k4),
            key@ == "k5"@ ==> option_ref_matches(r, self.k5),
            key@ == "k6"@ ==> option_ref_matches(r, self.k6),
            key@ != "k1"@ && key@ != "k2"@ && key@ != "k3"@ && key@ != "k4"@ && key@ != "k5"@
                && key@ != "k6"@ ==> r is None,
    {
        proof {
            reveal_strlit("k1");
            reveal_strlit("k2");
            reveal_strlit("k3");
            reveal_strlit("k4");
            reveal_strlit("k5");
            reveal_strlit("k6");
            assert(("k1"@)[1] == '1');
            assert(("k2"@)[1] == '2');
            assert(("k3"@)[1] == '3');
            assert(("k4"@)[1] == '4');
            assert(("k5"@)[1] == '5');
            assert(("k6"@)[1] == '6');
        }
        if *key == "k1".to_owned() {
            Some(&self.k1)
        } else if *key == "k2".to_owned() {
            self.k2.as_ref()
        } else if *key == "k3".to_owned() {
            self.k3.as_ref()
        } else if *key == "k4".to_owned() {
            self.k4.as_ref()
        } else if *key == "k5".to_owned() {
            self.k5.as_ref()
        } else if *key == "k6".to_owned() {
            self.k6.as_ref()
        } else {
            None
        }
    }
}

impl Parameter for Proper {
    open spec fn spec_id(&self) -> Seq<char> {
        self.id@
    }

    open spec fn spec_smirks(&self) -> Seq<char> {
        self.smirks@
    }

    fn id(&self) -> &String {
        &self.id
    }

    fn smirks(&self) -> &String {
        &self.smirks
    }

    fn typ(&self) -> &'static str {
        "Proper"
    }
}

/// The ordered proper-torsion section of a force field.
#[derive(Clone, Debug)]
pub struct ProperTorsions {
    pub version: String,
    pub potential: String,
    pub default_idivf: String,
    pub fractional_bondorder_method: String,
    pub fractional_bondorder_interpolation: String,
    pub proper_torsions: Vec<Proper>,
}

impl ProperTorsions {
    pub fn get(&self, index: usize) -> (r: &Proper)
        requires
            index < self.proper_torsions@.len(),
        ensures
            r == &self.proper_torsions@[index as int],
    {
        &self.proper_torsions[index]
    }

    pub fn len(&self) -> (r: usize)
        ensures
            r == self.proper_torsions@.len(),
    {
        self.proper_torsions.len()
    }
}

/// An improper-torsion parameter.
#[derive(Clone, Debug)]
pub struct Improper {
    pub smirks: String,
    pub id: String,
    pub periodicity1: String,
    pub phase1: String,
    pub k1: Quantity,
}

/// The two improper-torsion parameters carry the same text and term values.
pub open spec fn improper_eqv(a: Improper, b: Improper) -> bool {
    &&& a.smirks@ == b.smirks@
    &&& a.id@ == b.id@
    &&& a.periodicity1@ == b.periodicity1@
    &&& a.phase1@ == b.phase1@
    &&& quantity_eqv(a.k1, b.k1)
}

impl Improper {
    /// A fresh improper-torsion parameter with the same contents.
    pub fn duplicate(&self) -> (r: Improper)
        ensures
            improper_eqv(*self, r),
    {
        Improper {
            smirks: self.smirks.clone(),
            id: self.id.clone(),
            periodicity1: self.periodicity1.clone(),
            phase1: self.phase1.clone(),
            k1: self.k1.duplicate(),
        }
    }
}

impl Parameter for Improper {
    open spec fn spec_id(&self) -> Seq<char> {
        self.id@
    }

    open spec fn spec_smirks(&self) -> Seq<char> {
        self.smirks@
    }

    fn id(&self) -> &String {
        &self.id
    }

    fn smirks(&self) -> &String {
        &self.smirks
    }

    fn typ(&self) -> &'static str {
        "Improper"
    }
}

/// The ordered improper-torsion section of a force field.
#[derive(Clone, Debug)]
pub struct ImproperTorsions {
    pub version: String,
    pub potential: String,
    pub default_idivf: String,
    pub improper_torsions: Vec<Improper>,
}

/// A distance-constraint record.
#[derive(Clone, Debug)]
pub struct Constraint {
    pub smirks: String,
    pub id: String,
    pub distance: Option<Quantity>,
}

/// The constraint section of a force field.
#[derive(Clone, Debug)]
pub struct Constraints {
    pub version: String,
    pub constraints: Vec<Constraint>,
}

/// A van der Waals atom record.
#[derive(Clone, Debug)]
pub struct Atom {
    pub smirks: String,
    pub id: String,
    pub epsilon: String,
    pub rmin_half: Option<String>,
}

/// The van der Waals section of a force field.
#[derive(Clone, Debug)]
pub struct Vdw {
    pub version: String,
    pub potential: String,
    pub combining_rules: String,
    pub scale12: String,
    pub scale13: String,
    pub scale14: String,
    pub scale15: String,
    pub cutoff: String,
    pub switch_width: String,
    pub method: String,
    pub atoms: Vec<Atom>,
}

/// The electrostatics section of a force field.
#[derive(Clone, Debug)]
pub struct Electrostatics {
    pub version: String,
    pub scale12: String,
    pub scale13: String,
    pub scale14: String,
    pub scale15: String,
    pub cutoff: String,
    pub switch_width: String,
    pub method: Option<String>,
}

/// A library-charge record.
#[derive(Clone, Debug)]
pub struct LibraryCharge {
    pub smirks: String,
    pub id: String,
    pub charge1: String,
}

/// The library-charge section of a force field.
#[derive(Clone, Debug)]
pub struct LibraryCharges {
    pub version: String,
    pub library_charges: Vec<LibraryCharge>,
}

/// The AM1-BCC charge-method marker section.
#[derive(Clone, Debug)]
pub struct ToolkitAM1BCC {
    pub version: String,
}

/// One force-field parameter of any term category: the closed set of variants
/// a handler can hold, with uniform access to id and pattern.
#[derive(Clone, Debug)]
pub enum ParameterEntry {
    Bond(bonds::Bond),
    Angle(Angle),
    Proper(Proper),
    Improper(Improper),
}

impl Parameter for ParameterEntry {
    open spec fn spec_id(&self) -> Seq<char> {
        match self {
            ParameterEntry::Bond(b) => b.id@,
            ParameterEntry::Angle(a) => a.id@,
            ParameterEntry::Proper(p) => p.id@,
            ParameterEntry::Improper(i) => i.id@,
        }
    }

    open spec fn spec_smirks(&self) -> Seq<char> {
        match self {
            ParameterEntry::Bond(b) => b.smirks@,
            ParameterEntry::Angle(a) => a.smirks@,
            ParameterEntry::Proper(p) => p.smirks@,
            ParameterEntry::Improper(i) => i.smirks@,
        }
    }

    fn id(&self) -> &String {
        match self {
            ParameterEntry::Bond(b) => &b.id,
            ParameterEntry::Angle(a) => &a.id,
            ParameterEntry::Proper(p) => &p.id,
            ParameterEntry::Improper(i) => &i.id,
        }
    }

    fn smirks(&self) -> &String {
        match self {
            ParameterEntry::Bond(b) => &b.smirks,
            ParameterEntry::Angle(a) => &a.smirks,
            ParameterEntry::Proper(p) => &p.smirks,
            ParameterEntry::Improper(i) => &i.smirks,
        }
    }

    fn typ(&self) -> &'static str {
        match self {
            ParameterEntry::Bond(_) => "Bond",
            ParameterEntry::Angle(_) => "Angle",
            ParameterEntry::Proper(_) => "Proper",
            ParameterEntry::Improper(_) => "Improper",
        }
    }
}

/// No two parameters of the list share an id.
pub open spec fn ids_unique(params: Seq<ParameterEntry>) -> bool {
    forall|i: int, j: int|
        0 <= i < j < params.len() ==> (#[trigger] params[i]).spec_id() != (
        #[trigger] params[j]).spec_id()
}

/// First index at or after `i` whose parameter has id `id`; the length if
/// there is none.
pub open spec fn param_find(params: Seq<ParameterEntry>, id: Seq<char>, i: int) -> int
    decreases params.len() - i,
{
    if i < 0 || i >= params.len() {
        params.len() as int
    } else if params[i].spec_id() == id {
        i
    } else {
        param_find(params, id, i + 1)
    }
}

/// An ordered list of parameters of one term category.  Order is
/// semantically significant: a later parameter overrides an earlier one
/// wherever both match.  `symmetric_tuples` records the category's tuple
/// symmetry: true for bonds and angles, whose tuples read the same both ways,
/// false for torsions, whose tuple order is preserved as matched.
#[derive(Clone, Debug)]
pub struct ParameterHandler {
    pub inner: Vec<ParameterEntry>,
    pub symmetric_tuples: bool,
}

impl ParameterHandler {
    /// Build a handler, rejecting duplicate ids: two parameters of one
    /// handler sharing an id is a fatal configuration error.
    pub fn new(inner: Vec<ParameterEntry>, symmetric_tuples: bool) -> (r: Result<
        Self,
        ConfigurationError,
    >)
        ensures
            match r {
                Ok(h) => h.inner == inner && h.symmetric_tuples == symmetric_tuples && ids_unique(
                    inner@,
                ),
                Err(e) => !ids_unique(inner@) && e is DuplicateParameterId,
            },
    {
        let n = inner.len();
        let mut i: usize = 0;
        while i < n
            invariant
                n == inner@.len(),
                i <= n,
                forall|a: int, b: int|
                    0 <= a < b < i ==> (#[trigger] inner@[a]).spec_id() != (
                    #[trigger] inner@[b]).spec_id(),
            decreases n - i,
        {
            let mut j: usize = 0;
            while j < i
                invariant
                    n == inner@.len(),
                    i < n,
                    j <= i,
                    forall|a: int, b: int|
                        0 <= a < b < i ==> (#[trigger] inner@[a]).spec_id() != (
                        #[trigger] inner@[b]).spec_id(),
                    forall|a: int|
                        0 <= a < j ==> (#[trigger] inner@[a]).spec_id() != inner@[i as int].spec_id(),
                decreases i - j,
            {
                if *inner[j].id() == *inner[i].id() {
                    return Err(
                        ConfigurationError::DuplicateParameterId { id: inner[i].id().clone() },
                    );
                }
                j = j + 1;
            }
            i = i + 1;
        }
        Ok(ParameterHandler { inner, symmetric_tuples })
    }

    /// Look a parameter up by id.  Absence is a normal negative result, not
    /// an error: the first parameter with the id is returned if one exists.
    pub fn get_parameter_by_id(&self, id: &String) -> (r: Option<&ParameterEntry>)
        ensures
            match r {
                Some(p) => param_find(self.inner@, id@, 0) < self.inner@.len() && *p
                    == self.inner@[param_find(self.inner@, id@, 0)],
                None => param_find(self.inner@, id@, 0) == self.inner@.len(),
            },
    {
        let n = self.inner.len();
        let mut i: usize = 0;
        while i < n
            invariant
                n == self.inner@.len(),
                i <= n,
                param_find(self.inner@, id@, 0) == param_find(self.inner@, id@, i as int),
            decreases n - i,
        {
            if *self.inner[i].id() == *id {
                return Some(&self.inner[i]);
            }
            i = i + 1;
        }
        None
    }
}

/// The views of a match map held as an association list: (atom tuple,
/// parameter id) pairs with unique keys.
pub open spec fn assoc_views(s: Seq<(Vec<usize>, String)>) -> Seq<(Seq<usize>, Seq<char>)> {
    s.map_values(|kv: (Vec<usize>, String)| (kv.0@, kv.1@))
}

/// First position at or after `i` holding `key`; the length if there is none.
pub open spec fn assoc_find(m: Seq<(Seq<usize>, Seq<char>)>, key: Seq<usize>, i: int) -> int
    decreases m.len() - i,
{
    if i < 0 || i >= m.len() {
        m.len() as int
    } else if m[i].0 == key {
        i
    } else {
        assoc_find(m, key, i + 1)
    }
}

/// The map holds an entry for `key`.
pub open spec fn assoc_has(m: Seq<(Seq<usize>, Seq<char>)>, key: Seq<usize>) -> bool {
    assoc_find(m, key, 0) < m.len()
}

/// The value stored under `key`, if any.
pub open spec fn assoc_get(m: Seq<(Seq<usize>, Seq<char>)>, key: Seq<usize>) -> Option<Seq<char>> {
    if assoc_has(m, key) {
        Some(m[assoc_find(m, key, 0)].1)
    } else {
        None
    }
}

/// Insert-or-overwrite: replace the value at `key` if present, else append
/// the pair.
pub open spec fn assoc_insert(
    m: Seq<(Seq<usize>, Seq<char>)>,
    key: Seq<usize>,
    val: Seq<char>,
) -> Seq<(Seq<usize>, Seq<char>)> {
    if assoc_has(m, key) {
        m.update(assoc_find(m, key, 0), (key, val))
    } else {
        m.push((key, val))
    }
}

/// The canonical key of a matched atom tuple.  For a symmetric term category
/// (bonds, angles) a tuple and its reverse name one physical interaction, so
/// the orientation with the smaller first index is the key; an asymmetric
/// category (torsions) keeps tuples exactly as matched.
pub open spec fn spec_canonical(t: Seq<usize>, symmetric: bool) -> Seq<usize> {
    if symmetric && t.len() > 0 && t[t.len() - 1] < t[0] {
        t.reverse()
    } else {
        t
    }
}

/// The map after writing the first `k` matched tuples of one parameter, in
/// order, each under its canonical key.
pub open spec fn insert_matches(
    m: Seq<(Seq<usize>, Seq<char>)>,
    tuples: Seq<Seq<usize>>,
    id: Seq<char>,
    symmetric: bool,
    k: int,
) -> Seq<(Seq<usize>, Seq<char>)>
    decreases k,
{
    if k <= 0 {
        m
    } else {
        assoc_insert(
            insert_matches(m, tuples, id, symmetric, k - 1),
            spec_canonical(tuples[k - 1], symmetric),
            id,
        )
    }
}

/// The match map after the first `p` parameters of the list have written
/// their matches, in list order: the hierarchical-override fold.
pub open spec fn handler_matches<M: PatternMatcher>(
    params: Seq<ParameterEntry>,
    symmetric: bool,
    mol: Molecule,
    matcher: M,
    p: int,
) -> Seq<(Seq<usize>, Seq<char>)>
    decreases p,
{
    if p <= 0 {
        Seq::empty()
    } else {
        let m = handler_matches(params, symmetric, mol, matcher, p - 1);
        let tuples = matcher.pattern_matches(mol, params[p - 1].spec_smirks());
        insert_matches(m, tuples, params[p - 1].spec_id(), symmetric, tuples.len() as int)
    }
}

/// Parameter `p` of the list matches `key` in the molecule: some tuple the
/// matcher returns for its pattern canonicalizes to `key`.
pub open spec fn param_matches_key<M: PatternMatcher>(
    params: Seq<ParameterEntry>,
    p: int,
    symmetric: bool,
    mol: Molecule,
    matcher: M,
    key: Seq<usize>,
) -> bool {
    exists|x: int|
        0 <= x < matcher.pattern_matches(mol, params[p].spec_smirks()).len() && spec_canonical(
            #[trigger] matcher.pattern_matches(mol, params[p].spec_smirks())[x],
            symmetric,
        ) == key
}

fn tuples_equal(a: &Vec<usize>, b: &Vec<usize>) -> (r: bool)
    ensures
        r == (a@ == b@),
{
    if a.len() != b.len() {
        return false;
    }
    let mut k: usize = 0;
    while k < a.len()
        invariant
            a@.len() == b@.len(),
            k <= a@.len(),
            forall|l: int| 0 <= l < k ==> a@[l] == b@[l],
        decreases a@.len() - k,
    {
        if a[k] != b[k] {
            return false;
        }
        k = k + 1;
    }
    proof {
        assert(a@ =~= b@);
    }
    true
}

/// The canonical key of `t` as a fresh vector.
pub fn canonical_tuple(t: &Vec<usize>, symmetric: bool) -> (r: Vec<usize>)
    ensures
        r@ == spec_canonical(t@, symmetric),
{
    if symmetric && t.len() > 0 && t[t.len() - 1] < t[0] {
        let mut r: Vec<usize> = Vec::new();
        let mut k: usize = t.len();
        while k > 0
            invariant
                k <= t@.len(),
                r@.len() == t@.len() - k,
                forall|l: int| 0 <= l < r@.len() ==> (#[trigger] r@[l]) == t@[t@.len() - 1 - l],
            decreases k,
        {
            k = k - 1;
            r.push(t[k]);
        }
        proof {
            assert(r@ =~= t@.reverse());
        }
        r
    } else {
        crate::topology::molecule::copy_indices(t)
    }
}

/// The canonical key of a valid tuple is valid: reversal permutes indices.
pub proof fn lemma_canonical_valid(t: Seq<usize>, symmetric: bool, n: int)
    requires
        valid_tuple(t, n),
    ensures
        valid_tuple(spec_canonical(t, symmetric), n),
{
    let c = spec_canonical(t, symmetric);
    assert forall|k: int| 0 <= k < c.len() implies (#[trigger] c[k]) < n by {
        if symmetric && t.len() > 0 && t[t.len() - 1] < t[0] {
            assert(c[k] == t[t.len() - k - 1]);
        }
    }
}

/// Write `val` under `key`, replacing the value if the key is present.  Every
/// key of the result is `key` or a key the map already had.
fn assoc_set(m: &mut Vec<(Vec<usize>, String)>, key: Vec<usize>, val: String)
    ensures
        assoc_views(final(m)@) == assoc_insert(assoc_views(old(m)@), key@, val@),
        forall|x: int|
            0 <= x < final(m)@.len() ==> ((#[trigger] final(m)@[x]).0@ == key@ || exists|y: int|
                0 <= y < old(m)@.len() && (#[trigger] old(m)@[y]).0@ == final(m)@[x].0@),
{
    let ghost mv = assoc_views(m@);
    let n = m.len();
    let mut i: usize = 0;
    while i < n
        invariant
            m@ == old(m)@,
            mv == assoc_views(m@),
            n == m@.len(),
            i <= n,
            assoc_find(mv, key@, 0) == assoc_find(mv, key@, i as int),
        decreases n - i,
    {
        if tuples_equal(&m[i].0, &key) {
            proof {
                assert(mv[i as int].0 == m@[i as int].0@);
                assert(assoc_find(mv, key@, i as int) == i);
                assert(assoc_find(mv, key@, 0) == i);
                assert(assoc_has(mv, key@));
            }
            m[i] = (key, val);
            proof {
                assert(assoc_views(m@) =~= mv.update(i as int, (key@, val@)));
                assert(assoc_insert(mv, key@, val@) == mv.update(i as int, (key@, val@)));
            }
            return ;
        }
        proof {
            assert(mv[i as int].0 == m@[i as int].0@);
        }
        i = i + 1;
    }
    proof {
        assert(assoc_find(mv, key@, n as int) == n);
        assert(!assoc_has(mv, key@));
    }
    m.push((key, val));
    proof {
        assert(assoc_views(m@) =~= mv.push((key@, val@)));
    }
}

impl ParameterHandler {
    /// The final atom-tuple-to-parameter-id assignment for one molecule.
    ///
    /// The parameters are traversed in list order and each one's matches are
    /// written unconditionally into the map under canonical keys, so the last
    /// parameter in list order whose pattern matches a tuple determines the
    /// tuple's final id.  A tuple no pattern matches is absent from the map.
    /// The pattern matcher is consulted exactly once per parameter.
    pub fn find_matches<M: PatternMatcher>(&self, molecule: &Molecule, matcher: &M) -> (r: Vec<
        (Vec<usize>, String),
    >)
        ensures
            assoc_views(r@) == handler_matches(
                self.inner@,
                self.symmetric_tuples,
                *molecule,
                *matcher,
                self.inner@.len() as int,
            ),
            forall|x: int|
                0 <= x < r@.len() ==> valid_tuple(
                    (#[trigger] r@[x]).0@,
                    molecule.atoms@.len() as int,
                ),
    {
        let ghost params = self.inner@;
        let ghost sym = self.symmetric_tuples;
        let mut r: Vec<(Vec<usize>, String)> = Vec::new();
        let mut p: usize = 0;
        proof {
            assert(assoc_views(r@) =~= Seq::<(Seq<usize>, Seq<char>)>::empty());
        }
        while p < self.inner.len()
            invariant
                params == self.inner@,
                sym == self.symmetric_tuples,
                p <= params.len(),
                assoc_views(r@) == handler_matches(params, sym, *molecule, *matcher, p as int),
                forall|x: int|
                    0 <= x < r@.len() ==> valid_tuple(
                        (#[trigger] r@[x]).0@,
                        molecule.atoms@.len() as int,
                    ),
            decreases params.len() - p,
        {
            let param = &self.inner[p];
            let tuples = matcher.match_pattern(molecule, param.smirks());
            let ghost tv = matcher.pattern_matches(*molecule, param.spec_smirks());
            let ghost base = handler_matches(params, sym, *molecule, *matcher, p as int);
            let mut t: usize = 0;
            while t < tuples.len()
                invariant
                    params == self.inner@,
                    sym == self.symmetric_tuples,
                    p < params.len(),
                    param == &params[p as int],
                    tuple_views(tuples@) == tv,
                    matches_valid(tv, molecule.atoms@.len() as int),
                    t <= tuples@.len(),
                    assoc_views(r@) == insert_matches(base, tv, param.spec_id(), sym, t as int),
                    forall|x: int|
                        0 <= x < r@.len() ==> valid_tuple(
                            (#[trigger] r@[x]).0@,
                            molecule.atoms@.len() as int,
                        ),
                decreases tuples@.len() - t,
            {
                let key = canonical_tuple(&tuples[t], self.symmetric_tuples);
                proof {
                    assert(tv[t as int] == tuples@[t as int]@);
                    assert(valid_tuple(tv[t as int], molecule.atoms@.len() as int));
                    lemma_canonical_valid(tv[t as int], sym, molecule.atoms@.len() as int);
                }
                let ghost rpre = r@;
                assoc_set(&mut r, key, param.id().clone());
                proof {
                    assert forall|x: int| 0 <= x < r@.len() implies valid_tuple(
                        (#[trigger] r@[x]).0@,
                        molecule.atoms@.len() as int,
                    ) by {
                        if r@[x].0@ != key@ {
                            let y = choose|y: int|
                                0 <= y < rpre.len() && (#[trigger] rpre[y]).0@ == r@[x].0@;
                            assert(valid_tuple(rpre[y].0@, molecule.atoms@.len() as int));
                        }
                    }
                }
                t = t + 1;
            }
            proof {
                assert(handler_matches(params, sym, *molecule, *matcher, p + 1) == insert_matches(
                    base,
                    tv,
                    params[p as int].spec_id(),
                    sym,
                    tv.len() as int,
                ));
            }
            p = p + 1;
        }
        r
    }
}

/// The value that an association lookup finds, exactly: `match_for` is how a
/// caller reads the map that `find_matches` builds.
pub fn match_for<'a>(matches: &'a Vec<(Vec<usize>, String)>, key: &Vec<usize>) -> (r: Option<
    &'a String,
>)
    ensures
        match r {
            Some(v) => assoc_get(assoc_views(matches@), key@) == Some(v@),
            None => assoc_get(assoc_views(matches@), key@) is None,
        },
{
    let ghost mv = assoc_views(matches@);
    let n = matches.len();
    let mut i: usize = 0;
    while i < n
        invariant
            mv == assoc_views(matches@),
            n == matches@.len(),
            i <= n,
            assoc_find(mv, key@, 0) == assoc_find(mv, key@, i as int),
        decreases n - i,
    {
        if tuples_equal(&matches[i].0, key) {
            proof {
                assert(assoc_find(mv, key@, i as int) == i);
            }
            return Some(&matches[i].1);
        }
        i = i + 1;
    }
    None
}

proof fn lemma_assoc_find_props(m: Seq<(Seq<usize>, Seq<char>)>, key: Seq<usize>, i: int)
    requires
        0 <= i <= m.len(),
    ensures
        i <= assoc_find(m, key, i) <= m.len(),
        assoc_find(m, key, i) < m.len() ==> m[assoc_find(m, key, i)].0 == key,
        forall|l: int| i <= l < assoc_find(m, key, i) ==> (#[trigger] m[l]).0 != key,
    decreases m.len() - i,
{
    if i < m.len() && m[i].0 != key {
        lemma_assoc_find_props(m, key, i + 1);
    }
}

proof fn lemma_assoc_find_frame(
    m1: Seq<(Seq<usize>, Seq<char>)>,
    m2: Seq<(Seq<usize>, Seq<char>)>,
    key: Seq<usize>,
    i: int,
)
    requires
        m1.len() == m2.len(),
        forall|l: int| 0 <= l < m1.len() ==> ((#[trigger] m1[l]).0 == key <==> m2[l].0 == key),
    ensures
        assoc_find(m1, key, i) == assoc_find(m2, key, i),
    decreases m1.len() - i,
{
    if 0 <= i < m1.len() && m1[i].0 != key {
        lemma_assoc_find_frame(m1, m2, key, i + 1);
    }
}

/// Reading a map after an insert: the inserted key now holds the new value,
/// every other key is untouched.
proof fn lemma_assoc_insert_get(
    m: Seq<(Seq<usize>, Seq<char>)>,
    key: Seq<usize>,
    val: Seq<char>,
    key2: Seq<usize>,
)
    ensures
        assoc_get(assoc_insert(m, key, val), key2) == if key2 == key {
            Some(val)
        } else {
            assoc_get(m, key2)
        },
{
    lemma_assoc_find_props(m, key, 0);
    lemma_assoc_find_props(m, key2, 0);
    let f = assoc_find(m, key, 0);
    if assoc_has(m, key) {
        let u = m.update(f, (key, val));
        assert forall|l: int| 0 <= l < m.len() implies ((#[trigger] m[l]).0 == key2 <==> u[l].0
            == key2) by {
            if l == f {
                assert(m[l].0 == key);
                assert(u[l].0 == key);
            }
        }
        lemma_assoc_find_frame(m, u, key2, 0);
        lemma_assoc_find_props(u, key2, 0);
    } else {
        let u = m.push((key, val));
        lemma_assoc_find_props(u, key2, 0);
        if key2 == key {
            assert forall|l: int| 0 <= l < m.len() implies (#[trigger] u[l]).0 != key by {
                assert(u[l] == m[l]);
            }
            assert(assoc_find(u, key, 0) == m.len() as int) by {
                lemma_assoc_find_props(u, key, 0);
                if assoc_find(u, key, 0) < m.len() {
                    assert(u[assoc_find(u, key, 0)].0 == key);
                }
                assert(u[m.len() as int].0 == key);
                if assoc_find(u, key, 0) == u.len() {
                    assert(forall|l: int|
                        0 <= l < u.len() ==> (#[trigger] u[l]).0 != key);
                }
            }
        } else {
            assert forall|l: int| 0 <= l < u.len() implies ((#[trigger] u[l]).0 == key2 <==> l
                < m.len() && m[l].0 == key2) by {
                if l < m.len() {
                    assert(u[l] == m[l]);
                } else {
                    assert(u[l].0 == key);
                }
            }
            if assoc_has(m, key2) {
                let f2 = assoc_find(m, key2, 0);
                assert(u[f2] == m[f2]);
                assert(assoc_find(u, key2, 0) == f2) by {
                    lemma_assoc_find_props(u, key2, 0);
                    let fu = assoc_find(u, key2, 0);
                    if fu < f2 {
                        assert(u[fu].0 == key2);
                        assert(m[fu].0 == key2);
                    } else if f2 < fu {
                        assert(u[f2].0 == key2);
                    }
                }
            } else {
                lemma_assoc_find_props(u, key2, 0);
                if assoc_find(u, key2, 0) < u.len() {
                    let fu = assoc_find(u, key2, 0);
                    assert(u[fu].0 == key2);
                    assert(fu < m.len() ==> m[fu].0 == key2);
                }
            }
        }
    }
}

/// Reading a map after one parameter wrote all its matches: a key some tuple
/// canonicalizes to holds that parameter's id, every other key is untouched.
proof fn lemma_insert_matches_get(
    m: Seq<(Seq<usize>, Seq<char>)>,
    tuples: Seq<Seq<usize>>,
    id: Seq<char>,
    symmetric: bool,
    k: int,
    key: Seq<usize>,
)
    requires
        0 <= k <= tuples.len(),
    ensures
        assoc_get(insert_matches(m, tuples, id, symmetric, k), key) == if exists|x: int|
            0 <= x < k && spec_canonical(#[trigger] tuples[x], symmetric) == key {
            Some(id)
        } else {
            assoc_get(m, key)
        },
    decreases k,
{
    if k > 0 {
        lemma_insert_matches_get(m, tuples, id, symmetric, k - 1, key);
        lemma_assoc_insert_get(
            insert_matches(m, tuples, id, symmetric, k - 1),
            spec_canonical(tuples[k - 1], symmetric),
            id,
            key,
        );
        if spec_canonical(tuples[k - 1], symmetric) == key {
            assert(exists|x: int|
                0 <= x < k && spec_canonical(#[trigger] tuples[x], symmetric) == key);
        }
    }
}

/// One step of the hierarchical fold: after `p` parameters, a key matched by
/// parameter `p - 1` holds that parameter's id; any other key holds what the
/// first `p - 1` parameters left there.
pub proof fn lemma_handler_matches_step<M: PatternMatcher>(
    params: Seq<ParameterEntry>,
    symmetric: bool,
    mol: Molecule,
    matcher: M,
    p: int,
    key: Seq<usize>,
)
    requires
        0 < p <= params.len(),
    ensures
        assoc_get(handler_matches(params, symmetric, mol, matcher, p), key) == if param_matches_key(
            params,
            p - 1,
            symmetric,
            mol,
            matcher,
            key,
        ) {
            Some(params[p - 1].spec_id())
        } else {
            assoc_get(handler_matches(params, symmetric, mol, matcher, p - 1), key)
        },
{
    let m = handler_matches(params, symmetric, mol, matcher, p - 1);
    let tuples = matcher.pattern_matches(mol, params[p - 1].spec_smirks());
    lemma_insert_matches_get(m, tuples, params[p - 1].spec_id(), symmetric, tuples.len() as int, key);
}

/// THE HIERARCHICAL OVERRIDE LAW.  If parameter `q` matches `key` and no
/// parameter registered after `q` matches it, the final map assigns `key`
/// the id of parameter `q`: among all parameters whose pattern matches a
/// tuple, the one listed last takes effect.
pub proof fn lemma_hierarchical_override<M: PatternMatcher>(
    params: Seq<ParameterEntry>,
    symmetric: bool,
    mol: Molecule,
    matcher: M,
    key: Seq<usize>,
    q: int,
    p: int,
)
    requires
        0 <= q < p <= params.len(),
        param_matches_key(params, q, symmetric, mol, matcher, key),
        forall|later: int|
            q < later < p ==> !param_matches_key(params, later, symmetric, mol, matcher, key),
    ensures
        assoc_get(handler_matches(params, symmetric, mol, matcher, p), key) == Some(
            params[q].spec_id(),
        ),
    decreases p,
{
    lemma_handler_matches_step(params, symmetric, mol, matcher, p, key);
    if p - 1 == q {
    } else {
        lemma_hierarchical_override(params, symmetric, mol, matcher, key, q, p - 1);
    }
}

/// A tuple no parameter matches is absent from the final map: nothing is
/// silently defaulted, so coverage gaps are visible to the caller.
pub proof fn lemma_unmatched_key_absent<M: PatternMatcher>(
    params: Seq<ParameterEntry>,
    symmetric: bool,
    mol: Molecule,
    matcher: M,
    key: Seq<usize>,
    p: int,
)
    requires
        0 <= p <= params.len(),
        forall|q: int| 0 <= q < p ==> !param_matches_key(params, q, symmetric, mol, matcher, key),
    ensures
        assoc_get(handler_matches(params, symmetric, mol, matcher, p), key) is None,
    decreases p,
{
    if p > 0 {
        lemma_handler_matches_step(params, symmetric, mol, matcher, p, key);
        lemma_unmatched_key_absent(params, symmetric, mol, matcher, key, p - 1);
    } else {
        lemma_assoc_find_props(handler_matches(params, symmetric, mol, matcher, 0), key, 0);
    }
}

/// The two parameters are the same variant with the same text and term
/// values.
pub open spec fn entry_eqv(x: ParameterEntry, y: ParameterEntry) -> bool {
    match (x, y) {
        (ParameterEntry::Bond(a), ParameterEntry::Bond(b)) => bonds::bond_eqv(a, b),
        (ParameterEntry::Angle(a), ParameterEntry::Angle(b)) => angle_eqv(a, b),
        (ParameterEntry::Proper(a), ParameterEntry::Proper(b)) => proper_eqv(a, b),
        (ParameterEntry::Improper(a), ParameterEntry::Improper(b)) => improper_eqv(a, b),
        _ => false,
    }
}

/// The two parameter lists agree entry by entry.
pub open spec fn entries_eqv(a: Seq<ParameterEntry>, b: Seq<ParameterEntry>) -> bool {
    a.len() == b.len() && forall|i: int| 0 <= i < a.len() ==> entry_eqv(#[trigger] a[i], b[i])
}

/// Equivalent entries carry equal ids and patterns.
pub proof fn lemma_entry_eqv_texts(x: ParameterEntry, y: ParameterEntry)
    requires
        entry_eqv(x, y),
    ensures
        x.spec_id() == y.spec_id(),
        x.spec_smirks() == y.spec_smirks(),
{
}

/// The hierarchical fold reads only each parameter's id and pattern text, so
/// entry-equivalent lists build equal match maps.
pub proof fn lemma_handler_matches_congruence<M: PatternMatcher>(
    a: Seq<ParameterEntry>,
    b: Seq<ParameterEntry>,
    symmetric: bool,
    mol: Molecule,
    matcher: M,
    p: int,
)
    requires
        entries_eqv(a, b),
        0 <= p <= a.len(),
    ensures
        handler_matches(a, symmetric, mol, matcher, p) == handler_matches(
            b,
            symmetric,
            mol,
            matcher,
            p,
        ),
    decreases p,
{
    if p > 0 {
        lemma_handler_matches_congruence(a, b, symmetric, mol, matcher, p - 1);
        lemma_entry_eqv_texts(a[p - 1], b[p - 1]);
    }
}

/// Entry-equivalent lists agree on id uniqueness.
pub proof fn lemma_ids_unique_congruence(a: Seq<ParameterEntry>, b: Seq<ParameterEntry>)
    requires
        entries_eqv(a, b),
    ensures
        ids_unique(a) == ids_unique(b),
{
    assert forall|i: int| 0 <= i < a.len() implies (#[trigger] a[i]).spec_id()
        == b[i].spec_id() by {
        lemma_entry_eqv_texts(a[i], b[i]);
    }
    if ids_unique(a) {
        assert forall|i: int, j: int| 0 <= i < j < b.len() implies (#[trigger] b[i]).spec_id() != (
        #[trigger] b[j]).spec_id() by {
            assert(a[i].spec_id() != a[j].spec_id());
        }
    }
    if ids_unique(b) {
        assert forall|i: int, j: int| 0 <= i < j < a.len() implies (#[trigger] a[i]).spec_id() != (
        #[trigger] a[j]).spec_id() by {
            assert(b[i].spec_id() != b[j].spec_id());
        }
    }
}

/// The override law in its two-parameter form.  With parameters `[a, b]`
/// registered in that order, every tuple `b` matches is labeled with `b`'s
/// id, and every tuple only `a` matches is labeled with `a`'s id.
pub proof fn lemma_two_parameter_override<M: PatternMatcher>(
    h: ParameterHandler,
    mol: Molecule,
    matcher: M,
    key: Seq<usize>,
)
    requires
        h.inner@.len() == 2,
    ensures
        param_matches_key(h.inner@, 1, h.symmetric_tuples, mol, matcher, key) ==> assoc_get(
            handler_matches(h.inner@, h.symmetric_tuples, mol, matcher, 2),
            key,
        ) == Some(h.inner@[1].spec_id()),
        param_matches_key(h.inner@, 0, h.symmetric_tuples, mol, matcher, key)
            && !param_matches_key(h.inner@, 1, h.symmetric_tuples, mol, matcher, key) ==> assoc_get(
            handler_matches(h.inner@, h.symmetric_tuples, mol, matcher, 2),
            key,
        ) == Some(h.inner@[0].spec_id()),
{
    if param_matches_key(h.inner@, 1, h.symmetric_tuples, mol, matcher, key) {
        lemma_hierarchical_override(h.inner@, h.symmetric_tuples, mol, matcher, key, 1, 2);
    } else if param_matches_key(h.inner@, 0, h.symmetric_tuples, mol, matcher, key) {
        lemma_hierarchical_override(h.inner@, h.symmetric_tuples, mol, matcher, key, 0, 2);
    }
}

/// The bond section as handler entries.
pub open spec fn bond_entries(s: Seq<bonds::Bond>) -> Seq<ParameterEntry> {
    s.map_values(|b: bonds::Bond| ParameterEntry::Bond(b))
}

/// The angle section as handler entries.
pub open spec fn angle_entries(s: Seq<Angle>) -> Seq<ParameterEntry> {
    s.map_values(|a: Angle| ParameterEntry::Angle(a))
}

/// The proper-torsion section as handler entries.
pub open spec fn proper_entries(s: Seq<Proper>) -> Seq<ParameterEntry> {
    s.map_values(|p: Proper| ParameterEntry::Proper(p))
}

/// The improper-torsion section as handler entries.
pub open spec fn improper_entries(s: Seq<Improper>) -> Seq<ParameterEntry> {
    s.map_values(|i: Improper| ParameterEntry::Improper(i))
}

/// A SMIRNOFF force field: metadata and the ordered parameter sections.
#[derive(Clone, Debug)]
pub struct ForceField {
    pub version: String,
    pub aromaticity_model: String,
    pub author: String,
    pub date: String,
    pub constraints: Constraints,
    pub bonds: bonds::Bonds,
    pub angles: Angles,
    pub proper_torsions: ProperTorsions,
    pub improper_torsions: ImproperTorsions,
    pub vdw: Vdw,
    pub electrostatics: Electrostatics,
    pub library_charges: LibraryCharges,
    pub toolkit_am1_bcc: ToolkitAM1BCC,
}

/// `tag` names one of the four term categories a force field defines handlers
/// for.
pub open spec fn known_tag(tag: Seq<char>) -> bool {
    tag == "Bonds"@ || tag == "Angles"@ || tag == "ProperTorsions"@ || tag == "ImproperTorsions"@
}

/// The entries that the handler for `tag` holds, as the force field defines
/// them; meaningful only for a known tag.
pub open spec fn tag_entries(ff: ForceField, tag: Seq<char>) -> Seq<ParameterEntry> {
    if tag == "Bonds"@ {
        bond_entries(ff.bonds.bonds@)
    } else if tag == "Angles"@ {
        angle_entries(ff.angles.angles@)
    } else if tag == "ProperTorsions"@ {
        proper_entries(ff.proper_torsions.proper_torsions@)
    } else {
        improper_entries(ff.improper_torsions.improper_torsions@)
    }
}

/// Whether tuples of the category `tag` are symmetric under reversal: bonds
/// and angles are, torsions are not.
pub open spec fn tag_symmetric(tag: Seq<char>) -> bool {
    tag == "Bonds"@ || tag == "Angles"@
}

proof fn lemma_known_tags_distinct()
    ensures
        "Bonds"@ != "Angles"@,
        "Bonds"@ != "ProperTorsions"@,
        "Bonds"@ != "ImproperTorsions"@,
        "Angles"@ != "ProperTorsions"@,
        "Angles"@ != "ImproperTorsions"@,
        "ProperTorsions"@ != "ImproperTorsions"@,
{
    reveal_strlit("Bonds");
    reveal_strlit("Angles");
    reveal_strlit("ProperTorsions");
    reveal_strlit("ImproperTorsions");
    assert("Bonds"@.len() == 5);
    assert("Angles"@.len() == 6);
    assert("ProperTorsions"@.len() == 14);
    assert("ImproperTorsions"@.len() == 16);
}

impl ForceField {
    /// Build the handler for one term category.  An unknown category name is
    /// a fatal configuration error, as is a duplicated parameter id within
    /// the section; otherwise the handler holds the section's parameters in
    /// order, with the category's tuple symmetry.
    pub fn get_parameter_handler(&self, parameter_type: &String) -> (r: Result<
        ParameterHandler,
        ConfigurationError,
    >)
        ensures
            match r {
                Ok(h) => known_tag(parameter_type@) && h.symmetric_tuples == tag_symmetric(
                    parameter_type@,
                ) && entries_eqv(h.inner@, tag_entries(*self, parameter_type@)) && ids_unique(
                    tag_entries(*self, parameter_type@),
                ),
                Err(e) => match e {
                    ConfigurationError::UnknownParameterType { tag } => !known_tag(parameter_type@)
                        && tag@ == parameter_type@,
                    ConfigurationError::DuplicateParameterId { id: _ } => known_tag(
                        parameter_type@,
                    ) && !ids_unique(tag_entries(*self, parameter_type@)),
                },
            },
    {
        proof {
            lemma_known_tags_distinct();
        }
        if *parameter_type == "Bonds".to_owned() {
            let ghost target = bond_entries(self.bonds.bonds@);
            let mut entries: Vec<ParameterEntry> = Vec::new();
            let mut i: usize = 0;
            while i < self.bonds.bonds.len()
                invariant
                    target == bond_entries(self.bonds.bonds@),
                    i <= self.bonds.bonds@.len(),
                    entries@.len() == i,
                    forall|l: int| 0 <= l < i ==> entry_eqv(#[trigger] entries@[l], target[l]),
                decreases self.bonds.bonds@.len() - i,
            {
                entries.push(ParameterEntry::Bond(self.bonds.bonds[i].duplicate()));
                i = i + 1;
            }
            proof {
                lemma_ids_unique_congruence(entries@, target);
            }
            ParameterHandler::new(entries, true)
        } else if *parameter_type == "Angles".to_owned() {
            let ghost target = angle_entries(self.angles.angles@);
            let mut entries: Vec<ParameterEntry> = Vec::new();
            let mut i: usize = 0;
            while i < self.angles.angles.len()
                invariant
                    target == angle_entries(self.angles.angles@),
                    i <= self.angles.angles@.len(),
                    entries@.len() == i,
                    forall|l: int| 0 <= l < i ==> entry_eqv(#[trigger] entries@[l], target[l]),
                decreases self.angles.angles@.len() - i,
            {
                entries.push(ParameterEntry::Angle(self.angles.angles[i].duplicate()));
                i = i + 1;
            }
            proof {
                lemma_ids_unique_congruence(entries@, target);
            }
            ParameterHandler::new(entries, true)
        } else if *parameter_type == "ProperTorsions".to_owned() {
            let ghost target = proper_entries(self.proper_torsions.proper_torsions@);
            let mut entries: Vec<ParameterEntry> = Vec::new();
            let mut i: usize = 0;
            while i < self.proper_torsions.proper_torsions.len()
                invariant
                    target == proper_entries(self.proper_torsions.proper_torsions@),
                    i <= self.proper_torsions.proper_torsions@.len(),
                    entries@.len() == i,
                    forall|l: int| 0 <= l < i ==> entry_eqv(#[trigger] entries@[l], target[l]),
                decreases self.proper_torsions.proper_torsions@.len() - i,
            {
                entries.push(
                    ParameterEntry::Proper(self.proper_torsions.proper_torsions[i].duplicate()),
                );
                i = i + 1;
            }
            proof {
                lemma_ids_unique_congruence(entries@, target);
            }
            ParameterHandler::new(entries, false)
        } else if *parameter_type == "ImproperTorsions".to_owned() {
            let ghost target = improper_entries(self.improper_torsions.improper_torsions@);
            let mut entries: Vec<ParameterEntry> = Vec::new();
            let mut i: usize = 0;
            while i < self.improper_torsions.improper_torsions.len()
                invariant
                    target == improper_entries(self.improper_torsions.improper_torsions@),
                    i <= self.improper_torsions.improper_torsions@.len(),
                    entries@.len() == i,
                    forall|l: int| 0 <= l < i ==> entry_eqv(#[trigger] entries@[l], target[l]),
                decreases self.improper_torsions.improper_torsions@.len() - i,
            {
                entries.push(
                    ParameterEntry::Improper(
                        self.improper_torsions.improper_torsions[i].duplicate(),
                    ),
                );
                i = i + 1;
            }
            proof {
                lemma_ids_unique_congruence(entries@, target);
            }
            ParameterHandler::new(entries, false)
        } else {
            Err(ConfigurationError::UnknownParameterType { tag: parameter_type.clone() })
        }
    }

    /// The four handlers of the force field, tagged, in the fixed order
    /// bonds, angles, proper torsions, improper torsions.
    /// The call succeeds if and only if every section's ids are unique; a
    /// duplicate anywhere is the one configuration error this request can
    /// raise.
    pub fn parameter_handlers(&self) -> (r: Result<
        Vec<(String, ParameterHandler)>,
        ConfigurationError,
    >)
        ensures
            match r {
                Ok(v) => sections_unique(*self) && v@.len() == 4 && (forall|k: int|
                    0 <= k < 4 ==> {
                        let tag = (#[trigger] v@[k]).0@;
                        &&& known_tag(tag)
                        &&& (k == 0 ==> tag == "Bonds"@)
                        &&& (k == 1 ==> tag == "Angles"@)
                        &&& (k == 2 ==> tag == "ProperTorsions"@)
                        &&& (k == 3 ==> tag == "ImproperTorsions"@)
                        &&& v@[k].1.symmetric_tuples == tag_symmetric(tag)
                        &&& entries_eqv(v@[k].1.inner@, tag_entries(*self, tag))
                        &&& ids_unique(tag_entries(*self, tag))
                    }),
                Err(e) => e is DuplicateParameterId && !sections_unique(*self),
            },
    {
        proof {
            lemma_known_tags_distinct();
        }
        let mut r: Vec<(String, ParameterHandler)> = Vec::new();
        let b = self.get_parameter_handler(&"Bonds".to_owned())?;
        r.push(("Bonds".to_owned(), b));
        let a = self.get_parameter_handler(&"Angles".to_owned())?;
        r.push(("Angles".to_owned(), a));
        let p = self.get_parameter_handler(&"ProperTorsions".to_owned())?;
        r.push(("ProperTorsions".to_owned(), p));
        let i = self.get_parameter_handler(&"ImproperTorsions".to_owned())?;
        r.push(("ImproperTorsions".to_owned(), i));
        Ok(r)
    }
}

/// Every parameter section of the force field has unique ids: the condition
/// under which handler construction and labeling are owed success.
pub open spec fn sections_unique(ff: ForceField) -> bool {
    &&& ids_unique(bond_entries(ff.bonds.bonds@))
    &&& ids_unique(angle_entries(ff.angles.angles@))
    &&& ids_unique(proper_entries(ff.proper_torsions.proper_torsions@))
    &&& ids_unique(improper_entries(ff.improper_torsions.improper_torsions@))
}

/// An association list with every key carried through the atom map `amap` and
/// rebased at `offset`; values are untouched, so the multiset of assigned ids
/// is exactly that of the source list.
pub open spec fn remap_assoc(
    m: Seq<(Seq<usize>, Seq<char>)>,
    amap: Seq<usize>,
    offset: int,
) -> Seq<(Seq<usize>, Seq<char>)> {
    m.map_values(|kv: (Seq<usize>, Seq<char>)| (remap_tuple(kv.0, amap, offset), kv.1))
}

/// What one handler assigns within one molecule instance of a topology: the
/// handler's match map for the instance's representative, with every tuple
/// carried through the instance's canonical atom map and rebased at the
/// instance's global atom offset.
pub open spec fn spec_label_entry<M: PatternMatcher>(
    mols: Seq<Molecule>,
    entries: Seq<ParameterEntry>,
    symmetric: bool,
    matcher: M,
    j: int,
) -> Seq<(Seq<usize>, Seq<char>)> {
    let rep = representative_of(mols, j);
    remap_assoc(
        handler_matches(entries, symmetric, mols[rep], matcher, entries.len() as int),
        canonical_iso(mols[rep], mols[j]),
        spec_atom_offset(mols, j),
    )
}

/// The views of tagged handlers: category name, parameter list, tuple
/// symmetry.
pub open spec fn handler_views(hs: Seq<(String, ParameterHandler)>) -> Seq<
    (Seq<char>, Seq<ParameterEntry>, bool),
> {
    hs.map_values(|h: (String, ParameterHandler)| (h.0@, h.1.inner@, h.1.symmetric_tuples))
}

/// The full labeling of a topology: per molecule instance, per handler, the
/// assignment of parameter ids to global atom tuples.
pub open spec fn spec_label<M: PatternMatcher>(
    top: Topology,
    hs: Seq<(Seq<char>, Seq<ParameterEntry>, bool)>,
    matcher: M,
) -> Seq<Seq<(Seq<char>, Seq<(Seq<usize>, Seq<char>)>)>> {
    Seq::new(
        top.molecules@.len(),
        |j: int|
            Seq::new(
                hs.len(),
                |k: int| (hs[k].0, spec_label_entry(top.molecules@, hs[k].1, hs[k].2, matcher, j)),
            ),
    )
}

/// The views of a labeling result.
pub open spec fn label_views(r: Seq<Vec<(String, Vec<(Vec<usize>, String)>)>>) -> Seq<
    Seq<(Seq<char>, Seq<(Seq<usize>, Seq<char>)>)>,
> {
    r.map_values(
        |pm: Vec<(String, Vec<(Vec<usize>, String)>)>|
            pm@.map_values(
                |tg: (String, Vec<(Vec<usize>, String)>)| (tg.0@, assoc_views(tg.1@)),
            ),
    )
}

/// Carry every key of a match map through `amap` and rebase it at `offset`.
fn remap_matches(ms: &Vec<(Vec<usize>, String)>, amap: &Vec<usize>, offset: usize, n2: usize) -> (r:
    Vec<(Vec<usize>, String)>)
    requires
        forall|x: int| 0 <= x < ms@.len() ==> valid_tuple((#[trigger] ms@[x]).0@, amap@.len() as int),
        forall|i: int| 0 <= i < amap@.len() ==> (#[trigger] amap@[i]) < n2,
        offset + n2 <= usize::MAX,
    ensures
        assoc_views(r@) == remap_assoc(assoc_views(ms@), amap@, offset as int),
{
    let ghost target = remap_assoc(assoc_views(ms@), amap@, offset as int);
    let mut r: Vec<(Vec<usize>, String)> = Vec::new();
    let mut x: usize = 0;
    proof {
        assert(assoc_views(r@) =~= target.take(0));
    }
    while x < ms.len()
        invariant
            forall|l: int|
                0 <= l < ms@.len() ==> valid_tuple((#[trigger] ms@[l]).0@, amap@.len() as int),
            forall|i: int| 0 <= i < amap@.len() ==> (#[trigger] amap@[i]) < n2,
            offset + n2 <= usize::MAX,
            target == remap_assoc(assoc_views(ms@), amap@, offset as int),
            x <= ms@.len(),
            assoc_views(r@) == target.take(x as int),
        decreases ms@.len() - x,
    {
        let key = &ms[x].0;
        let mut g: Vec<usize> = Vec::new();
        let mut k: usize = 0;
        while k < key.len()
            invariant
                valid_tuple(key@, amap@.len() as int),
                forall|i: int| 0 <= i < amap@.len() ==> (#[trigger] amap@[i]) < n2,
                offset + n2 <= usize::MAX,
                k <= key@.len(),
                g@ == remap_tuple(key@, amap@, offset as int).take(k as int),
            decreases key@.len() - k,
        {
            let gidx = amap[key[k]] + offset;
            g.push(gidx);
            proof {
                assert(remap_tuple(key@, amap@, offset as int).take(k + 1) =~= remap_tuple(
                    key@,
                    amap@,
                    offset as int,
                ).take(k as int).push(gidx));
            }
            k = k + 1;
        }
        proof {
            assert(remap_tuple(key@, amap@, offset as int).take(key@.len() as int) =~= remap_tuple(
                key@,
                amap@,
                offset as int,
            ));
        }
        let ghost before = r@;
        r.push((g, ms[x].1.clone()));
        proof {
            assert(target[x as int] == (remap_tuple(ms@[x as int].0@, amap@, offset as int),
            ms@[x as int].1@));
            assert(target.take(x + 1) =~= target.take(x as int).push(target[x as int]));
            assert(assoc_views(r@) =~= assoc_views(before).push(
                (g@, ms@[x as int].1@),
            ));
            assert(assoc_views(r@) =~= target.take(x + 1));
        }
        x = x + 1;
    }
    proof {
        assert(target.take(ms@.len() as int) =~= target);
    }
    r
}

/// Label a topology with a list of tagged handlers.
///
/// The molecules are grouped into isomorphism classes once; each handler's
/// matching runs once per unique molecule, and the resulting assignment is
/// replayed into every instance of the class through the instance's canonical
/// atom map, rebased to global topology indices.  The result holds, for every
/// molecule instance in order and every handler in registration order, the
/// final tuple-to-id assignment; it is a pure function of the topology, the
/// handlers and the matcher.
pub fn label<M: PatternMatcher>(
    topology: &Topology,
    handlers: &Vec<(String, ParameterHandler)>,
    matcher: &M,
) -> (r: Vec<Vec<(String, Vec<(Vec<usize>, String)>)>>)
    requires
        topology.wf(),
    ensures
        label_views(r@) == spec_label(*topology, handler_views(handlers@), *matcher),
{
    let ghost mols = topology.molecules@;
    let ghost hv = handler_views(handlers@);
    let n = topology.molecules.len();
    let ident = topology.identify_chemically_identical_molecules();
    // first pass: run every handler once per representative molecule
    let mut rep_matches: Vec<Option<Vec<(String, Vec<(Vec<usize>, String)>)>>> = Vec::new();
    let mut i: usize = 0;
    while i < n
        invariant
            topology.wf(),
            mols == topology.molecules@,
            hv == handler_views(handlers@),
            n == mols.len(),
            ident@.len() == n,
            forall|j: int| 0 <= j < n ==> (#[trigger] ident@[j]).0 == representative_of(mols, j),
            i <= n,
            rep_matches@.len() == i,
            forall|l: int|
                0 <= l < i ==> ((#[trigger] rep_matches@[l]) is Some <==> representative_of(
                    mols,
                    l,
                ) == l),
            forall|l: int|
                0 <= l < i && rep_matches@[l] is Some ==> rep_entry_correct(
                    mols,
                    hv,
                    *matcher,
                    (#[trigger] rep_matches@[l])->0,
                    l,
                ),
        decreases n - i,
    {
        if ident[i].0 == i {
            let mut per: Vec<(String, Vec<(Vec<usize>, String)>)> = Vec::new();
            let mut k: usize = 0;
            while k < handlers.len()
                invariant
                    topology.wf(),
                    mols == topology.molecules@,
                    hv == handler_views(handlers@),
                    i < mols.len(),
                    k <= handlers@.len(),
                    per@.len() == k,
                    forall|l: int|
                        0 <= l < k ==> (#[trigger] per@[l]).0@ == hv[l].0 && assoc_views(per@[l].1@)
                            == handler_matches(
                            hv[l].1,
                            hv[l].2,
                            mols[i as int],
                            *matcher,
                            hv[l].1.len() as int,
                        ) && (forall|x: int|
                            0 <= x < per@[l].1@.len() ==> valid_tuple(
                                (#[trigger] per@[l].1@[x]).0@,
                                mols[i as int].atoms@.len() as int,
                            )),
                decreases handlers@.len() - k,
            {
                let ms = handlers[k].1.find_matches(&topology.molecules[i], matcher);
                per.push((handlers[k].0.clone(), ms));
                k = k + 1;
            }
            proof {
                assert(rep_entry_correct(mols, hv, *matcher, per, i as int));
            }
            rep_matches.push(Some(per));
        } else {
            rep_matches.push(None);
        }
        i = i + 1;
    }
    // second pass: replay each representative's assignment into every
    // instance of its group
    let mut out: Vec<Vec<(String, Vec<(Vec<usize>, String)>)>> = Vec::new();
    let mut j: usize = 0;
    while j < n
        invariant
            topology.wf(),
            mols == topology.molecules@,
            hv == handler_views(handlers@),
            n == mols.len(),
            ident@.len() == n,
            forall|l: int| 0 <= l < n ==> (#[trigger] ident@[l]).0 == representative_of(mols, l),
            forall|l: int|
                0 <= l < n ==> (#[trigger] ident@[l]).1@ == canonical_iso(
                    mols[ident@[l].0 as int],
                    mols[l],
                ),
            forall|l: int|
                0 <= l < n ==> crate::topology::molecule::is_isomorphism(
                    mols[(#[trigger] ident@[l]).0 as int],
                    mols[l],
                    ident@[l].1@,
                ),
            rep_matches@.len() == n,
            forall|l: int|
                0 <= l < n ==> ((#[trigger] rep_matches@[l]) is Some <==> representative_of(
                    mols,
                    l,
                ) == l),
            forall|l: int|
                0 <= l < n && rep_matches@[l] is Some ==> rep_entry_correct(
                    mols,
                    hv,
                    *matcher,
                    (#[trigger] rep_matches@[l])->0,
                    l,
                ),
            j <= n,
            out@.len() == j,
            forall|l: int, k: int|
                0 <= l < j && 0 <= k < hv.len() ==> (#[trigger] out@[l]@[k]).0@ == hv[k].0
                    && assoc_views(out@[l]@[k].1@) == spec_label_entry(
                    mols,
                    hv[k].1,
                    hv[k].2,
                    *matcher,
                    l,
                ),
            forall|l: int| 0 <= l < j ==> (#[trigger] out@[l])@.len() == hv.len(),
        decreases n - j,
    {
        let rep = ident[j].0;
        proof {
            lemma_molecule_len_bound(*topology, j as int);
            lemma_representative_correct(mols, j as int);
            assert(rep_matches@[rep as int] is Some);
        }
        let offset = topology.atom_offset(j);
        let amap = &ident[j].1;
        proof {
            lemma_atom_offset_monotonic(mols, j + 1, mols.len() as int);
        }
        let mut per_mol: Vec<(String, Vec<(Vec<usize>, String)>)> = Vec::new();
        match &rep_matches[rep] {
            Some(per) => {
                let mut k: usize = 0;
                while k < per.len()
                    invariant
                        topology.wf(),
                        mols == topology.molecules@,
                        hv == handler_views(handlers@),
                        j < mols.len(),
                        rep < mols.len(),
                        rep == representative_of(mols, j as int),
                        rep_entry_correct(mols, hv, *matcher, *per, rep as int),
                        per@.len() == hv.len(),
                        amap@ == canonical_iso(mols[rep as int], mols[j as int]),
                        crate::topology::molecule::is_isomorphism(
                            mols[rep as int],
                            mols[j as int],
                            amap@,
                        ),
                        offset == spec_atom_offset(mols, j as int),
                        spec_atom_offset(mols, j + 1) <= usize::MAX,
                        k <= per@.len(),
                        per_mol@.len() == k,
                        forall|l: int|
                            0 <= l < per_mol@.len() ==> {
                                let entry = (#[trigger] per_mol@[l]);
                                &&& entry.0@ == hv[l].0
                                &&& assoc_views(entry.1@) == spec_label_entry(
                                    mols,
                                    hv[l].1,
                                    hv[l].2,
                                    *matcher,
                                    j as int,
                                )
                            },
                    decreases per@.len() - k,
                {
                    proof {
                        assert(spec_atom_offset(mols, j + 1) == spec_atom_offset(mols, j as int)
                            + mols[j as int].atoms@.len());
                        assert(amap@.len() == mols[rep as int].atoms@.len());
                    }
                    let remapped = remap_matches(
                        &per[k].1,
                        amap,
                        offset,
                        topology.molecules[j].atoms.len(),
                    );
                    per_mol.push((per[k].0.clone(), remapped));
                    k = k + 1;
                }
            },
            None => {
                proof {
                    assert(false);
                }
            },
        }
        out.push(per_mol);
        j = j + 1;
    }
    proof {
        let target = spec_label(*topology, hv, *matcher);
        assert forall|l: int| 0 <= l < n implies label_views(out@)[l] =~= target[l] by {
            assert forall|k: int| 0 <= k < hv.len() implies label_views(out@)[l][k] == target[l][k]
                by {
                assert(label_views(out@)[l][k] == (out@[l]@[k].0@, assoc_views(out@[l]@[k].1@)));
            }
        }
        assert(label_views(out@) =~~= target);
    }
    out
}

/// The per-representative cache entry is correct: one assignment per handler,
/// in order, each the handler's match map for molecule `l`, with keys that
/// are valid atom positions of molecule `l`.
pub open spec fn rep_entry_correct<M: PatternMatcher>(
    mols: Seq<Molecule>,
    hv: Seq<(Seq<char>, Seq<ParameterEntry>, bool)>,
    matcher: M,
    per: Vec<(String, Vec<(Vec<usize>, String)>)>,
    l: int,
) -> bool {
    &&& per@.len() == hv.len()
    &&& forall|k: int|
        0 <= k < hv.len() ==> {
            let entry = (#[trigger] per@[k]);
            &&& entry.0@ == hv[k].0
            &&& assoc_views(entry.1@) == handler_matches(
                hv[k].1,
                hv[k].2,
                mols[l],
                matcher,
                hv[k].1.len() as int,
            )
            &&& forall|x: int|
                0 <= x < entry.1@.len() ==> valid_tuple(
                    (#[trigger] entry.1@[x]).0@,
                    mols[l].atoms@.len() as int,
                )
        }
}

/// The labeling is a pure function of its inputs: two results that both
/// satisfy the labeling contract for the same topology, handlers and matcher
/// are identical.  Labeling the same topology with the same handlers twice
/// yields the same output.
pub proof fn lemma_labeling_idempotent<M: PatternMatcher>(
    top: Topology,
    hs: Seq<(Seq<char>, Seq<ParameterEntry>, bool)>,
    matcher: M,
    r1: Seq<Vec<(String, Vec<(Vec<usize>, String)>)>>,
    r2: Seq<Vec<(String, Vec<(Vec<usize>, String)>)>>,
)
    requires
        label_views(r1) == spec_label(top, hs, matcher),
        label_views(r2) == spec_label(top, hs, matcher),
    ensures
        label_views(r1) == label_views(r2),
{
}

impl ForceField {
    /// Label every molecule instance of the topology with the force field's
    /// four handlers.  The call succeeds if and only if every section's ids
    /// are unique — a duplicate is the one fatal configuration error — and
    /// the result is then the full labeling, per instance and per category,
    /// in the fixed order bonds, angles, proper torsions, improper torsions.
    pub fn label_molecules<M: PatternMatcher>(&self, topology: &Topology, matcher: &M) -> (r:
        Result<Vec<Vec<(String, Vec<(Vec<usize>, String)>)>>, ConfigurationError>)
        requires
            topology.wf(),
        ensures
            match r {
                Ok(out) => sections_unique(*self) && label_views(out@) == spec_label(
                    *topology,
                    ff_handler_views(*self),
                    *matcher,
                ),
                Err(e) => e is DuplicateParameterId && !sections_unique(*self),
            },
    {
        let handlers = self.parameter_handlers()?;
        let out = label(topology, &handlers, matcher);
        proof {
            let hv = handler_views(handlers@);
            let fv = ff_handler_views(*self);
            assert(hv.len() == 4 && fv.len() == 4);
            assert forall|j: int, k: int|
                0 <= j < topology.molecules@.len() && 0 <= k < 4 implies spec_label(
                *topology,
                hv,
                *matcher,
            )[j][k] == spec_label(*topology, fv, *matcher)[j][k] by {
                lemma_known_tags_distinct();
                let tag = handlers@[k].0@;
                if k == 0 {
                    assert(tag == "Bonds"@);
                    assert(fv[0] == ("Bonds"@, bond_entries(self.bonds.bonds@), true));
                    assert(tag_entries(*self, tag) == bond_entries(self.bonds.bonds@));
                } else if k == 1 {
                    assert(tag == "Angles"@);
                    assert(fv[1] == ("Angles"@, angle_entries(self.angles.angles@), true));
                    assert(tag_entries(*self, tag) == angle_entries(self.angles.angles@));
                } else if k == 2 {
                    assert(tag == "ProperTorsions"@);
                    assert(fv[2] == ("ProperTorsions"@, proper_entries(
                        self.proper_torsions.proper_torsions@,
                    ), false));
                    assert(tag_entries(*self, tag) == proper_entries(
                        self.proper_torsions.proper_torsions@,
                    ));
                } else {
                    assert(tag == "ImproperTorsions"@);
                    assert(fv[3] == ("ImproperTorsions"@, improper_entries(
                        self.improper_torsions.improper_torsions@,
                    ), false));
                    assert(tag_entries(*self, tag) == improper_entries(
                        self.improper_torsions.improper_torsions@,
                    ));
                }
                assert(hv[k].0 == fv[k].0);
                assert(hv[k].2 == fv[k].2);
                assert(entries_eqv(hv[k].1, fv[k].1));
                let rep = representative_of(topology.molecules@, j);
                lemma_handler_matches_congruence(
                    hv[k].1,
                    fv[k].1,
                    hv[k].2,
                    topology.molecules@[rep],
                    *matcher,
                    hv[k].1.len() as int,
                );
            }
            assert forall|j: int| 0 <= j < topology.molecules@.len() implies spec_label(
                *topology,
                hv,
                *matcher,
            )[j] =~= spec_label(*topology, fv, *matcher)[j] by {}
            assert(spec_label(*topology, hv, *matcher) =~~= spec_label(*topology, fv, *matcher));
        }
        Ok(out)
    }
}

/// The parameter ids a match map assigns, in entry order.
pub open spec fn assoc_values(m: Seq<(Seq<usize>, Seq<char>)>) -> Seq<Seq<char>> {
    m.map_values(|kv: (Seq<usize>, Seq<char>)| kv.1)
}

/// Replaying an assignment into an instance changes only the keys: the ids
/// come through untouched, in the same order.
pub proof fn lemma_remap_preserves_values(
    m: Seq<(Seq<usize>, Seq<char>)>,
    amap: Seq<usize>,
    offset: int,
)
    ensures
        assoc_values(remap_assoc(m, amap, offset)) == assoc_values(m),
{
    assert(assoc_values(remap_assoc(m, amap, offset)) =~= assoc_values(m));
}

/// ISOMORPHISM INVARIANCE.  Two graph-isomorphic molecule instances of one
/// topology receive, per handler, the same sequence of parameter ids — so in
/// particular the same multiset — independent of which instance of their
/// class serves as the representative: both are labeled by replaying the one
/// representative's assignment.
pub proof fn lemma_isomorphic_instances_same_ids<M: PatternMatcher>(
    top: Topology,
    hs: Seq<(Seq<char>, Seq<ParameterEntry>, bool)>,
    matcher: M,
    j1: int,
    j2: int,
    k: int,
)
    requires
        top.wf(),
        0 <= j1 < top.molecules@.len(),
        0 <= j2 < top.molecules@.len(),
        0 <= k < hs.len(),
        crate::topology::molecule::isomorphic(top.molecules@[j1], top.molecules@[j2]),
    ensures
        assoc_values(spec_label(top, hs, matcher)[j1][k].1) == assoc_values(
            spec_label(top, hs, matcher)[j2][k].1,
        ),
        assoc_values(spec_label(top, hs, matcher)[j1][k].1).to_multiset() == assoc_values(
            spec_label(top, hs, matcher)[j2][k].1,
        ).to_multiset(),
{
    crate::topology::lemma_isomorphic_same_representative(top, j1, j2);
    let mols = top.molecules@;
    let rep = representative_of(mols, j1);
    let base = handler_matches(hs[k].1, hs[k].2, mols[rep], matcher, hs[k].1.len() as int);
    lemma_remap_preserves_values(base, canonical_iso(mols[rep], mols[j1]), spec_atom_offset(mols, j1));
    lemma_remap_preserves_values(base, canonical_iso(mols[rep], mols[j2]), spec_atom_offset(mols, j2));
}

/// The bonds among the first `k` bonds of the molecule whose canonical tuple
/// the match map does not cover, in bond order.
pub open spec fn spec_uncovered_bonds(
    m: Molecule,
    assoc: Seq<(Seq<usize>, Seq<char>)>,
    k: int,
) -> Seq<(usize, usize)>
    decreases k,
{
    if k <= 0 {
        Seq::empty()
    } else {
        let rest = spec_uncovered_bonds(m, assoc, k - 1);
        let b = m.bonds@[k - 1];
        if assoc_has(assoc, spec_canonical(seq![b.atom1_index, b.atom2_index], true)) {
            rest
        } else {
            rest.push((b.atom1_index, b.atom2_index))
        }
    }
}

/// The coverage gaps of a bond-term assignment: every bond of the molecule
/// whose atom pair no parameter matched, reported rather than silently
/// omitted, alongside — not instead of — the successful partial assignment.
pub fn uncovered_bonds(molecule: &Molecule, matches: &Vec<(Vec<usize>, String)>) -> (r: Vec<
    (usize, usize),
>)
    ensures
        r@ == spec_uncovered_bonds(
            *molecule,
            assoc_views(matches@),
            molecule.bonds@.len() as int,
        ),
{
    let ghost mv = assoc_views(matches@);
    let mut r: Vec<(usize, usize)> = Vec::new();
    let mut k: usize = 0;
    while k < molecule.bonds.len()
        invariant
            mv == assoc_views(matches@),
            k <= molecule.bonds@.len(),
            r@ == spec_uncovered_bonds(*molecule, mv, k as int),
        decreases molecule.bonds@.len() - k,
    {
        let b = &molecule.bonds[k];
        let mut pair: Vec<usize> = Vec::new();
        pair.push(b.atom1_index);
        pair.push(b.atom2_index);
        proof {
            assert(pair@ =~= seq![b.atom1_index, b.atom2_index]);
        }
        let key = canonical_tuple(&pair, true);
        match match_for(matches, &key) {
            Some(_) => {
                proof {
                    assert(assoc_has(mv, key@));
                }
            },
            None => {
                r.push((b.atom1_index, b.atom2_index));
                proof {
                    assert(!assoc_has(mv, key@));
                }
            },
        }
        k = k + 1;
    }
    r
}

/// The views of the four handlers a force field defines, in the fixed order.
pub open spec fn ff_handler_views(ff: ForceField) -> Seq<(Seq<char>, Seq<ParameterEntry>, bool)> {
    seq![
        ("Bonds"@, bond_entries(ff.bonds.bonds@), true),
        ("Angles"@, angle_entries(ff.angles.angles@), true),
        ("ProperTorsions"@, proper_entries(ff.proper_torsions.proper_torsions@), false),
        ("ImproperTorsions"@, improper_entries(ff.improper_torsions.improper_torsions@), false),
    ]
}

/// The bonds among the first `k` bonds of one molecule instance that a
/// global-indexed assignment leaves uncovered, each reported as its global
/// atom pair: the instance's atoms start at `offset`, and a bond is covered
/// when either orientation of its global pair holds a key.
pub open spec fn spec_uncovered_instance_bonds(
    m: Molecule,
    assoc: Seq<(Seq<usize>, Seq<char>)>,
    offset: int,
    k: int,
) -> Seq<(usize, usize)>
    decreases k,
{
    if k <= 0 {
        Seq::empty()
    } else {
        let rest = spec_uncovered_instance_bonds(m, assoc, offset, k - 1);
        let b = m.bonds@[k - 1];
        let g1 = (b.atom1_index + offset) as usize;
        let g2 = (b.atom2_index + offset) as usize;
        if assoc_has(assoc, seq![g1, g2]) || assoc_has(assoc, seq![g2, g1]) {
            rest
        } else {
            rest.push((g1, g2))
        }
    }
}

/// The coverage gaps of one instance's global-indexed bond assignment: every
/// bond of the instance's molecule whose global atom pair, in either
/// orientation, the assignment does not cover.
pub fn uncovered_instance_bonds(
    molecule: &Molecule,
    matches: &Vec<(Vec<usize>, String)>,
    offset: usize,
) -> (r: Vec<(usize, usize)>)
    requires
        molecule.wf(),
        offset + molecule.atoms@.len() <= usize::MAX,
    ensures
        r@ == spec_uncovered_instance_bonds(
            *molecule,
            assoc_views(matches@),
            offset as int,
            molecule.bonds@.len() as int,
        ),
{
    let ghost mv = assoc_views(matches@);
    let mut r: Vec<(usize, usize)> = Vec::new();
    let mut k: usize = 0;
    while k < molecule.bonds.len()
        invariant
            molecule.wf(),
            offset + molecule.atoms@.len() <= usize::MAX,
            mv == assoc_views(matches@),
            k <= molecule.bonds@.len(),
            r@ == spec_uncovered_instance_bonds(*molecule, mv, offset as int, k as int),
        decreases molecule.bonds@.len() - k,
    {
        let b = &molecule.bonds[k];
        let g1 = b.atom1_index + offset;
        let g2 = b.atom2_index + offset;
        let mut forward: Vec<usize> = Vec::new();
        forward.push(g1);
        forward.push(g2);
        let mut backward: Vec<usize> = Vec::new();
        backward.push(g2);
        backward.push(g1);
        proof {
            assert(forward@ =~= seq![g1, g2]);
            assert(backward@ =~= seq![g2, g1]);
        }
        let covered = match match_for(matches, &forward) {
            Some(_) => true,
            None => match match_for(matches, &backward) {
                Some(_) => true,
                None => false,
            },
        };
        proof {
            assert(covered == (assoc_has(mv, seq![g1, g2]) || assoc_has(mv, seq![g2, g1])));
        }
        if !covered {
            r.push((g1, g2));
        }
        k = k + 1;
    }
    r
}

impl ForceField {
    /// Label the topology and report, for every molecule instance, the bonds
    /// its bond-term assignment leaves uncovered — the coverage gaps come
    /// back alongside, not instead of, the successful partial mapping, so a
    /// caller can decide whether partial coverage is acceptable.  Success is
    /// owed exactly when every section's ids are unique.
    pub fn label_molecules_with_bond_coverage<M: PatternMatcher>(
        &self,
        topology: &Topology,
        matcher: &M,
    ) -> (r: Result<
        (Vec<Vec<(String, Vec<(Vec<usize>, String)>)>>, Vec<Vec<(usize, usize)>>),
        ConfigurationError,
    >)
        requires
            topology.wf(),
        ensures
            match r {
                Ok(pair) => {
                    let mols = topology.molecules@;
                    &&& sections_unique(*self)
                    &&& label_views(pair.0@) == spec_label(
                        *topology,
                        ff_handler_views(*self),
                        *matcher,
                    )
                    &&& pair.1@.len() == mols.len()
                    &&& forall|j: int|
                        0 <= j < mols.len() ==> (#[trigger] pair.1@[j])@
                            == spec_uncovered_instance_bonds(
                            mols[j],
                            spec_label(*topology, ff_handler_views(*self), *matcher)[j][0].1,
                            spec_atom_offset(mols, j),
                            mols[j].bonds@.len() as int,
                        )
                },
                Err(e) => e is DuplicateParameterId && !sections_unique(*self),
            },
    {
        let ghost mols = topology.molecules@;
        let ghost target = spec_label(*topology, ff_handler_views(*self), *matcher);
        let out = self.label_molecules(topology, matcher)?;
        let n = topology.molecules.len();
        let mut gaps: Vec<Vec<(usize, usize)>> = Vec::new();
        let mut j: usize = 0;
        while j < n
            invariant
                topology.wf(),
                mols == topology.molecules@,
                n == mols.len(),
                target == spec_label(*topology, ff_handler_views(*self), *matcher),
                label_views(out@) == target,
                j <= n,
                gaps@.len() == j,
                forall|l: int|
                    0 <= l < j ==> (#[trigger] gaps@[l])@ == spec_uncovered_instance_bonds(
                        mols[l],
                        target[l][0].1,
                        spec_atom_offset(mols, l),
                        mols[l].bonds@.len() as int,
                    ),
            decreases n - j,
        {
            proof {
                assert(label_views(out@).len() == out@.len());
                assert(target.len() == mols.len());
                assert(out@.len() == n);
                assert(label_views(out@)[j as int] == out@[j as int]@.map_values(
                    |tg: (String, Vec<(Vec<usize>, String)>)| (tg.0@, assoc_views(tg.1@)),
                ));
                assert(label_views(out@)[j as int] == target[j as int]);
                assert(target[j as int].len() == 4);
                assert(out@[j as int]@.len() == 4);
                assert(label_views(out@)[j as int][0] == (out@[j as int]@[0].0@, assoc_views(
                    out@[j as int]@[0].1@,
                )));
                assert(assoc_views(out@[j as int]@[0].1@) == target[j as int][0].1);
                assert(mols[j as int].wf());
                lemma_atom_offset_monotonic(mols, j + 1, mols.len() as int);
                assert(spec_atom_offset(mols, j + 1) == spec_atom_offset(mols, j as int)
                    + mols[j as int].atoms@.len());
            }
            let offset = topology.atom_offset(j);
            let g = uncovered_instance_bonds(&topology.molecules[j], &out[j][0].1, offset);
            gaps.push(g);
            j = j + 1;
        }
        Ok((out, gaps))
    }
}

} // verus!
