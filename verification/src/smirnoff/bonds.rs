//! Bond-stretch parameters of a force field.

use vstd::prelude::*;

use super::{option_string_eqv, quantity_eqv, Parameter, Quantity};

verus! {

/// A bond-stretch parameter: a substructure pattern, a unique id, and the
/// physical term values (force constant and equilibrium length).
#[derive(Clone, Debug)]
pub struct Bond {
    pub smirks: String,
    pub k: Quantity,
    pub id: String,
    pub length: Quantity,
    pub parameterize: Option<String>,
}

/// The two bond parameters carry the same text and term values.
pub open spec fn bond_eqv(a: Bond, b: Bond) -> bool {
    &&& a.smirks@ == b.smirks@
    &&& a.id@ == b.id@
    &&& quantity_eqv(a.k, b.k)
    &&& quantity_eqv(a.length, b.length)
    &&& option_string_eqv(a.parameterize, b.parameterize)
}

impl Bond {
    /// A fresh bond parameter with the same contents.
    pub fn duplicate(&self) -> (r: Bond)
        ensures
            bond_eqv(*self, r),
    {
        Bond {
            smirks: self.smirks.clone(),
            k: self.k.duplicate(),
            id: self.id.clone(),
            length: self.length.duplicate(),
            parameterize: match &self.parameterize {
                Some(p) => Some(p.clone()),
                None => None,
            },
        }
    }

    /// The term value stored under `key`: "k" or "length".
    pub fn as_hash(&self, key: &String) -> (r: Option<&Quantity>)
        ensures
            key@ == "length"@ ==> r == Some(&self.length),
            key@ == "k"@ ==> r == Some(&self.k),
            key@ != "length"@ && key@ != "k"@ ==> r is None,
    {
        proof {
            reveal_strlit("length");
            reveal_strlit("k");
            assert("length"@.len() == 6);
            assert("k"@.len() == 1);
        }
        if *key == "length".to_owned() {
            Some(&self.length)
        } else if *key == "k".to_owned() {
            Some(&self.k)
        } else {
            None
        }
    }

    /// The term value stored under `key`, mutably: "k" or "length".
    pub fn as_hash_mut(&mut self, key: &String) -> (r: Option<&mut Quantity>)
        ensures
            key@ != "length"@ && key@ != "k"@ ==> r is None && *final(self) == *old(self),
    {
        proof {
            reveal_strlit("length");
            reveal_strlit("k");
            assert("length"@.len() == 6);
            assert("k"@.len() == 1);
        }
        if *key == "length".to_owned() {
            Some(&mut self.length)
        } else if *key == "k".to_owned() {
            Some(&mut self.k)
        } else {
            None
        }
    }
}

impl Parameter for Bond {
    open spec fn spec_id(&self) -> Seq<char> {
        self.id@
    }

    open spec fn spec_smirks(&self) -> Seq<char> {
        self.smirks@
    }

    fn id(&self) -> &String {
        &self.id
    }

    fn smirks(&self) -> &String {
        &self.smirks
    }

    fn typ(&self) -> &'static str {
        "Bond"
    }
}

/// The ordered bond-parameter section of a force field.
#[derive(Clone, Debug)]
pub struct Bonds {
    pub version: String,
    pub potential: String,
    pub fractional_bondorder_method: String,
    pub fractional_bondorder_interpolation: String,
    pub bonds: Vec<Bond>,
}

impl Bonds {
    pub fn get(&self, index: usize) -> (r: &Bond)
        requires
            index < self.bonds@.len(),
        ensures
            r == &self.bonds@[index as int],
    {
        &self.bonds[index]
    }

    pub fn len(&self) -> (r: usize)
        ensures
            r == self.bonds@.len(),
    {
        self.bonds.len()
    }
}

} // verus!
