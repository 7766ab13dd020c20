//! Collection queries: asking the archive for a named data set.

use vstd::prelude::*;
use vstd::string::StringExecFns;

verus! {

/// Include/exclude switches of a collection query.
#[derive(Clone, Copy, Debug)]
pub struct QueryFilter {
    pub includes: Option<bool>,
    pub exclude: Option<bool>,
}

/// The collection kind and name being asked for.
#[derive(Clone, Debug)]
pub struct Data {
    pub collection: String,
    pub name: String,
}

/// The body of a collection query.
#[derive(Clone, Debug)]
pub struct CollectionGetBody {
    pub meta: QueryFilter,
    pub data: Data,
}

/// The kinds of data-set collection the archive serves.
#[derive(Clone, Copy, Debug, PartialEq, Eq, Structural)]
pub enum CollectionType {
    TorsionDrive,
    Optimization,
    SinglePoint,
}

impl CollectionType {
    /// The collection name under which the archive files this kind.
    pub fn collection_name(&self) -> (r: String)
        ensures
            self is TorsionDrive ==> r@ == "torsiondrivedataset"@,
            self is Optimization ==> r@ == "optimization"@,
            self is SinglePoint ==> r@ == "dataset"@,
    {
        match self {
            CollectionType::TorsionDrive => "torsiondrivedataset".to_owned(),
            CollectionType::Optimization => "optimization".to_owned(),
            CollectionType::SinglePoint => "dataset".to_owned(),
        }
    }

    /// Parse a collection kind from its user-facing name.  Any other text is
    /// rejected with a message that quotes the offending name.
    pub fn from_str(s: &str) -> (r: Result<Self, String>)
        ensures
            s@ == "TorsionDrive"@ ==> r == Result::<Self, String>::Ok(
                CollectionType::TorsionDrive,
            ),
            s@ == "Optimization"@ ==> r == Result::<Self, String>::Ok(
                CollectionType::Optimization,
            ),
            s@ == "SinglePoint"@ ==> r == Result::<Self, String>::Ok(CollectionType::SinglePoint),
            s@ != "TorsionDrive"@ && s@ != "Optimization"@ && s@ != "SinglePoint"@ ==> (match r {
                Result::Err(m) => m@ == "unmatched CollectionType: `"@ + s@ + "`"@,
                Result::Ok(_) => false,
            }),
    {
        proof {
            reveal_strlit("TorsionDrive");
            reveal_strlit("Optimization");
            reveal_strlit("SinglePoint");
            assert("TorsionDrive"@.len() == 12);
            assert("Optimization"@.len() == 12);
            assert("SinglePoint"@.len() == 11);
            assert(("TorsionDrive"@)[0] == 'T');
            assert(("Optimization"@)[0] == 'O');
        }
        let owned = s.to_owned();
        if owned == "TorsionDrive".to_owned() {
            Ok(Self::TorsionDrive)
        } else if owned == "Optimization".to_owned() {
            Ok(Self::Optimization)
        } else if owned == "SinglePoint".to_owned() {
            Ok(Self::SinglePoint)
        } else {
            let mut message = "unmatched CollectionType: `".to_owned();
            message.append(s);
            message.append("`");
            Err(message)
        }
    }
}

impl CollectionGetBody {
    /// Construct a new [`CollectionGetBody`] asking for the collection of the
    /// given kind and name.
    pub fn new(collection_type: CollectionType, name: String) -> (r: Self)
        ensures
            r.meta.includes is None,
            r.meta.exclude is None,
            collection_type is TorsionDrive ==> r.data.collection@ == "torsiondrivedataset"@,
            collection_type is Optimization ==> r.data.collection@ == "optimization"@,
            collection_type is SinglePoint ==> r.data.collection@ == "dataset"@,
            r.data.name == name,
    {
        Self {
            meta: QueryFilter { includes: None, exclude: None },
            data: Data { collection: collection_type.collection_name(), name },
        }
    }
}

/// The identifying attributes of an archived result.
#[derive(Clone, Debug)]
pub struct Attributes {
    pub canonical_isomeric_explicit_hydrogen_mapped_smiles: String,
    pub inchi_key: String,
}

/// One torsion-drive result of a collection: its name, identifying
/// attributes, and the map from specification names to record ids.
#[derive(Clone, Debug)]
pub struct TorsionDriveResult {
    pub name: String,
    pub attributes: Attributes,
    pub object_map: Vec<(String, String)>,
}

impl TorsionDriveResult {
    /// The record's id: the sole entry of the object map, filed under
    /// "default".
    pub fn record_id(&self) -> (r: &String)
        requires
            self.object_map@.len() == 1,
            self.object_map@[0].0@ == "default"@,
        ensures
            r@ == self.object_map@[0].1@,
    {
        &self.object_map[0].1
    }

    /// The canonical isomeric explicit-hydrogen mapped SMILES of the result.
    pub fn cmiles(&self) -> (r: &String)
        ensures
            r == &self.attributes.canonical_isomeric_explicit_hydrogen_mapped_smiles,
    {
        &self.attributes.canonical_isomeric_explicit_hydrogen_mapped_smiles
    }

    /// The InChI key of the result.
    pub fn inchi_key(&self) -> (r: &String)
        ensures
            r == &self.attributes.inchi_key,
    {
        &self.attributes.inchi_key
    }
}

} // verus!
