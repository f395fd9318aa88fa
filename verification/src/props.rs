//! The descriptive record attached to every indexed polygon.

use vstd::prelude::*;

verus! {

/// A region or hazard zone's descriptive record. `code` is the stable
/// identifier of the region: unique within a single feature, though the
/// same code may legitimately recur across differently-sourced shards.
/// `name` is the label in the source locale and `en_name` the English
/// label, left empty when the source feature omits a translation.
#[derive(Clone, Debug, PartialEq, Eq)]
pub struct Properties {
    pub code: String,
    pub name: String,
    pub en_name: String,
}

impl Properties {
    /// An exact copy of the record.
    pub fn duplicate(&self) -> (r: Properties)
        ensures
            r == *self,
    {
        Properties {
            code: self.code.clone(),
            name: self.name.clone(),
            en_name: self.en_name.clone(),
        }
    }
}

} // verus!
