//! The metadata that a quantification run leaves beside its results.

use vstd::prelude::*;

verus! {

/// The property that marks the equivalence-class file as gzip-compressed.
pub const GZIPPED: &'static str = "gzipped";

/// The contents of the metadata file, as far as this library knows them.
#[derive(Debug, Clone)]
pub struct MetaInfo {
    pub num_valid_targets: u32,
    pub serialized_eq_classes: bool,
    pub num_bootstraps: u32,
    pub num_eq_classes: u32,
    pub eq_class_properties: Vec<String>,
    pub samp_type: String,
}

impl MetaInfo {
    /// Whether `property` is among the properties of the equivalence classes.
    pub open spec fn has_property(&self, property: Seq<char>) -> bool {
        exists|i: int|
            0 <= i < self.eq_class_properties@.len() && (
            #[trigger] self.eq_class_properties@[i])@ == property
    }

    /// Whether the equivalence-class file is gzip-compressed.
    pub fn is_gzipped(&self) -> (b: bool)
        ensures
            b == self.has_property(GZIPPED@),
    {
        let marker = String::from_str(GZIPPED);
        let mut i: usize = 0;
        while i < self.eq_class_properties.len()
            invariant
                i <= self.eq_class_properties@.len(),
                marker@ == GZIPPED@,
                forall|j: int| 0 <= j < i ==> (#[trigger] self.eq_class_properties@[j])@ != GZIPPED@,
            decreases self.eq_class_properties@.len() - i,
        {
            if self.eq_class_properties[i] == marker {
                return true;
            }
            i += 1;
        }
        false
    }
}

} // verus!
