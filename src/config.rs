use vstd::prelude::*;

use crate::mapping::Mapping;

verus! {

/// The settings that a query runs with.
pub struct Config {
    pub mappings: Mapping,
}

impl Default for Config {
    /// Settings with no column overrides.
    fn default() -> (r: Config)
        ensures
            r.mappings.section_mappings@.len() == 0,
    {
        Config { mappings: Mapping { section_mappings: Vec::new() } }
    }
}

} // verus!
