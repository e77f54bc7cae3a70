use vstd::prelude::*;

use crate::document::{find_entry, lookup_entry};

verus! {

/// Fixed column positions for the fields of one section.
pub struct SectionMapping {
    /// Field names, each with the column that holds it.
    pub row_name_to_idx: Vec<(String, usize)>,
}

impl SectionMapping {
    /// The column pinned for field `name`, if any.
    pub fn get(&self, name: &str) -> (r: Option<usize>)
        ensures
            r == find_entry(self.row_name_to_idx@, name@),
    {
        let k: String = name.to_owned();
        match lookup_entry(&self.row_name_to_idx, &k) {
            Some(c) => Some(*c),
            None => None,
        }
    }
}

/// Column overrides per section name.
pub struct Mapping {
    pub section_mappings: Vec<(String, SectionMapping)>,
}

impl Mapping {
    /// The overrides for section `section_name`, if any.
    pub fn get(&self, section_name: &str) -> (r: Option<&SectionMapping>)
        ensures
            match find_entry(self.section_mappings@, section_name@) {
                Some(m) => r == Some(&m),
                None => r is None,
            },
    {
        let k: String = section_name.to_owned();
        lookup_entry(&self.section_mappings, &k)
    }
}

/// The column pinned by `mapping` for field `field` of section `section`.
pub open spec fn override_of(mapping: Mapping, section: Seq<char>, field: Seq<char>) -> Option<usize> {
    match find_entry(mapping.section_mappings@, section) {
        Some(m) => find_entry(m.row_name_to_idx@, field),
        None => None,
    }
}

} // verus!
