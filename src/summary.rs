use vstd::prelude::*;

use std::collections::HashMap;

verus! {

/// Where the fields of a query were found: the sections read, and for each
/// field the row of its section that holds it.
pub struct Summary {
    sections: Vec<String>,
    field_to_section_row_idx: HashMap<String, usize>,
}

} // verus!
