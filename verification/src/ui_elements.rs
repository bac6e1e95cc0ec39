use vstd::prelude::*;
use vstd::string::StringExecFns;

verus! {

/// The headings of the four columns of the grade table.
pub struct RowHeaders {
    pub delete: String,
    pub section: String,
    pub marks: String,
    pub weight: String,
}

impl RowHeaders {
    /// The headings as the table shows them.
    pub fn new() -> (headers: Self)
        ensures
            headers.delete@ == "Delete"@,
            headers.section@ == "Section"@,
            headers.marks@ == "Marks/Total"@,
            headers.weight@ == "Weight %"@,
    {
        Self {
            delete: String::from_str("Delete"),
            section: String::from_str("Section"),
            marks: String::from_str("Marks/Total"),
            weight: String::from_str("Weight %"),
        }
    }
}

} // verus!
