use vstd::prelude::*;

verus! {

/// A region of a source file, by row and column.
#[derive(Debug)]
pub struct Span {
    pub row_start: usize,
    pub row_end: usize,
    pub column_start: usize,
    pub column_end: usize,
    pub file_name: String,
}

impl Span {
    /// A copy of this span.
    pub fn duplicate(&self) -> (r: Span)
        ensures
            r == *self,
    {
        Span {
            row_start: self.row_start,
            row_end: self.row_end,
            column_start: self.column_start,
            column_end: self.column_end,
            file_name: self.file_name.clone(),
        }
    }
}

} // verus!
