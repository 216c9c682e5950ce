//! Live validation of the code editor's contents.
use vstd::prelude::*;

verus! {

/// What the editor posts to `/validate`.
pub struct ValidateForm {
    pub file_name: String,
    pub contents: String,
}

} // verus!
