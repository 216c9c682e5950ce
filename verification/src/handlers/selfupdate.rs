//! The Settings page's "Updates" actions.
use vstd::prelude::*;

verus! {

/// A CSRF-only form ("Check now", "Download update").
pub struct CsrfOnly {
    pub csrf_token: String,
}

} // verus!
