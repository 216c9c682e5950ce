//! The plain start/stop/restart/enable/disable routes.
use vstd::prelude::*;

verus! {

/// The form every lifecycle action posts.
pub struct ActionForm {
    pub csrf_token: String,
}

} // verus!
