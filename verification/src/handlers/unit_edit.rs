//! The raw create/edit/delete forms of the generic `/units` pages.
use vstd::prelude::*;

use crate::text;

verus! {

pub struct CreateForm {
    pub csrf_token: String,
    pub file_name: String,
    pub contents: String,
}

pub struct EditForm {
    pub csrf_token: String,
    pub contents: String,
}

pub struct DeleteForm {
    pub csrf_token: String,
}

/// `/units/<file_name>`, where a created or edited file is shown.
pub fn units_url(file_name: &str) -> (r: String)
    ensures
        r@ == "/units/"@ + file_name@,
{
    let mut out = text::to_chars("/units/");
    text::append_str(&mut out, file_name);
    text::from_chars(out.as_slice())
}

} // verus!
