//! The shared raw edit, move and delete forms.
use vstd::prelude::*;

use crate::kind::{kind_of, kind_of_name, UnitKind};
use crate::text;

verus! {

pub struct EditForm {
    pub csrf_token: String,
    pub contents: String,
    pub env_vars: Option<String>,
}

pub struct MoveForm {
    pub csrf_token: String,
    pub group: String,
}

pub struct DeleteForm {
    pub csrf_token: String,
}

/// The kind whose edit goes through the env-var sidecar path (Container or
/// Build), if the file is one of those.
pub fn env_kind(file_name: &str) -> (r: Option<UnitKind>)
    ensures
        r == match kind_of_name(file_name@) {
            Some(UnitKind::Container) => Some(UnitKind::Container),
            Some(UnitKind::Build) => Some(UnitKind::Build),
            _ => None,
        },
{
    match kind_of(file_name) {
        Some(UnitKind::Container) => Some(UnitKind::Container),
        Some(UnitKind::Build) => Some(UnitKind::Build),
        _ => None,
    }
}


/// The env editor's text on the edit page: what a rejected submission
/// posted, else (for Container and Build units) the sidecar's variables as
/// editor lines (`disk_env`, read by the caller), else nothing.
pub fn edit_env_body(env_override: Option<&str>, kind: UnitKind, disk_env: &str) -> (r: String)
    ensures
        r@ == match env_override {
            Some(s) => s@,
            None => if kind == UnitKind::Container || kind == UnitKind::Build {
                disk_env@
            } else {
                Seq::empty()
            },
        },
{
    match env_override {
        Some(s) => text::owned(s),
        None => match kind {
            UnitKind::Container | UnitKind::Build => text::owned(disk_env),
            _ => String::new(),
        },
    }
}

/// How a change answers: an htmx caller gets an empty `204` (the live
/// refresh redraws the page), a plain form post is redirected.
pub enum AfterChange {
    NoContent,
    Redirect(String),
}

/// The answer to a successful change for a request that did (or did not)
/// come from htmx.
pub fn after_change(htmx: bool, redirect_to: &str) -> (r: AfterChange)
    ensures
        htmx ==> r is NoContent,
        !htmx ==> (r matches AfterChange::Redirect(t) && t@ == redirect_to@),
{
    if htmx {
        AfterChange::NoContent
    } else {
        AfterChange::Redirect(text::owned(redirect_to))
    }
}

/// How a rejected edit puts the env sidecar back the way it was.
pub enum SidecarRollback {
    /// Write these variables back.
    Restore(Vec<(String, String)>),
    /// Remove the sidecar: there was none, it was empty, or it could not be read.
    Remove,
}

/// The rollback for a sidecar whose earlier contents were `loaded` (`None`
/// when reading them failed): a non-empty earlier list is written back,
/// anything else removes the file.
pub fn sidecar_rollback(loaded: Option<Vec<(String, String)>>) -> (r: SidecarRollback)
    ensures
        match loaded {
            Some(v) => if v.len() > 0 {
                r == SidecarRollback::Restore(v)
            } else {
                r is Remove
            },
            None => r is Remove,
        },
{
    match loaded {
        Some(v) => {
            if v.len() > 0 {
                SidecarRollback::Restore(v)
            } else {
                SidecarRollback::Remove
            }
        },
        None => SidecarRollback::Remove,
    }
}

} // verus!
