//! The one "New unit" form every section shares: a file-name stem, a kind
//! (fixed by the section or picked on `/units/new`), an optional group and
//! the INI text itself.
use vstd::prelude::*;

use crate::kind::{kind_for_extension, UnitKind};
use crate::naming::{compose_file_name, file_name_of, invalid_file_name_message, valid_group, valid_group_spec, valid_stem_spec};
use crate::text::{self, trim};

verus! {

/// `?pod=<file>` when "Add container" is reached from a pod's page.
pub struct PodQuery {
    pub pod: Option<String>,
}

/// The posted "New unit" form.
pub struct CreateForm {
    pub csrf_token: String,
    /// The file-name stem only; the extension comes from `kind`.
    pub file_name: String,
    /// The kind's extension, from the hidden input or the kind picker.
    pub kind: String,
    /// Group to file the unit under; blank is the root.
    pub group: Option<String>,
    /// `section` or `units`: which form shape to redisplay on a rejection.
    pub origin: Option<String>,
    pub contents: String,
    /// `KEY=VALUE` lines from the env editor (Container and Build only).
    pub env_vars: Option<String>,
}

/// The editor's starting text for a new container: an empty `Image=`, and
/// the pod it joins when reached from a pod's page.
pub open spec fn container_skeleton_of(pod: Option<Seq<char>>) -> Seq<char> {
    match pod {
        Some(p) => "[Container]\nImage=\nPod="@ + p + "\n"@,
        None => "[Container]\nImage=\n"@,
    }
}

/// The new-container skeleton.
pub fn container_skeleton(pod: Option<&str>) -> (r: String)
    ensures
        r@ == container_skeleton_of(
            match pod {
                Some(p) => Some(p@),
                None => None,
            },
        ),
{
    match pod {
        Some(p) => {
            let mut out = text::to_chars("[Container]\nImage=\nPod=");
            text::append_str(&mut out, p);
            text::append_str(&mut out, "\n");
            text::from_chars(out.as_slice())
        },
        None => text::owned("[Container]\nImage=\n"),
    }
}

/// A "New unit" submission that passed the name, kind and group checks.
pub struct NewUnitPlan {
    pub kind: UnitKind,
    /// The trimmed stem.
    pub stem: String,
    /// The trimmed group (blank: the root).
    pub group: String,
    /// `<stem>.<extension>`.
    pub file_name: String,
    /// Whether the env-var editor and sidecar apply (Container, Build).
    pub wants_env: bool,
}

/// A refused submission: what to redisplay the form with.
pub struct NewUnitRejection {
    /// The kind to redisplay (Container when none was recognised).
    pub kind: UnitKind,
    pub stem: String,
    pub group: String,
    pub message: String,
}

/// The trimmed group field (a missing field is the root).
pub open spec fn group_field(group: Option<String>) -> Seq<char> {
    match group {
        Some(g) => trim(g@),
        None => Seq::empty(),
    }
}

/// The checks "Create" makes before anything touches the disk, in order:
/// the kind (the trimmed extension), the stem, then the group.
pub fn plan_new_unit(form: &CreateForm) -> (r: Result<NewUnitPlan, NewUnitRejection>)
    ensures
        ({
            let stem = trim(form.file_name@);
            let group = group_field(form.group);
            match kind_for_extension(trim(form.kind@)) {
                None => r matches Err(j) && j.kind == UnitKind::Container && j.stem@ == stem
                    && j.group@ == group && j.message@ == "Pick a unit type."@,
                Some(k) => if !valid_stem_spec(stem) {
                    r matches Err(j) && j.kind == k && j.stem@ == stem && j.group@ == group
                        && j.message@ == invalid_file_name_message(stem)
                } else if !valid_group_spec(group) {
                    r matches Err(j) && j.kind == k && j.stem@ == stem && j.group@ == group
                        && j.message@ == "invalid group '"@ + group + "'"@
                } else {
                    r matches Ok(p) && p.kind == k && p.stem@ == stem && p.group@ == group
                        && p.file_name@ == file_name_of(stem, k) && p.wants_env == (k
                        == UnitKind::Container || k == UnitKind::Build)
                },
            }
        }),
{
    let stem = text::trim_str(form.file_name.as_str());
    let group = match &form.group {
        Some(g) => text::trim_str(g.as_str()),
        None => String::new(),
    };
    let kind_text = text::trim_str(form.kind.as_str());
    let kind = match UnitKind::from_extension(kind_text.as_str()) {
        Some(k) => k,
        None => {
            return Err(
                NewUnitRejection {
                    kind: UnitKind::Container,
                    stem,
                    group,
                    message: text::owned("Pick a unit type."),
                },
            );
        },
    };
    let file_name = match compose_file_name(stem.as_str(), kind) {
        Ok(f) => f,
        Err(e) => {
            return Err(NewUnitRejection { kind, stem, group, message: e });
        },
    };
    if !valid_group(group.as_str()) {
        let mut msg = text::to_chars("invalid group '");
        text::append_str(&mut msg, group.as_str());
        text::append_str(&mut msg, "'");
        return Err(NewUnitRejection { kind, stem, group, message: text::from_chars(msg.as_slice()) });
    }
    let wants_env = match kind {
        UnitKind::Container | UnitKind::Build => true,
        _ => false,
    };
    Ok(NewUnitPlan { kind, stem, group, file_name, wants_env })
}

/// Whether a create that failed after the env sidecar was written removes
/// that sidecar again: only when the form carried the variable editor and
/// no sidecar was there before, so an existing file is never lost.
pub fn remove_sidecar_after_failed_create(wants_env: bool, sidecar_existed: bool) -> (r: bool)
    ensures
        r == (wants_env && !sidecar_existed),
{
    wants_env && !sidecar_existed
}

} // verus!
