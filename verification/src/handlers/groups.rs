//! Group directories: creating an empty one, and the forms that move,
//! rename or delete one (their checks live in `crate::groups`).
use vstd::prelude::*;

use crate::naming::{valid_group_chars, valid_group_spec};
use crate::text::{self, trim, trim_matches};

verus! {

/// "New group", or "add subgroup" on a group row (then `group` is the child
/// segment and `parent` the path it nests under).
pub struct CreateGroupForm {
    pub csrf_token: String,
    pub group: String,
    pub parent: Option<String>,
}

/// Drag-and-drop of a whole group; a blank `parent` is the root.
pub struct MoveGroupForm {
    pub csrf_token: String,
    pub group: String,
    pub parent: String,
}

/// Change a group's last path segment.
pub struct RenameGroupForm {
    pub csrf_token: String,
    pub group: String,
    pub name: String,
}

/// Remove an empty group tree.
pub struct DeleteGroupForm {
    pub csrf_token: String,
    pub group: String,
}

/// A form value with surrounding whitespace and then slashes stripped.
pub open spec fn clean_segment(s: Seq<char>) -> Seq<char> {
    trim_matches(trim(s), '/')
}

/// The group path "New group" asks for: the cleaned child, under the
/// cleaned parent when that is non-empty.
pub open spec fn requested_group(group: Seq<char>, parent: Option<Seq<char>>) -> Seq<char> {
    match parent {
        Some(p) if clean_segment(p).len() > 0 => clean_segment(p) + seq!['/'] + clean_segment(
            group,
        ),
        _ => clean_segment(group),
    }
}

/// The message a refused group path is reported with.
pub open spec fn invalid_group_message(g: Seq<char>) -> Seq<char> {
    "invalid group '"@ + g + "'"@
}

fn clean(s: &str) -> (r: Vec<char>)
    ensures
        r@ == clean_segment(s@),
{
    let v = text::to_chars(s);
    let t = text::trim_chars(v.as_slice());
    text::trim_matches_chars(t.as_slice(), '/')
}

/// The directory "New group" creates under the quadlet dir, or the message
/// refusing it (an empty path, or one `valid_group` rejects).
pub fn create_group_path(group: &str, parent: Option<&str>) -> (r: Result<String, String>)
    ensures
        ({
            let g = requested_group(group@, match parent {
                Some(p) => Some(p@),
                None => None,
            });
            if g.len() > 0 && valid_group_spec(g) {
                r matches Ok(s) && s@ == g
            } else {
                r matches Err(e) && e@ == invalid_group_message(g)
            }
        }),
{
    let ghost g = requested_group(group@, match parent {
        Some(p) => Some(p@),
        None => None,
    });
    let child = clean(group);
    let path = match parent {
        Some(p) => {
            let pc = clean(p);
            if pc.len() > 0 {
                let mut out = pc;
                out.push('/');
                text::append_chars(&mut out, child.as_slice());
                assert(out@ =~= g);
                out
            } else {
                child
            }
        },
        None => child,
    };
    assert(path@ =~= g);
    if path.len() > 0 && valid_group_chars(path.as_slice()) {
        Ok(text::from_chars(path.as_slice()))
    } else {
        let mut msg = text::to_chars("invalid group '");
        text::append_chars(&mut msg, path.as_slice());
        msg.push('\'');
        proof {
            reveal_strlit("invalid group '");
            reveal_strlit("'");
        }
        assert(msg@ =~= invalid_group_message(g));
        Err(text::from_chars(msg.as_slice()))
    }
}

} // verus!
