//! The decisions behind creating, moving, renaming and deleting units and
//! group directories: which arguments are acceptable, which git-synced
//! directories they would disturb, and which path a unit or group ends up
//! at. The caller performs the file-system work the returned plan names.
use vstd::prelude::*;

use crate::naming::{
    self, basename_of, parent_of, rel_path_of, valid_group_spec,
};
use crate::kind::{last_index_of, lemma_last_index_of};
use crate::text::{self, trim, trim_matches};

verus! {

/// The character sequences of a list of strings.
pub open spec fn strings_view(v: Seq<String>) -> Seq<Seq<char>> {
    v.map_values(|s: String| s@)
}

/// `p` followed by `/` is a prefix of `s`.
pub open spec fn has_dir_prefix(s: Seq<char>, p: Seq<char>) -> bool {
    p.len() + 1 <= s.len() && s.take(p.len() + 1 as int) == p.push('/')
}

/// `group` is the synced directory `synced` or lies inside it.
pub open spec fn lands_in(synced: Seq<char>, group: Seq<char>) -> bool {
    group == synced || has_dir_prefix(group, synced)
}

/// `group` lands in `synced`, or `synced` lies inside `group`.
pub open spec fn touches(synced: Seq<char>, group: Seq<char>) -> bool {
    lands_in(synced, group) || has_dir_prefix(synced, group)
}

/// The first synced group that `group` lands in.
pub open spec fn first_destination_overlap(synced: Seq<Seq<char>>, group: Seq<char>) -> Option<
    Seq<char>,
>
    decreases synced.len(),
{
    if synced.len() == 0 {
        None
    } else if lands_in(synced[0], group) {
        Some(synced[0])
    } else {
        first_destination_overlap(synced.drop_first(), group)
    }
}

/// The first synced group that `group` touches.
pub open spec fn first_source_overlap(synced: Seq<Seq<char>>, group: Seq<char>) -> Option<
    Seq<char>,
>
    decreases synced.len(),
{
    if synced.len() == 0 {
        None
    } else if touches(synced[0], group) {
        Some(synced[0])
    } else {
        first_source_overlap(synced.drop_first(), group)
    }
}

/// Executable `has_dir_prefix`.
pub(crate) fn chars_have_dir_prefix(s: &[char], p: &[char]) -> (r: bool)
    ensures
        r == has_dir_prefix(s@, p@),
{
    let mut q: Vec<char> = Vec::new();
    text::append_chars(&mut q, p);
    q.push('/');
    assert(q@ =~= p@.push('/'));
    text::has_prefix(s, q.as_slice())
}

/// Whether a git sync of `synced` already manages `group`: it is the synced
/// directory itself or lies somewhere inside it. Returns the first such
/// synced group.
pub fn destination_overlap(synced_groups: &[String], group: &str) -> (r: Option<String>)
    ensures
        r matches Some(s) ==> first_destination_overlap(strings_view(synced_groups@), group@)
            == Some(s@),
        r is None ==> first_destination_overlap(strings_view(synced_groups@), group@) is None,
{
    let g = text::to_chars(group);
    let ghost all = strings_view(synced_groups@);
    let mut i: usize = 0;
    proof {
        assert(all.skip(0) =~= all);
    }
    while i < synced_groups.len()
        invariant
            i <= synced_groups@.len(),
            all == strings_view(synced_groups@),
            g@ == group@,
            first_destination_overlap(all, group@) == first_destination_overlap(
                all.skip(i as int),
                group@,
            ),
        decreases synced_groups.len() - i,
    {
        let s = text::to_chars(synced_groups[i].as_str());
        let ghost rest = all.skip(i as int);
        assert(rest[0] == s@);
        if text::chars_eq(g.as_slice(), s.as_slice()) || chars_have_dir_prefix(
            g.as_slice(),
            s.as_slice(),
        ) {
            return Some(synced_groups[i].clone());
        }
        assert(rest.drop_first() =~= all.skip(i + 1));
        i = i + 1;
    }
    None
}

/// Whether moving or renaming `group` itself would disturb a git sync: it
/// is a synced directory, lies inside one, or contains one. Returns the
/// first such synced group.
pub fn source_overlap(synced_groups: &[String], group: &str) -> (r: Option<String>)
    ensures
        r matches Some(s) ==> first_source_overlap(strings_view(synced_groups@), group@) == Some(
            s@,
        ),
        r is None ==> first_source_overlap(strings_view(synced_groups@), group@) is None,
{
    let g = text::to_chars(group);
    let ghost all = strings_view(synced_groups@);
    let mut i: usize = 0;
    proof {
        assert(all.skip(0) =~= all);
    }
    while i < synced_groups.len()
        invariant
            i <= synced_groups@.len(),
            all == strings_view(synced_groups@),
            g@ == group@,
            first_source_overlap(all, group@) == first_source_overlap(all.skip(i as int), group@),
        decreases synced_groups.len() - i,
    {
        let s = text::to_chars(synced_groups[i].as_str());
        let ghost rest = all.skip(i as int);
        assert(rest[0] == s@);
        if text::chars_eq(g.as_slice(), s.as_slice()) || chars_have_dir_prefix(
            g.as_slice(),
            s.as_slice(),
        ) || chars_have_dir_prefix(s.as_slice(), g.as_slice()) {
            return Some(synced_groups[i].clone());
        }
        assert(rest.drop_first() =~= all.skip(i + 1));
        i = i + 1;
    }
    None
}

/// Every destination a sync manages is also off limits as a source: if a
/// group lands in some synced directory, moving or renaming it is refused
/// too.
pub proof fn lemma_destination_overlap_implies_source_overlap(
    synced: Seq<Seq<char>>,
    group: Seq<char>,
)
    ensures
        first_destination_overlap(synced, group) is Some ==> first_source_overlap(
            synced,
            group,
        ) is Some,
    decreases synced.len(),
{
    if synced.len() > 0 {
        lemma_destination_overlap_implies_source_overlap(synced.drop_first(), group);
    }
}

/// Why a group or unit operation was refused.
#[derive(Debug, PartialEq, Eq)]
pub enum GroupError {
    /// `invalid group '<g>'` (create).
    InvalidGroup(String),
    /// `invalid group '<g>': use path segments …` (move, rename, delete).
    BadGroup(String),
    /// A rename's new leaf name is empty, has a `/`, or is not a valid
    /// segment.
    InvalidGroupName(String),
    /// A group cannot move into itself or one of its subgroups.
    IntoItself,
    /// The named git-synced group is in the way.
    Synced(String),
    /// The group still holds units.
    NotEmpty(String),
    /// A unit of that file name already exists.
    AlreadyExists(String),
}

/// The message each refusal is reported with.
pub open spec fn group_error_message(e: GroupError) -> Seq<char> {
    match e {
        GroupError::InvalidGroup(g) => "invalid group '"@ + g@ + "'"@,
        GroupError::BadGroup(g) => "invalid group '"@ + g@
            + "': use path segments of letters, digits, '_', '-', '.'; no '..'"@,
        GroupError::InvalidGroupName(n) => "invalid group name '"@ + n@ + "'"@,
        GroupError::IntoItself => "cannot move a group into itself or one of its own subgroups"@,
        GroupError::Synced(s) => "'"@ + s@
            + "' is synced from a git repository (see the Git Sync page) and is managed by the remote -- it can't be used as a move/create target, or moved/renamed itself"@,
        GroupError::NotEmpty(g) => "group '"@ + g@
            + "' still contains units \u{2014} move or delete them first"@,
        GroupError::AlreadyExists(f) => f@ + " already exists"@,
    }
}

impl GroupError {
    /// The message this refusal is reported with.
    pub fn message(&self) -> (r: String)
        ensures
            r@ == group_error_message(*self),
    {
        let mut out: Vec<char> = Vec::new();
        match self {
            GroupError::InvalidGroup(g) => {
                text::append_str(&mut out, "invalid group '");
                text::append_str(&mut out, g.as_str());
                text::append_str(&mut out, "'");
            },
            GroupError::BadGroup(g) => {
                text::append_str(&mut out, "invalid group '");
                text::append_str(&mut out, g.as_str());
                text::append_str(
                    &mut out,
                    "': use path segments of letters, digits, '_', '-', '.'; no '..'",
                );
            },
            GroupError::InvalidGroupName(n) => {
                text::append_str(&mut out, "invalid group name '");
                text::append_str(&mut out, n.as_str());
                text::append_str(&mut out, "'");
            },
            GroupError::IntoItself => {
                text::append_str(
                    &mut out,
                    "cannot move a group into itself or one of its own subgroups",
                );
            },
            GroupError::Synced(s) => {
                text::append_str(&mut out, "'");
                text::append_str(&mut out, s.as_str());
                text::append_str(
                    &mut out,
                    "' is synced from a git repository (see the Git Sync page) and is managed by the remote -- it can't be used as a move/create target, or moved/renamed itself",
                );
            },
            GroupError::NotEmpty(g) => {
                text::append_str(&mut out, "group '");
                text::append_str(&mut out, g.as_str());
                text::append_str(&mut out, "' still contains units \u{2014} move or delete them first");
            },
            GroupError::AlreadyExists(f) => {
                text::append_str(&mut out, f.as_str());
                text::append_str(&mut out, " already exists");
            },
        }
        text::from_chars(out.as_slice())
    }
}

/// A group argument as submitted: whitespace trimmed, then surrounding
/// `/`s removed.
pub open spec fn normalized_group(raw: Seq<char>) -> Seq<char> {
    trim_matches(trim(raw), '/')
}

fn normalize_group(raw: &str) -> (r: Vec<char>)
    ensures
        r@ == normalized_group(raw@),
{
    let v = text::to_chars(raw);
    let t = text::trim_chars(v.as_slice());
    text::trim_matches_chars(t.as_slice(), '/')
}

/// A whole group is never moved into itself: wherever a move goes ahead
/// (the new parent is neither the group nor inside it, and the group does
/// not already sit there), the destination is not inside the group.
pub proof fn lemma_moved_group_lands_outside_itself(g: Seq<char>, p: Seq<char>)
    requires
        p != g,
        !has_dir_prefix(p, g),
    ensures
        !has_dir_prefix(move_group_target(g, p), g),
{
    let b = basename_of(g);
    let to = move_group_target(g, p);
    lemma_last_index_of(g, '/');
    assert forall|k: int| 0 <= k < b.len() implies b[k] != '/' by {
        match last_index_of(g, '/') {
            Some(i) => {
                assert(b[k] == g[i + 1 + k]);
            },
            None => {},
        }
    }
    if has_dir_prefix(to, g) {
        let n = g.len() as int;
        assert(to.take(n + 1)[n] == '/');
        assert(to[n] == '/');
        if p.len() == 0 {
            assert(to == b);
        } else {
            assert(to == p + seq!['/'] + b);
            if n < p.len() {
                assert(to.take(n + 1) =~= p.take(n + 1));
            } else if n == p.len() {
                assert forall|k: int| 0 <= k < n implies p[k] == g[k] by {
                    assert(to.take(n + 1)[k] == g.push('/')[k]);
                }
                assert(p =~= g);
            } else {
                assert(to[n] == b[n - p.len() - 1]);
            }
        }
    }
}

/// The normalized group a move/rename/delete of a whole group names, when
/// it is a non-empty valid group path.
pub fn group_arg(raw: &str) -> (r: Result<String, GroupError>)
    ensures
        ({
            let g = normalized_group(raw@);
            if g.len() > 0 && valid_group_spec(g) {
                r matches Ok(s) && s@ == g
            } else {
                r matches Err(GroupError::BadGroup(s)) && s@ == g
            }
        }),
{
    let g = normalize_group(raw);
    let s = text::from_chars(g.as_slice());
    if g.len() > 0 && naming::valid_group_chars(g.as_slice()) {
        Ok(s)
    } else {
        Err(GroupError::BadGroup(s))
    }
}

/// What re-parenting a group directory does: `None` when it already sits
/// under the new parent, otherwise `Some((from, to))`.
pub open spec fn move_group_target(group: Seq<char>, parent: Seq<char>) -> Seq<char> {
    rel_path_of(parent, basename_of(group))
}

/// Re-parenting `<group>` under `<new_parent>` (blank = the root), decided
/// before anything touches the disk: both paths must be valid, the group
/// cannot go into itself or below itself, a group already under that
/// parent needs nothing (`None`), and otherwise neither the group nor the
/// destination may be managed by a git sync. Gives the directory rename to
/// perform.
pub fn plan_move_group(group_raw: &str, new_parent_raw: &str, synced_groups: &[String]) -> (r:
    Result<Option<(String, String)>, GroupError>)
    ensures
        ({
            let g = normalized_group(group_raw@);
            let p = normalized_group(new_parent_raw@);
            let synced = strings_view(synced_groups@);
            let to = move_group_target(g, p);
            if !(g.len() > 0 && valid_group_spec(g)) {
                r matches Err(GroupError::BadGroup(s)) && s@ == g
            } else if !valid_group_spec(p) {
                r matches Err(GroupError::BadGroup(s)) && s@ == p
            } else if p == g || has_dir_prefix(p, g) {
                r == Err::<Option<(String, String)>, GroupError>(GroupError::IntoItself)
            } else if to == g {
                r matches Ok(None)
            } else if first_source_overlap(synced, g) is Some {
                r matches Err(GroupError::Synced(s)) && first_source_overlap(synced, g) == Some(
                    s@,
                )
            } else if first_destination_overlap(synced, p) is Some {
                r matches Err(GroupError::Synced(s)) && first_destination_overlap(synced, p)
                    == Some(s@)
            } else {
                r matches Ok(Some((from, dest))) && from@ == g && dest@ == to
            }
        }),
{
    let g = normalize_group(group_raw);
    let p = normalize_group(new_parent_raw);
    let gs = text::from_chars(g.as_slice());
    let ps = text::from_chars(p.as_slice());
    if !(g.len() > 0 && naming::valid_group_chars(g.as_slice())) {
        return Err(GroupError::BadGroup(gs));
    }
    if !naming::valid_group_chars(p.as_slice()) {
        return Err(GroupError::BadGroup(ps));
    }
    if text::chars_eq(p.as_slice(), g.as_slice()) || chars_have_dir_prefix(
        p.as_slice(),
        g.as_slice(),
    ) {
        return Err(GroupError::IntoItself);
    }
    let base = naming::basename(gs.as_str());
    let to = naming::compose_rel_path(ps.as_str(), base.as_str());
    let tv = text::to_chars(to.as_str());
    if text::chars_eq(tv.as_slice(), g.as_slice()) {
        return Ok(None);
    }
    if let Some(s) = source_overlap(synced_groups, gs.as_str()) {
        return Err(GroupError::Synced(s));
    }
    if let Some(s) = destination_overlap(synced_groups, ps.as_str()) {
        return Err(GroupError::Synced(s));
    }
    Ok(Some((gs, to)))
}

/// Renaming a group's last segment in place, decided before anything
/// touches the disk: the group and the new name must be valid, an
/// unchanged name needs nothing (`None`), and a group a git sync manages
/// is refused. Gives the directory rename to perform.
pub fn plan_rename_group(group_raw: &str, new_name_raw: &str, synced_groups: &[String]) -> (r:
    Result<Option<(String, String)>, GroupError>)
    ensures
        ({
            let g = normalized_group(group_raw@);
            let n = trim(new_name_raw@);
            let synced = strings_view(synced_groups@);
            let to = rel_path_of(parent_of(g), n);
            if !(g.len() > 0 && valid_group_spec(g)) {
                r matches Err(GroupError::BadGroup(s)) && s@ == g
            } else if n.len() == 0 || n.contains('/') || !valid_group_spec(n) {
                r matches Err(GroupError::InvalidGroupName(s)) && s@ == n
            } else if to == g {
                r matches Ok(None)
            } else if first_source_overlap(synced, g) is Some {
                r matches Err(GroupError::Synced(s)) && first_source_overlap(synced, g) == Some(
                    s@,
                )
            } else {
                r matches Ok(Some((from, dest))) && from@ == g && dest@ == to
            }
        }),
{
    let g = normalize_group(group_raw);
    let nv = text::to_chars(new_name_raw);
    let n = text::trim_chars(nv.as_slice());
    let gs = text::from_chars(g.as_slice());
    let ns = text::from_chars(n.as_slice());
    if !(g.len() > 0 && naming::valid_group_chars(g.as_slice())) {
        return Err(GroupError::BadGroup(gs));
    }
    if n.len() == 0 || text::contains_char(n.as_slice(), '/') || !naming::valid_group_chars(
        n.as_slice(),
    ) {
        return Err(GroupError::InvalidGroupName(ns));
    }
    let parent = naming::parent(gs.as_str());
    let to = naming::compose_rel_path(parent.as_str(), ns.as_str());
    let tv = text::to_chars(to.as_str());
    if text::chars_eq(tv.as_slice(), g.as_slice()) {
        return Ok(None);
    }
    if let Some(s) = source_overlap(synced_groups, gs.as_str()) {
        return Err(GroupError::Synced(s));
    }
    Ok(Some((gs, to)))
}

/// The group a unit is being moved to, as submitted: trimmed, and a valid
/// group path (blank = the root).
pub fn move_unit_target(new_group_raw: &str) -> (r: Result<String, GroupError>)
    ensures
        valid_group_spec(trim(new_group_raw@)) ==> (r matches Ok(s) && s@ == trim(
            new_group_raw@,
        )),
        !valid_group_spec(trim(new_group_raw@)) ==> (r matches Err(GroupError::BadGroup(s)) && s@
            == trim(new_group_raw@)),
{
    let v = text::to_chars(new_group_raw);
    let t = text::trim_chars(v.as_slice());
    let s = text::from_chars(t.as_slice());
    if naming::valid_group_chars(t.as_slice()) {
        Ok(s)
    } else {
        Err(GroupError::BadGroup(s))
    }
}

/// Moving a loaded unit (currently in `current_group`) into `new_group`
/// (already checked by `move_unit_target`): `None` when it is already
/// there, otherwise the file's new group-relative path, unless a git sync
/// manages the destination.
pub fn plan_move_unit(
    current_group: &str,
    new_group: &str,
    file_name: &str,
    synced_groups: &[String],
) -> (r: Result<Option<String>, GroupError>)
    ensures
        current_group@ == new_group@ ==> r matches Ok(None),
        current_group@ != new_group@ ==> match first_destination_overlap(
            strings_view(synced_groups@),
            new_group@,
        ) {
            Some(s) => r matches Err(GroupError::Synced(x)) && x@ == s,
            None => r matches Ok(Some(p)) && p@ == rel_path_of(new_group@, file_name@),
        },
{
    if text::str_eq(current_group, new_group) {
        return Ok(None);
    }
    if let Some(s) = destination_overlap(synced_groups, new_group) {
        return Err(GroupError::Synced(s));
    }
    Ok(Some(naming::compose_rel_path(new_group, file_name)))
}

/// Creating a new unit `file_name` under `group`: the group must be valid
/// and not managed by a git sync, and no unit of that file name may exist
/// anywhere in the group tree (`name_taken`, looked up on disk), since the
/// generated service is named after the bare file name. Gives the
/// group-relative path to write the file at.
pub fn plan_create_unit(file_name: &str, group: &str, synced_groups: &[String], name_taken: bool) -> (r:
    Result<String, GroupError>)
    ensures
        !valid_group_spec(group@) ==> (r matches Err(GroupError::InvalidGroup(s)) && s@
            == group@),
        valid_group_spec(group@) ==> match first_destination_overlap(
            strings_view(synced_groups@),
            group@,
        ) {
            Some(s) => r matches Err(GroupError::Synced(x)) && x@ == s,
            None => if name_taken {
                r matches Err(GroupError::AlreadyExists(f)) && f@ == file_name@
            } else {
                r matches Ok(p) && p@ == rel_path_of(group@, file_name@)
            },
        },
{
    if !naming::valid_group(group) {
        return Err(GroupError::InvalidGroup(text::owned(group)));
    }
    if let Some(s) = destination_overlap(synced_groups, group) {
        return Err(GroupError::Synced(s));
    }
    if name_taken {
        return Err(GroupError::AlreadyExists(text::owned(file_name)));
    }
    Ok(naming::compose_rel_path(group, file_name))
}

/// The group a delete request names: the submitted path trimmed of
/// whitespace and surrounding `/`s, which must be a valid, non-root group.
pub fn delete_group_target(group_raw: &str) -> (r: Result<String, GroupError>)
    ensures
        ({
            let g = normalized_group(group_raw@);
            if g.len() > 0 && valid_group_spec(g) {
                r matches Ok(x) && x@ == g
            } else {
                r matches Err(GroupError::BadGroup(x)) && x@ == g
            }
        }),
{
    let g = normalize_group(group_raw);
    let gs = text::from_chars(g.as_slice());
    if g.len() == 0 || !naming::valid_group(gs.as_str()) {
        return Err(GroupError::BadGroup(gs));
    }
    Ok(gs)
}

/// Deleting `group`, whose directory does (`has_units`) or does not hold
/// units: refused while it does, so no unit is lost with the directory.
pub fn refuse_non_empty(group: &str, has_units: bool) -> (r: Result<(), GroupError>)
    ensures
        has_units ==> (r matches Err(GroupError::NotEmpty(x)) && x@ == group@),
        !has_units ==> r is Ok,
{
    if has_units {
        Err(GroupError::NotEmpty(text::owned(group)))
    } else {
        Ok(())
    }
}

} // verus!
