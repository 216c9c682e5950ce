//! The rows the pod pages render for staged brand-new resources and for
//! the pod's current members, rebuilt from a rejected submission so nothing
//! typed is lost.
use vstd::prelude::*;

use crate::decimal::{self, dec};
use crate::drafts::{
    field_or_empty, member_contents_key, member_env_key, MemberDraft, NewContainerDraft,
    NewNetworkDraft, NewVolumeDraft,
};
use crate::groups::strings_view;
use crate::pods::{find_unit, find_unit_index};
use crate::text;
use crate::unit::{lookup, pairs_view, units_view, QuadletUnit, UnitView};

verus! {

/// A staged new-container row; the id is text so the same row shape also
/// serves the client-side `__ID__` template.
pub struct NewContainerRow<'a> {
    pub id: String,
    pub name_prefill: &'a str,
    pub contents_prefill: &'a str,
    pub env_prefill: &'a str,
}

/// A staged new-network row.
pub struct NewNetworkRow<'a> {
    pub id: String,
    pub name_prefill: &'a str,
    pub contents_prefill: &'a str,
}

/// A staged new-volume row.
pub struct NewVolumeRow<'a> {
    pub id: String,
    pub name_prefill: &'a str,
    pub contents_prefill: &'a str,
    pub dest_prefill: &'a str,
}

/// One row per staged container draft, in order, prefilled from it.
pub fn new_container_rows(drafts: &[NewContainerDraft]) -> (r: Vec<NewContainerRow<'_>>)
    ensures
        r@.len() == drafts@.len(),
        forall|i: int|
            0 <= i < r@.len() ==> {
                &&& (#[trigger] r@[i]).id@ == dec(drafts@[i].id as nat)
                &&& r@[i].name_prefill@ == drafts@[i].name@
                &&& r@[i].contents_prefill@ == drafts@[i].contents@
                &&& r@[i].env_prefill@ == drafts@[i].env@
            },
{
    let mut out: Vec<NewContainerRow<'_>> = Vec::new();
    let mut i: usize = 0;
    while i < drafts.len()
        invariant
            i <= drafts@.len(),
            out@.len() == i,
            forall|k: int|
                0 <= k < i ==> {
                    &&& (#[trigger] out@[k]).id@ == dec(drafts@[k].id as nat)
                    &&& out@[k].name_prefill@ == drafts@[k].name@
                    &&& out@[k].contents_prefill@ == drafts@[k].contents@
                    &&& out@[k].env_prefill@ == drafts@[k].env@
                },
        decreases drafts.len() - i,
    {
        let d = &drafts[i];
        out.push(
            NewContainerRow {
                id: decimal::to_decimal(d.id as u64),
                name_prefill: d.name.as_str(),
                contents_prefill: d.contents.as_str(),
                env_prefill: d.env.as_str(),
            },
        );
        i = i + 1;
    }
    out
}

/// One row per staged network draft, in order, prefilled from it.
pub fn new_network_rows(drafts: &[NewNetworkDraft]) -> (r: Vec<NewNetworkRow<'_>>)
    ensures
        r@.len() == drafts@.len(),
        forall|i: int|
            0 <= i < r@.len() ==> {
                &&& (#[trigger] r@[i]).id@ == dec(drafts@[i].id as nat)
                &&& r@[i].name_prefill@ == drafts@[i].name@
                &&& r@[i].contents_prefill@ == drafts@[i].contents@
            },
{
    let mut out: Vec<NewNetworkRow<'_>> = Vec::new();
    let mut i: usize = 0;
    while i < drafts.len()
        invariant
            i <= drafts@.len(),
            out@.len() == i,
            forall|k: int|
                0 <= k < i ==> {
                    &&& (#[trigger] out@[k]).id@ == dec(drafts@[k].id as nat)
                    &&& out@[k].name_prefill@ == drafts@[k].name@
                    &&& out@[k].contents_prefill@ == drafts@[k].contents@
                },
        decreases drafts.len() - i,
    {
        let d = &drafts[i];
        out.push(
            NewNetworkRow {
                id: decimal::to_decimal(d.id as u64),
                name_prefill: d.name.as_str(),
                contents_prefill: d.contents.as_str(),
            },
        );
        i = i + 1;
    }
    out
}

/// One row per staged volume draft, in order, prefilled from it.
pub fn new_volume_rows(drafts: &[NewVolumeDraft]) -> (r: Vec<NewVolumeRow<'_>>)
    ensures
        r@.len() == drafts@.len(),
        forall|i: int|
            0 <= i < r@.len() ==> {
                &&& (#[trigger] r@[i]).id@ == dec(drafts@[i].id as nat)
                &&& r@[i].name_prefill@ == drafts@[i].name@
                &&& r@[i].contents_prefill@ == drafts@[i].contents@
                &&& r@[i].dest_prefill@ == drafts@[i].dest@
            },
{
    let mut out: Vec<NewVolumeRow<'_>> = Vec::new();
    let mut i: usize = 0;
    while i < drafts.len()
        invariant
            i <= drafts@.len(),
            out@.len() == i,
            forall|k: int|
                0 <= k < i ==> {
                    &&& (#[trigger] out@[k]).id@ == dec(drafts@[k].id as nat)
                    &&& out@[k].name_prefill@ == drafts@[k].name@
                    &&& out@[k].contents_prefill@ == drafts@[k].contents@
                    &&& out@[k].dest_prefill@ == drafts@[k].dest@
                },
        decreases drafts.len() - i,
    {
        let d = &drafts[i];
        out.push(
            NewVolumeRow {
                id: decimal::to_decimal(d.id as u64),
                name_prefill: d.name.as_str(),
                contents_prefill: d.contents.as_str(),
                dest_prefill: d.dest.as_str(),
            },
        );
        i = i + 1;
    }
    out
}

/// One current member of a pod in the edit page's Members section.
pub struct MemberContainerRow {
    pub file_name: String,
    pub group: String,
    pub contents_prefill: String,
    pub env_prefill: String,
    /// Whether its `<details>` starts open (only the member whose edit a
    /// rejection was about).
    pub open: bool,
}

/// A member row as plain values: file name, group, contents, env text and
/// whether it starts open.
pub open spec fn member_row_view(r: MemberContainerRow) -> (Seq<char>, Seq<char>, Seq<char>, Seq<char>, bool) {
    (r.file_name@, r.group@, r.contents_prefill@, r.env_prefill@, r.open)
}

/// A submitted field's value, when the submission has that field.
pub open spec fn posted(form: Option<Seq<(Seq<char>, Seq<char>)>>, key: Seq<char>) -> Option<Seq<char>> {
    match form {
        Some(f) => lookup(f, key),
        None => None,
    }
}

/// The member rows from `members[i]` on.
pub open spec fn member_rows_from(
    all: Seq<UnitView>,
    members: Seq<Seq<char>>,
    form: Option<Seq<(Seq<char>, Seq<char>)>>,
    open_member: Option<Seq<char>>,
    disk_env: Seq<Seq<char>>,
    i: int,
) -> Seq<(Seq<char>, Seq<char>, Seq<char>, Seq<char>, bool)>
    decreases members.len() - i,
{
    if i < 0 || i >= members.len() {
        Seq::empty()
    } else {
        let m = members[i];
        let rest = member_rows_from(all, members, form, open_member, disk_env, i + 1);
        match find_unit(all, m) {
            None => rest,
            Some(u) => seq![
                (
                    m,
                    u.group,
                    match posted(form, member_contents_key(m)) {
                        Some(v) => v,
                        None => u.raw,
                    },
                    match posted(form, member_env_key(m)) {
                        Some(v) => v,
                        None => disk_env[i],
                    },
                    open_member == Some(m),
                ),
            ] + rest,
        }
    }
}

/// The member rows of the edit page: one per member that exists on disk,
/// in order. Each editor is prefilled from the rejected submission's
/// `memberc_<file>_contents` / `_env` fields when it has them, otherwise
/// from the file's text and its env sidecar (`disk_env[i]`, read by the
/// caller for `members[i]`).
pub fn member_rows(
    all: &[QuadletUnit],
    members: &[String],
    form: Option<&[(String, String)]>,
    open_member: Option<&str>,
    disk_env: &[String],
) -> (r: Vec<MemberContainerRow>)
    requires
        disk_env@.len() == members@.len(),
    ensures
        r@.map_values(|x: MemberContainerRow| member_row_view(x)) == member_rows_from(
            units_view(all@),
            strings_view(members@),
            match form {
                Some(f) => Some(pairs_view(f@)),
                None => None,
            },
            opt_str(open_member),
            strings_view(disk_env@),
            0,
        ),
{
    let ghost uv = units_view(all@);
    let ghost ms = strings_view(members@);
    let ghost fv = match form {
        Some(f) => Some(pairs_view(f@)),
        None => None,
    };
    let ghost om = opt_str(open_member);
    let ghost de = strings_view(disk_env@);
    let mut out: Vec<MemberContainerRow> = Vec::new();
    let mut i: usize = 0;
    while i < members.len()
        invariant
            i <= members@.len(),
            disk_env@.len() == members@.len(),
            uv == units_view(all@),
            ms == strings_view(members@),
            de == strings_view(disk_env@),
            fv == match form {
                Some(f) => Some(pairs_view(f@)),
                None => None::<Seq<(Seq<char>, Seq<char>)>>,
            },
            om == opt_str(open_member),
            member_rows_from(uv, ms, fv, om, de, 0) == out@.map_values(
                |x: MemberContainerRow| member_row_view(x),
            ) + member_rows_from(uv, ms, fv, om, de, i as int),
        decreases members.len() - i,
    {
        let ghost before = out@.map_values(|x: MemberContainerRow| member_row_view(x));
        assert(ms[i as int] == members@[i as int]@);
        assert(de[i as int] == disk_env@[i as int]@);
        let f = text::to_chars(members[i].as_str());
        match find_unit_index(all, f.as_slice()) {
            Some(k) => {
                let (contents, env) = match form {
                    Some(fields) => {
                        let ck = member_key(members[i].as_str(), "_contents");
                        let ek = member_key(members[i].as_str(), "_env");
                        let contents = match field_index(fields, ck.as_slice()) {
                            Some(j) => text::owned(fields[j].1.as_str()),
                            None => text::owned(all[k].raw.as_str()),
                        };
                        let env = match field_index(fields, ek.as_slice()) {
                            Some(j) => text::owned(fields[j].1.as_str()),
                            None => text::owned(disk_env[i].as_str()),
                        };
                        (contents, env)
                    },
                    None => (text::owned(all[k].raw.as_str()), text::owned(disk_env[i].as_str())),
                };
                let open = match open_member {
                    Some(o) => text::str_eq(o, members[i].as_str()),
                    None => false,
                };
                out.push(
                    MemberContainerRow {
                        file_name: text::owned(members[i].as_str()),
                        group: text::owned(all[k].group.as_str()),
                        contents_prefill: contents,
                        env_prefill: env,
                        open,
                    },
                );
            },
            None => {
                assert(out@.map_values(|x: MemberContainerRow| member_row_view(x)) == before);
            },
        }
        proof {
            let tail = member_rows_from(uv, ms, fv, om, de, i + 1);
            let now = out@.map_values(|x: MemberContainerRow| member_row_view(x));
            if now.len() > before.len() {
                assert(now =~= before.push(now.last()));
                assert(before + (seq![now.last()] + tail) =~= now + tail);
            } else {
                assert(now =~= before);
            }
        }
        i = i + 1;
    }
    assert(member_rows_from(uv, ms, fv, om, de, i as int) =~= Seq::<(Seq<char>, Seq<char>, Seq<char>, Seq<char>, bool)>::empty());
    assert(out@.map_values(|x: MemberContainerRow| member_row_view(x)) + Seq::<(Seq<char>, Seq<char>, Seq<char>, Seq<char>, bool)>::empty() =~= out@.map_values(|x: MemberContainerRow| member_row_view(x)));
    out
}

/// The characters of an optional string slice.
pub open spec fn opt_str(o: Option<&str>) -> Option<Seq<char>> {
    match o {
        Some(s) => Some(s@),
        None => None,
    }
}

fn member_key(file_name: &str, part: &str) -> (r: Vec<char>)
    ensures
        r@ == "memberc_"@ + file_name@ + part@,
{
    let mut k = text::to_chars("memberc_");
    text::append_str(&mut k, file_name);
    text::append_str(&mut k, part);
    k
}

/// The index of the first field named `key`.
fn field_index(fields: &[(String, String)], key: &[char]) -> (r: Option<usize>)
    ensures
        match r {
            Some(j) => j < fields@.len() && lookup(pairs_view(fields@), key@) == Some(
                fields@[j as int].1@,
            ),
            None => lookup(pairs_view(fields@), key@) is None,
        },
{
    let ghost fv = pairs_view(fields@);
    let mut i: usize = 0;
    proof {
        assert(fv.skip(0) =~= fv);
    }
    while i < fields.len()
        invariant
            i <= fields@.len(),
            fv == pairs_view(fields@),
            lookup(fv, key@) == lookup(fv.skip(i as int), key@),
        decreases fields.len() - i,
    {
        let ghost rest = fv.skip(i as int);
        assert(rest[0] == (fields@[i as int].0@, fields@[i as int].1@));
        let k = text::to_chars(fields[i].0.as_str());
        if text::chars_eq(k.as_slice(), key) {
            return Some(i);
        }
        assert(rest.drop_first() =~= fv.skip(i + 1));
        i = i + 1;
    }
    None
}

} // verus!
