//! The pod page's brand-new container/network/volume rows and the edits
//! to its current members, read out of the submitted form. The form is a
//! flat list of `(field name, value)` pairs; a row is the set of fields
//! `<prefix><id>_<part>` sharing one numeric `id`.
use vstd::prelude::*;

use crate::decimal::{self, dec, parse_u32_spec};
use crate::text;
use crate::unit::{lookup, pairs_view};

verus! {

/// Sanity cap on new-container rows per submission.
pub const MAX_NEW_CONTAINERS: usize = 20;

/// Sanity cap on new-network rows per submission.
pub const MAX_NEW_NETWORKS: usize = 20;

/// Sanity cap on new-volume rows per submission.
pub const MAX_NEW_VOLUMES: usize = 20;

/// `_name`.
pub open spec fn name_suffix() -> Seq<char> {
    seq!['_', 'n', 'a', 'm', 'e']
}

/// The row id a field name `<prefix><id>_name` carries (`id` as
/// `u32::from_str` reads it), if it has that shape.
pub open spec fn key_id(key: Seq<char>, prefix: Seq<char>) -> Option<u32> {
    if key.len() >= prefix.len() + 5 && key.take(prefix.len() as int) == prefix && key.skip(
        key.len() - 5,
    ) == name_suffix() {
        parse_u32_spec(key.subrange(prefix.len() as int, key.len() - 5))
    } else {
        None
    }
}

/// The row ids to read, given every field's id: strictly increasing, each
/// one some field's id, at most `cap` of them, and every field id either
/// among them or (when the cap was hit) larger than all of them — that is,
/// the `cap` smallest distinct ids, in order.
pub open spec fn ids_ok(keyids: Seq<Option<u32>>, ids: Seq<u32>, cap: nat) -> bool {
    &&& ids.len() <= cap
    &&& forall|a: int, b: int| 0 <= a < b < ids.len() ==> ids[a] < ids[b]
    &&& forall|a: int|
        #![trigger ids[a]]
        0 <= a < ids.len() ==> exists|j: int| 0 <= j < keyids.len() && keyids[j] == Some(ids[a])
    &&& forall|j: int|
        0 <= j < keyids.len() && #[trigger] keyids[j] is Some ==> (ids.contains(keyids[j]->0) || (
        ids.len() == cap && (ids.len() == 0 || keyids[j]->0 > ids.last())))
}

/// The ids of all fields, for a given prefix.
pub open spec fn field_key_ids(fields: Seq<(Seq<char>, Seq<char>)>, prefix: Seq<char>) -> Seq<
    Option<u32>,
> {
    fields.map_values(|f: (Seq<char>, Seq<char>)| key_id(f.0, prefix))
}

/// The value of the first field named `key`, or empty.
pub open spec fn field_or_empty(fields: Seq<(Seq<char>, Seq<char>)>, key: Seq<char>) -> Seq<char> {
    match lookup(fields, key) {
        Some(v) => v,
        None => Seq::empty(),
    }
}

/// The field name `<prefix><id><part>`.
pub open spec fn row_field(prefix: Seq<char>, id: u32, part: Seq<char>) -> Seq<char> {
    prefix + dec(id as nat) + part
}

fn key_id_of(key: &[char], prefix: &[char]) -> (r: Option<u32>)
    ensures
        r == key_id(key@, prefix@),
{
    if key.len() < 5 || key.len() - 5 < prefix.len() {
        return None;
    }
    let suffix: [char; 5] = ['_', 'n', 'a', 'm', 'e'];
    assert(suffix@ =~= name_suffix());
    if !text::has_prefix(key, prefix) || !text::has_suffix(key, &suffix) {
        return None;
    }
    let mid = text::slice_range(key, prefix.len(), key.len() - 5);
    decimal::parse_u32_chars(mid.as_slice())
}

/// The value of the first field named `key`, or an empty string.
pub fn field_value(fields: &[(String, String)], key: &[char]) -> (r: String)
    ensures
        r@ == field_or_empty(pairs_view(fields@), key@),
{
    let ghost fv = pairs_view(fields@);
    let mut i: usize = 0;
    proof {
        assert(fv.skip(0) =~= fv);
    }
    while i < fields.len()
        invariant
            i <= fields@.len(),
            fv == pairs_view(fields@),
            lookup(fv, key@) == lookup(fv.skip(i as int), key@),
        decreases fields.len() - i,
    {
        let ghost rest = fv.skip(i as int);
        assert(rest[0] == (fields@[i as int].0@, fields@[i as int].1@));
        let k = text::to_chars(fields[i].0.as_str());
        if text::chars_eq(k.as_slice(), key) {
            return fields[i].1.clone();
        }
        assert(rest.drop_first() =~= fv.skip(i + 1));
        i = i + 1;
    }
    String::new()
}

/// The `cap` smallest distinct row ids among the fields `<prefix><id>_name`,
/// in increasing order.
pub fn draft_ids(fields: &[(String, String)], prefix: &str, cap: usize) -> (r: Vec<u32>)
    ensures
        ids_ok(field_key_ids(pairs_view(fields@), prefix@), r@, cap as nat),
{
    let ghost kv = field_key_ids(pairs_view(fields@), prefix@);
    let p = text::to_chars(prefix);
    let n = fields.len();
    let mut keyids: Vec<Option<u32>> = Vec::new();
    let mut j: usize = 0;
    while j < n
        invariant
            n == fields@.len(),
            p@ == prefix@,
            kv == field_key_ids(pairs_view(fields@), prefix@),
            j <= n,
            keyids@ == kv.take(j as int),
        decreases n - j,
    {
        let k = text::to_chars(fields[j].0.as_str());
        keyids.push(key_id_of(k.as_slice(), p.as_slice()));
        assert(keyids@ =~= kv.take(j + 1));
        j = j + 1;
    }
    assert(keyids@ =~= kv);
    let mut ids: Vec<u32> = Vec::new();
    let ghost mut wit: Seq<int> = Seq::empty();
    while ids.len() < cap
        invariant
            keyids@ == kv,
            kv == field_key_ids(pairs_view(fields@), prefix@),
            kv.len() == n,
            ids@.len() <= cap,
            forall|a: int, b: int| 0 <= a < b < ids@.len() ==> ids@[a] < ids@[b],
            wit.len() == ids@.len(),
            forall|a: int|
                0 <= a < ids@.len() ==> 0 <= #[trigger] wit[a] < kv.len() && kv[wit[a]] == Some(
                    ids@[a],
                ),
            forall|jj: int|
                0 <= jj < kv.len() && #[trigger] kv[jj] is Some && ids@.len() > 0 && kv[jj]->0
                    <= ids@.last() ==> ids@.contains(kv[jj]->0),
        decreases cap - ids@.len(),
    {
        let has_last = ids.len() > 0;
        let last: u32 = if has_last {
            ids[ids.len() - 1]
        } else {
            0
        };
        let mut best: Option<u32> = None;
        let ghost mut best_j: int = 0;
        let mut j: usize = 0;
        while j < n
            invariant
                keyids@ == kv,
                kv.len() == n,
                j <= n,
                has_last == (ids@.len() > 0),
                has_last ==> last == ids@.last(),
                best matches Some(b) ==> 0 <= best_j < j && kv[best_j] == Some(b) && (!has_last || b
                    > last),
                best matches Some(b) ==> forall|jj: int|
                    0 <= jj < j && #[trigger] kv[jj] is Some && (!has_last || kv[jj]->0 > last) ==> b
                        <= kv[jj]->0,
                best is None ==> forall|jj: int|
                    0 <= jj < j && #[trigger] kv[jj] is Some ==> (has_last && kv[jj]->0 <= last),
            decreases n - j,
        {
            if let Some(x) = keyids[j] {
                if !has_last || x > last {
                    let better = match best {
                        Some(b) => x < b,
                        None => true,
                    };
                    if better {
                        best = Some(x);
                        proof {
                            best_j = j as int;
                        }
                    }
                }
            }
            j = j + 1;
        }
        match best {
            None => {
                proof {
                    assert forall|jj: int|
                        0 <= jj < kv.len() && #[trigger] kv[jj] is Some implies (ids@.contains(
                        kv[jj]->0,
                    ) || (ids@.len() == cap && (ids@.len() == 0 || kv[jj]->0 > ids@.last()))) by {}
                    assert forall|a: int|
                        #![trigger ids@[a]]
                        0 <= a < ids@.len() implies exists|jj: int|
                        0 <= jj < kv.len() && kv[jj] == Some(ids@[a]) by {
                        assert(kv[wit[a]] == Some(ids@[a]));
                    }
                }
                return ids;
            },
            Some(b) => {
                let ghost old_ids = ids@;
                ids.push(b);
                proof {
                    wit = wit.push(best_j);
                    assert forall|a: int|
                        0 <= a < ids@.len() implies 0 <= #[trigger] wit[a] < kv.len() && kv[wit[a]]
                        == Some(ids@[a]) by {
                        if a < old_ids.len() {
                            assert(ids@[a] == old_ids[a]);
                        }
                    }
                    assert forall|jj: int|
                        0 <= jj < kv.len() && #[trigger] kv[jj] is Some && ids@.len() > 0
                            && kv[jj]->0 <= ids@.last() implies ids@.contains(kv[jj]->0) by {
                        let x = kv[jj]->0;
                        if has_last && x <= last {
                            assert(old_ids.contains(x));
                            let k = choose|k: int| 0 <= k < old_ids.len() && old_ids[k] == x;
                            assert(ids@[k] == x);
                        } else {
                            assert(x == b);
                            assert(ids@[ids@.len() - 1] == x);
                        }
                    }
                }
            },
        }
    }
    proof {
        assert forall|jj: int|
            0 <= jj < kv.len() && #[trigger] kv[jj] is Some implies (ids@.contains(kv[jj]->0) || (
            ids@.len() == cap && (ids@.len() == 0 || kv[jj]->0 > ids@.last()))) by {}
        assert forall|a: int|
            #![trigger ids@[a]]
            0 <= a < ids@.len() implies exists|jj: int| 0 <= jj < kv.len() && kv[jj] == Some(ids@[a]) by {
            assert(kv[wit[a]] == Some(ids@[a]));
        }
    }
    ids
}

/// One brand-new container row (`newc_<id>_name` / `_contents` / `_env`).
pub struct NewContainerDraft {
    pub id: u32,
    pub name: String,
    pub contents: String,
    pub env: String,
}

/// One brand-new network row (`newnet_<id>_name` / `_contents`).
pub struct NewNetworkDraft {
    pub id: u32,
    pub name: String,
    pub contents: String,
}

/// One brand-new volume row (`newvol_<id>_name` / `_contents` / `_dest`).
pub struct NewVolumeDraft {
    pub id: u32,
    pub name: String,
    pub contents: String,
    pub dest: String,
}

fn row_field_chars(prefix: &str, id: u32, part: &str) -> (r: Vec<char>)
    ensures
        r@ == row_field(prefix@, id, part@),
{
    let mut k = text::to_chars(prefix);
    decimal::append_decimal(&mut k, id as u64);
    text::append_str(&mut k, part);
    k
}

/// The new-container rows: one per distinct id among the `newc_<id>_name`
/// fields (at most [`MAX_NEW_CONTAINERS`], smallest ids first), each
/// reading its `_name`/`_contents`/`_env` field (empty when absent).
pub fn parse_new_containers(fields: &[(String, String)]) -> (r: Vec<NewContainerDraft>)
    ensures
        ids_ok(
            field_key_ids(pairs_view(fields@), "newc_"@),
            r@.map_values(|d: NewContainerDraft| d.id),
            MAX_NEW_CONTAINERS as nat,
        ),
        forall|i: int|
            0 <= i < r@.len() ==> {
                let d = #[trigger] r@[i];
                &&& d.name@ == field_or_empty(
                    pairs_view(fields@),
                    row_field("newc_"@, d.id, "_name"@),
                )
                &&& d.contents@ == field_or_empty(
                    pairs_view(fields@),
                    row_field("newc_"@, d.id, "_contents"@),
                )
                &&& d.env@ == field_or_empty(pairs_view(fields@), row_field("newc_"@, d.id, "_env"@))
            },
{
    let ids = draft_ids(fields, "newc_", MAX_NEW_CONTAINERS);
    let mut out: Vec<NewContainerDraft> = Vec::new();
    let mut i: usize = 0;
    while i < ids.len()
        invariant
            i <= ids@.len(),
            out@.map_values(|d: NewContainerDraft| d.id) == ids@.take(i as int),
            forall|k: int|
                0 <= k < out@.len() ==> {
                    let d = #[trigger] out@[k];
                    &&& d.name@ == field_or_empty(
                        pairs_view(fields@),
                        row_field("newc_"@, d.id, "_name"@),
                    )
                    &&& d.contents@ == field_or_empty(
                        pairs_view(fields@),
                        row_field("newc_"@, d.id, "_contents"@),
                    )
                    &&& d.env@ == field_or_empty(
                        pairs_view(fields@),
                        row_field("newc_"@, d.id, "_env"@),
                    )
                },
        decreases ids.len() - i,
    {
        let id = ids[i];
        let name = field_value(fields, row_field_chars("newc_", id, "_name").as_slice());
        let contents = field_value(fields, row_field_chars("newc_", id, "_contents").as_slice());
        let env = field_value(fields, row_field_chars("newc_", id, "_env").as_slice());
        let ghost before = out@;
        out.push(NewContainerDraft { id, name, contents, env });
        assert(out@.map_values(|d: NewContainerDraft| d.id) =~= before.map_values(|d: NewContainerDraft| d.id).push(id));
        assert(ids@.take(i + 1) =~= ids@.take(i as int).push(id));
        i = i + 1;
    }
    assert(ids@.take(ids@.len() as int) =~= ids@);
    out
}

/// The new-network rows (`newnet_<id>_name` / `_contents`), as for
/// [`parse_new_containers`].
pub fn parse_new_networks(fields: &[(String, String)]) -> (r: Vec<NewNetworkDraft>)
    ensures
        ids_ok(
            field_key_ids(pairs_view(fields@), "newnet_"@),
            r@.map_values(|d: NewNetworkDraft| d.id),
            MAX_NEW_NETWORKS as nat,
        ),
        forall|i: int|
            0 <= i < r@.len() ==> {
                let d = #[trigger] r@[i];
                &&& d.name@ == field_or_empty(
                    pairs_view(fields@),
                    row_field("newnet_"@, d.id, "_name"@),
                )
                &&& d.contents@ == field_or_empty(
                    pairs_view(fields@),
                    row_field("newnet_"@, d.id, "_contents"@),
                )
            },
{
    let ids = draft_ids(fields, "newnet_", MAX_NEW_NETWORKS);
    let mut out: Vec<NewNetworkDraft> = Vec::new();
    let mut i: usize = 0;
    while i < ids.len()
        invariant
            i <= ids@.len(),
            out@.map_values(|d: NewNetworkDraft| d.id) == ids@.take(i as int),
            forall|k: int|
                0 <= k < out@.len() ==> {
                    let d = #[trigger] out@[k];
                    &&& d.name@ == field_or_empty(
                        pairs_view(fields@),
                        row_field("newnet_"@, d.id, "_name"@),
                    )
                    &&& d.contents@ == field_or_empty(
                        pairs_view(fields@),
                        row_field("newnet_"@, d.id, "_contents"@),
                    )
                },
        decreases ids.len() - i,
    {
        let id = ids[i];
        let name = field_value(fields, row_field_chars("newnet_", id, "_name").as_slice());
        let contents = field_value(fields, row_field_chars("newnet_", id, "_contents").as_slice());
        let ghost before = out@;
        out.push(NewNetworkDraft { id, name, contents });
        assert(out@.map_values(|d: NewNetworkDraft| d.id) =~= before.map_values(|d: NewNetworkDraft| d.id).push(id));
        assert(ids@.take(i + 1) =~= ids@.take(i as int).push(id));
        i = i + 1;
    }
    assert(ids@.take(ids@.len() as int) =~= ids@);
    out
}

/// The new-volume rows (`newvol_<id>_name` / `_contents` / `_dest`), as for
/// [`parse_new_containers`].
pub fn parse_new_volumes(fields: &[(String, String)]) -> (r: Vec<NewVolumeDraft>)
    ensures
        ids_ok(
            field_key_ids(pairs_view(fields@), "newvol_"@),
            r@.map_values(|d: NewVolumeDraft| d.id),
            MAX_NEW_VOLUMES as nat,
        ),
        forall|i: int|
            0 <= i < r@.len() ==> {
                let d = #[trigger] r@[i];
                &&& d.name@ == field_or_empty(
                    pairs_view(fields@),
                    row_field("newvol_"@, d.id, "_name"@),
                )
                &&& d.contents@ == field_or_empty(
                    pairs_view(fields@),
                    row_field("newvol_"@, d.id, "_contents"@),
                )
                &&& d.dest@ == field_or_empty(
                    pairs_view(fields@),
                    row_field("newvol_"@, d.id, "_dest"@),
                )
            },
{
    let ids = draft_ids(fields, "newvol_", MAX_NEW_VOLUMES);
    let mut out: Vec<NewVolumeDraft> = Vec::new();
    let mut i: usize = 0;
    while i < ids.len()
        invariant
            i <= ids@.len(),
            out@.map_values(|d: NewVolumeDraft| d.id) == ids@.take(i as int),
            forall|k: int|
                0 <= k < out@.len() ==> {
                    let d = #[trigger] out@[k];
                    &&& d.name@ == field_or_empty(
                        pairs_view(fields@),
                        row_field("newvol_"@, d.id, "_name"@),
                    )
                    &&& d.contents@ == field_or_empty(
                        pairs_view(fields@),
                        row_field("newvol_"@, d.id, "_contents"@),
                    )
                    &&& d.dest@ == field_or_empty(
                        pairs_view(fields@),
                        row_field("newvol_"@, d.id, "_dest"@),
                    )
                },
        decreases ids.len() - i,
    {
        let id = ids[i];
        let name = field_value(fields, row_field_chars("newvol_", id, "_name").as_slice());
        let contents = field_value(fields, row_field_chars("newvol_", id, "_contents").as_slice());
        let dest = field_value(fields, row_field_chars("newvol_", id, "_dest").as_slice());
        let ghost before = out@;
        out.push(NewVolumeDraft { id, name, contents, dest });
        assert(out@.map_values(|d: NewVolumeDraft| d.id) =~= before.map_values(|d: NewVolumeDraft| d.id).push(id));
        assert(ids@.take(i + 1) =~= ids@.take(i as int).push(id));
        i = i + 1;
    }
    assert(ids@.take(ids@.len() as int) =~= ids@);
    out
}

/// `memberc_<file_name>_contents`.
pub open spec fn member_contents_key(file_name: Seq<char>) -> Seq<char> {
    "memberc_"@ + file_name + "_contents"@
}

/// `memberc_<file_name>_env`.
pub open spec fn member_env_key(file_name: Seq<char>) -> Seq<char> {
    "memberc_"@ + file_name + "_env"@
}

/// The form field holding a pod member's edited contents.
pub fn member_contents_field(file_name: &str) -> (r: String)
    ensures
        r@ == member_contents_key(file_name@),
{
    let mut k = text::to_chars("memberc_");
    text::append_str(&mut k, file_name);
    text::append_str(&mut k, "_contents");
    text::from_chars(k.as_slice())
}

/// The form field holding a pod member's edited env-var lines.
pub fn member_env_field(file_name: &str) -> (r: String)
    ensures
        r@ == member_env_key(file_name@),
{
    let mut k = text::to_chars("memberc_");
    text::append_str(&mut k, file_name);
    text::append_str(&mut k, "_env");
    text::from_chars(k.as_slice())
}

/// One current pod member's submitted contents and env text.
pub struct MemberDraft {
    pub file_name: String,
    pub contents: String,
    pub env: String,
}

/// One draft per current member, in order, read by file name (empty when
/// the field is absent).
pub fn parse_member_drafts(fields: &[(String, String)], members: &[String]) -> (r: Vec<
    MemberDraft,
>)
    ensures
        r@.len() == members@.len(),
        forall|i: int|
            0 <= i < r@.len() ==> {
                let d = #[trigger] r@[i];
                &&& d.file_name@ == members@[i]@
                &&& d.contents@ == field_or_empty(
                    pairs_view(fields@),
                    member_contents_key(members@[i]@),
                )
                &&& d.env@ == field_or_empty(pairs_view(fields@), member_env_key(members@[i]@))
            },
{
    let mut out: Vec<MemberDraft> = Vec::new();
    let mut i: usize = 0;
    while i < members.len()
        invariant
            i <= members@.len(),
            out@.len() == i,
            forall|k: int|
                0 <= k < i ==> {
                    let d = #[trigger] out@[k];
                    &&& d.file_name@ == members@[k]@
                    &&& d.contents@ == field_or_empty(
                        pairs_view(fields@),
                        member_contents_key(members@[k]@),
                    )
                    &&& d.env@ == field_or_empty(
                        pairs_view(fields@),
                        member_env_key(members@[k]@),
                    )
                },
        decreases members.len() - i,
    {
        let f = members[i].as_str();
        let ck = member_contents_field(f);
        let ek = member_env_field(f);
        let contents = field_value(fields, text::to_chars(ck.as_str()).as_slice());
        let env = field_value(fields, text::to_chars(ek.as_str()).as_slice());
        out.push(MemberDraft { file_name: members[i].clone(), contents, env });
        i = i + 1;
    }
    out
}

} // verus!
