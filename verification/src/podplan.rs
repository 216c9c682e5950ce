//! The whole decision chain of the pod "Create" and "Save" forms: every
//! check a submission must pass, in the order the form reports the first
//! failure, and what gets written when all pass.
//!
//! Preparing brand-new containers and pending member edits depends on the
//! env-file and `Pod=` editing done elsewhere; both are pure checks, so the
//! caller runs them up front and hands in their outcome, which is consulted
//! exactly where the form consults it.
use vstd::prelude::*;

use crate::drafts::{field_or_empty, field_value, NewNetworkDraft, NewVolumeDraft};
use crate::groups::strings_view;
use crate::kind::UnitKind;
use crate::pods::{
    find_unit, find_unit_index, nonblank_trimmed, pair_firsts, parse_volume_lines, resources_check,
    volume_lines,
};
use crate::prepare::{
    attachments_check, check_attachments, check_pod_name, lemma_prepared_networks_are_fresh,
    lemma_prepared_volumes_are_fresh, network_drafts_view, pod_name_check, prepare_networks_spec,
    prepare_volumes_spec,
    pod_resources_of, prepare_pod_resources, prepared_view, prepared_volumes_view,
    volume_drafts_view, PodResources, PreparedResource, PreparedVolume,
};
use crate::text::{self, lines, trim};
use crate::unit::{lookup, pairs_view, units_view, QuadletUnit, UnitView};

verus! {

/// What the pod form's text fields hold.
pub struct PodFields {
    pub contents: String,
    pub existing_body: String,
    pub networks_body: String,
    pub volumes_body: String,
    /// The "restart attached containers" checkbox was posted.
    pub restart_checked: bool,
}

/// The named field's value (empty when absent).
fn field(fields: &[(String, String)], key: &str) -> (r: String)
    ensures
        r@ == field_or_empty(pairs_view(fields@), key@),
{
    let k = text::to_chars(key);
    field_value(fields, k.as_slice())
}

fn has_field(fields: &[(String, String)], key: &str) -> (r: bool)
    ensures
        r == lookup(pairs_view(fields@), key@) is Some,
{
    let k = text::to_chars(key);
    let ghost fv = pairs_view(fields@);
    let mut i: usize = 0;
    proof {
        assert(fv.skip(0) =~= fv);
    }
    while i < fields.len()
        invariant
            i <= fields@.len(),
            fv == pairs_view(fields@),
            k@ == key@,
            lookup(fv, key@) == lookup(fv.skip(i as int), key@),
        decreases fields.len() - i,
    {
        let ghost rest = fv.skip(i as int);
        assert(rest[0] == (fields@[i as int].0@, fields@[i as int].1@));
        let n = text::to_chars(fields[i].0.as_str());
        if text::chars_eq(n.as_slice(), k.as_slice()) {
            return true;
        }
        assert(rest.drop_first() =~= fv.skip(i + 1));
        i = i + 1;
    }
    false
}

/// Reads the pod form's text fields and the restart checkbox.
pub fn read_pod_fields(fields: &[(String, String)]) -> (r: PodFields)
    ensures
        r.contents@ == field_or_empty(pairs_view(fields@), "contents"@),
        r.existing_body@ == field_or_empty(pairs_view(fields@), "existing_containers"@),
        r.networks_body@ == field_or_empty(pairs_view(fields@), "pod_networks"@),
        r.volumes_body@ == field_or_empty(pairs_view(fields@), "pod_volumes"@),
        r.restart_checked == lookup(pairs_view(fields@), "restart_containers"@) is Some,
{
    PodFields {
        contents: field(fields, "contents"),
        existing_body: field(fields, "existing_containers"),
        networks_body: field(fields, "pod_networks"),
        volumes_body: field(fields, "pod_volumes"),
        restart_checked: has_field(fields, "restart_containers"),
    }
}

/// What a submission that passed every check writes: the pod's own text
/// (with every attached network and volume folded in), the existing
/// containers to re-point at the pod, and the brand-new networks and
/// volumes to create.
pub struct PodPlan {
    pub contents: String,
    pub existing: Vec<String>,
    pub restart_checked: bool,
    pub new_networks: Vec<PreparedResource>,
    pub new_volumes: Vec<PreparedVolume>,
}

/// [`PodPlan`] as plain values.
pub struct PodPlanView {
    pub contents: Seq<char>,
    pub existing: Seq<Seq<char>>,
    pub restart_checked: bool,
    pub new_networks: Seq<(Seq<char>, Seq<char>)>,
    pub new_volumes: Seq<(Seq<char>, Seq<char>, Seq<char>)>,
}

pub open spec fn pod_plan_view(p: PodPlan) -> PodPlanView {
    PodPlanView {
        contents: p.contents@,
        existing: strings_view(p.existing@),
        restart_checked: p.restart_checked,
        new_networks: prepared_view(p.new_networks@),
        new_volumes: prepared_volumes_view(p.new_volumes@),
    }
}

/// The checks after the volume lines parsed (and, on create, the name and
/// group passed): the attach lists, then the new containers' outcome, then
/// the new networks and volumes.
pub open spec fn tail_outcome(
    all: Seq<UnitView>,
    existing_body: Seq<char>,
    networks_body: Seq<char>,
    contents: Seq<char>,
    restart_checked: bool,
    volumes: Seq<(Seq<char>, Seq<char>)>,
    new_networks: Seq<(Seq<char>, Seq<char>, Option<Seq<char>>)>,
    new_volumes: Seq<(Seq<char>, Seq<char>, Seq<char>, Option<Seq<char>>)>,
    containers: Result<(), Seq<char>>,
) -> Result<PodPlanView, Seq<char>> {
    match attachments_check(all, existing_body, networks_body, volumes) {
        Err(e) => Err(e),
        Ok((existing, networks)) => match containers {
            Err(e) => Err(e),
            Ok(_) => match pod_resources_of(
                all,
                contents,
                networks,
                volumes,
                new_networks,
                new_volumes,
            ) {
                Err(e) => Err(e),
                Ok((pn, pv, text)) => Ok(
                    PodPlanView {
                        contents: text,
                        existing,
                        restart_checked,
                        new_networks: pn,
                        new_volumes: pv,
                    },
                ),
            },
        },
    }
}

proof fn lemma_resources_check_ok(all: Seq<UnitView>, names: Seq<Seq<char>>, kind: UnitKind, noun: Seq<char>)
    requires
        resources_check(all, names, kind, noun) is Ok,
    ensures
        forall|i: int|
            0 <= i < names.len() ==> (find_unit(all, #[trigger] names[i]) matches Some(u) && u.kind
                == kind),
    decreases names.len(),
{
    if names.len() > 0 {
        lemma_resources_check_ok(all, names.drop_first(), kind, noun);
        assert forall|i: int|
            0 <= i < names.len() implies (find_unit(all, #[trigger] names[i]) matches Some(u)
                && u.kind == kind) by {
            if i > 0 {
                assert(names[i] == names.drop_first()[i - 1]);
            }
        }
    }
}

/// A pod plan only goes ahead when everything it touches checks out: every
/// existing container it re-points is a container on disk, every network
/// and volume it attaches exists with that kind, and every network and
/// volume it creates is new and distinct from the others.
pub proof fn lemma_pod_plan_touches_only_checked_units(
    all: Seq<UnitView>,
    existing_body: Seq<char>,
    networks_body: Seq<char>,
    contents: Seq<char>,
    restart_checked: bool,
    volumes: Seq<(Seq<char>, Seq<char>)>,
    new_networks: Seq<(Seq<char>, Seq<char>, Option<Seq<char>>)>,
    new_volumes: Seq<(Seq<char>, Seq<char>, Seq<char>, Option<Seq<char>>)>,
    containers: Result<(), Seq<char>>,
    plan: PodPlanView,
)
    requires
        tail_outcome(
            all,
            existing_body,
            networks_body,
            contents,
            restart_checked,
            volumes,
            new_networks,
            new_volumes,
            containers,
        ) == Ok::<PodPlanView, Seq<char>>(plan),
    ensures
        containers is Ok,
        forall|i: int|
            0 <= i < plan.existing.len() ==> (find_unit(all, #[trigger] plan.existing[i]) matches Some(
                u,
            ) && u.kind == UnitKind::Container),
        forall|i: int|
            0 <= i < volumes.len() ==> (find_unit(all, #[trigger] volumes[i].0) matches Some(u)
                && u.kind == UnitKind::Volume),
        forall|i: int|
            0 <= i < plan.new_networks.len() ==> find_unit(all, #[trigger] plan.new_networks[i].0) is None,
        forall|i: int, j: int|
            0 <= i < j < plan.new_networks.len() ==> #[trigger] plan.new_networks[i].0
                != #[trigger] plan.new_networks[j].0,
        forall|i: int|
            0 <= i < plan.new_volumes.len() ==> find_unit(all, #[trigger] plan.new_volumes[i].0) is None,
        forall|i: int, j: int|
            0 <= i < j < plan.new_volumes.len() ==> #[trigger] plan.new_volumes[i].0
                != #[trigger] plan.new_volumes[j].0,
{
    let existing = nonblank_trimmed(lines(existing_body));
    let networks = nonblank_trimmed(lines(networks_body));
    lemma_resources_check_ok(all, existing, UnitKind::Container, "container"@);
    lemma_resources_check_ok(all, pair_firsts(volumes), UnitKind::Volume, "volume"@);
    assert forall|i: int|
        0 <= i < volumes.len() implies (find_unit(all, #[trigger] volumes[i].0) matches Some(u)
            && u.kind == UnitKind::Volume) by {
        assert(pair_firsts(volumes)[i] == volumes[i].0);
    }
    let pn = prepare_networks_spec(all, new_networks, Seq::empty())->Ok_0;
    let pv = prepare_volumes_spec(all, new_volumes, Seq::empty())->Ok_0;
    lemma_prepared_networks_are_fresh(all, new_networks, Seq::empty(), pn);
    lemma_prepared_volumes_are_fresh(all, new_volumes, Seq::empty(), pv);
}

/// [`tail_outcome`] for the submitted fields.
pub open spec fn pod_tail_outcome(
    all: Seq<UnitView>,
    fields: Seq<(Seq<char>, Seq<char>)>,
    volumes: Seq<(Seq<char>, Seq<char>)>,
    new_networks: Seq<(Seq<char>, Seq<char>, Option<Seq<char>>)>,
    new_volumes: Seq<(Seq<char>, Seq<char>, Seq<char>, Option<Seq<char>>)>,
    containers: Result<(), Seq<char>>,
) -> Result<PodPlanView, Seq<char>> {
    tail_outcome(
        all,
        field_or_empty(fields, "existing_containers"@),
        field_or_empty(fields, "pod_networks"@),
        field_or_empty(fields, "contents"@),
        lookup(fields, "restart_containers"@) is Some,
        volumes,
        new_networks,
        new_volumes,
        containers,
    )
}

/// What "Create pod" decides: the volume lines, then the pod's name and
/// group, then the rest in order.
pub open spec fn pod_create_outcome(
    all: Seq<UnitView>,
    fields: Seq<(Seq<char>, Seq<char>)>,
    new_networks: Seq<(Seq<char>, Seq<char>, Option<Seq<char>>)>,
    new_volumes: Seq<(Seq<char>, Seq<char>, Seq<char>, Option<Seq<char>>)>,
    containers: Result<(), Seq<char>>,
) -> Result<(Seq<char>, Seq<char>, PodPlanView), Seq<char>> {
    match volume_lines(lines(field_or_empty(fields, "pod_volumes"@))) {
        Err(e) => Err(e),
        Ok(volumes) => {
            let stem = trim(field_or_empty(fields, "file_name"@));
            let group = trim(field_or_empty(fields, "group"@));
            match pod_name_check(stem, group) {
                Err(e) => Err(e),
                Ok(pod_file) => match pod_tail_outcome(
                    all,
                    fields,
                    volumes,
                    new_networks,
                    new_volumes,
                    containers,
                ) {
                    Err(e) => Err(e),
                    Ok(v) => Ok((pod_file, group, v)),
                },
            }
        },
    }
}

fn pod_tail(
    all: &[QuadletUnit],
    f: &PodFields,
    volumes: &[(String, String)],
    new_networks: &[(NewNetworkDraft, Option<String>)],
    new_volumes: &[(NewVolumeDraft, Option<String>)],
    containers: Result<(), String>,
) -> (r: Result<PodPlan, String>)
    ensures
        match tail_outcome(
            units_view(all@),
            f.existing_body@,
            f.networks_body@,
            f.contents@,
            f.restart_checked,
            pairs_view(volumes@),
            network_drafts_view(new_networks@),
            volume_drafts_view(new_volumes@),
            match containers {
                Ok(_) => Ok(()),
                Err(e) => Err(e@),
            },
        ) {
            Ok(v) => r matches Ok(p) && pod_plan_view(p) == v,
            Err(e) => r matches Err(m) && m@ == e,
        },
{
    let (existing, networks) = check_attachments(
        all,
        f.existing_body.as_str(),
        f.networks_body.as_str(),
        volumes,
    )?;
    containers?;
    let res = prepare_pod_resources(
        all,
        f.contents.as_str(),
        networks.as_slice(),
        volumes,
        new_networks,
        new_volumes,
    )?;
    let PodResources { networks: pn, volumes: pv, contents } = res;
    Ok(
        PodPlan {
            contents,
            existing,
            restart_checked: f.restart_checked,
            new_networks: pn,
            new_volumes: pv,
        },
    )
}

/// "Create pod": the pod's file name, its group and the plan, or the
/// message the form is redisplayed with. `new_networks` / `new_volumes` are
/// the staged rows read from the same fields, each with the validator's
/// verdict; `containers` is the outcome of preparing the staged brand-new
/// containers ([`crate::prepare::prepare_new_containers`]).
pub fn plan_pod_create(
    all: &[QuadletUnit],
    fields: &[(String, String)],
    new_networks: &[(NewNetworkDraft, Option<String>)],
    new_volumes: &[(NewVolumeDraft, Option<String>)],
    containers: Result<(), String>,
) -> (r: Result<(String, String, PodPlan), String>)
    ensures
        match pod_create_outcome(
            units_view(all@),
            pairs_view(fields@),
            network_drafts_view(new_networks@),
            volume_drafts_view(new_volumes@),
            match containers {
                Ok(_) => Ok(()),
                Err(e) => Err(e@),
            },
        ) {
            Ok((pod_file, group, v)) => r matches Ok((a, b, p)) && a@ == pod_file && b@ == group
                && pod_plan_view(p) == v,
            Err(e) => r matches Err(m) && m@ == e,
        },
{
    let f = read_pod_fields(fields);
    let volumes = parse_volume_lines(f.volumes_body.as_str())?;
    let stem = text::trim_str(field(fields, "file_name").as_str());
    let group = text::trim_str(field(fields, "group").as_str());
    let pod_file = check_pod_name(stem.as_str(), group.as_str())?;
    let plan = pod_tail(all, &f, volumes.as_slice(), new_networks, new_volumes, containers)?;
    Ok((pod_file, group, plan))
}

/// Why "Save pod" was refused: the message, and the member whose own edit
/// caused it (that row is opened on the redisplay).
pub struct PodEditRejection {
    pub message: String,
    pub open_member: Option<String>,
}

/// What "Save pod" decides: the volume lines, the rest in order, then the
/// pending member edits (a failure there names the member).
pub open spec fn pod_edit_outcome(
    all: Seq<UnitView>,
    fields: Seq<(Seq<char>, Seq<char>)>,
    new_networks: Seq<(Seq<char>, Seq<char>, Option<Seq<char>>)>,
    new_volumes: Seq<(Seq<char>, Seq<char>, Seq<char>, Option<Seq<char>>)>,
    containers: Result<(), Seq<char>>,
    members: Result<(), (Seq<char>, Seq<char>)>,
) -> Result<PodPlanView, (Seq<char>, Option<Seq<char>>)> {
    match volume_lines(lines(field_or_empty(fields, "pod_volumes"@))) {
        Err(e) => Err((e, None)),
        Ok(volumes) => match pod_tail_outcome(
            all,
            fields,
            volumes,
            new_networks,
            new_volumes,
            containers,
        ) {
            Err(e) => Err((e, None)),
            Ok(v) => match members {
                Err((file, msg)) => Err((file + ": "@ + msg, Some(file))),
                Ok(_) => Ok(v),
            },
        },
    }
}

/// "Save pod": the plan, or the rejection the form is redisplayed with.
/// `members` is the outcome of preparing the pending member edits
/// ([`crate::prepare::prepare_member_edits`]: the failing member's file
/// name and the message).
pub fn plan_pod_edit(
    all: &[QuadletUnit],
    fields: &[(String, String)],
    new_networks: &[(NewNetworkDraft, Option<String>)],
    new_volumes: &[(NewVolumeDraft, Option<String>)],
    containers: Result<(), String>,
    members: Result<(), (String, String)>,
) -> (r: Result<PodPlan, PodEditRejection>)
    ensures
        match pod_edit_outcome(
            units_view(all@),
            pairs_view(fields@),
            network_drafts_view(new_networks@),
            volume_drafts_view(new_volumes@),
            match containers {
                Ok(_) => Ok(()),
                Err(e) => Err(e@),
            },
            match members {
                Ok(_) => Ok(()),
                Err((f, m)) => Err((f@, m@)),
            },
        ) {
            Ok(v) => r matches Ok(p) && pod_plan_view(p) == v,
            Err((msg, open)) => r matches Err(j) && j.message@ == msg && match (j.open_member, open) {
                (Some(a), Some(b)) => a@ == b,
                (None, None) => true,
                _ => false,
            },
        },
{
    let f = read_pod_fields(fields);
    let volumes = match parse_volume_lines(f.volumes_body.as_str()) {
        Ok(v) => v,
        Err(e) => {
            return Err(PodEditRejection { message: e, open_member: None });
        },
    };
    let plan = match pod_tail(all, &f, volumes.as_slice(), new_networks, new_volumes, containers) {
        Ok(p) => p,
        Err(e) => {
            return Err(PodEditRejection { message: e, open_member: None });
        },
    };
    match members {
        Err((file, msg)) => {
            let mut m = text::to_chars(file.as_str());
            text::append_str(&mut m, ": ");
            text::append_str(&mut m, msg.as_str());
            Err(PodEditRejection { message: text::from_chars(m.as_slice()), open_member: Some(file) })
        },
        Ok(_) => Ok(plan),
    }
}

/// The group a pod's new resources are filed under: the pod's own (the
/// root when the pod is not on disk).
pub fn pod_group(all: &[QuadletUnit], pod_file_name: &str) -> (r: String)
    ensures
        r@ == match find_unit(units_view(all@), pod_file_name@) {
            Some(u) => u.group,
            None => Seq::empty(),
        },
{
    let f = text::to_chars(pod_file_name);
    match find_unit_index(all, f.as_slice()) {
        Some(i) => text::owned(all[i].group.as_str()),
        None => String::new(),
    }
}

} // verus!
