use sooth::drafts::{
    parse_member_drafts, parse_new_containers, parse_new_networks, parse_new_volumes,
    MemberDraft, NewContainerDraft, NewNetworkDraft, NewVolumeDraft, MAX_NEW_CONTAINERS,
};
use sooth::kind::UnitKind;
use sooth::pods::{
    apply_pod_resources, container_options, parse_existing, parse_volume_lines, resource_options,
    validate_existing, validate_networks, validate_volumes,
};
use sooth::prepare::{
    prepare_member_edits, prepare_new_containers, prepare_new_networks, prepare_new_volumes, structure_error,
    ContainerRowChecks, MemberEditChecks,
};
use sooth::unit::{QuadletUnit, Section};

fn unit(file_name: &str, kind: UnitKind, section: &str, entries: &[(&str, &str)]) -> QuadletUnit {
    QuadletUnit {
        file_name: file_name.into(),
        group: String::new(),
        kind,
        sections: vec![Section {
            name: section.into(),
            entries: entries
                .iter()
                .map(|(k, v)| (k.to_string(), v.to_string()))
                .collect(),
        }],
        raw: String::new(),
    }
}

fn fields(pairs: &[(&str, &str)]) -> Vec<(String, String)> {
    pairs
        .iter()
        .map(|(k, v)| (k.to_string(), v.to_string()))
        .collect()
}

fn network_draft(id: u32, name: &str, contents: &str) -> NewNetworkDraft {
    NewNetworkDraft {
        id,
        name: name.to_string(),
        contents: contents.to_string(),
    }
}

fn volume_draft(id: u32, name: &str, contents: &str, dest: &str) -> NewVolumeDraft {
    NewVolumeDraft {
        id,
        name: name.to_string(),
        contents: contents.to_string(),
        dest: dest.to_string(),
    }
}

/// Each staged network with the verdict of the structural check standing in
/// for the unit-file validator.
fn checked_networks(drafts: &[NewNetworkDraft]) -> Vec<(NewNetworkDraft, Option<String>)> {
    drafts
        .iter()
        .map(|d| (network_draft(d.id, &d.name, &d.contents), structure_error(&d.contents)))
        .collect()
}

fn checked_volumes(drafts: &[NewVolumeDraft]) -> Vec<(NewVolumeDraft, Option<String>)> {
    drafts
        .iter()
        .map(|d| (volume_draft(d.id, &d.name, &d.contents, &d.dest), structure_error(&d.contents)))
        .collect()
}

#[test]
fn parse_existing_trims_and_skips_blank_lines() {
    let out = parse_existing("  a.container  \n\nb.container\n   \n");
    assert_eq!(out, vec!["a.container", "b.container"]);
}

#[test]
fn parse_existing_of_blank_input_is_empty() {
    assert!(parse_existing("").is_empty());
    assert!(parse_existing("   \n  \n").is_empty());
}

#[test]
fn parse_volume_lines_parses_file_dest_pairs() {
    let out = parse_volume_lines("data.volume=/data\ncache.volume=/cache\n").unwrap();
    assert_eq!(
        out,
        vec![
            ("data.volume".to_string(), "/data".to_string()),
            ("cache.volume".to_string(), "/cache".to_string()),
        ]
    );
}

#[test]
fn parse_volume_lines_skips_blank_lines() {
    let out = parse_volume_lines("\n data.volume=/data \n\n").unwrap();
    assert_eq!(out, vec![("data.volume".to_string(), "/data".to_string())]);
}

#[test]
fn parse_volume_lines_rejects_a_line_with_no_equals() {
    let err = parse_volume_lines("data.volume").unwrap_err();
    assert_eq!(err, "line 1: expected FILE=DEST");
}

#[test]
fn parse_volume_lines_rejects_an_empty_mount_path() {
    let err = parse_volume_lines("data.volume=").unwrap_err();
    assert_eq!(err, "line 1: 'data.volume' needs a mount path");
}

#[test]
fn parse_volume_lines_rejects_a_colon_in_the_mount_path() {
    let err = parse_volume_lines("data.volume=/data:ro").unwrap_err();
    assert_eq!(err, "line 1: mount path can't contain ':' or a newline");
}

#[test]
fn parse_volume_lines_error_uses_a_one_based_line_number() {
    let err = parse_volume_lines("data.volume=/data\nbad-line\n").unwrap_err();
    assert_eq!(err, "line 2: expected FILE=DEST");
}

#[test]
fn validate_existing_accepts_a_real_container() {
    let all = vec![unit("web.container", UnitKind::Container, "Container", &[])];
    assert!(validate_existing(&all, &["web.container".to_string()]).is_ok());
}

#[test]
fn validate_existing_rejects_a_missing_file() {
    let err = validate_existing(&[], &["ghost.container".to_string()]).unwrap_err();
    assert_eq!(err, "ghost.container not found");
}

#[test]
fn validate_existing_rejects_the_wrong_kind() {
    let all = vec![unit("data.volume", UnitKind::Volume, "Volume", &[])];
    let err = validate_existing(&all, &["data.volume".to_string()]).unwrap_err();
    assert_eq!(err, "data.volume is not a container");
}

#[test]
fn validate_networks_rejects_the_wrong_kind() {
    let all = vec![unit("web.container", UnitKind::Container, "Container", &[])];
    let err = validate_networks(&all, &["web.container".to_string()]).unwrap_err();
    assert_eq!(err, "web.container is not a network");
}

#[test]
fn validate_volumes_rejects_the_wrong_kind() {
    let all = vec![unit("frontend.network", UnitKind::Network, "Network", &[])];
    let err = validate_volumes(
        &all,
        &[("frontend.network".to_string(), "/data".to_string())],
    )
    .unwrap_err();
    assert_eq!(err, "frontend.network is not a volume");
}

#[test]
fn apply_pod_resources_adds_network_and_volume_lines() {
    let out = apply_pod_resources(
        "[Pod]\n",
        &["frontend.network".to_string()],
        &[("data.volume".to_string(), "/data".to_string())],
    );
    assert_eq!(
        out,
        "[Pod]\nNetwork=frontend.network\nVolume=data.volume:/data\n"
    );
}

#[test]
fn apply_pod_resources_with_nothing_staged_is_unchanged() {
    assert_eq!(apply_pod_resources("[Pod]\n", &[], &[]), "[Pod]\n");
}

#[test]
fn parse_member_drafts_reads_one_draft_per_member_by_file_name() {
    let form = fields(&[
        ("memberc_web.container_contents", "[Container]\nImage=a\n"),
        ("memberc_web.container_env", "A=1"),
        (
            "memberc_worker.container_contents",
            "[Container]\nImage=b\n",
        ),
        ("unrelated_field", "ignored"),
    ]);
    let members = vec!["web.container".to_string(), "worker.container".to_string()];
    let drafts = parse_member_drafts(&form, &members);
    assert_eq!(drafts.len(), 2);
    assert_eq!(drafts[0].file_name, "web.container");
    assert_eq!(drafts[0].contents, "[Container]\nImage=a\n");
    assert_eq!(drafts[0].env, "A=1");
    assert_eq!(drafts[1].file_name, "worker.container");
    assert_eq!(drafts[1].contents, "[Container]\nImage=b\n");
    assert_eq!(drafts[1].env, "");
}

#[test]
fn parse_member_drafts_of_no_members_is_empty() {
    let form = fields(&[("memberc_web.container_contents", "[Container]\n")]);
    assert!(parse_member_drafts(&form, &[]).is_empty());
}

#[test]
fn parse_member_drafts_defaults_missing_fields_to_empty() {
    let members = vec!["ghost.container".to_string()];
    let drafts = parse_member_drafts(&[], &members);
    assert_eq!(drafts.len(), 1);
    assert_eq!(drafts[0].file_name, "ghost.container");
    assert_eq!(drafts[0].contents, "");
    assert_eq!(drafts[0].env, "");
}

#[test]
fn parse_new_containers_groups_by_id_in_sorted_order() {
    let form = fields(&[
        ("newc_2_name", "worker"),
        ("newc_2_contents", "[Container]\nImage=b\n"),
        ("newc_2_env", "B=1"),
        ("newc_1_name", "web"),
        ("newc_1_contents", "[Container]\nImage=a\n"),
        ("newc_1_env", ""),
        ("unrelated_field", "ignored"),
    ]);
    let drafts = parse_new_containers(&form);
    assert_eq!(drafts.len(), 2);
    assert_eq!(drafts[0].id, 1);
    assert_eq!(drafts[0].name, "web");
    assert_eq!(drafts[1].id, 2);
    assert_eq!(drafts[1].env, "B=1");
}

#[test]
fn parse_new_containers_ignores_keys_belonging_to_other_kinds() {
    let form = fields(&[("newnet_1_name", "frontend"), ("newvol_1_name", "data")]);
    assert!(parse_new_containers(&form).is_empty());
}

#[test]
fn parse_new_containers_caps_at_the_sanity_limit() {
    let mut form = Vec::new();
    for i in 0..(MAX_NEW_CONTAINERS + 5) {
        form.push((format!("newc_{i}_name"), format!("c{i}")));
    }
    assert_eq!(parse_new_containers(&form).len(), MAX_NEW_CONTAINERS);
}

#[test]
fn parse_new_networks_reads_name_and_contents() {
    let form = fields(&[
        ("newnet_1_name", "frontend"),
        ("newnet_1_contents", "[Network]\n"),
    ]);
    let drafts = parse_new_networks(&form);
    assert_eq!(drafts.len(), 1);
    assert_eq!(drafts[0].name, "frontend");
    assert_eq!(drafts[0].contents, "[Network]\n");
}

#[test]
fn parse_new_volumes_reads_name_contents_and_dest() {
    let form = fields(&[
        ("newvol_1_name", "data"),
        ("newvol_1_contents", "[Volume]\n"),
        ("newvol_1_dest", "/data"),
    ]);
    let drafts = parse_new_volumes(&form);
    assert_eq!(drafts.len(), 1);
    assert_eq!(drafts[0].dest, "/data");
}

#[test]
fn prepare_new_networks_validates_and_names_the_file() {
    let drafts = vec![network_draft(1, "frontend", "[Network]\nDriver=bridge\n")];
    let prepared = prepare_new_networks(&[], &checked_networks(&drafts)).unwrap();
    assert_eq!(prepared.len(), 1);
    assert_eq!(prepared[0].file_name, "frontend.network");
    assert_eq!(prepared[0].contents, "[Network]\nDriver=bridge\n");
}

#[test]
fn prepare_new_networks_rejects_a_name_that_already_exists() {
    let all = vec![unit("frontend.network", UnitKind::Network, "Network", &[])];
    let drafts = vec![network_draft(1, "frontend", "[Network]\n")];
    let err = prepare_new_networks(&all, &checked_networks(&drafts)).unwrap_err();
    assert_eq!(err, "frontend.network already exists");
}

#[test]
fn prepare_new_networks_rejects_duplicate_names_within_one_submission() {
    let drafts = vec![
        network_draft(1, "frontend", "[Network]\n"),
        network_draft(2, "frontend", "[Network]\n"),
    ];
    let err = prepare_new_networks(&[], &checked_networks(&drafts)).unwrap_err();
    assert_eq!(err, "frontend.network already exists");
}

#[test]
fn prepare_new_networks_rejects_an_invalid_name() {
    let drafts = vec![network_draft(1, "../escape", "[Network]\n")];
    assert!(prepare_new_networks(&[], &checked_networks(&drafts)).is_err());
}

#[test]
fn prepare_new_networks_rejects_structurally_invalid_contents() {
    let drafts = vec![network_draft(1, "frontend", "Driver=bridge\n")];
    assert!(prepare_new_networks(&[], &checked_networks(&drafts)).is_err());
}

#[test]
fn prepare_new_volumes_needs_a_mount_path() {
    let drafts = vec![volume_draft(1, "data", "[Volume]\n", "")];
    let err = prepare_new_volumes(&[], &checked_volumes(&drafts)).unwrap_err();
    assert_eq!(err, "data.volume needs a mount path");
}

#[test]
fn prepare_new_volumes_rejects_a_colon_in_the_mount_path() {
    let drafts = vec![volume_draft(1, "data", "[Volume]\n", "/data:ro")];
    let err = prepare_new_volumes(&[], &checked_volumes(&drafts)).unwrap_err();
    assert_eq!(
        err,
        "data.volume: mount path can't contain ':' or a newline"
    );
}

#[test]
fn prepare_new_volumes_succeeds_with_a_valid_mount_path() {
    let drafts = vec![volume_draft(1, "data", "[Volume]\n", "/data")];
    let prepared = prepare_new_volumes(&[], &checked_volumes(&drafts)).unwrap();
    assert_eq!(prepared[0].file_name, "data.volume");
    assert_eq!(prepared[0].dest, "/data");
}

#[test]
fn container_options_excludes_templates_and_other_kinds() {
    let all = vec![
        unit(
            "web.container",
            UnitKind::Container,
            "Container",
            &[("Image", "nginx")],
        ),
        unit("worker@.container", UnitKind::Container, "Container", &[]),
        unit("data.volume", UnitKind::Volume, "Volume", &[]),
    ];
    let opts = container_options(&all, None);
    assert_eq!(opts.len(), 1);
    assert_eq!(opts[0].file_name, "web.container");
    assert_eq!(opts[0].image.as_deref(), Some("nginx"));
    assert_eq!(opts[0].current_pod, None);
}

#[test]
fn container_options_excludes_current_members_of_the_pod_being_edited() {
    let all = vec![
        unit(
            "web.container",
            UnitKind::Container,
            "Container",
            &[("Pod", "app.pod")],
        ),
        unit(
            "worker.container",
            UnitKind::Container,
            "Container",
            &[("Pod", "other.pod")],
        ),
    ];
    let opts = container_options(&all, Some("app.pod"));
    assert_eq!(opts.len(), 1);
    assert_eq!(opts[0].file_name, "worker.container");
    assert_eq!(opts[0].current_pod.as_deref(), Some("other.pod"));
}

#[test]
fn resource_options_filters_by_kind_and_excludes_given_names() {
    let all = vec![
        unit("frontend.network", UnitKind::Network, "Network", &[]),
        unit("backend.network", UnitKind::Network, "Network", &[]),
        unit("data.volume", UnitKind::Volume, "Volume", &[]),
    ];
    let opts = resource_options(&all, UnitKind::Network, &["frontend.network".to_string()]);
    assert_eq!(opts.len(), 1);
    assert_eq!(opts[0].file_name, "backend.network");
}

#[test]
fn prepare_new_networks_reports_the_validators_refusal_with_the_file_name() {
    let drafts = vec![(network_draft(1, "frontend", "[Network]\nBogus=1\n"), Some("unknown key 'Bogus'".to_string()))];
    assert_eq!(prepare_new_networks(&[], &drafts).unwrap_err(), "frontend.network: unknown key 'Bogus'");
    let drafts = vec![(network_draft(1, "frontend", "Driver=bridge\n"), None)];
    assert_eq!(prepare_new_networks(&[], &drafts).unwrap()[0].file_name, "frontend.network");
}

#[test]
fn prepare_new_volumes_checks_the_mount_path_before_the_validator() {
    let drafts = vec![(volume_draft(1, "data", "[Volume]\n", ""), Some("refused".to_string()))];
    assert_eq!(prepare_new_volumes(&[], &drafts).unwrap_err(), "data.volume needs a mount path");
    let drafts = vec![(volume_draft(1, "data", "[Volume]\n", "/data"), Some("refused".to_string()))];
    assert_eq!(prepare_new_volumes(&[], &drafts).unwrap_err(), "data.volume: refused");
}

fn container_row(name: &str, env: Result<Vec<(String, String)>, String>, verdict: Option<&str>) -> (NewContainerDraft, ContainerRowChecks) {
    (
        NewContainerDraft { id: 1, name: name.into(), contents: "[Container]\n".into(), env: String::new() },
        ContainerRowChecks {
            env,
            contents: "[Container]\nPod=app.pod\n".into(),
            verdict: verdict.map(String::from),
        },
    )
}

#[test]
fn prepare_new_containers_checks_name_then_variables_then_the_validator() {
    let all = vec![unit("taken.container", UnitKind::Container, "Container", &[])];
    let pairs = vec![("A".to_string(), "1".to_string())];
    let ok = prepare_new_containers(&all, &[container_row(" web ", Ok(pairs.clone()), None)]).unwrap();
    assert_eq!(ok.len(), 1);
    assert_eq!(ok[0].file_name, "web.container");
    assert_eq!(ok[0].stem, "web");
    assert_eq!(ok[0].contents, "[Container]\nPod=app.pod\n");
    assert_eq!(ok[0].env_pairs, pairs);
    assert_eq!(
        prepare_new_containers(&all, &[container_row("taken", Ok(Vec::new()), None)]).unwrap_err(),
        "taken.container already exists"
    );
    assert_eq!(
        prepare_new_containers(&[], &[container_row("web", Ok(Vec::new()), None), container_row("web", Ok(Vec::new()), None)])
            .unwrap_err(),
        "web.container already exists"
    );
    assert_eq!(
        prepare_new_containers(&[], &[container_row("web", Err("line 1: bad".into()), Some("x"))]).unwrap_err(),
        "web.container: line 1: bad"
    );
    assert_eq!(
        prepare_new_containers(&[], &[container_row("web", Ok(Vec::new()), Some("unknown key"))]).unwrap_err(),
        "web.container: unknown key"
    );
    assert!(prepare_new_containers(&[], &[container_row("../x", Ok(Vec::new()), None)]).is_err());
}

fn member_row(file: &str, env: Result<Vec<(String, String)>, String>, verdict: Option<&str>) -> (MemberDraft, MemberEditChecks) {
    (
        MemberDraft { file_name: file.into(), contents: "[Container]\n".into(), env: String::new() },
        MemberEditChecks { env, contents: "[Container]\nImage=x\n".into(), verdict: verdict.map(String::from) },
    )
}

#[test]
fn prepare_member_edits_names_the_member_that_failed() {
    let ok = prepare_member_edits(&[member_row("web.container", Ok(Vec::new()), None)]).unwrap();
    assert_eq!(ok[0].file_name, "web.container");
    assert_eq!(ok[0].stem, "web");
    assert_eq!(ok[0].contents, "[Container]\nImage=x\n");
    assert_eq!(
        prepare_member_edits(&[
            member_row("web.container", Ok(Vec::new()), None),
            member_row("db.container", Err("bad line".into()), None),
        ])
        .unwrap_err(),
        ("db.container".to_string(), "bad line".to_string())
    );
    assert_eq!(
        prepare_member_edits(&[member_row("db.container", Ok(Vec::new()), Some("refused"))]).unwrap_err(),
        ("db.container".to_string(), "refused".to_string())
    );
}
