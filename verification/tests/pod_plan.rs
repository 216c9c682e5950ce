use sooth::drafts::{NewContainerDraft, NewNetworkDraft, NewVolumeDraft};
use sooth::kind::UnitKind;
use sooth::podplan::{plan_pod_create, plan_pod_edit, pod_group, read_pod_fields};
use sooth::pod_rows::{member_rows, new_container_rows, new_network_rows, new_volume_rows};
use sooth::prepare::{check_attachments, check_pod_name, prepare_pod_resources, structure_error};
use sooth::sections::section_groups;
use sooth::status::{units_of_kinds, UnitStatus};
use sooth::unit::{QuadletUnit, Section};

fn unit(file_name: &str, kind: UnitKind, group: &str, raw: &str) -> QuadletUnit {
    QuadletUnit {
        file_name: file_name.into(),
        group: group.into(),
        kind,
        sections: vec![Section { name: "X".into(), entries: Vec::new() }],
        raw: raw.into(),
    }
}

#[test]
fn structure_check_flags_entries_before_any_section() {
    assert_eq!(structure_error("[Network]\nDriver=bridge\n"), None);
    assert_eq!(structure_error("# comment\n\n[Volume]\n"), None);
    assert_eq!(structure_error(""), None);
    assert_eq!(
        structure_error("\nDriver=bridge\n").as_deref(),
        Some("line 2: entry outside any [Section]")
    );
}

#[test]
fn pod_name_then_group() {
    assert_eq!(check_pod_name("app", "").unwrap(), "app.pod");
    assert!(check_pod_name("../x", "").unwrap_err().starts_with("invalid file name '../x'"));
    assert_eq!(check_pod_name("app", "a/../b").unwrap_err(), "invalid group 'a/../b'");
}

#[test]
fn attachments_are_checked_containers_first() {
    let all = vec![
        unit("web.container", UnitKind::Container, "", ""),
        unit("front.network", UnitKind::Network, "", ""),
        unit("data.volume", UnitKind::Volume, "", ""),
    ];
    let vols = vec![("data.volume".to_string(), "/data".to_string())];
    let (e, n) = check_attachments(&all, " web.container \n", "front.network", &vols).unwrap();
    assert_eq!(e, vec!["web.container"]);
    assert_eq!(n, vec!["front.network"]);
    assert_eq!(
        check_attachments(&all, "front.network", "web.container", &vols).unwrap_err(),
        "front.network is not a container"
    );
    assert_eq!(
        check_attachments(&all, "", "web.container", &vols).unwrap_err(),
        "web.container is not a network"
    );
    let bad = vec![("ghost.volume".to_string(), "/x".to_string())];
    assert_eq!(check_attachments(&all, "", "", &bad).unwrap_err(), "ghost.volume not found");
}

#[test]
fn pod_resources_fold_existing_then_new() {
    let nets = vec![(NewNetworkDraft { id: 1, name: "back".into(), contents: "[Network]\n".into() }, None)];
    let vols = vec![(
        NewVolumeDraft { id: 1, name: "cache".into(), contents: "[Volume]\n".into(), dest: " /cache ".into() },
        None,
    )];
    let r = prepare_pod_resources(
        &[],
        "[Pod]\n",
        &["front.network".to_string()],
        &[("data.volume".to_string(), "/data".to_string())],
        &nets,
        &vols,
    )
    .unwrap();
    assert_eq!(r.networks[0].file_name, "back.network");
    assert_eq!(r.volumes[0].dest, "/cache");
    assert_eq!(
        r.contents,
        "[Pod]\nNetwork=front.network\nNetwork=back.network\nVolume=data.volume:/data\nVolume=cache.volume:/cache\n"
    );
    let bad = vec![(NewVolumeDraft { id: 1, name: "v".into(), contents: "[Volume]\n".into(), dest: "".into() }, None)];
    assert_eq!(
        prepare_pod_resources(&[], "[Pod]\n", &[], &[], &nets, &bad).err().unwrap(),
        "v.volume needs a mount path"
    );
}

#[test]
fn staged_rows_keep_what_was_typed() {
    let c = vec![NewContainerDraft { id: 7, name: "w".into(), contents: "c".into(), env: "A=1".into() }];
    let rows = new_container_rows(&c);
    assert_eq!(rows[0].id, "7");
    assert_eq!(rows[0].env_prefill, "A=1");
    let n = vec![NewNetworkDraft { id: 12, name: "n".into(), contents: "x".into() }];
    assert_eq!(new_network_rows(&n)[0].id, "12");
    let v = vec![NewVolumeDraft { id: 3, name: "v".into(), contents: "y".into(), dest: "/d".into() }];
    assert_eq!(new_volume_rows(&v)[0].dest_prefill, "/d");
}

#[test]
fn member_rows_prefer_the_submission_then_disk() {
    let all = vec![
        unit("web.container", UnitKind::Container, "apps", "[Container]\nImage=a\n"),
        unit("db.container", UnitKind::Container, "", "[Container]\nImage=b\n"),
    ];
    let members = vec!["web.container".to_string(), "ghost.container".to_string(), "db.container".to_string()];
    let disk = vec!["W=1".to_string(), "".to_string(), "D=1".to_string()];
    let fresh = member_rows(&all, &members, None, None, &disk);
    assert_eq!(fresh.len(), 2);
    assert_eq!(fresh[0].file_name, "web.container");
    assert_eq!(fresh[0].group, "apps");
    assert_eq!(fresh[0].contents_prefill, "[Container]\nImage=a\n");
    assert_eq!(fresh[0].env_prefill, "W=1");
    assert!(!fresh[0].open);
    let form = vec![("memberc_db.container_env".to_string(), "D=2".to_string())];
    let again = member_rows(&all, &members, Some(&form), Some("db.container"), &disk);
    assert_eq!(again[1].env_prefill, "D=2");
    assert_eq!(again[1].contents_prefill, "[Container]\nImage=b\n");
    assert!(again[1].open);
    assert!(!again[0].open);
}

#[test]
fn group_sections_are_sorted_and_unique() {
    let units = vec![
        (unit("a.container", UnitKind::Container, "media/arr", ""), UnitStatus::not_found()),
        (unit("b.container", UnitKind::Container, "", ""), UnitStatus::not_found()),
        (unit("c.container", UnitKind::Container, "media", ""), UnitStatus::not_found()),
        (unit("d.container", UnitKind::Container, "media/arr", ""), UnitStatus::not_found()),
    ];
    let known = vec!["zeta".to_string(), "media".to_string(), "media-extra".to_string()];
    assert_eq!(
        section_groups(&units, &known),
        vec!["media", "media/arr", "media-extra", "zeta"]
    );
    assert!(section_groups(&[], &[]).is_empty());
    let known = vec!["media/arr".to_string(), "media-extra".to_string(), "media".to_string()];
    assert_eq!(section_groups(&[], &known), vec!["media", "media/arr", "media-extra"]);
}

#[test]
fn sections_list_only_their_kinds_in_disk_order() {
    let all = vec![
        unit("a.image", UnitKind::Image, "", ""),
        unit("b.volume", UnitKind::Volume, "", ""),
        unit("c.build", UnitKind::Build, "", ""),
    ];
    assert_eq!(units_of_kinds(&all, &[UnitKind::Image, UnitKind::Build]), vec![0, 2]);
    assert_eq!(units_of_kinds(&all, &[UnitKind::Kube]), Vec::<usize>::new());
}

fn fields(pairs: &[(&str, &str)]) -> Vec<(String, String)> {
    pairs.iter().map(|(k, v)| (k.to_string(), v.to_string())).collect()
}

#[test]
fn pod_create_plan_checks_in_the_form_order() {
    let all = vec![
        unit("web.container", UnitKind::Container, "", ""),
        unit("front.network", UnitKind::Network, "", ""),
    ];
    let form = fields(&[
        ("file_name", " app "),
        ("group", " apps "),
        ("contents", "[Pod]\n"),
        ("existing_containers", "web.container"),
        ("pod_networks", "front.network"),
        ("pod_volumes", ""),
        ("restart_containers", "on"),
    ]);
    let (pod, group, plan) = plan_pod_create(&all, &form, &[], &[], Ok(())).unwrap();
    assert_eq!(pod, "app.pod");
    assert_eq!(group, "apps");
    assert_eq!(plan.contents, "[Pod]\nNetwork=front.network\n");
    assert_eq!(plan.existing, vec!["web.container"]);
    assert!(plan.restart_checked);

    // The volume lines are read first, before the name.
    let bad = fields(&[("file_name", "../x"), ("pod_volumes", "oops")]);
    assert_eq!(
        plan_pod_create(&all, &bad, &[], &[], Ok(())).err().unwrap(),
        "line 1: expected FILE=DEST"
    );
    // Then the name, then the attach lists, then the new containers.
    let bad = fields(&[("file_name", "../x"), ("existing_containers", "ghost.container")]);
    assert!(plan_pod_create(&all, &bad, &[], &[], Ok(())).err().unwrap().starts_with("invalid file name"));
    let bad = fields(&[("file_name", "app"), ("existing_containers", "ghost.container")]);
    assert_eq!(
        plan_pod_create(&all, &bad, &[], &[], Err("c: bad".to_string())).err().unwrap(),
        "ghost.container not found"
    );
    let ok_name = fields(&[("file_name", "app")]);
    assert_eq!(
        plan_pod_create(&all, &ok_name, &[], &[], Err("c: bad".to_string())).err().unwrap(),
        "c: bad"
    );
}

#[test]
fn pod_edit_plan_names_the_failing_member() {
    let all = vec![unit("app.pod", UnitKind::Pod, "apps", "[Pod]\n")];
    let form = fields(&[("contents", "[Pod]\n")]);
    let plan = plan_pod_edit(&all, &form, &[], &[], Ok(()), Ok(())).ok().unwrap();
    assert_eq!(plan.contents, "[Pod]\n");
    assert!(!plan.restart_checked);
    let err = plan_pod_edit(
        &all,
        &form,
        &[],
        &[],
        Ok(()),
        Err(("web.container".to_string(), "bad env".to_string())),
    )
    .err()
    .unwrap();
    assert_eq!(err.message, "web.container: bad env");
    assert_eq!(err.open_member.as_deref(), Some("web.container"));
    let err = plan_pod_edit(&all, &fields(&[("pod_volumes", "x=")]), &[], &[], Ok(()), Ok(()))
        .err()
        .unwrap();
    assert_eq!(err.message, "line 1: 'x' needs a mount path");
    assert_eq!(err.open_member, None);
    assert_eq!(pod_group(&all, "app.pod"), "apps");
    assert_eq!(pod_group(&all, "ghost.pod"), "");
}

#[test]
fn pod_fields_are_read_by_name() {
    let f = read_pod_fields(&fields(&[("pod_networks", "n"), ("contents", "c")]));
    assert_eq!(f.networks_body, "n");
    assert_eq!(f.contents, "c");
    assert_eq!(f.existing_body, "");
    assert!(!f.restart_checked);
}
