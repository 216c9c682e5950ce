use sooth::display::{saved_token, FormValues, GithubTokenStatus, GroupLists, SavedSettings, SelfUpdateSettings};
use sooth::handlers::settings::UpdateMode;
use sooth::groups::{delete_group_target, plan_create_unit, plan_move_group, refuse_non_empty, GroupError};
use sooth::handlers::edit_delete::{sidecar_rollback, SidecarRollback};
use sooth::handlers::ports::{plan_port_rows, pod_member_images, port_order, PortMappingRow};
use sooth::handlers::raw_create::remove_sidecar_after_failed_create;
use sooth::handlers::secrets::{plan_secrets_page, removal_refusal, SecretNotice};
use sooth::kind::UnitKind;
use sooth::sections::{plan_list_rows, ListRow};
use sooth::status::UnitStatus;
use sooth::unit::{QuadletUnit, Section};

fn unit(file_name: &str, kind: UnitKind, group: &str) -> QuadletUnit {
    QuadletUnit {
        file_name: file_name.into(),
        group: group.into(),
        kind,
        sections: vec![Section { name: "X".into(), entries: Vec::new() }],
        raw: String::new(),
    }
}

fn status() -> UnitStatus {
    UnitStatus {
        load_state: "loaded".into(),
        active_state: "active".into(),
        sub_state: "running".into(),
        autostart: false,
    }
}

fn mapping(file: &str, start: Option<u16>, end: Option<u16>, port: u16) -> PortMappingRow {
    PortMappingRow {
        file_name: file.into(),
        host_start: start,
        host_end: end,
        container_port: port,
        protocol: "tcp".into(),
        raw: String::new(),
    }
}

fn strings(v: &[&str]) -> Vec<String> {
    v.iter().map(|s| s.to_string()).collect()
}

#[test]
fn moving_a_group_under_its_own_parent_is_a_no_op_even_when_synced() {
    let synced = strings(&["media/arr"]);
    assert!(matches!(plan_move_group("media/arr", "media", &synced), Ok(None)));
    assert!(matches!(plan_move_group(" /media/arr/ ", "/media/", &synced), Ok(None)));
    // A real move of the synced group is still refused.
    assert!(matches!(plan_move_group("media/arr", "", &synced), Err(GroupError::Synced(s)) if s == "media/arr"));
    assert!(matches!(plan_move_group("media", "media/arr", &[]), Err(GroupError::IntoItself)));
    assert!(matches!(plan_move_group("media/arr", "", &[]), Ok(Some((a, b))) if a == "media/arr" && b == "arr"));
}

#[test]
fn saved_token_follows_the_environment_then_the_file() {
    assert_eq!(saved_token(" abc ", true, Some(Some("zzz".into()))), "abc");
    assert_eq!(saved_token("abc", false, None), "abc");
    assert_eq!(saved_token("abc", false, Some(None)), "");
    assert_eq!(saved_token("abc", false, Some(Some("  new1234 ".into()))), "new1234");
}

#[test]
fn token_status_tells_a_missing_token_from_an_unreadable_file() {
    let absent = GithubTokenStatus::detect("ghp_active9999", false, Some(None));
    assert!(absent.pending_restart);
    assert_eq!(absent.saved, None);
    assert_eq!(absent.active.as_deref(), Some("9999"));
    let unreadable = GithubTokenStatus::detect("ghp_active9999", false, None);
    assert!(!unreadable.pending_restart);
    assert_eq!(unreadable.saved.as_deref(), Some("9999"));
    let locked = GithubTokenStatus::detect("ghp_active9999", true, Some(None));
    assert!(!locked.pending_restart);
    assert!(locked.env_locked);
}

#[test]
fn ports_sort_by_host_port_with_dynamic_ones_last_and_ties_kept() {
    let maps = vec![
        mapping("b.container", None, None, 80),
        mapping("a.container", Some(8080), Some(8080), 80),
        mapping("c.pod", Some(443), Some(444), 443),
        mapping("d.container", Some(8080), Some(8080), 81),
        mapping("e.container", Some(65535), Some(65535), 1),
    ];
    assert_eq!(port_order(&maps), vec![2, 1, 3, 0, 4]);
    assert!(port_order(&[]).is_empty());
}

#[test]
fn port_rows_carry_owner_links_and_conflict_links() {
    let units = vec![
        unit("web.container", UnitKind::Container, "apps"),
        unit("media.pod", UnitKind::Pod, ""),
    ];
    let maps = vec![
        mapping("web.container", Some(8080), Some(8080), 80),
        mapping("gone.container", Some(1000), Some(1000), 80),
        mapping("media.pod", Some(80), Some(80), 8096),
    ];
    let conflicts = vec![
        strings(&["media.pod", "other.container"]),
        Vec::new(),
        strings(&["web.container"]),
    ];
    let rows = plan_port_rows(&units, &maps, &conflicts);
    assert_eq!(rows.len(), 2);
    assert_eq!(rows[0].mapping, 2);
    assert_eq!(rows[0].owner, 1);
    assert_eq!(rows[0].owner_href, "/pods/media.pod");
    assert_eq!(rows[0].conflicts, vec![("web.container".to_string(), Some("/containers/web.container".to_string()))]);
    assert_eq!(rows[1].mapping, 0);
    assert_eq!(rows[1].owner_href, "/containers/web.container");
    assert_eq!(
        rows[1].conflicts,
        vec![
            ("media.pod".to_string(), Some("/pods/media.pod".to_string())),
            ("other.container".to_string(), None),
        ]
    );
}

#[test]
fn pod_member_images_are_sorted_and_distinct() {
    let units = vec![
        unit("media.pod", UnitKind::Pod, ""),
        unit("jelly.container", UnitKind::Container, ""),
        unit("sonarr.container", UnitKind::Container, ""),
        unit("quiet.pod", UnitKind::Pod, ""),
        unit("lone.container", UnitKind::Container, ""),
    ];
    let maps = vec![mapping("media.pod", Some(80), Some(80), 80)];
    let members = vec![
        strings(&["sonarr.container", "jelly.container", "missing.container"]),
        Vec::new(),
        Vec::new(),
        strings(&["lone.container"]),
        Vec::new(),
    ];
    let images = vec![
        None,
        Some("jellyfin:latest".to_string()),
        Some("alpine".to_string()),
        None,
        Some("busybox".to_string()),
    ];
    assert_eq!(pod_member_images(&units, &maps, &members, &images), vec!["alpine", "jellyfin:latest"]);
    let twice = vec![
        strings(&["jelly.container", "jelly.container"]),
        Vec::new(),
        Vec::new(),
        Vec::new(),
        Vec::new(),
    ];
    assert_eq!(pod_member_images(&units, &maps, &twice, &images), vec!["jellyfin:latest"]);
    assert!(pod_member_images(&units, &[], &members, &images).is_empty());
}

#[test]
fn an_empty_list_shows_only_the_hint() {
    assert!(matches!(plan_list_rows(&[], &GroupLists { known: &[], synced: &[] }).as_slice(), [ListRow::EmptyHint]));
}

#[test]
fn list_rows_put_root_units_first_then_each_group_section() {
    let units = vec![
        (unit("a.container", UnitKind::Container, "media/arr"), status()),
        (unit("b.container", UnitKind::Container, ""), status()),
        (unit("c.container", UnitKind::Container, "media/arr"), status()),
        (unit("d.container", UnitKind::Container, ""), status()),
    ];
    let known = strings(&["empty", "media"]);
    let synced = strings(&["media/arr"]);
    let rows = plan_list_rows(&units, &GroupLists { known: &known, synced: &synced });
    let shape: Vec<String> = rows
        .iter()
        .map(|r| match r {
            ListRow::EmptyHint => "hint".to_string(),
            ListRow::Unit { index, group } => format!("unit {} {}", index, group.as_deref().unwrap_or("-")),
            ListRow::GroupHeader { path, count, synced } => format!("header {} {} {}", path, count, synced),
            ListRow::GroupEmpty { path } => format!("empty {}", path),
        })
        .collect();
    assert_eq!(
        shape,
        vec![
            "unit 1 -",
            "unit 3 -",
            "header empty 0 false",
            "empty empty",
            "header media 2 false",
            "header media/arr 2 true",
            "unit 0 media/arr",
            "unit 2 media/arr",
        ]
    );
}

#[test]
fn a_failed_create_removes_only_a_sidecar_it_made() {
    assert!(remove_sidecar_after_failed_create(true, false));
    assert!(!remove_sidecar_after_failed_create(true, true));
    assert!(!remove_sidecar_after_failed_create(false, false));
    assert!(!remove_sidecar_after_failed_create(false, true));
}

#[test]
fn a_rejected_edit_restores_a_non_empty_sidecar_and_removes_any_other() {
    let vars = vec![("A".to_string(), "1".to_string())];
    assert!(matches!(sidecar_rollback(Some(vars.clone())), SidecarRollback::Restore(v) if v == vars));
    assert!(matches!(sidecar_rollback(Some(Vec::new())), SidecarRollback::Remove));
    assert!(matches!(sidecar_rollback(None), SidecarRollback::Remove));
}

#[test]
fn secrets_page_reports_missing_only_when_the_listing_worked() {
    let ok = plan_secrets_page(Ok(strings(&["db"])), None, None, 0, false);
    assert_eq!(ok.stored, strings(&["db"]));
    assert!(ok.report_missing);
    assert_eq!(ok.error, None);
    let failed = plan_secrets_page(Err("boom".into()), None, None, 0, false);
    assert!(failed.stored.is_empty());
    assert!(!failed.report_missing);
    assert_eq!(failed.error.as_deref(), Some("Could not list podman secrets: boom"));
    let own = plan_secrets_page(Err("boom".into()), Some("bad name"), None, 0, false);
    assert_eq!(own.error.as_deref(), Some("bad name"));
}

#[test]
fn secrets_page_offers_a_restart_only_for_a_replacement_with_users_and_no_report() {
    let p = plan_secrets_page(Ok(Vec::new()), None, Some(SecretNotice::Replaced("db".into())), 2, false);
    assert!(p.offer_restart);
    assert!(!p.show_restart_summary);
    assert!(matches!(p.notice, Some(SecretNotice::Replaced(n)) if n == "db"));
    let p = plan_secrets_page(Ok(Vec::new()), None, Some(SecretNotice::Replaced("db".into())), 2, true);
    assert!(!p.offer_restart);
    assert!(p.show_restart_summary);
    let p = plan_secrets_page(Ok(Vec::new()), None, Some(SecretNotice::Replaced("db".into())), 0, false);
    assert!(!p.offer_restart);
    let p = plan_secrets_page(Ok(Vec::new()), None, Some(SecretNotice::Saved("db".into())), 2, false);
    assert!(!p.offer_restart);
    let p = plan_secrets_page(Ok(Vec::new()), None, None, 0, true);
    assert!(p.notice.is_none());
    assert!(p.show_restart_summary);
}

fn saved(quadlet_dir: Option<&str>, default_dir: Option<&str>, log_filter: Option<&str>) -> SavedSettings {
    SavedSettings {
        bind_addr: "127.0.0.1:8080".into(),
        quadlet_dir: quadlet_dir.map(String::from),
        default_quadlet_dir: default_dir.map(String::from),
        cookie_secure: true,
        log_filter: log_filter.map(String::from),
        session_idle_timeout_secs: 86400,
        github_token: "ghp_active9999".into(),
    }
}

fn live() -> SelfUpdateSettings {
    SelfUpdateSettings { mode: UpdateMode::Notify, poll_interval_secs: 0, repo: "owner/sooth".into() }
}

#[test]
fn settings_form_starts_from_the_saved_configuration() {
    let v = FormValues::from_config(&saved(Some("/q"), Some("/default"), Some("info")), &live(), false, None);
    assert_eq!(v.bind_addr, "127.0.0.1:8080");
    assert_eq!(v.quadlet_dir, "/q");
    assert!(v.cookie_secure);
    assert_eq!(v.log_filter, "info");
    assert_eq!(v.session_idle_timeout_secs, "86400");
    assert_eq!(v.self_update_mode, "notify");
    assert_eq!(v.self_update_poll_interval_secs, "0");
    assert_eq!(v.self_update_repo, "owner/sooth");
    assert_eq!(v.github_token, GithubTokenStatus::detect("ghp_active9999", false, None));
    assert!(!v.github_token.pending_restart);
    let v = FormValues::from_config(&saved(None, Some("/default"), None), &live(), false, Some(None));
    assert_eq!(v.quadlet_dir, "/default");
    assert_eq!(v.log_filter, "");
    assert!(v.github_token.pending_restart);
    assert_eq!(v.github_token.saved, None);
    let v = FormValues::from_config(&saved(None, None, None), &live(), true, Some(Some("other1234".into())));
    assert_eq!(v.quadlet_dir, "");
    assert!(!v.github_token.pending_restart);
    assert!(v.github_token.env_locked);
    let auto = SelfUpdateSettings { mode: UpdateMode::Auto, poll_interval_secs: 3600, repo: "me/fork".into() };
    let v = FormValues::from_config(&saved(None, None, None), &auto, false, Some(Some(" new1234 ".into())));
    assert_eq!(v.self_update_mode, "auto");
    assert_eq!(v.self_update_poll_interval_secs, "3600");
    assert_eq!(v.self_update_repo, "me/fork");
    assert_eq!(v.github_token.saved.as_deref(), Some("1234"));
    assert!(v.github_token.pending_restart);
}

#[test]
fn creating_a_unit_checks_group_then_sync_then_the_name() {
    let synced = strings(&["media"]);
    assert_eq!(plan_create_unit("a.container", "apps", &synced, false), Ok("apps/a.container".to_string()));
    assert_eq!(plan_create_unit("a.container", "", &synced, false), Ok("a.container".to_string()));
    assert_eq!(
        plan_create_unit("a.container", "apps", &synced, true),
        Err(GroupError::AlreadyExists("a.container".into()))
    );
    assert_eq!(
        plan_create_unit("a.container", "media/arr", &synced, true),
        Err(GroupError::Synced("media".into()))
    );
    assert_eq!(
        plan_create_unit("a.container", "../x", &synced, true),
        Err(GroupError::InvalidGroup("../x".into()))
    );
    assert_eq!(GroupError::AlreadyExists("a.container".into()).message(), "a.container already exists");
}

#[test]
fn deleting_a_group_needs_a_valid_name_and_no_units() {
    assert_eq!(delete_group_target(" /media/arr/ "), Ok("media/arr".to_string()));
    assert_eq!(delete_group_target(" / "), Err(GroupError::BadGroup(String::new())));
    assert_eq!(delete_group_target("a/../b"), Err(GroupError::BadGroup("a/../b".into())));
    assert_eq!(refuse_non_empty("media", false), Ok(()));
    let refused = refuse_non_empty("media", true);
    assert_eq!(refused, Err(GroupError::NotEmpty("media".into())));
    assert_eq!(
        refused.unwrap_err().message(),
        "group 'media' still contains units — move or delete them first"
    );
}
