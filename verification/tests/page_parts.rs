use sooth::display::{
    ago_label, content_type, csrf_vals, dom_id, env_target, etag_value, image_source,
    is_preset_interval, last4, members_label, nested_unit_count, rows_route, short_commit,
    unit_count, BannerKind, EnvLocks, GithubTokenStatus, TokenSummary,
};
use sooth::kind::UnitKind;
use sooth::nav::section_back_target;
use sooth::status::UnitStatus;
use sooth::unit::{QuadletUnit, Section};

#[test]
fn section_back_target_covers_every_kind() {
    assert_eq!(section_back_target(UnitKind::Container), ("/", "Services"));
    assert_eq!(section_back_target(UnitKind::Pod), ("/", "Services"));
    assert_eq!(
        section_back_target(UnitKind::Volume),
        ("/volumes", "Volumes")
    );
    assert_eq!(
        section_back_target(UnitKind::Network),
        ("/networks", "Networks")
    );
    assert_eq!(section_back_target(UnitKind::Image), ("/images", "Images"));
    assert_eq!(section_back_target(UnitKind::Build), ("/images", "Images"));
    // Kube has no sidebar section -- falls back to the generic list.
    assert_eq!(section_back_target(UnitKind::Kube), ("/units", "All units"));
}

#[test]
fn env_target_uppercases_and_replaces_separators() {
    assert_eq!(env_target("db-pass.v2"), "DB_PASS_V2");
}

#[test]
fn token_status_matches_when_saved_equals_active() {
    let s = GithubTokenStatus::from_tokens("ghp_abcd1234", "ghp_abcd1234", false);
    assert_eq!(s.active.as_deref(), Some("1234"));
    assert!(!s.pending_restart);
}

#[test]
fn token_status_flags_a_save_awaiting_restart() {
    let s = GithubTokenStatus::from_tokens("", "ghp_abcd1234", false);
    assert_eq!(s.active, None);
    assert_eq!(s.saved.as_deref(), Some("1234"));
    assert!(s.pending_restart);

    let removed = GithubTokenStatus::from_tokens("ghp_abcd1234", "", false);
    assert!(removed.pending_restart);
    assert_eq!(removed.saved, None);
}

#[test]
fn token_status_never_pending_when_env_locked() {
    let s = GithubTokenStatus::from_tokens("ghp_abcd1234", "", true);
    assert!(!s.pending_restart);
}

#[test]
fn token_summary_picks_the_note() {
    assert_eq!(
        GithubTokenStatus::from_tokens("ghp_abcd1234", "ghp_abcd1234", false).summary(),
        TokenSummary::Active
    );
    assert_eq!(GithubTokenStatus::from_tokens("", "", false).summary(), TokenSummary::NoToken);
    assert_eq!(
        GithubTokenStatus::from_tokens("", "ghp_x", false).summary(),
        TokenSummary::RestartForNew
    );
    assert_eq!(
        GithubTokenStatus::from_tokens("ghp_x", "", false).summary(),
        TokenSummary::RestartForRemoval
    );
}

#[test]
fn last4_keeps_short_tokens_whole() {
    assert_eq!(last4("abc"), "abc");
    assert_eq!(last4(""), "");
    assert_eq!(last4("ghp_abcd1234"), "1234");
}

fn in_group(group: &str) -> (QuadletUnit, UnitStatus) {
    let unit = QuadletUnit {
        file_name: "x.container".into(),
        group: group.into(),
        kind: UnitKind::Container,
        sections: Vec::new(),
        raw: String::new(),
    };
    (unit, UnitStatus::not_found())
}

#[test]
fn nested_unit_count_includes_descendant_groups() {
    let units = [
        in_group(""),
        in_group("media"),
        in_group("media/arr"),
        in_group("media/arr/hd"),
        in_group("media-extra"),
    ];

    // Direct member + everything under `media/`, but not the sibling
    // `media-extra` (prefix match without a `/` boundary) or root units.
    assert_eq!(nested_unit_count(&units, "media"), 3);
    assert_eq!(nested_unit_count(&units, "media/arr"), 2);
    assert_eq!(nested_unit_count(&units, "media/arr/hd"), 1);
    assert_eq!(nested_unit_count(&units, "media-extra"), 1);
    assert_eq!(nested_unit_count(&units, "empty"), 0);
}

#[test]
fn unit_counts_and_member_labels() {
    assert_eq!(unit_count(1), "1 unit");
    assert_eq!(unit_count(0), "0 units");
    assert_eq!(unit_count(12), "12 units");
    assert_eq!(members_label(0), None);
    assert_eq!(members_label(1).as_deref(), Some("1 container"));
    assert_eq!(members_label(3).as_deref(), Some("3 containers"));
}

#[test]
fn ago_labels_pick_the_coarsest_unit() {
    assert_eq!(ago_label(None), "never");
    assert_eq!(ago_label(Some(42)), "42s ago");
    assert_eq!(ago_label(Some(60)), "1m ago");
    assert_eq!(ago_label(Some(3599)), "59m ago");
    assert_eq!(ago_label(Some(7200)), "2h ago");
}

#[test]
fn short_commit_keeps_eight_characters() {
    assert_eq!(short_commit("0123456789abcdef"), "01234567");
    assert_eq!(short_commit("abc"), "abc");
}

#[test]
fn rows_route_replaces_the_last_segment() {
    assert_eq!(rows_route("/volumes/new"), "/volumes/rows");
    assert_eq!(rows_route("new"), "new/rows");
}

#[test]
fn dom_ids_are_selector_safe() {
    assert_eq!(dom_id("web.service"), "status-web-service");
    assert_eq!(dom_id("app@1.service"), "status-app-1-service");
    assert_eq!(dom_id("a_b-c"), "status-a_b-c");
}

#[test]
fn etags_are_quoted_lowercase_hex() {
    assert_eq!(etag_value(&[0x00, 0xab, 0x1f]), "\"00ab1f\"");
    assert_eq!(etag_value(&[]), "\"\"");
}

#[test]
fn content_types_follow_the_extension() {
    assert_eq!(content_type("style.css"), "text/css; charset=utf-8");
    assert_eq!(content_type("app.mjs"), "text/javascript; charset=utf-8");
    assert_eq!(content_type("app.js.map"), "application/json; charset=utf-8");
    assert_eq!(content_type("font.woff2"), "font/woff2");
    assert_eq!(content_type("README"), "application/octet-stream");
}

#[test]
fn csrf_vals_is_json() {
    assert_eq!(csrf_vals("tok"), "{\"csrf_token\":\"tok\"}");
}

#[test]
fn banner_classes() {
    assert_eq!(BannerKind::Error.class(), "banner banner-error");
    assert_eq!(BannerKind::Info.class(), "banner banner-info");
}

#[test]
fn interval_presets_are_recognised() {
    assert!(is_preset_interval("3600"));
    assert!(is_preset_interval("604800"));
    assert!(!is_preset_interval("60"));
    assert!(!is_preset_interval("03600"));
}

#[test]
fn env_locks_follow_the_set_variables() {
    let locks = EnvLocks::from_present(&["SOOTH_GITHUB_TOKEN".to_string()]);
    assert!(locks.github_token);
    assert!(!locks.bind_addr);
}

fn image_unit(kind: UnitKind, section: &str, entries: &[(&str, &str)]) -> QuadletUnit {
    QuadletUnit {
        file_name: "x.image".into(),
        group: String::new(),
        kind,
        sections: vec![Section {
            name: section.into(),
            entries: entries
                .iter()
                .map(|(k, v)| (k.to_string(), v.to_string()))
                .collect(),
        }],
        raw: String::new(),
    }
}

#[test]
fn image_sources() {
    let img = image_unit(UnitKind::Image, "Image", &[("Image", "docker.io/nginx")]);
    assert_eq!(image_source(&img), "docker.io/nginx");
    let b = image_unit(UnitKind::Build, "Build", &[("File", "Containerfile")]);
    assert_eq!(image_source(&b), "Containerfile");
    let b2 = image_unit(UnitKind::Build, "Build", &[]);
    assert_eq!(image_source(&b2), "(build)");
    let c = image_unit(UnitKind::Container, "Container", &[]);
    assert_eq!(image_source(&c), "—");
}
