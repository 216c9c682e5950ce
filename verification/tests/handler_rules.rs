use sooth::handlers::edit_delete::{after_change, edit_env_body, env_kind, AfterChange};
use sooth::handlers::environment::{check_add, redirect_target, valid_env_name, valid_env_value, FlashQuery};
use sooth::handlers::gitsync::{branch_choice, in_sync_group, parse_poll_interval, AddForm, AddFormValues, PollIntervalError};
use sooth::handlers::groups::create_group_path;
use sooth::handlers::ports::{builds_locally, port_targets};
use sooth::handlers::raw_create::{container_skeleton, plan_new_unit, CreateForm};
use sooth::handlers::settings::{check_new_password, ChangePasswordForm, GithubTokenForm, repo_ok, SavedQuery, SettingsForm, UpdateMode};
use sooth::handlers::unit_edit::units_url;
use sooth::handlers::unit_ops::{autoupdate_mode, check_autoupdate_kind, ActionsQuery, AutoUpdateMode, UnitAction};
use sooth::kind::UnitKind;
use sooth::unit::{QuadletUnit, Section};

fn unit(file_name: &str, kind: UnitKind, section: &str, entries: &[(&str, &str)]) -> QuadletUnit {
    QuadletUnit {
        file_name: file_name.into(),
        group: String::new(),
        kind,
        sections: vec![Section {
            name: section.into(),
            entries: entries
                .iter()
                .map(|(k, v)| (k.to_string(), v.to_string()))
                .collect(),
        }],
        raw: String::new(),
    }
}

#[test]
fn environment_flash_notices() {
    let q = |set, unset, live| FlashQuery { set, unset, live };
    assert_eq!(q(Some(1), None, None).notice(), Some("Variable set."));
    assert_eq!(q(None, Some(1), None).notice(), Some("Variable removed."));
    assert!(q(Some(1), None, Some(0)).notice().unwrap().starts_with("Saved to the environment.d drop-in."));
    assert!(q(None, Some(1), Some(0)).notice().unwrap().starts_with("Removed from the environment.d drop-in."));
    assert_eq!(q(Some(1), None, Some(1)).notice(), Some("Variable set."));
    assert_eq!(q(None, None, Some(0)).notice(), None);
}

#[test]
fn environment_names_and_values() {
    assert!(valid_env_name("_PATH2"));
    assert!(valid_env_name("a"));
    assert!(!valid_env_name("2X"));
    assert!(!valid_env_name(""));
    assert!(!valid_env_name("A-B"));
    assert!(valid_env_value("one line"));
    assert!(!valid_env_value("two\nlines"));
    assert!(!valid_env_value("cr\r"));
    assert_eq!(check_add("  FOO ", "bar").unwrap(), "FOO");
    assert_eq!(
        check_add("9x", "bar").unwrap_err(),
        "Name must start with a letter or underscore and contain only letters, digits, and underscores."
    );
    assert_eq!(check_add("X", "a\nb").unwrap_err(), "Value must be a single line.");
}

#[test]
fn environment_redirects() {
    assert_eq!(redirect_target("set", true), "/environment?set=1");
    assert_eq!(redirect_target("set", false), "/environment?set=1&live=0");
    assert_eq!(redirect_target("unset", true), "/environment?unset=1");
    assert_eq!(redirect_target("unset", false), "/environment?unset=1&live=0");
}

#[test]
fn poll_intervals() {
    assert_eq!(parse_poll_interval(" 30 "), Ok(30));
    assert_eq!(parse_poll_interval("0"), Err(PollIntervalError::Zero));
    assert_eq!(parse_poll_interval("soon"), Err(PollIntervalError::NotANumber));
    assert_eq!(PollIntervalError::Zero.add_message(), "Poll interval must be at least 1 second");
    assert_eq!(
        PollIntervalError::NotANumber.add_message(),
        "Poll interval must be a whole number of seconds"
    );
    assert_eq!(PollIntervalError::NotANumber.edit_message(), "poll interval must be a whole number");
    assert_eq!(PollIntervalError::Zero.edit_message(), "poll interval must be at least 1 second");
}

#[test]
fn git_sync_fields() {
    assert_eq!(branch_choice("  "), None);
    assert_eq!(branch_choice(" main ").as_deref(), Some("main"));
    assert!(in_sync_group("media", "media"));
    assert!(in_sync_group("media/arr", "media"));
    assert!(!in_sync_group("media-extra", "media"));
    let d = AddFormValues::default();
    assert_eq!(d.poll_interval_secs, "60");
    assert_eq!(d.group, "");
    let form = AddForm {
        csrf_token: "t".into(),
        group: "g".into(),
        remote: "r".into(),
        branch: "".into(),
        poll_interval_secs: "x".into(),
    };
    let v = AddFormValues::from_form(&form);
    assert_eq!(v.poll_interval_secs, "x");
    assert_eq!(v.group, "g");
}

#[test]
fn new_group_paths() {
    assert_eq!(create_group_path(" /media/ ", None).unwrap(), "media");
    assert_eq!(create_group_path("arr", Some(" media/ ")).unwrap(), "media/arr");
    assert_eq!(create_group_path("arr", Some("  ")).unwrap(), "arr");
    assert_eq!(create_group_path("  ", None).unwrap_err(), "invalid group ''");
    assert_eq!(create_group_path("a/../b", None).unwrap_err(), "invalid group 'a/../b'");
}

fn create_form(stem: &str, kind: &str, group: Option<&str>) -> CreateForm {
    CreateForm {
        csrf_token: "t".into(),
        file_name: stem.into(),
        kind: kind.into(),
        group: group.map(str::to_owned),
        origin: None,
        contents: "[Container]\n".into(),
        env_vars: None,
    }
}

#[test]
fn new_unit_checks_kind_then_name_then_group() {
    let ok = plan_new_unit(&create_form(" web ", " container ", Some(" apps "))).ok().unwrap();
    assert_eq!(ok.file_name, "web.container");
    assert_eq!(ok.stem, "web");
    assert_eq!(ok.group, "apps");
    assert!(ok.wants_env);
    let err = plan_new_unit(&create_form("web", "nope", None)).err().unwrap();
    assert_eq!(err.message, "Pick a unit type.");
    assert_eq!(err.kind, UnitKind::Container);
    let err = plan_new_unit(&create_form("a/b", "volume", None)).err().unwrap();
    assert_eq!(
        err.message,
        "invalid file name 'a/b': use letters, digits, '_', '-', '.', '@'; no '/' or '..'"
    );
    assert_eq!(err.kind, UnitKind::Volume);
    let err = plan_new_unit(&create_form("data", "volume", Some("x/../y"))).err().unwrap();
    assert_eq!(err.message, "invalid group 'x/../y'");
    let ok = plan_new_unit(&create_form("data", "volume", None)).ok().unwrap();
    assert!(!ok.wants_env);
    assert_eq!(ok.group, "");
}

#[test]
fn container_skeletons() {
    assert_eq!(container_skeleton(None), "[Container]\nImage=\n");
    assert_eq!(container_skeleton(Some("app.pod")), "[Container]\nImage=\nPod=app.pod\n");
}

#[test]
fn saved_messages() {
    let q = |s: Option<&str>| SavedQuery { saved: s.map(str::to_owned) };
    assert_eq!(
        q(Some("password")).message(),
        Some("Password saved. Restart sooth for the new password to take effect.")
    );
    assert_eq!(
        q(Some("github_token")).message(),
        Some("GitHub token saved. Restart sooth for it to take effect.")
    );
    assert_eq!(q(Some("settings")).message(), Some("Saved. Restart sooth for changes to take effect."));
    assert_eq!(q(None).message(), None);
}

fn settings(timeout: &str, dir: &str, mode: &str, interval: &str, repo: &str) -> SettingsForm {
    SettingsForm {
        csrf_token: "t".into(),
        bind_addr: "127.0.0.1:8420".into(),
        quadlet_dir: dir.into(),
        cookie_secure: Some("on".into()),
        log_filter: " info ".into(),
        session_idle_timeout_secs: timeout.into(),
        mode: mode.into(),
        poll_interval_secs: interval.into(),
        repo: repo.into(),
    }
}

#[test]
fn settings_checks_in_order() {
    let bind = Some("127.0.0.1:8420".to_string());
    let ok = settings(" 3600 ", " /q ", "notify", "86400", " me/sooth ").validate(bind.clone()).ok().unwrap();
    assert_eq!(ok.quadlet_dir, "/q");
    assert_eq!(ok.log_filter, "info");
    assert_eq!(ok.session_idle_timeout_secs, 3600);
    assert_eq!(ok.mode, UpdateMode::Notify);
    assert_eq!(ok.poll_interval_secs, 86400);
    assert_eq!(ok.repo, "me/sooth");
    assert!(ok.cookie_secure);
    let e = |f: SettingsForm, b: Option<String>| f.validate(b).err().unwrap();
    assert_eq!(
        e(settings("1", "/q", "off", "60", "a/b"), None),
        "Bind address must be a valid host:port, e.g. 127.0.0.1:8420"
    );
    assert_eq!(
        e(settings("x", "/q", "off", "60", "a/b"), bind.clone()),
        "Session idle timeout must be a whole number of seconds"
    );
    assert_eq!(e(settings("1", " ", "off", "60", "a/b"), bind.clone()), "Quadlet directory must not be empty");
    assert_eq!(e(settings("1", "/q", "weekly", "60", "a/b"), bind.clone()), "Invalid update-check mode");
    assert_eq!(e(settings("1", "/q", "off", "-", "a/b"), bind.clone()), "Invalid check interval");
    assert_eq!(
        e(settings("1", "/q", "off", "59", "a/b"), bind.clone()),
        "Check interval must be at least 60 seconds"
    );
    assert_eq!(
        e(settings("1", "/q", "off", "60", "ab"), bind.clone()),
        "Repository must look like \"owner/name\""
    );
}

#[test]
fn repository_shapes_and_modes() {
    assert!(repo_ok("owner/name"));
    assert!(!repo_ok("owner/"));
    assert!(!repo_ok("/name"));
    assert!(!repo_ok("a/b/c"));
    assert!(!repo_ok("plain"));
    assert_eq!(UpdateMode::parse("auto"), Some(UpdateMode::Auto));
    assert_eq!(UpdateMode::parse("Auto"), None);
    assert_eq!(UpdateMode::Off.as_str(), "off");
}

#[test]
fn new_password_checks() {
    assert_eq!(
        check_new_password("abcdefgh", "abcdefgX"),
        Err("New password and confirmation do not match.")
    );
    assert_eq!(check_new_password("short", "short"), Err("New password must be at least 8 characters."));
    assert_eq!(check_new_password("ünïcödé!", "ünïcödé!"), Ok(()));
}

#[test]
fn unit_actions_and_autoupdate() {
    assert_eq!(UnitAction::from_route("enable"), Some(UnitAction::Enable));
    assert_eq!(UnitAction::from_route("reload"), None);
    assert!(UnitAction::Disable.is_autostart());
    assert!(!UnitAction::Restart.is_autostart());
    assert_eq!(UnitAction::Stop.as_str(), "stop");
    assert_eq!(AutoUpdateMode::parse("registry"), Some(AutoUpdateMode::Registry));
    assert_eq!(AutoUpdateMode::parse("off"), None);
    assert_eq!(AutoUpdateMode::Local.as_str(), "local");
    let c = unit("web.container", UnitKind::Container, "Container", &[("AutoUpdate", "local")]);
    assert_eq!(autoupdate_mode(&c), Some(AutoUpdateMode::Local));
    let v = unit("data.volume", UnitKind::Volume, "Volume", &[]);
    assert_eq!(autoupdate_mode(&v), None);
    assert!(check_autoupdate_kind(UnitKind::Container).is_ok());
    assert_eq!(check_autoupdate_kind(UnitKind::Pod), Err("auto-update is a container-only setting"));
    let q = |s: Option<&str>| ActionsQuery { style: s.map(str::to_owned) };
    assert!(q(Some("menu")).is_menu());
    assert!(!q(Some("row")).is_menu());
    assert!(!q(None).is_menu());
}

#[test]
fn local_builds_have_nothing_to_pull() {
    let units = vec![
        unit("web.container", UnitKind::Container, "Container", &[("Image", " web.build ")]),
        unit("db.container", UnitKind::Container, "Container", &[("Image", "postgres")]),
    ];
    assert!(builds_locally("web.container", &units));
    assert!(!builds_locally("db.container", &units));
    assert!(!builds_locally("ghost.container", &units));
}

#[test]
fn edit_paths() {
    assert_eq!(units_url("web.kube"), "/units/web.kube");
    assert_eq!(env_kind("web.container"), Some(UnitKind::Container));
    assert_eq!(env_kind("img.build"), Some(UnitKind::Build));
    assert_eq!(env_kind("data.volume"), None);
}

#[test]
fn pod_ports_narrow_to_serving_members() {
    let members = vec!["a.container".to_string(), "b.container".to_string(), "c.container".to_string()];
    assert_eq!(
        port_targets(&members, &[false, true, true]),
        (vec!["b.container".to_string(), "c.container".to_string()], true)
    );
    assert_eq!(port_targets(&members, &[false, false, false]), (members.clone(), false));
    assert_eq!(port_targets(&[], &[]), (Vec::new(), false));
}

#[test]
fn change_password_checks_in_order() {
    let f = |n: &str, c: &str| ChangePasswordForm {
        csrf_token: "t".into(),
        current_password: "old".into(),
        new_password: n.into(),
        confirm_password: c.into(),
    };
    assert!(f("longenough", "longenough").check(true, true).unwrap_err().starts_with("The password is set by"));
    assert_eq!(f("longenough", "longenough").check(false, false), Err("Current password is incorrect."));
    assert_eq!(f("a", "b").check(false, true), Err("New password and confirmation do not match."));
    assert_eq!(f("longenough", "longenough").check(false, true), Ok(()));
    let t = GithubTokenForm { csrf_token: "t".into(), github_token: " ghp_x ".into() };
    assert_eq!(t.token_to_save(false).unwrap(), "ghp_x");
    assert!(t.token_to_save(true).unwrap_err().starts_with("The GitHub token is set by"));
}

#[test]
fn edit_page_env_text_and_change_answers() {
    assert_eq!(edit_env_body(Some("A=1"), UnitKind::Volume, "B=2"), "A=1");
    assert_eq!(edit_env_body(None, UnitKind::Build, "B=2"), "B=2");
    assert_eq!(edit_env_body(None, UnitKind::Volume, "B=2"), "");
    assert!(matches!(after_change(true, "/"), AfterChange::NoContent));
    assert!(matches!(after_change(false, "/git-sync"), AfterChange::Redirect(t) if t == "/git-sync"));
}
