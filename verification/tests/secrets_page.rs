use sooth::handlers::secrets::{
    FlashQuery, SecretNotice, in_use_message, join_names, normalize_value, removed_redirect, saved_redirect, RestartReport,
};
use sooth::status::{should_restart, UnitStatus};

#[test]
fn normalize_value_converts_crlf_only() {
    assert_eq!(
        normalize_value("-----BEGIN KEY-----\r\nabc\r\n-----END KEY-----\r\n"),
        "-----BEGIN KEY-----\nabc\n-----END KEY-----\n"
    );
    assert_eq!(normalize_value("  spaced pass  "), "  spaced pass  ");
    assert_eq!(normalize_value("lone\rcr"), "lone\rcr");
}

fn status(active_state: &str) -> UnitStatus {
    UnitStatus {
        active_state: active_state.into(),
        ..UnitStatus::not_found()
    }
}

#[test]
fn restarts_running_and_failed_units_only() {
    assert!(should_restart(&status("active")));
    assert!(should_restart(&status("failed")));
    assert!(!should_restart(&status("inactive")));
    assert!(!should_restart(&status("activating")));
    assert!(!should_restart(&UnitStatus::not_found()));
}

#[test]
fn crlf_runs_keep_their_lone_carriage_returns() {
    assert_eq!(normalize_value("a\r\r\nb"), "a\r\nb");
    assert_eq!(normalize_value(""), "");
}

#[test]
fn redirects_name_the_secret() {
    assert_eq!(saved_redirect("db", false), "/secrets?set=db");
    assert_eq!(saved_redirect("db", true), "/secrets?replaced=db");
    assert_eq!(removed_redirect("db"), "/secrets?removed=db");
}

#[test]
fn in_use_message_lists_the_consumers() {
    let users = vec!["web.container".to_string(), "worker.container".to_string()];
    assert_eq!(
        in_use_message("db", &users),
        "'db' is still referenced by web.container, worker.container — remove those Secret= lines first."
    );
    assert_eq!(join_names(&[]), "");
    assert_eq!(join_names(&["a".to_string()]), "a");
}

#[test]
fn restart_report_files_every_consumer_once() {
    let mut r = RestartReport::new("db");
    assert!(r.is_empty());
    assert!(r.after_status("up.container", Some(&status("active"))));
    r.after_restart("up.container", true);
    assert!(!r.after_status("down.container", Some(&status("inactive"))));
    assert!(!r.after_status("gone.container", None));
    assert!(r.after_status("broken.container", Some(&status("failed"))));
    r.after_restart("broken.container", false);
    assert_eq!(r.secret, "db");
    assert_eq!(r.restarted, vec!["up.container"]);
    assert_eq!(r.skipped, vec!["down.container"]);
    assert_eq!(r.failed, vec!["gone.container", "broken.container"]);
    assert!(!r.is_empty());
}

#[test]
fn flash_notices_prefer_replacement() {
    let q = |set: Option<&str>, replaced: Option<&str>, removed: Option<&str>| FlashQuery {
        set: set.map(str::to_owned),
        replaced: replaced.map(str::to_owned),
        removed: removed.map(str::to_owned),
    };
    assert!(matches!(q(Some("a"), Some("b"), None).notice(), Some(SecretNotice::Replaced(n)) if n == "b"));
    assert!(matches!(q(Some("a"), None, Some("c")).notice(), Some(SecretNotice::Saved(n)) if n == "a"));
    assert!(matches!(q(None, None, Some("c")).notice(), Some(SecretNotice::Deleted(n)) if n == "c"));
    assert!(q(None, None, None).notice().is_none());
}
