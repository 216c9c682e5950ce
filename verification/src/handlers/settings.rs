//! The Settings page: the persisted configuration, the password, the GitHub
//! token, restarting and the host-dependency check.
use vstd::prelude::*;

use crate::decimal::{parse_u64_chars, parse_u64_spec};
use crate::text::{self, trim};

verus! {

/// `?saved=<what>` after a successful save.
pub struct SavedQuery {
    pub saved: Option<String>,
}

/// The banner a `saved` flag shows.
pub open spec fn saved_message_of(saved: Option<Seq<char>>) -> Option<Seq<char>> {
    match saved {
        Some(s) => if s == "password"@ {
            Some("Password saved. Restart sooth for the new password to take effect."@)
        } else if s == "github_token"@ {
            Some("GitHub token saved. Restart sooth for it to take effect."@)
        } else {
            Some("Saved. Restart sooth for changes to take effect."@)
        },
        None => None,
    }
}

impl SavedQuery {
    /// The confirmation shown after a save.
    pub fn message(&self) -> (r: Option<&'static str>)
        ensures
            match (r, saved_message_of(
                match &self.saved {
                    Some(s) => Some(s@),
                    None => None,
                },
            )) {
                (Some(a), Some(b)) => a@ == b,
                (None, None) => true,
                _ => false,
            },
    {
        match &self.saved {
            Some(s) => if text::str_eq(s.as_str(), "password") {
                Some("Password saved. Restart sooth for the new password to take effect.")
            } else if text::str_eq(s.as_str(), "github_token") {
                Some("GitHub token saved. Restart sooth for it to take effect.")
            } else {
                Some("Saved. Restart sooth for changes to take effect.")
            },
            None => None,
        }
    }
}

/// The main settings form.
pub struct SettingsForm {
    pub csrf_token: String,
    pub bind_addr: String,
    pub quadlet_dir: String,
    pub cookie_secure: Option<String>,
    pub log_filter: String,
    pub session_idle_timeout_secs: String,
    pub mode: String,
    pub poll_interval_secs: String,
    pub repo: String,
}

/// "Change password".
pub struct ChangePasswordForm {
    pub csrf_token: String,
    pub current_password: String,
    pub new_password: String,
    pub confirm_password: String,
}

/// "Save token" (a blank field clears it).
pub struct GithubTokenForm {
    pub csrf_token: String,
    pub github_token: String,
}

/// "Restart sooth".
pub struct RestartForm {
    pub csrf_token: String,
}

/// The System card's "Refresh".
pub struct RefreshHealthForm {
    pub csrf_token: String,
}

/// How the self-updater checks for releases.
#[derive(Clone, Copy, Debug, PartialEq, Eq, Structural)]
pub enum UpdateMode {
    Off,
    Notify,
    Auto,
}

pub open spec fn update_mode_of(s: Seq<char>) -> Option<UpdateMode> {
    if s == "off"@ {
        Some(UpdateMode::Off)
    } else if s == "notify"@ {
        Some(UpdateMode::Notify)
    } else if s == "auto"@ {
        Some(UpdateMode::Auto)
    } else {
        None
    }
}

impl UpdateMode {
    /// The mode a form value names (`off`, `notify`, `auto`).
    pub fn parse(s: &str) -> (r: Option<UpdateMode>)
        ensures
            r == update_mode_of(s@),
    {
        if text::str_eq(s, "off") {
            Some(UpdateMode::Off)
        } else if text::str_eq(s, "notify") {
            Some(UpdateMode::Notify)
        } else if text::str_eq(s, "auto") {
            Some(UpdateMode::Auto)
        } else {
            None
        }
    }

    /// The form value of a mode.
    pub fn as_str(self) -> (r: &'static str)
        ensures
            r@ == match self {
                UpdateMode::Off => "off"@,
                UpdateMode::Notify => "notify"@,
                UpdateMode::Auto => "auto"@,
            },
    {
        match self {
            UpdateMode::Off => "off",
            UpdateMode::Notify => "notify",
            UpdateMode::Auto => "auto",
        }
    }
}

/// Reading back the form value of a mode gives the mode.
pub proof fn lemma_update_mode_round_trip(m: UpdateMode)
    ensures
        update_mode_of(
            match m {
                UpdateMode::Off => "off"@,
                UpdateMode::Notify => "notify"@,
                UpdateMode::Auto => "auto"@,
            },
        ) == Some(m),
{
    reveal_strlit("off");
    reveal_strlit("notify");
    reveal_strlit("auto");
    assert("off"@.len() == 3 && "notify"@.len() == 6 && "auto"@.len() == 4);
    match m {
        UpdateMode::Off => {},
        UpdateMode::Notify => {
            assert("notify"@ != "off"@);
        },
        UpdateMode::Auto => {
            assert("auto"@ != "off"@);
            assert("auto"@ != "notify"@);
        },
    }
}

/// `owner/name`: two non-empty parts around exactly one `/`.
pub open spec fn repo_shape_ok(repo: Seq<char>) -> bool {
    exists|i: int|
        0 < i < repo.len() - 1 && #[trigger] repo[i] == '/' && forall|k: int|
            0 <= k < repo.len() && k != i ==> repo[k] != '/'
}

/// Whether `repo` has the `owner/name` shape.
pub fn repo_ok(repo: &str) -> (r: bool)
    ensures
        r == repo_shape_ok(repo@),
{
    let v = text::to_chars(repo);
    match text::find_char(v.as_slice(), '/') {
        Some(i) => {
            assert(i < v.len());
            if i == 0 || i + 1 >= v.len() {
                proof {
                    if repo_shape_ok(repo@) {
                        let j = choose|j: int|
                            0 < j < repo@.len() - 1 && #[trigger] repo@[j] == '/' && forall|k: int|
                                0 <= k < repo@.len() && k != j ==> repo@[k] != '/';
                        assert(repo@[i as int] == '/');
                    }
                }
                return false;
            }
            let rest = text::slice_range(v.as_slice(), i + 1, v.len());
            match text::find_char(rest.as_slice(), '/') {
                Some(m) => {
                    proof {
                        assert(repo@[i + 1 + m] == rest@[m as int]);
                        if repo_shape_ok(repo@) {
                            let j = choose|j: int|
                                0 < j < repo@.len() - 1 && #[trigger] repo@[j] == '/' && forall|
                                    k: int,
                                | 0 <= k < repo@.len() && k != j ==> repo@[k] != '/';
                            assert(repo@[i as int] == '/');
                        }
                    }
                    false
                },
                None => {
                    proof {
                        assert forall|k: int| 0 <= k < repo@.len() && k != i implies repo@[k]
                            != '/' by {
                            if k > i {
                                assert(repo@[k] == rest@[k - i - 1]);
                            }
                        }
                        assert(repo@[i as int] == '/');
                    }
                    true
                },
            }
        },
        None => {
            proof {
                if repo_shape_ok(repo@) {
                    let j = choose|j: int|
                        0 < j < repo@.len() - 1 && #[trigger] repo@[j] == '/' && forall|k: int|
                            0 <= k < repo@.len() && k != j ==> repo@[k] != '/';
                    assert(v@[j] == '/');
                }
            }
            false
        },
    }
}

/// The settings a valid form saves.
pub struct SettingsUpdate {
    pub bind_addr: String,
    pub quadlet_dir: String,
    pub cookie_secure: bool,
    pub log_filter: String,
    pub session_idle_timeout_secs: u64,
    pub mode: UpdateMode,
    pub poll_interval_secs: u64,
    pub repo: String,
}

pub open spec fn bad_bind_message() -> Seq<char> {
    "Bind address must be a valid host:port, e.g. 127.0.0.1:8420"@
}

pub open spec fn bad_timeout_message() -> Seq<char> {
    "Session idle timeout must be a whole number of seconds"@
}

pub open spec fn empty_dir_message() -> Seq<char> {
    "Quadlet directory must not be empty"@
}

pub open spec fn bad_mode_message() -> Seq<char> {
    "Invalid update-check mode"@
}

pub open spec fn bad_interval_message() -> Seq<char> {
    "Invalid check interval"@
}

pub open spec fn short_interval_message() -> Seq<char> {
    "Check interval must be at least 60 seconds"@
}

pub open spec fn bad_repo_message() -> Seq<char> {
    "Repository must look like \"owner/name\""@
}

/// The first check a settings form fails, in the order the page reports
/// them, or `None` when every field is acceptable. `bind_ok` is whether the
/// trimmed bind address parses as a socket address.
pub open spec fn settings_error_of(form: SettingsForm, bind_ok: bool) -> Option<Seq<char>> {
    if !bind_ok {
        Some(bad_bind_message())
    } else if parse_u64_spec(trim(form.session_idle_timeout_secs@)) is None {
        Some(bad_timeout_message())
    } else if trim(form.quadlet_dir@).len() == 0 {
        Some(empty_dir_message())
    } else if update_mode_of(form.mode@) is None {
        Some(bad_mode_message())
    } else if parse_u64_spec(trim(form.poll_interval_secs@)) is None {
        Some(bad_interval_message())
    } else if parse_u64_spec(trim(form.poll_interval_secs@))->0 < 60 {
        Some(short_interval_message())
    } else if !repo_shape_ok(trim(form.repo@)) {
        Some(bad_repo_message())
    } else {
        None
    }
}

fn parse_trimmed_u64(s: &str) -> (r: Option<u64>)
    ensures
        r == parse_u64_spec(trim(s@)),
{
    let v = text::to_chars(s);
    let t = text::trim_chars(v.as_slice());
    parse_u64_chars(t.as_slice())
}

impl SettingsForm {
    /// What saving the form writes, or the message it is refused with.
    /// `bind_addr` is the bind address as the socket-address parser
    /// re-printed it, or `None` when the trimmed field did not parse.
    pub fn validate(&self, bind_addr: Option<String>) -> (r: Result<SettingsUpdate, &'static str>)
        ensures
            match settings_error_of(*self, bind_addr is Some) {
                Some(m) => r matches Err(e) && e@ == m,
                None => r matches Ok(u) && {
                    &&& u.bind_addr@ == bind_addr->0@
                    &&& u.quadlet_dir@ == trim(self.quadlet_dir@)
                    &&& u.cookie_secure == self.cookie_secure is Some
                    &&& u.log_filter@ == trim(self.log_filter@)
                    &&& Some(u.session_idle_timeout_secs) == parse_u64_spec(
                        trim(self.session_idle_timeout_secs@),
                    )
                    &&& Some(u.mode) == update_mode_of(self.mode@)
                    &&& Some(u.poll_interval_secs) == parse_u64_spec(trim(self.poll_interval_secs@))
                    &&& u.repo@ == trim(self.repo@)
                },
            },
    {
        let bind = match bind_addr {
            Some(b) => b,
            None => {
                return Err("Bind address must be a valid host:port, e.g. 127.0.0.1:8420");
            },
        };
        let timeout = match parse_trimmed_u64(self.session_idle_timeout_secs.as_str()) {
            Some(t) => t,
            None => {
                return Err("Session idle timeout must be a whole number of seconds");
            },
        };
        let dir = text::trim_str(self.quadlet_dir.as_str());
        if dir.as_str().unicode_len() == 0 {
            return Err("Quadlet directory must not be empty");
        }
        let mode = match UpdateMode::parse(self.mode.as_str()) {
            Some(m) => m,
            None => {
                return Err("Invalid update-check mode");
            },
        };
        let interval = match parse_trimmed_u64(self.poll_interval_secs.as_str()) {
            Some(i) => i,
            None => {
                return Err("Invalid check interval");
            },
        };
        if interval < 60 {
            return Err("Check interval must be at least 60 seconds");
        }
        let repo = text::trim_str(self.repo.as_str());
        if !repo_ok(repo.as_str()) {
            return Err("Repository must look like \"owner/name\"");
        }
        Ok(
            SettingsUpdate {
                bind_addr: bind,
                quadlet_dir: dir,
                cookie_secure: self.cookie_secure.is_some(),
                log_filter: text::trim_str(self.log_filter.as_str()),
                session_idle_timeout_secs: timeout,
                mode,
                poll_interval_secs: interval,
                repo,
            },
        )
    }
}

pub open spec fn mismatch_message() -> Seq<char> {
    "New password and confirmation do not match."@
}

pub open spec fn short_password_message() -> Seq<char> {
    "New password must be at least 8 characters."@
}

/// The checks on a new password that need no hashing: it must equal its
/// confirmation, then be at least 8 characters long.
pub fn check_new_password(new_password: &str, confirm_password: &str) -> (r: Result<(), &'static str>)
    ensures
        new_password@ != confirm_password@ ==> (r matches Err(m) && m@ == mismatch_message()),
        new_password@ == confirm_password@ && new_password@.len() < 8 ==> (r matches Err(m) && m@
            == short_password_message()),
        new_password@ == confirm_password@ && new_password@.len() >= 8 ==> r is Ok,
{
    if !text::str_eq(new_password, confirm_password) {
        return Err("New password and confirmation do not match.");
    }
    if new_password.unicode_len() < 8 {
        return Err("New password must be at least 8 characters.");
    }
    Ok(())
}


pub open spec fn password_locked_message() -> Seq<char> {
    "The password is set by the SOOTH_AUTH_PASSWORD_HASH environment variable; change it there and restart."@
}

pub open spec fn wrong_password_message() -> Seq<char> {
    "Current password is incorrect."@
}

impl ChangePasswordForm {
    /// The checks "Change password" makes before hashing, in order: the
    /// environment pins the hash (`env_locked`), the current password is
    /// wrong (`current_ok` is the hash check's verdict), then the new
    /// password's own checks.
    pub fn check(&self, env_locked: bool, current_ok: bool) -> (r: Result<(), &'static str>)
        ensures
            env_locked ==> (r matches Err(m) && m@ == password_locked_message()),
            !env_locked && !current_ok ==> (r matches Err(m) && m@ == wrong_password_message()),
            !env_locked && current_ok ==> match r {
                Ok(_) => self.new_password@ == self.confirm_password@ && self.new_password@.len()
                    >= 8,
                Err(m) => if self.new_password@ != self.confirm_password@ {
                    m@ == mismatch_message()
                } else {
                    self.new_password@.len() < 8 && m@ == short_password_message()
                },
            },
    {
        if env_locked {
            return Err(
                "The password is set by the SOOTH_AUTH_PASSWORD_HASH environment variable; change it there and restart.",
            );
        }
        if !current_ok {
            return Err("Current password is incorrect.");
        }
        check_new_password(self.new_password.as_str(), self.confirm_password.as_str())
    }
}

impl GithubTokenForm {
    /// The token to save (trimmed; blank clears it), unless the environment
    /// pins it.
    pub fn token_to_save(&self, env_locked: bool) -> (r: Result<String, &'static str>)
        ensures
            env_locked ==> (r matches Err(m) && m@
                == "The GitHub token is set by the SOOTH_GITHUB_TOKEN environment variable; change it there and restart."@),
            !env_locked ==> (r matches Ok(t) && t@ == trim(self.github_token@)),
    {
        if env_locked {
            return Err(
                "The GitHub token is set by the SOOTH_GITHUB_TOKEN environment variable; change it there and restart.",
            );
        }
        Ok(text::trim_str(self.github_token.as_str()))
    }
}

} // verus!
