//! What the pages show besides the units themselves: token hints, counts,
//! "how long ago" labels, secret-to-variable names, group section counts
//! and the settings form's round-tripped values.
use vstd::prelude::*;

use crate::decimal::{self, dec};
use crate::groups::{chars_have_dir_prefix, lands_in, strings_view};
use crate::handlers::settings::{SettingsForm, UpdateMode};
use crate::kind::{last_index_of, rfind_char};
use crate::prepare::contains_string;
use crate::status::UnitStatus;
use crate::text::{self, trim};
use crate::kind::UnitKind;
use crate::unit::{unit_value, QuadletUnit, UnitView};

verus! {

/// The last four characters of `s` (all of it when shorter).
pub open spec fn last4_of(s: Seq<char>) -> Seq<char> {
    if s.len() <= 4 {
        s
    } else {
        s.skip(s.len() - 4)
    }
}

/// The last 4 characters of a token, shown to tell tokens apart.
pub fn last4(token: &str) -> (r: String)
    ensures
        r@ == last4_of(token@),
{
    let v = text::to_chars(token);
    let n = v.len();
    let from = if n > 4 {
        n - 4
    } else {
        0
    };
    let t = text::slice_range(v.as_slice(), from, n);
    assert(t@ =~= last4_of(token@));
    text::from_chars(t.as_slice())
}

/// Whether a GitHub token is in use, and whether the config file holds a
/// different one than the running process loaded (only last-4 suffixes are
/// kept).
#[derive(Debug, Default, PartialEq, Eq)]
pub struct GithubTokenStatus {
    /// Suffix of the token the running process uses.
    pub active: Option<String>,
    /// Suffix of the token in the config file.
    pub saved: Option<String>,
    /// The saved and active tokens differ; never when the env var pins it.
    pub pending_restart: bool,
    /// Pinned by `SOOTH_GITHUB_TOKEN`.
    pub env_locked: bool,
}

/// The shown suffix of a token: none for an empty one.
pub open spec fn suffix_of(t: Seq<char>) -> Option<Seq<char>> {
    if t.len() == 0 {
        None
    } else {
        Some(last4_of(t))
    }
}

fn suffix(t: &str) -> (r: Option<String>)
    ensures
        match (r, suffix_of(t@)) {
            (Some(a), Some(b)) => a@ == b,
            (None, None) => true,
            _ => false,
        },
{
    if t.unicode_len() == 0 {
        None
    } else {
        Some(last4(t))
    }
}

impl GithubTokenStatus {
    /// The status for the token in use (`active`), the one in the config
    /// file (`saved`) and whether the environment pins it.
    pub fn from_tokens(active: &str, saved: &str, env_locked: bool) -> (r: GithubTokenStatus)
        ensures
            match (r.active, suffix_of(active@)) {
                (Some(a), Some(b)) => a@ == b,
                (None, None) => true,
                _ => false,
            },
            match (r.saved, suffix_of(saved@)) {
                (Some(a), Some(b)) => a@ == b,
                (None, None) => true,
                _ => false,
            },
            r.pending_restart == (!env_locked && active@ != saved@),
            r.env_locked == env_locked,
    {
        GithubTokenStatus {
            active: suffix(active),
            saved: suffix(saved),
            pending_restart: !env_locked && !text::str_eq(active, saved),
            env_locked,
        }
    }

    /// Which of the four token notes the page shows.
    pub fn summary(&self) -> (r: TokenSummary)
        ensures
            r == match (self.active is Some, self.pending_restart, self.saved is Some) {
                (true, false, _) => TokenSummary::Active,
                (false, false, _) => TokenSummary::NoToken,
                (_, true, true) => TokenSummary::RestartForNew,
                (_, true, false) => TokenSummary::RestartForRemoval,
            },
    {
        if !self.pending_restart {
            if self.active.is_some() {
                TokenSummary::Active
            } else {
                TokenSummary::NoToken
            }
        } else if self.saved.is_some() {
            TokenSummary::RestartForNew
        } else {
            TokenSummary::RestartForRemoval
        }
    }
}

/// The saved token the status compares against: with the environment
/// pinning it, or when the config file could not be read (`None`), the
/// active one; otherwise the file's token trimmed (empty when the file has
/// none).
pub open spec fn saved_token_of(active: Seq<char>, env_locked: bool, file_token: Option<Option<Seq<char>>>) -> Seq<char> {
    if env_locked {
        trim(active)
    } else {
        match file_token {
            None => trim(active),
            Some(None) => Seq::empty(),
            Some(Some(t)) => trim(t),
        }
    }
}

/// [`saved_token_of`].
pub fn saved_token(active: &str, env_locked: bool, file_token: Option<Option<String>>) -> (r: String)
    ensures
        r@ == saved_token_of(
            active@,
            env_locked,
            match file_token {
                None => None,
                Some(None) => Some(None),
                Some(Some(t)) => Some(Some(t@)),
            },
        ),
{
    if env_locked {
        return text::trim_str(active);
    }
    match file_token {
        None => text::trim_str(active),
        Some(None) => String::new(),
        Some(Some(t)) => text::trim_str(t.as_str()),
    }
}

pub open spec fn opt_opt_view(t: Option<Option<String>>) -> Option<Option<Seq<char>>> {
    match t {
        None => None,
        Some(None) => Some(None),
        Some(Some(x)) => Some(Some(x@)),
    }
}

/// `r` is the token status for the configured token `active`, the
/// environment pin, and the config file's token (`None`: unreadable): the
/// shown suffixes of the trimmed active and of the saved token, a restart
/// pending when they differ and the environment does not pin it.
pub open spec fn token_status_is(
    r: GithubTokenStatus,
    active: Seq<char>,
    env_locked: bool,
    file_token: Option<Option<Seq<char>>>,
) -> bool {
    let saved = saved_token_of(active, env_locked, file_token);
    &&& match (r.active, suffix_of(trim(active))) {
        (Some(a), Some(b)) => a@ == b,
        (None, None) => true,
        _ => false,
    }
    &&& match (r.saved, suffix_of(saved)) {
        (Some(a), Some(b)) => a@ == b,
        (None, None) => true,
        _ => false,
    }
    &&& r.pending_restart == (!env_locked && trim(active) != saved)
    &&& r.env_locked == env_locked
}

impl GithubTokenStatus {
    /// The status for the configured token (`active`, as loaded at start),
    /// whether `SOOTH_GITHUB_TOKEN` pins it, and what the config file holds
    /// now (`None`: unreadable; `Some(None)`: no token saved).
    pub fn detect(active: &str, env_locked: bool, file_token: Option<Option<String>>) -> (r: GithubTokenStatus)
        ensures
            token_status_is(r, active@, env_locked, opt_opt_view(file_token)),
    {
        let a = text::trim_str(active);
        let saved = saved_token(active, env_locked, file_token);
        GithubTokenStatus::from_tokens(a.as_str(), saved.as_str(), env_locked)
    }
}

/// The GitHub token note: a token in use, none saved, a new one saved but
/// waiting for a restart, or a removal waiting for one.
#[derive(Clone, Copy, Debug, PartialEq, Eq, Structural)]
pub enum TokenSummary {
    Active,
    NoToken,
    RestartForNew,
    RestartForRemoval,
}

/// Which settings a `SOOTH_*` environment variable pins.
pub struct EnvLocks {
    pub bind_addr: bool,
    pub quadlet_dir: bool,
    pub cookie_secure: bool,
    pub log_filter: bool,
    pub session_idle_timeout_secs: bool,
    pub auth_password_hash: bool,
    pub github_token: bool,
}

impl EnvLocks {
    /// The locks, given the names of the environment variables that are
    /// set.
    pub fn from_present(present: &[String]) -> (r: EnvLocks)
        ensures
            r.bind_addr == strings_view(present@).contains("SOOTH_BIND_ADDR"@),
            r.quadlet_dir == strings_view(present@).contains("SOOTH_QUADLET_DIR"@),
            r.cookie_secure == strings_view(present@).contains("SOOTH_COOKIE_SECURE"@),
            r.log_filter == strings_view(present@).contains("SOOTH_LOG_FILTER"@),
            r.session_idle_timeout_secs == strings_view(present@).contains(
                "SOOTH_SESSION_IDLE_TIMEOUT_SECS"@,
            ),
            r.auth_password_hash == strings_view(present@).contains("SOOTH_AUTH_PASSWORD_HASH"@),
            r.github_token == strings_view(present@).contains("SOOTH_GITHUB_TOKEN"@),
    {
        let a = text::to_chars("SOOTH_BIND_ADDR");
        let b = text::to_chars("SOOTH_QUADLET_DIR");
        let c = text::to_chars("SOOTH_COOKIE_SECURE");
        let d = text::to_chars("SOOTH_LOG_FILTER");
        let e = text::to_chars("SOOTH_SESSION_IDLE_TIMEOUT_SECS");
        let f = text::to_chars("SOOTH_AUTH_PASSWORD_HASH");
        let g = text::to_chars("SOOTH_GITHUB_TOKEN");
        EnvLocks {
            bind_addr: contains_string(present, a.as_slice()),
            quadlet_dir: contains_string(present, b.as_slice()),
            cookie_secure: contains_string(present, c.as_slice()),
            log_filter: contains_string(present, d.as_slice()),
            session_idle_timeout_secs: contains_string(present, e.as_slice()),
            auth_password_hash: contains_string(present, f.as_slice()),
            github_token: contains_string(present, g.as_slice()),
        }
    }
}

/// The settings form's values as plain strings, so a rejected submission
/// redisplays exactly as typed.
pub struct FormValues {
    pub bind_addr: String,
    pub quadlet_dir: String,
    pub cookie_secure: bool,
    pub log_filter: String,
    pub session_idle_timeout_secs: String,
    pub self_update_mode: String,
    pub self_update_poll_interval_secs: String,
    pub self_update_repo: String,
    /// Never the token itself.
    pub github_token: GithubTokenStatus,
}

/// The configuration loaded at start, as plain values.
pub struct SavedSettings {
    /// The listen address, written out.
    pub bind_addr: String,
    /// The configured quadlet directory, if one is set.
    pub quadlet_dir: Option<String>,
    /// The default quadlet directory, when it could be determined.
    pub default_quadlet_dir: Option<String>,
    pub cookie_secure: bool,
    pub log_filter: Option<String>,
    pub session_idle_timeout_secs: u64,
    /// The GitHub token the running process uses.
    pub github_token: String,
}

/// The self-updater's live settings: unlike the rest of the configuration
/// they apply as soon as they are saved.
pub struct SelfUpdateSettings {
    pub mode: UpdateMode,
    pub poll_interval_secs: u64,
    pub repo: String,
}

impl FormValues {
    /// The values the settings form starts from: those of the configuration
    /// loaded at start (the configured quadlet directory, else the default
    /// one, else blank; a missing log filter shows blank; numbers in
    /// decimal), the self-updater's live settings (`self_update`, never
    /// the ones loaded at start, since those apply at once), and the token
    /// status worked out from the configured token, the environment pin
    /// (`token_env_locked`) and the config file's token now (`file_token`;
    /// `None` when the file could not be read).
    pub fn from_config(
        config: &SavedSettings,
        self_update: &SelfUpdateSettings,
        token_env_locked: bool,
        file_token: Option<Option<String>>,
    ) -> (r: FormValues)
        ensures
            r.bind_addr@ == config.bind_addr@,
            r.quadlet_dir@ == match (config.quadlet_dir, config.default_quadlet_dir) {
                (Some(d), _) => d@,
                (None, Some(d)) => d@,
                (None, None) => Seq::<char>::empty(),
            },
            r.cookie_secure == config.cookie_secure,
            r.log_filter@ == match config.log_filter {
                Some(f) => f@,
                None => Seq::<char>::empty(),
            },
            r.session_idle_timeout_secs@ == dec(config.session_idle_timeout_secs as nat),
            r.self_update_mode@ == match self_update.mode {
                UpdateMode::Off => "off"@,
                UpdateMode::Notify => "notify"@,
                UpdateMode::Auto => "auto"@,
            },
            r.self_update_poll_interval_secs@ == dec(self_update.poll_interval_secs as nat),
            r.self_update_repo@ == self_update.repo@,
            token_status_is(
                r.github_token,
                config.github_token@,
                token_env_locked,
                opt_opt_view(file_token),
            ),
    {
        let quadlet_dir = match (&config.quadlet_dir, &config.default_quadlet_dir) {
            (Some(d), _) => text::owned(d.as_str()),
            (None, Some(d)) => text::owned(d.as_str()),
            (None, None) => String::new(),
        };
        let log_filter = match &config.log_filter {
            Some(f) => text::owned(f.as_str()),
            None => String::new(),
        };
        let github_token = GithubTokenStatus::detect(
            config.github_token.as_str(),
            token_env_locked,
            file_token,
        );
        FormValues {
            bind_addr: text::owned(config.bind_addr.as_str()),
            quadlet_dir,
            cookie_secure: config.cookie_secure,
            log_filter,
            session_idle_timeout_secs: decimal::to_decimal(config.session_idle_timeout_secs),
            self_update_mode: text::owned(self_update.mode.as_str()),
            self_update_poll_interval_secs: decimal::to_decimal(self_update.poll_interval_secs),
            self_update_repo: text::owned(self_update.repo.as_str()),
            github_token,
        }
    }

    /// The values as submitted; the token status is not part of the form
    /// and is carried over.
    pub fn entered(form: &SettingsForm, github_token: GithubTokenStatus) -> (r: FormValues)
        ensures
            r.bind_addr@ == form.bind_addr@,
            r.quadlet_dir@ == form.quadlet_dir@,
            r.cookie_secure == form.cookie_secure is Some,
            r.log_filter@ == form.log_filter@,
            r.session_idle_timeout_secs@ == form.session_idle_timeout_secs@,
            r.self_update_mode@ == form.mode@,
            r.self_update_poll_interval_secs@ == form.poll_interval_secs@,
            r.self_update_repo@ == form.repo@,
            r.github_token == github_token,
    {
        FormValues {
            bind_addr: text::owned(form.bind_addr.as_str()),
            quadlet_dir: text::owned(form.quadlet_dir.as_str()),
            cookie_secure: form.cookie_secure.is_some(),
            log_filter: text::owned(form.log_filter.as_str()),
            session_idle_timeout_secs: text::owned(form.session_idle_timeout_secs.as_str()),
            self_update_mode: text::owned(form.mode.as_str()),
            self_update_poll_interval_secs: text::owned(form.poll_interval_secs.as_str()),
            self_update_repo: text::owned(form.repo.as_str()),
            github_token,
        }
    }
}

/// `1 unit`, `N units`.
pub open spec fn unit_count_of(n: nat) -> Seq<char> {
    if n == 1 {
        "1 unit"@
    } else {
        dec(n) + " units"@
    }
}

/// The "Restart N units" count.
pub fn unit_count(n: usize) -> (r: String)
    ensures
        r@ == unit_count_of(n as nat),
{
    if n == 1 {
        text::owned("1 unit")
    } else {
        let mut out: Vec<char> = Vec::new();
        decimal::append_decimal(&mut out, n as u64);
        text::append_str(&mut out, " units");
        text::from_chars(out.as_slice())
    }
}

/// A character of an environment variable name made from a secret name:
/// `-` and `.` become `_`, ASCII lowercase letters are upper-cased.
pub open spec fn env_char(c: char) -> char {
    if c == '-' || c == '.' {
        '_'
    } else if 'a' <= c && c <= 'z' {
        ((c as u32) - 32) as char
    } else {
        c
    }
}

fn env_char_exec(c: char) -> (r: char)
    ensures
        r == env_char(c),
{
    if c == '-' || c == '.' {
        '_'
    } else if 'a' <= c && c <= 'z' {
        let u: u8 = (c as u32 - 32) as u8;
        u as char
    } else {
        c
    }
}

/// A plausible environment variable name for a secret.
pub fn env_target(name: &str) -> (r: String)
    ensures
        r@ == name@.map_values(|c: char| env_char(c)),
{
    let v = text::to_chars(name);
    let mut out: Vec<char> = Vec::new();
    let mut i: usize = 0;
    while i < v.len()
        invariant
            i <= v@.len(),
            v@ == name@,
            out@ == v@.take(i as int).map_values(|c: char| env_char(c)),
        decreases v.len() - i,
    {
        out.push(env_char_exec(v[i]));
        i = i + 1;
        assert(out@ =~= v@.take(i as int).map_values(|c: char| env_char(c)));
    }
    assert(v@.take(i as int) =~= v@);
    text::from_chars(out.as_slice())
}

/// The first (up to) 8 characters of a commit id.
pub fn short_commit(commit: &str) -> (r: String)
    requires
        commit.is_ascii(),
    ensures
        r@ == if commit@.len() <= 8 {
            commit@
        } else {
            commit@.take(8)
        },
{
    let v = text::to_chars(commit);
    let n = if v.len() < 8 {
        v.len()
    } else {
        8
    };
    let t = text::slice_range(v.as_slice(), 0, n);
    assert(t@ =~= if commit@.len() <= 8 {
        commit@
    } else {
        commit@.take(8)
    });
    text::from_chars(t.as_slice())
}

/// A coarse "how long ago" for a number of seconds (`None`: never).
pub open spec fn ago_of(secs: Option<u64>) -> Seq<char> {
    match secs {
        None => "never"@,
        Some(s) => if s < 60 {
            dec(s as nat) + "s ago"@
        } else if s < 3600 {
            dec((s / 60) as nat) + "m ago"@
        } else {
            dec((s / 3600) as nat) + "h ago"@
        },
    }
}

/// The "last checked" label of a git sync.
pub fn ago_label(secs: Option<u64>) -> (r: String)
    ensures
        r@ == ago_of(secs),
{
    match secs {
        None => text::owned("never"),
        Some(s) => {
            let mut out: Vec<char> = Vec::new();
            if s < 60 {
                decimal::append_decimal(&mut out, s);
                text::append_str(&mut out, "s ago");
            } else if s < 3600 {
                decimal::append_decimal(&mut out, s / 60);
                text::append_str(&mut out, "m ago");
            } else {
                decimal::append_decimal(&mut out, s / 3600);
                text::append_str(&mut out, "h ago");
            }
            text::from_chars(out.as_slice())
        },
    }
}

/// How many of `groups` lie in `group` or below it.
pub open spec fn count_in_group(groups: Seq<Seq<char>>, group: Seq<char>) -> nat
    decreases groups.len(),
{
    if groups.len() == 0 {
        0
    } else {
        count_in_group(groups.drop_last(), group) + if lands_in(group, groups.last()) {
            1nat
        } else {
            0nat
        }
    }
}

/// Lying inside a directory that lies inside another means lying inside
/// that one too.
proof fn lemma_lands_in_transitive(parent: Seq<char>, child: Seq<char>, g: Seq<char>)
    requires
        lands_in(parent, child),
        lands_in(child, g),
    ensures
        lands_in(parent, g),
{
    if child != parent && g != child {
        let p = parent.len() as int;
        let c = child.len() as int;
        assert(g.take(p + 1) =~= child.take(p + 1)) by {
            assert forall|k: int| 0 <= k < p + 1 implies g[k] == child[k] by {
                assert(g.take(c + 1)[k] == child.push('/')[k]);
            }
        }
    }
}

/// A collapsible group's count covers every group below it: a subgroup
/// never shows more units than the group it sits in.
pub proof fn lemma_subgroup_count_within_group(gs: Seq<Seq<char>>, parent: Seq<char>, child: Seq<char>)
    requires
        lands_in(parent, child),
    ensures
        count_in_group(gs, child) <= count_in_group(gs, parent),
    decreases gs.len(),
{
    if gs.len() > 0 {
        lemma_subgroup_count_within_group(gs.drop_last(), parent, child);
        if lands_in(child, gs.last()) {
            lemma_lands_in_transitive(parent, child, gs.last());
        }
    }
}

pub open spec fn row_groups(units: Seq<(QuadletUnit, UnitStatus)>) -> Seq<Seq<char>> {
    units.map_values(|p: (QuadletUnit, UnitStatus)| p.0.group@)
}

/// How many units live in `group` or any group below it (the number a
/// collapsible section header shows).
pub fn nested_unit_count(units: &[(QuadletUnit, UnitStatus)], group: &str) -> (r: usize)
    ensures
        r == count_in_group(row_groups(units@), group@),
{
    let g = text::to_chars(group);
    let ghost gs = row_groups(units@);
    let mut n: usize = 0;
    let mut i: usize = 0;
    while i < units.len()
        invariant
            i <= units@.len(),
            gs == row_groups(units@),
            g@ == group@,
            n == count_in_group(gs.take(i as int), group@),
            n <= i,
        decreases units.len() - i,
    {
        let u = text::to_chars(units[i].0.group.as_str());
        proof {
            assert(gs.take(i + 1).drop_last() =~= gs.take(i as int));
            assert(gs.take(i + 1).last() == u@);
        }
        if text::chars_eq(u.as_slice(), g.as_slice()) || chars_have_dir_prefix(
            u.as_slice(),
            g.as_slice(),
        ) {
            n = n + 1;
        }
        i = i + 1;
    }
    assert(gs.take(i as int) =~= gs);
    n
}

/// The rows fragment route of a list: the section of its "New" link (all
/// of it up to the last `/`) followed by `/rows`.
pub open spec fn rows_route_of(new_href: Seq<char>) -> Seq<char> {
    match last_index_of(new_href, '/') {
        Some(i) => new_href.take(i) + "/rows"@,
        None => new_href + "/rows"@,
    }
}

/// `/volumes/new` -> `/volumes/rows`.
pub fn rows_route(new_href: &str) -> (r: String)
    ensures
        r@ == rows_route_of(new_href@),
{
    let v = text::to_chars(new_href);
    let mut out = match rfind_char(v.as_slice(), '/') {
        Some(i) => text::slice_range(v.as_slice(), 0, i),
        None => text::slice_range(v.as_slice(), 0, v.len()),
    };
    text::append_str(&mut out, "/rows");
    assert(out@ =~= rows_route_of(new_href@));
    text::from_chars(out.as_slice())
}


/// A character kept in a DOM id: ASCII letters and digits, `-`, `_`;
/// anything else becomes `-`.
pub open spec fn dom_char(c: char) -> char {
    if ('a' <= c && c <= 'z') || ('A' <= c && c <= 'Z') || ('0' <= c && c <= '9') || c == '-'
        || c == '_' {
        c
    } else {
        '-'
    }
}

/// A stable, selector-safe DOM id for a service: `status-<service>` with
/// every other character replaced by `-`.
pub fn dom_id(service: &str) -> (r: String)
    ensures
        r@ == "status-"@ + service@.map_values(|c: char| dom_char(c)),
{
    let v = text::to_chars(service);
    let mut out: Vec<char> = Vec::new();
    let mut i: usize = 0;
    while i < v.len()
        invariant
            i <= v@.len(),
            v@ == service@,
            out@ == v@.take(i as int).map_values(|c: char| dom_char(c)),
        decreases v.len() - i,
    {
        let c = v[i];
        let d = if ('a' <= c && c <= 'z') || ('A' <= c && c <= 'Z') || ('0' <= c && c <= '9')
            || c == '-' || c == '_' {
            c
        } else {
            '-'
        };
        out.push(d);
        i = i + 1;
        assert(out@ =~= v@.take(i as int).map_values(|c: char| dom_char(c)));
    }
    assert(v@.take(i as int) =~= v@);
    let mut r = text::to_chars("status-");
    text::append_chars(&mut r, out.as_slice());
    text::from_chars(r.as_slice())
}

/// The server-sent event a unit's status badge updates on.
pub fn status_event_name(service: &str) -> (r: String)
    ensures
        r@ == "status-"@ + service@,
{
    let mut r = text::to_chars("status-");
    text::append_str(&mut r, service);
    text::from_chars(r.as_slice())
}

/// The three banner styles.
#[derive(Clone, Copy, Debug, PartialEq, Eq, Structural)]
pub enum BannerKind {
    Error,
    Success,
    Info,
}

impl BannerKind {
    /// The banner's CSS classes.
    pub fn class(self) -> (r: &'static str)
        ensures
            r@ == match self {
                BannerKind::Error => "banner banner-error"@,
                BannerKind::Success => "banner banner-success"@,
                BannerKind::Info => "banner banner-info"@,
            },
    {
        match self {
            BannerKind::Error => "banner banner-error",
            BannerKind::Success => "banner banner-success",
            BannerKind::Info => "banner banner-info",
        }
    }
}

/// How the code editor works out the full file name to validate against.
pub enum EditorFileName<'a> {
    /// Edit page: the name is fixed.
    Fixed(&'a str),
    /// A section's "New" page: the stem field's selector and the fixed
    /// extension shown beside it.
    StemSuffix { input: &'a str, suffix: &'a str },
    /// `/units/new`: the stem field's selector and the kind picker's.
    StemSelect { input: &'a str, select: &'a str },
}

/// The `hx-vals` JSON of a CSRF-only htmx request.
pub fn csrf_vals(csrf: &str) -> (r: String)
    ensures
        r@ == "{\"csrf_token\":\""@ + csrf@ + "\"}"@,
{
    let mut r = text::to_chars("{\"csrf_token\":\"");
    text::append_str(&mut r, csrf);
    text::append_str(&mut r, "\"}");
    text::from_chars(r.as_slice())
}

/// A lowercase hexadecimal digit.
pub open spec fn hex_digit(d: nat) -> char {
    if d < 10 {
        (('0' as u32) + d) as char
    } else {
        (('a' as u32) + d - 10) as char
    }
}

fn hex_digit_exec(d: u8) -> (r: char)
    requires
        d < 16,
    ensures
        r == hex_digit(d as nat),
{
    if d < 10 {
        let u: u8 = 48 + d;
        u as char
    } else {
        let u: u8 = 87 + d;
        u as char
    }
}

/// The two lowercase hex digits of each byte, in order.
pub open spec fn hex_of(bytes: Seq<u8>) -> Seq<char>
    decreases bytes.len(),
{
    if bytes.len() == 0 {
        Seq::empty()
    } else {
        hex_of(bytes.drop_last()) + seq![
            hex_digit((bytes.last() / 16) as nat),
            hex_digit((bytes.last() % 16) as nat),
        ]
    }
}

/// A quoted lowercase-hex ETag for a digest.
pub fn etag_value(digest: &[u8]) -> (r: String)
    ensures
        r@ == seq!['"'] + hex_of(digest@) + seq!['"'],
{
    let mut out: Vec<char> = Vec::new();
    let mut i: usize = 0;
    while i < digest.len()
        invariant
            i <= digest@.len(),
            out@ == hex_of(digest@.take(i as int)),
        decreases digest.len() - i,
    {
        let b = digest[i];
        proof {
            assert(digest@.take(i + 1).drop_last() =~= digest@.take(i as int));
            assert(digest@.take(i + 1).last() == b);
        }
        out.push(hex_digit_exec(b / 16));
        out.push(hex_digit_exec(b % 16));
        i = i + 1;
        assert(out@ =~= hex_of(digest@.take(i as int)));
    }
    assert(digest@.take(i as int) =~= digest@);
    let mut r: Vec<char> = Vec::new();
    r.push('"');
    text::append_chars(&mut r, out.as_slice());
    r.push('"');
    assert(r@ =~= seq!['"'] + hex_of(digest@) + seq!['"']);
    text::from_chars(r.as_slice())
}

/// The extension of an asset path: what follows its last `.`.
pub open spec fn asset_extension(path: Seq<char>) -> Option<Seq<char>> {
    match last_index_of(path, '.') {
        Some(i) => Some(path.skip(i + 1)),
        None => None,
    }
}

/// The `Content-Type` an embedded asset is served with.
pub open spec fn content_type_of(path: Seq<char>) -> Seq<char> {
    match asset_extension(path) {
        Some(e) => if e == "css"@ {
            "text/css; charset=utf-8"@
        } else if e == "js"@ || e == "mjs"@ {
            "text/javascript; charset=utf-8"@
        } else if e == "map"@ || e == "json"@ {
            "application/json; charset=utf-8"@
        } else if e == "svg"@ {
            "image/svg+xml"@
        } else if e == "woff2"@ {
            "font/woff2"@
        } else if e == "ico"@ {
            "image/x-icon"@
        } else {
            "application/octet-stream"@
        },
        None => "application/octet-stream"@,
    }
}

/// The `Content-Type` of an asset, by its extension.
pub fn content_type(path: &str) -> (r: &'static str)
    ensures
        r@ == content_type_of(path@),
{
    let v = text::to_chars(path);
    match rfind_char(v.as_slice(), '.') {
        Some(i) => {
            assert(i < v.len());
            let e = text::slice_range(v.as_slice(), i + 1, v.len());
            assert(e@ =~= path@.skip(i + 1));
            let es = text::from_chars(e.as_slice());
            let x = es.as_str();
            if text::str_eq(x, "css") {
                "text/css; charset=utf-8"
            } else if text::str_eq(x, "js") || text::str_eq(x, "mjs") {
                "text/javascript; charset=utf-8"
            } else if text::str_eq(x, "map") || text::str_eq(x, "json") {
                "application/json; charset=utf-8"
            } else if text::str_eq(x, "svg") {
                "image/svg+xml"
            } else if text::str_eq(x, "woff2") {
                "font/woff2"
            } else if text::str_eq(x, "ico") {
                "image/x-icon"
            } else {
                "application/octet-stream"
            }
        },
        None => "application/octet-stream",
    }
}

/// What an image-list row shows as its source: an `.image`'s `Image=`, a
/// `.build`'s `ImageTag=` (else `File=`), with a placeholder otherwise.
pub open spec fn image_source_of(u: UnitView) -> Seq<char> {
    match u.kind {
        UnitKind::Image => match unit_value(u, "Image"@, "Image"@) {
            Some(v) => v,
            None => "—"@,
        },
        UnitKind::Build => match unit_value(u, "Build"@, "ImageTag"@) {
            Some(v) => v,
            None => match unit_value(u, "Build"@, "File"@) {
                Some(v) => v,
                None => "(build)"@,
            },
        },
        _ => "—"@,
    }
}

/// The Images list's "Source" cell.
pub fn image_source(unit: &QuadletUnit) -> (r: &str)
    ensures
        r@ == image_source_of(unit@),
{
    match unit.kind {
        UnitKind::Image => match unit.value("Image", "Image") {
            Some(v) => v,
            None => "—",
        },
        UnitKind::Build => match unit.value("Build", "ImageTag") {
            Some(v) => v,
            None => match unit.value("Build", "File") {
                Some(v) => v,
                None => "(build)",
            },
        },
        _ => "—",
    }
}

/// `N container(s)` for a pod's member count (`None` when there are no
/// members and a dash is shown instead).
pub fn members_label(n: usize) -> (r: Option<String>)
    ensures
        n == 0 ==> r is None,
        n > 0 ==> (r matches Some(s) && s@ == dec(n as nat) + if n == 1 {
            " container"@
        } else {
            " containers"@
        }),
{
    if n == 0 {
        return None;
    }
    let mut out: Vec<char> = Vec::new();
    decimal::append_decimal(&mut out, n as u64);
    if n == 1 {
        text::append_str(&mut out, " container");
    } else {
        text::append_str(&mut out, " containers");
    }
    Some(text::from_chars(out.as_slice()))
}

/// The update-check interval presets, in seconds.
pub open spec fn interval_presets() -> Seq<u64> {
    seq![3600u64, 21600u64, 43200u64, 86400u64, 604800u64]
}

/// Whether the interval field's raw value is one of the presets written
/// in decimal (otherwise the picker adds a "Custom" option for it).
pub fn is_preset_interval(current: &str) -> (r: bool)
    ensures
        r == exists|k: int| 0 <= k < 5 && #[trigger] dec(interval_presets()[k] as nat) == current@,
{
    let presets: [u64; 5] = [3600, 21600, 43200, 86400, 604800];
    assert(presets@ =~= interval_presets());
    let c = text::to_chars(current);
    let mut i: usize = 0;
    while i < 5
        invariant
            i <= 5,
            presets@ == interval_presets(),
            c@ == current@,
            forall|k: int| 0 <= k < i ==> #[trigger] dec(interval_presets()[k] as nat) != current@,
        decreases 5 - i,
    {
        let d = decimal::dec_chars(presets[i]);
        if text::chars_eq(d.as_slice(), c.as_slice()) {
            return true;
        }
        i = i + 1;
    }
    false
}


/// The two group lists every list render needs: every group directory, and
/// the subset git sync manages.
pub struct GroupLists<'a> {
    pub known: &'a [String],
    pub synced: &'a [String],
}

/// What a list cell can draw on: the row's unit and live status, and every
/// quadlet on disk (for columns that resolve cross-unit references).
pub struct RowCtx<'a> {
    pub unit: &'a QuadletUnit,
    pub status: &'a UnitStatus,
    pub all_units: &'a [QuadletUnit],
}

} // verus!
