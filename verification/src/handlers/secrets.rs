//! The Secrets page: podman secrets, the units that consume each one, and
//! restarting those units after a change.
use vstd::prelude::*;

use crate::groups::strings_view;
use crate::status::{is_active_state, is_failed_state, should_restart, UnitStatus};
use crate::text;

verus! {

/// `?set=<name>` / `?replaced=<name>` / `?removed=<name>` after a successful
/// change.
pub struct FlashQuery {
    pub set: Option<String>,
    pub replaced: Option<String>,
    pub removed: Option<String>,
}

/// Which confirmation a secrets page shows after a change.
pub enum SecretNotice {
    Replaced(String),
    Saved(String),
    Deleted(String),
}

impl FlashQuery {
    /// The confirmation to show: a replacement wins over a save, which wins
    /// over a deletion.
    pub fn notice(&self) -> (r: Option<SecretNotice>)
        ensures
            match (&self.replaced, &self.set, &self.removed) {
                (Some(n), _, _) => r matches Some(SecretNotice::Replaced(x)) && x@ == n@,
                (None, Some(n), _) => r matches Some(SecretNotice::Saved(x)) && x@ == n@,
                (None, None, Some(n)) => r matches Some(SecretNotice::Deleted(x)) && x@ == n@,
                (None, None, None) => r is None,
            },
    {
        match (&self.replaced, &self.set, &self.removed) {
            (Some(n), _, _) => Some(SecretNotice::Replaced(text::owned(n.as_str()))),
            (None, Some(n), _) => Some(SecretNotice::Saved(text::owned(n.as_str()))),
            (None, None, Some(n)) => Some(SecretNotice::Deleted(text::owned(n.as_str()))),
            (None, None, None) => None,
        }
    }
}

/// "Save secret".
pub struct SetForm {
    pub csrf_token: String,
    pub name: String,
    pub value: String,
    /// Present when replacing an existing secret.
    pub replace: Option<String>,
    /// Checkbox: restart the units using the secret once it is saved.
    pub restart: Option<String>,
}

/// "Delete".
pub struct RemoveForm {
    pub csrf_token: String,
    pub name: String,
}

/// "Restart N units" and "Show".
pub struct NameForm {
    pub csrf_token: String,
    pub name: String,
}

/// A submitted value with every CRLF turned into LF (browsers submit a
/// textarea's line breaks as CRLF). Nothing else changes: a lone CR and
/// surrounding whitespace stay.
pub open spec fn crlf_to_lf(s: Seq<char>) -> Seq<char>
    decreases s.len(),
{
    if s.len() == 0 {
        s
    } else if s.len() >= 2 && s[0] == '\r' && s[1] == '\n' {
        seq!['\n'] + crlf_to_lf(s.skip(2))
    } else {
        seq![s[0]] + crlf_to_lf(s.skip(1))
    }
}

/// The secret value to store for what the form submitted.
pub fn normalize_value(raw: &str) -> (r: String)
    ensures
        r@ == crlf_to_lf(raw@),
{
    let v = text::to_chars(raw);
    let mut out: Vec<char> = Vec::new();
    let mut i: usize = 0;
    proof {
        assert(v@.skip(0) =~= v@);
        assert(out@ + crlf_to_lf(v@.skip(0)) =~= crlf_to_lf(v@));
    }
    while i < v.len()
        invariant
            i <= v@.len(),
            v@ == raw@,
            out@ + crlf_to_lf(v@.skip(i as int)) == crlf_to_lf(v@),
        decreases v.len() - i,
    {
        let ghost rest = v@.skip(i as int);
        if i + 1 < v.len() && v[i] == '\r' && v[i + 1] == '\n' {
            assert(rest[0] == '\r' && rest[1] == '\n');
            assert(rest.skip(2) =~= v@.skip(i + 2));
            out.push('\n');
            i = i + 2;
            assert(out@ + crlf_to_lf(v@.skip(i as int)) =~= crlf_to_lf(v@));
        } else {
            assert(rest[0] == v@[i as int]);
            assert(!(rest.len() >= 2 && rest[0] == '\r' && rest[1] == '\n'));
            assert(rest.skip(1) =~= v@.skip(i + 1));
            out.push(v[i]);
            i = i + 1;
            assert(out@ + crlf_to_lf(v@.skip(i as int)) =~= crlf_to_lf(v@));
        }
    }
    assert(v@.skip(i as int) =~= Seq::<char>::empty());
    assert(out@ =~= crlf_to_lf(v@));
    text::from_chars(out.as_slice())
}

/// Where a saved secret redirects: `replaced` or `set`, with the name.
pub fn saved_redirect(name: &str, replace: bool) -> (r: String)
    ensures
        r@ == (if replace {
            "/secrets?replaced="@
        } else {
            "/secrets?set="@
        }) + name@,
{
    let mut out = if replace {
        text::to_chars("/secrets?replaced=")
    } else {
        text::to_chars("/secrets?set=")
    };
    text::append_str(&mut out, name);
    text::from_chars(out.as_slice())
}

/// Where a deleted secret redirects.
pub fn removed_redirect(name: &str) -> (r: String)
    ensures
        r@ == "/secrets?removed="@ + name@,
{
    let mut out = text::to_chars("/secrets?removed=");
    text::append_str(&mut out, name);
    text::from_chars(out.as_slice())
}

/// The items of `v` separated by `", "`.
pub open spec fn comma_joined(v: Seq<Seq<char>>) -> Seq<char>
    decreases v.len(),
{
    if v.len() == 0 {
        Seq::empty()
    } else if v.len() == 1 {
        v[0]
    } else {
        comma_joined(v.drop_last()) + ", "@ + v.last()
    }
}

/// Joins names with `", "`.
pub fn join_names(names: &[String]) -> (r: String)
    ensures
        r@ == comma_joined(strings_view(names@)),
{
    let ghost all = strings_view(names@);
    let mut out: Vec<char> = Vec::new();
    let mut i: usize = 0;
    while i < names.len()
        invariant
            i <= names@.len(),
            all == strings_view(names@),
            out@ == comma_joined(all.take(i as int)),
        decreases names.len() - i,
    {
        proof {
            assert(all.take(i + 1).drop_last() =~= all.take(i as int));
            assert(all.take(i + 1).last() == names@[i as int]@);
        }
        if i > 0 {
            text::append_str(&mut out, ", ");
        }
        text::append_str(&mut out, names[i].as_str());
        proof {
            reveal_strlit(", ");
            if i == 0 {
                assert(out@ =~= comma_joined(all.take(1)));
            } else {
                assert(out@ =~= comma_joined(all.take(i + 1)));
            }
        }
        i = i + 1;
    }
    assert(all.take(i as int) =~= all);
    text::from_chars(out.as_slice())
}

/// Why a secret cannot be deleted while units still use it.
pub open spec fn in_use_message_of(name: Seq<char>, users: Seq<Seq<char>>) -> Seq<char> {
    "'"@ + name + "' is still referenced by "@ + comma_joined(users)
        + " — remove those Secret= lines first."@
}

/// The refusal shown when deleting a secret that `users` still reference.
pub fn in_use_message(name: &str, users: &[String]) -> (r: String)
    ensures
        r@ == in_use_message_of(name@, strings_view(users@)),
{
    let mut out = text::to_chars("'");
    text::append_str(&mut out, name);
    text::append_str(&mut out, "' is still referenced by ");
    let joined = join_names(users);
    text::append_str(&mut out, joined.as_str());
    text::append_str(&mut out, " — remove those Secret= lines first.");
    text::from_chars(out.as_slice())
}

/// Whether deleting secret `name` is refused: while any unit still uses it
/// (`users`), with the message naming them, so no unit is left that can no
/// longer start.
pub fn removal_refusal(name: &str, users: &[String]) -> (r: Option<String>)
    ensures
        users@.len() == 0 ==> r is None,
        users@.len() > 0 ==> (r matches Some(m) && m@ == in_use_message_of(
            name@,
            strings_view(users@),
        )),
{
    if users.len() == 0 {
        None
    } else {
        Some(in_use_message(name, users))
    }
}

/// What restarting a secret's consumers did, per unit file name.
pub struct RestartReport {
    pub secret: String,
    pub restarted: Vec<String>,
    /// Deliberately stopped units, left alone.
    pub skipped: Vec<String>,
    pub failed: Vec<String>,
}

impl RestartReport {
    /// The report before any unit was looked at.
    pub fn new(secret: &str) -> (r: RestartReport)
        ensures
            r.secret@ == secret@,
            r.restarted@.len() == 0,
            r.skipped@.len() == 0,
            r.failed@.len() == 0,
    {
        RestartReport {
            secret: text::owned(secret),
            restarted: Vec::new(),
            skipped: Vec::new(),
            failed: Vec::new(),
        }
    }

    /// Records the status read for one consumer (`None`: the read failed)
    /// and says whether to restart it now: a failed read lands in `failed`,
    /// a stopped unit in `skipped`, and a running or failed unit is to be
    /// restarted (recorded by [`RestartReport::after_restart`]).
    pub fn after_status(&mut self, file_name: &str, status: Option<&UnitStatus>) -> (restart: bool)
        ensures
            restart == match status {
                Some(s) => is_active_state(s.active_state@) || is_failed_state(s.active_state@),
                None => false,
            },
            final(self).secret@ == old(self).secret@,
            strings_view(final(self).restarted@) == strings_view(old(self).restarted@),
            strings_view(final(self).skipped@) == if status is Some && !restart {
                strings_view(old(self).skipped@).push(file_name@)
            } else {
                strings_view(old(self).skipped@)
            },
            strings_view(final(self).failed@) == if status is None {
                strings_view(old(self).failed@).push(file_name@)
            } else {
                strings_view(old(self).failed@)
            },
    {
        match status {
            None => {
                self.failed.push(text::owned(file_name));
                proof {
                    assert(strings_view(self.failed@) =~= strings_view(old(self).failed@).push(
                        file_name@,
                    ));
                }
                false
            },
            Some(s) => {
                if should_restart(s) {
                    true
                } else {
                    self.skipped.push(text::owned(file_name));
                    proof {
                        assert(strings_view(self.skipped@) =~= strings_view(
                            old(self).skipped@,
                        ).push(file_name@));
                    }
                    false
                }
            },
        }
    }

    /// Records the outcome of restarting one consumer.
    pub fn after_restart(&mut self, file_name: &str, ok: bool)
        ensures
            final(self).secret@ == old(self).secret@,
            strings_view(final(self).skipped@) == strings_view(old(self).skipped@),
            strings_view(final(self).restarted@) == if ok {
                strings_view(old(self).restarted@).push(file_name@)
            } else {
                strings_view(old(self).restarted@)
            },
            strings_view(final(self).failed@) == if ok {
                strings_view(old(self).failed@)
            } else {
                strings_view(old(self).failed@).push(file_name@)
            },
    {
        if ok {
            self.restarted.push(text::owned(file_name));
            proof {
                assert(strings_view(self.restarted@) =~= strings_view(old(self).restarted@).push(
                    file_name@,
                ));
            }
        } else {
            self.failed.push(text::owned(file_name));
            proof {
                assert(strings_view(self.failed@) =~= strings_view(old(self).failed@).push(
                    file_name@,
                ));
            }
        }
    }

    /// No unit uses the secret (nothing was restarted, skipped or failed).
    pub fn is_empty(&self) -> (r: bool)
        ensures
            r == (self.restarted@.len() == 0 && self.skipped@.len() == 0 && self.failed@.len()
                == 0),
    {
        self.restarted.len() == 0 && self.skipped.len() == 0 && self.failed.len() == 0
    }
}

/// What the secrets page shows, decided from the secret listing, the flash
/// query and the restart report that the session held.
pub struct SecretsPagePlan {
    /// The stored secrets' names; none when the listing failed.
    pub stored: Vec<String>,
    /// Whether references to secrets that do not exist are reported: only
    /// when the listing worked, else every reference would look missing.
    pub report_missing: bool,
    /// The confirmation of the last change.
    pub notice: Option<SecretNotice>,
    /// Whether the replacement confirmation offers to restart the units
    /// that use the secret.
    pub offer_restart: bool,
    /// Whether the summary of a restart is shown (after the confirmation,
    /// when there is one).
    pub show_restart_summary: bool,
    /// The error banner: the page's own error, else the listing's.
    pub error: Option<String>,
}

/// The banner shown when listing the secrets failed with `e`.
pub open spec fn list_error_of(e: Seq<char>) -> Seq<char> {
    "Could not list podman secrets: "@ + e
}

/// Plans the secrets page. `listing` is what listing the secrets gave
/// (their names, or the failure's text), `error` the page's own error,
/// `replaced_users` how many units use a secret that was just replaced,
/// and `has_report` whether a restart report is waiting to be shown.
pub fn plan_secrets_page(
    listing: Result<Vec<String>, String>,
    error: Option<&str>,
    notice: Option<SecretNotice>,
    replaced_users: usize,
    has_report: bool,
) -> (r: SecretsPagePlan)
    ensures
        match listing {
            Ok(v) => {
                &&& r.stored@ == v@
                &&& r.report_missing
                &&& match error {
                    Some(e) => r.error matches Some(x) && x@ == e@,
                    None => r.error is None,
                }
            },
            Err(e) => {
                &&& r.stored@.len() == 0
                &&& !r.report_missing
                &&& match error {
                    Some(e0) => r.error matches Some(x) && x@ == e0@,
                    None => r.error matches Some(x) && x@ == list_error_of(e@),
                }
            },
        },
        r.notice == notice,
        r.offer_restart == (notice matches Some(SecretNotice::Replaced(_)) && replaced_users > 0
            && !has_report),
        r.show_restart_summary == has_report,
{
    let offer_restart = match &notice {
        Some(SecretNotice::Replaced(_)) => replaced_users > 0 && !has_report,
        _ => false,
    };
    let (stored, report_missing, list_error) = match listing {
        Ok(v) => (v, true, None),
        Err(e) => {
            let mut out = text::to_chars("Could not list podman secrets: ");
            text::append_str(&mut out, e.as_str());
            (Vec::new(), false, Some(text::from_chars(out.as_slice())))
        },
    };
    let error = match error {
        Some(e) => Some(text::owned(e)),
        None => list_error,
    };
    SecretsPagePlan {
        stored,
        report_missing,
        notice,
        offer_restart,
        show_restart_summary: has_report,
        error,
    }
}

} // verus!
