//! The Git Sync page: adding, editing and removing group-directory syncs and
//! driving their "Sync now" / "Force resync" actions.
use vstd::prelude::*;

use crate::decimal::{parse_u64_chars, parse_u64_spec};
use crate::groups::{chars_have_dir_prefix, lands_in};
use crate::text::{self, trim};

verus! {

/// "Add sync".
pub struct AddForm {
    pub csrf_token: String,
    pub group: String,
    pub remote: String,
    pub branch: String,
    pub poll_interval_secs: String,
}

/// A sync card's "Edit" disclosure.
pub struct EditForm {
    pub csrf_token: String,
    pub group: String,
    pub remote: String,
    pub branch: String,
    pub poll_interval_secs: String,
}

/// "Sync now" / "Force resync".
pub struct GroupForm {
    pub csrf_token: String,
    pub group: String,
}

/// "Remove sync", optionally deleting the group's files too.
pub struct DeleteForm {
    pub csrf_token: String,
    pub group: String,
    pub delete_files: Option<String>,
}

/// The add form's values, kept as typed so a rejected submission
/// redisplays unchanged.
pub struct AddFormValues {
    pub group: String,
    pub remote: String,
    pub branch: String,
    pub poll_interval_secs: String,
}

impl AddFormValues {
    /// The values a fresh add form starts from: everything blank, polling
    /// every 60 seconds.
    pub fn blank() -> (r: AddFormValues)
        ensures
            r.group@.len() == 0,
            r.remote@.len() == 0,
            r.branch@.len() == 0,
            r.poll_interval_secs@ == "60"@,
    {
        AddFormValues {
            group: String::new(),
            remote: String::new(),
            branch: String::new(),
            poll_interval_secs: text::owned("60"),
        }
    }

    /// The add form's values as submitted.
    pub fn from_form(form: &AddForm) -> (r: AddFormValues)
        ensures
            r.group@ == form.group@,
            r.remote@ == form.remote@,
            r.branch@ == form.branch@,
            r.poll_interval_secs@ == form.poll_interval_secs@,
    {
        AddFormValues {
            group: text::owned(form.group.as_str()),
            remote: text::owned(form.remote.as_str()),
            branch: text::owned(form.branch.as_str()),
            poll_interval_secs: text::owned(form.poll_interval_secs.as_str()),
        }
    }
}

impl Default for AddFormValues {
    fn default() -> (r: AddFormValues)
        ensures
            r.group@.len() == 0,
            r.remote@.len() == 0,
            r.branch@.len() == 0,
            r.poll_interval_secs@ == "60"@,
    {
        AddFormValues::blank()
    }
}

/// Why a poll interval was refused.
#[derive(Clone, Copy, Debug, PartialEq, Eq, Structural)]
pub enum PollIntervalError {
    /// Not a whole number of seconds (after trimming).
    NotANumber,
    /// Zero.
    Zero,
}

/// What a poll-interval field holds: its trimmed text read as a `u64`, and
/// at least 1.
pub open spec fn poll_interval_of(raw: Seq<char>) -> Result<u64, PollIntervalError> {
    match parse_u64_spec(trim(raw)) {
        None => Err(PollIntervalError::NotANumber),
        Some(v) => if v == 0 {
            Err(PollIntervalError::Zero)
        } else {
            Ok(v)
        },
    }
}

/// The poll interval a form field asks for.
pub fn parse_poll_interval(raw: &str) -> (r: Result<u64, PollIntervalError>)
    ensures
        r == poll_interval_of(raw@),
{
    let v = text::to_chars(raw);
    let t = text::trim_chars(v.as_slice());
    match parse_u64_chars(t.as_slice()) {
        None => Err(PollIntervalError::NotANumber),
        Some(n) => if n == 0 {
            Err(PollIntervalError::Zero)
        } else {
            Ok(n)
        },
    }
}

impl PollIntervalError {
    /// How the add form reports it.
    pub fn add_message(self) -> (r: &'static str)
        ensures
            r@ == match self {
                PollIntervalError::NotANumber => "Poll interval must be a whole number of seconds"@,
                PollIntervalError::Zero => "Poll interval must be at least 1 second"@,
            },
    {
        match self {
            PollIntervalError::NotANumber => "Poll interval must be a whole number of seconds",
            PollIntervalError::Zero => "Poll interval must be at least 1 second",
        }
    }

    /// How the edit disclosure reports it.
    pub fn edit_message(self) -> (r: &'static str)
        ensures
            r@ == match self {
                PollIntervalError::NotANumber => "poll interval must be a whole number"@,
                PollIntervalError::Zero => "poll interval must be at least 1 second"@,
            },
    {
        match self {
            PollIntervalError::NotANumber => "poll interval must be a whole number",
            PollIntervalError::Zero => "poll interval must be at least 1 second",
        }
    }
}

/// A blank (after trimming) branch field means "the remote's default
/// branch".
pub fn branch_choice(raw: &str) -> (r: Option<String>)
    ensures
        trim(raw@).len() == 0 ==> r is None,
        trim(raw@).len() > 0 ==> (r matches Some(b) && b@ == trim(raw@)),
{
    let b = text::trim_str(raw);
    if b.as_str().unicode_len() == 0 {
        None
    } else {
        Some(b)
    }
}

/// Whether a unit filed under `unit_group` belongs to the sync of
/// `sync_group`: the synced directory itself or anything below it.
pub fn in_sync_group(unit_group: &str, sync_group: &str) -> (r: bool)
    ensures
        r == lands_in(sync_group@, unit_group@),
{
    let u = text::to_chars(unit_group);
    let s = text::to_chars(sync_group);
    text::chars_eq(u.as_slice(), s.as_slice()) || chars_have_dir_prefix(u.as_slice(), s.as_slice())
}

} // verus!
