//! The host environment page: the variables a quadlet file can reference as
//! `${NAME}`, kept in an `environment.d` drop-in and pushed to the running
//! manager.
use vstd::prelude::*;

use crate::text::{self, trim};

verus! {

/// The flash flags a successful change redirects with: `?set=1` or
/// `?unset=1`, plus `&live=0` when the file was written but the push to the
/// running manager failed.
pub struct FlashQuery {
    pub set: Option<u8>,
    pub unset: Option<u8>,
    pub live: Option<u8>,
}

pub open spec fn saved_not_live() -> Seq<char> {
    "Saved to the environment.d drop-in. It could not be applied to the running manager — it will take effect on your next login."@
}

pub open spec fn removed_not_live() -> Seq<char> {
    "Removed from the environment.d drop-in. The running manager still has it — it clears on your next login."@
}

/// The notice a flash query shows: a failed live push wins over the plain
/// confirmation, and `set` wins over `unset`.
pub open spec fn flash_notice_of(q: FlashQuery) -> Option<Seq<char>> {
    if q.set is Some && q.live == Some(0u8) {
        Some(saved_not_live())
    } else if q.unset is Some && q.live == Some(0u8) {
        Some(removed_not_live())
    } else if q.set is Some {
        Some("Variable set."@)
    } else if q.unset is Some {
        Some("Variable removed."@)
    } else {
        None
    }
}

impl FlashQuery {
    /// The notice shown at the top of the page.
    pub fn notice(&self) -> (r: Option<&'static str>)
        ensures
            match (r, flash_notice_of(*self)) {
                (Some(a), Some(b)) => a@ == b,
                (None, None) => true,
                _ => false,
            },
    {
        let live_failed = match self.live {
            Some(l) => l == 0,
            None => false,
        };
        if self.set.is_some() && live_failed {
            Some(
                "Saved to the environment.d drop-in. It could not be applied to the running manager — it will take effect on your next login.",
            )
        } else if self.unset.is_some() && live_failed {
            Some(
                "Removed from the environment.d drop-in. The running manager still has it — it clears on your next login.",
            )
        } else if self.set.is_some() {
            Some("Variable set.")
        } else if self.unset.is_some() {
            Some("Variable removed.")
        } else {
            None
        }
    }
}

/// "Add variable".
pub struct AddForm {
    pub csrf_token: String,
    pub name: String,
    pub value: String,
}

/// "Remove" on a managed variable.
pub struct RemoveForm {
    pub csrf_token: String,
    pub name: String,
}

/// ASCII letter or underscore.
pub open spec fn is_name_start(c: char) -> bool {
    ('a' <= c && c <= 'z') || ('A' <= c && c <= 'Z') || c == '_'
}

/// ASCII letter, digit or underscore.
pub open spec fn is_name_rest(c: char) -> bool {
    is_name_start(c) || ('0' <= c && c <= '9')
}

/// A variable name: a letter or underscore, then letters, digits and
/// underscores.
pub open spec fn valid_env_name_spec(name: Seq<char>) -> bool {
    name.len() > 0 && is_name_start(name[0]) && forall|i: int|
        1 <= i < name.len() ==> is_name_rest(#[trigger] name[i])
}

/// A value: a single line (no line break of either kind).
pub open spec fn valid_env_value_spec(value: Seq<char>) -> bool {
    forall|i: int| 0 <= i < value.len() ==> #[trigger] value[i] != '\n' && value[i] != '\r'
}

/// Whether `name` may be written as a variable name.
pub fn valid_env_name(name: &str) -> (r: bool)
    ensures
        r == valid_env_name_spec(name@),
{
    let v = text::to_chars(name);
    if v.len() == 0 {
        return false;
    }
    let c0 = v[0];
    if !(('a' <= c0 && c0 <= 'z') || ('A' <= c0 && c0 <= 'Z') || c0 == '_') {
        return false;
    }
    let mut i: usize = 1;
    while i < v.len()
        invariant
            1 <= i <= v@.len(),
            v@ == name@,
            is_name_start(v@[0]),
            forall|j: int| 1 <= j < i ==> is_name_rest(#[trigger] v@[j]),
        decreases v.len() - i,
    {
        let c = v[i];
        if !(('a' <= c && c <= 'z') || ('A' <= c && c <= 'Z') || c == '_' || ('0' <= c && c
            <= '9')) {
            return false;
        }
        i = i + 1;
    }
    true
}

/// Whether `value` is a single line.
pub fn valid_env_value(value: &str) -> (r: bool)
    ensures
        r == valid_env_value_spec(value@),
{
    let v = text::to_chars(value);
    let mut i: usize = 0;
    while i < v.len()
        invariant
            i <= v@.len(),
            v@ == value@,
            forall|j: int| 0 <= j < i ==> #[trigger] v@[j] != '\n' && v@[j] != '\r',
        decreases v.len() - i,
    {
        if v[i] == '\n' || v[i] == '\r' {
            return false;
        }
        i = i + 1;
    }
    true
}

pub open spec fn bad_name_message() -> Seq<char> {
    "Name must start with a letter or underscore and contain only letters, digits, and underscores."@
}

pub open spec fn bad_value_message() -> Seq<char> {
    "Value must be a single line."@
}

/// What "Add variable" stores: the trimmed name and the value as given; or
/// the message the form is redisplayed with (name checked first).
pub fn check_add(name: &str, value: &str) -> (r: Result<String, &'static str>)
    ensures
        match r {
            Ok(n) => n@ == trim(name@) && valid_env_name_spec(trim(name@))
                && valid_env_value_spec(value@),
            Err(m) => if !valid_env_name_spec(trim(name@)) {
                m@ == bad_name_message()
            } else {
                !valid_env_value_spec(value@) && m@ == bad_value_message()
            },
        },
{
    let n = text::trim_str(name);
    if !valid_env_name(n.as_str()) {
        return Err(
            "Name must start with a letter or underscore and contain only letters, digits, and underscores.",
        );
    }
    if !valid_env_value(value) {
        return Err("Value must be a single line.");
    }
    Ok(n)
}

/// Where a change redirects: the flash flag of the action, and `&live=0`
/// when the push to the running manager failed. Any action other than
/// `set` reports as a removal.
pub fn redirect_target(action: &str, live_ok: bool) -> (r: &'static str)
    ensures
        r@ == if action@ == "set"@ {
            if live_ok {
                "/environment?set=1"@
            } else {
                "/environment?set=1&live=0"@
            }
        } else if live_ok && action@ == "unset"@ {
            "/environment?unset=1"@
        } else {
            "/environment?unset=1&live=0"@
        },
{
    if text::str_eq(action, "set") {
        if live_ok {
            "/environment?set=1"
        } else {
            "/environment?set=1&live=0"
        }
    } else if live_ok && text::str_eq(action, "unset") {
        "/environment?unset=1"
    } else {
        "/environment?unset=1&live=0"
    }
}

} // verus!
