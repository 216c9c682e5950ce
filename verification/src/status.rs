//! A unit's live systemd state as the dashboard reads it, and what the UI
//! derives from it: running/failed counts, the badge shown, and which units
//! a changed secret restarts.
use vstd::prelude::*;

use crate::kind::UnitKind;
use crate::text;
use crate::unit::QuadletUnit;

verus! {

/// The systemd view of one service.
pub struct UnitStatus {
    /// `loaded`, `not-found`, ...
    pub load_state: String,
    /// `active`, `inactive`, `failed`, `activating`, `deactivating`, ...
    pub active_state: String,
    /// `running`, `dead`, `exited`, ...
    pub sub_state: String,
    /// Whether the quadlet carries an `[Install]` section (the rootless
    /// stand-in for "enabled").
    pub autostart: bool,
}

pub open spec fn is_active_state(s: Seq<char>) -> bool {
    s == "active"@
}

pub open spec fn is_failed_state(s: Seq<char>) -> bool {
    s == "failed"@
}

impl UnitStatus {
    /// The status of a unit systemd does not know (templates, not yet
    /// generated): `not-found`, `inactive`, `dead`.
    pub fn not_found() -> (r: UnitStatus)
        ensures
            r.load_state@ == "not-found"@,
            r.active_state@ == "inactive"@,
            r.sub_state@ == "dead"@,
            !r.autostart,
    {
        UnitStatus {
            load_state: text::owned("not-found"),
            active_state: text::owned("inactive"),
            sub_state: text::owned("dead"),
            autostart: false,
        }
    }

    /// `active_state == "active"`.
    pub fn is_active(&self) -> (r: bool)
        ensures
            r == is_active_state(self.active_state@),
    {
        text::str_eq(self.active_state.as_str(), "active")
    }

    /// `active_state == "failed"`.
    pub fn is_failed(&self) -> (r: bool)
        ensures
            r == is_failed_state(self.active_state@),
    {
        text::str_eq(self.active_state.as_str(), "failed")
    }

    /// Whether the unit starts on login.
    pub fn is_autostart_enabled(&self) -> (r: bool)
        ensures
            r == self.autostart,
    {
        self.autostart
    }
}

/// The Services stat bar.
pub struct Stats {
    pub total: usize,
    pub running: usize,
    pub failed: usize,
}

/// How many statuses satisfy `p`.
pub open spec fn count_where(states: Seq<Seq<char>>, p: spec_fn(Seq<char>) -> bool) -> nat
    decreases states.len(),
{
    if states.len() == 0 {
        0
    } else {
        count_where(states.drop_last(), p) + if p(states.last()) {
            1nat
        } else {
            0nat
        }
    }
}

/// The `active_state`s of a list of `(unit, status)` rows.
pub open spec fn active_states(units: Seq<(QuadletUnit, UnitStatus)>) -> Seq<Seq<char>> {
    units.map_values(|u: (QuadletUnit, UnitStatus)| u.1.active_state@)
}

/// Total, running and failed counts of the listed units.
pub fn compute_stats(units: &[(QuadletUnit, UnitStatus)]) -> (r: Stats)
    ensures
        r.total == units@.len(),
        r.running == count_where(active_states(units@), |s: Seq<char>| is_active_state(s)),
        r.failed == count_where(active_states(units@), |s: Seq<char>| is_failed_state(s)),
{
    let ghost st = active_states(units@);
    let mut running: usize = 0;
    let mut failed: usize = 0;
    let mut i: usize = 0;
    proof {
        assert(st.take(0) =~= Seq::<Seq<char>>::empty());
    }
    while i < units.len()
        invariant
            i <= units@.len(),
            st == active_states(units@),
            running == count_where(st.take(i as int), |s: Seq<char>| is_active_state(s)),
            failed == count_where(st.take(i as int), |s: Seq<char>| is_failed_state(s)),
            running <= i,
            failed <= i,
        decreases units.len() - i,
    {
        proof {
            assert(st.take(i + 1).drop_last() =~= st.take(i as int));
            assert(st.take(i + 1).last() == units@[i as int].1.active_state@);
        }
        if units[i].1.is_active() {
            running = running + 1;
        }
        if units[i].1.is_failed() {
            failed = failed + 1;
        }
        i = i + 1;
    }
    proof {
        assert(st.take(units@.len() as int) =~= st);
    }
    Stats { total: units.len(), running, failed }
}

/// A unit is never both running and failed, so the two counts never add
/// up to more than the total.
pub proof fn lemma_running_and_failed_within_total(states: Seq<Seq<char>>)
    ensures
        count_where(states, |s: Seq<char>| is_active_state(s)) + count_where(
            states,
            |s: Seq<char>| is_failed_state(s),
        ) <= states.len(),
    decreases states.len(),
{
    if states.len() > 0 {
        lemma_running_and_failed_within_total(states.drop_last());
        let l = states.last();
        if is_active_state(l) {
            assert(!is_failed_state(l)) by {
                reveal_strlit("active");
                reveal_strlit("failed");
                assert(l[0] != "failed"@[0]);
            }
        }
    }
}

/// Whether a unit using a changed secret is restarted: running ones and
/// failed ones, never a deliberately stopped one.
pub fn should_restart(status: &UnitStatus) -> (r: bool)
    ensures
        r == (is_active_state(status.active_state@) || is_failed_state(status.active_state@)),
{
    status.is_active() || status.is_failed()
}

/// The badge variant and label of a unit's live state.
pub open spec fn status_display_of(s: UnitStatus) -> (Seq<char>, Seq<char>) {
    if is_failed_state(s.active_state@) {
        ("badge-failed"@, "Failed"@)
    } else if is_active_state(s.active_state@) {
        ("badge-running"@, "Running"@)
    } else if s.load_state@ == "not-found"@ {
        ("badge-unknown"@, "Not loaded"@)
    } else if s.active_state@ == "activating"@ {
        ("badge-stopped"@, "Starting"@)
    } else if s.active_state@ == "deactivating"@ {
        ("badge-stopped"@, "Stopping"@)
    } else {
        ("badge-stopped"@, "Stopped"@)
    }
}

/// A unit is shown as failed exactly when systemd reports it failed: a
/// `failed` unit always gets the failed badge and label, whatever else is
/// known of it, and any other unit never does. A running (`active`) unit is
/// shown as running.
pub proof fn lemma_failed_badge_iff_failed(s: UnitStatus)
    ensures
        s.active_state@ == "failed"@ ==> status_display_of(s) == ("badge-failed"@, "Failed"@),
        s.active_state@ != "failed"@ ==> status_display_of(s).0 != "badge-failed"@
            && status_display_of(s).1 != "Failed"@,
        s.active_state@ == "active"@ ==> status_display_of(s) == ("badge-running"@, "Running"@),
        s.active_state@ == "activating"@ && s.load_state@ != "not-found"@ ==> status_display_of(s)
            == ("badge-stopped"@, "Starting"@),
        s.active_state@ == "deactivating"@ && s.load_state@ != "not-found"@ ==> status_display_of(s)
            == ("badge-stopped"@, "Stopping"@),
        s.active_state@ == "inactive"@ && s.load_state@ == "loaded"@ ==> status_display_of(s) == (
            "badge-stopped"@,
            "Stopped"@,
        ),
{
    reveal_strlit("failed");
    reveal_strlit("active");
    reveal_strlit("badge-failed");
    reveal_strlit("badge-running");
    reveal_strlit("badge-unknown");
    reveal_strlit("badge-stopped");
    reveal_strlit("Failed");
    reveal_strlit("Running");
    reveal_strlit("Not loaded");
    reveal_strlit("Starting");
    reveal_strlit("Stopping");
    reveal_strlit("Stopped");
    assert("badge-failed"@[6] != "badge-running"@[6]);
    assert("badge-failed"@[6] != "badge-unknown"@[6]);
    assert("badge-failed"@[6] != "badge-stopped"@[6]);
    assert("Failed"@[0] != "Running"@[0]);
    assert("Failed"@[0] != "Not loaded"@[0]);
    assert("Failed"@[0] != "Starting"@[0]);
    assert("Failed"@[0] != "Stopping"@[0]);
    assert("Failed"@[0] != "Stopped"@[0]);
    reveal_strlit("activating");
    reveal_strlit("deactivating");
    reveal_strlit("inactive");
    reveal_strlit("loaded");
    reveal_strlit("not-found");
    assert("active"@[0] != "failed"@[0]);
    assert("activating"@[0] != "failed"@[0] && "activating"@.len() != "active"@.len());
    assert("deactivating"@[0] != "failed"@[0] && "deactivating"@[0] != "active"@[0]);
    assert("deactivating"@[0] != "activating"@[0]);
    assert("inactive"@[0] != "failed"@[0] && "inactive"@[0] != "active"@[0]);
    assert("inactive"@[0] != "activating"@[0] && "inactive"@[0] != "deactivating"@[0]);
    assert("loaded"@[0] != "not-found"@[0]);
}

/// A friendly label and `.badge-*` variant for a unit's live state.
pub fn status_display(status: &UnitStatus) -> (r: (&'static str, &'static str))
    ensures
        (r.0@, r.1@) == status_display_of(*status),
{
    if status.is_failed() {
        ("badge-failed", "Failed")
    } else if status.is_active() {
        ("badge-running", "Running")
    } else if text::str_eq(status.load_state.as_str(), "not-found") {
        ("badge-unknown", "Not loaded")
    } else if text::str_eq(status.active_state.as_str(), "activating") {
        ("badge-stopped", "Starting")
    } else if text::str_eq(status.active_state.as_str(), "deactivating") {
        ("badge-stopped", "Stopping")
    } else {
        ("badge-stopped", "Stopped")
    }
}

/// What the dashboard shows and returns after a lifecycle action: the
/// (re-read) unit and its fresh status.
pub struct ActionOutcome {
    pub unit: QuadletUnit,
    pub status: UnitStatus,
}

/// Whether a lifecycle action edits the quadlet's `[Install]` section (and
/// so changes the file on disk) rather than calling systemd directly.
pub fn action_is_autostart(action: &str) -> (r: bool)
    ensures
        r == (action@ == "enable"@ || action@ == "disable"@),
{
    text::str_eq(action, "enable") || text::str_eq(action, "disable")
}


/// The positions of the units whose kind is one of `kinds`, in order.
pub open spec fn indices_of_kinds(units: Seq<QuadletUnit>, kinds: Seq<UnitKind>, n: int) -> Seq<usize>
    decreases n,
{
    if n <= 0 || n > units.len() {
        Seq::empty()
    } else {
        let rest = indices_of_kinds(units, kinds, n - 1);
        if kinds.contains(units[n - 1].kind) {
            rest.push((n - 1) as usize)
        } else {
            rest
        }
    }
}

/// Which loaded units a section lists: those of its kinds, in disk order.
/// (A listed template gets the `not_found` status instead of a query.)
pub fn units_of_kinds(all: &[QuadletUnit], kinds: &[UnitKind]) -> (r: Vec<usize>)
    ensures
        r@ == indices_of_kinds(all@, kinds@, all@.len() as int),
{
    let mut out: Vec<usize> = Vec::new();
    let mut i: usize = 0;
    while i < all.len()
        invariant
            i <= all@.len(),
            out@ == indices_of_kinds(all@, kinds@, i as int),
        decreases all.len() - i,
    {
        let mut found = false;
        let mut j: usize = 0;
        while j < kinds.len()
            invariant
                j <= kinds@.len(),
                i < all@.len(),
                found == exists|k: int| 0 <= k < j && kinds@[k] == all@[i as int].kind,
            decreases kinds.len() - j,
        {
            if kinds[j] == all[i].kind {
                found = true;
            }
            j = j + 1;
        }
        proof {
            if kinds@.contains(all@[i as int].kind) {
                let k = choose|k: int| 0 <= k < kinds@.len() && kinds@[k] == all@[i as int].kind;
                assert(found);
            }
        }
        if found {
            out.push(i);
        }
        i = i + 1;
    }
    out
}

} // verus!
