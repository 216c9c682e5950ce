//! The lifecycle, auto-update and controls fragments mounted under every
//! section's URL prefix.
use vstd::prelude::*;

use crate::kind::UnitKind;
use crate::nav::unit_subroutes;
use crate::text;
use crate::unit::{unit_value, QuadletUnit};

verus! {

/// The form every lifecycle action posts.
pub struct ActionForm {
    pub csrf_token: String,
}

/// The container auto-update `<select>`: `registry` and `local` set the
/// policy; `off` or anything unrecognised clears it.
pub struct AutoUpdateForm {
    pub csrf_token: String,
    pub mode: String,
}

/// `?style=menu` asks for the kebab's forms only.
pub struct ActionsQuery {
    pub style: Option<String>,
}

impl ActionsQuery {
    /// Whether the kebab-menu shape was asked for.
    pub fn is_menu(&self) -> (r: bool)
        ensures
            r == (self.style matches Some(s) && s@ == "menu"@),
    {
        match &self.style {
            Some(s) => text::str_eq(s.as_str(), "menu"),
            None => false,
        }
    }
}

/// A container's `AutoUpdate=` policy.
#[derive(Clone, Copy, Debug, PartialEq, Eq, Structural)]
pub enum AutoUpdateMode {
    /// Pull a newer image from the registry.
    Registry,
    /// Restart when a locally built image changed.
    Local,
}

pub open spec fn autoupdate_mode_of(s: Seq<char>) -> Option<AutoUpdateMode> {
    if s == "registry"@ {
        Some(AutoUpdateMode::Registry)
    } else if s == "local"@ {
        Some(AutoUpdateMode::Local)
    } else {
        None
    }
}

impl AutoUpdateMode {
    /// The policy a value names; `None` clears it.
    pub fn parse(s: &str) -> (r: Option<AutoUpdateMode>)
        ensures
            r == autoupdate_mode_of(s@),
    {
        if text::str_eq(s, "registry") {
            Some(AutoUpdateMode::Registry)
        } else if text::str_eq(s, "local") {
            Some(AutoUpdateMode::Local)
        } else {
            None
        }
    }

    /// The value written to `AutoUpdate=`.
    pub fn as_str(self) -> (r: &'static str)
        ensures
            r@ == match self {
                AutoUpdateMode::Registry => "registry"@,
                AutoUpdateMode::Local => "local"@,
            },
    {
        match self {
            AutoUpdateMode::Registry => "registry",
            AutoUpdateMode::Local => "local",
        }
    }
}

/// A container's current policy as its `[Container]` section states it
/// (`None`: off, absent or unrecognised).
pub fn autoupdate_mode(unit: &QuadletUnit) -> (r: Option<AutoUpdateMode>)
    ensures
        r == match unit_value(unit@, "Container"@, "AutoUpdate"@) {
            Some(v) => autoupdate_mode_of(v),
            None => None,
        },
{
    match unit.value("Container", "AutoUpdate") {
        Some(v) => AutoUpdateMode::parse(v),
        None => None,
    }
}


/// The five lifecycle actions every section mounts.
#[derive(Clone, Copy, Debug, PartialEq, Eq, Structural)]
pub enum UnitAction {
    Start,
    Stop,
    Restart,
    /// Adds the managed `[Install]` section (the rootless "enable").
    Enable,
    /// Removes it.
    Disable,
}

pub open spec fn unit_action_of(s: Seq<char>) -> Option<UnitAction> {
    if s == "start"@ {
        Some(UnitAction::Start)
    } else if s == "stop"@ {
        Some(UnitAction::Stop)
    } else if s == "restart"@ {
        Some(UnitAction::Restart)
    } else if s == "enable"@ {
        Some(UnitAction::Enable)
    } else if s == "disable"@ {
        Some(UnitAction::Disable)
    } else {
        None
    }
}

/// The route name of an action.
pub open spec fn action_name_of(a: UnitAction) -> Seq<char> {
    match a {
        UnitAction::Start => "start"@,
        UnitAction::Stop => "stop"@,
        UnitAction::Restart => "restart"@,
        UnitAction::Enable => "enable"@,
        UnitAction::Disable => "disable"@,
    }
}

/// Reading an action's route name back gives the action, and the route
/// is one of those mounted under every unit: each lifecycle button posts
/// to a served URL that dispatches to the action it shows.
pub proof fn lemma_action_routes_are_mounted(a: UnitAction)
    ensures
        unit_action_of(action_name_of(a)) == Some(a),
        unit_subroutes().contains(seq!['/'] + action_name_of(a)),
{
    reveal_strlit("start");
    reveal_strlit("stop");
    reveal_strlit("restart");
    reveal_strlit("enable");
    reveal_strlit("disable");
    reveal_strlit("/start");
    reveal_strlit("/stop");
    reveal_strlit("/restart");
    reveal_strlit("/enable");
    reveal_strlit("/disable");
    let r = unit_subroutes();
    assert("start"@.len() == 5 && "stop"@.len() == 4 && "restart"@.len() == 7);
    assert("enable"@.len() == 6 && "disable"@.len() == 7);
    assert("disable"@[0] != "restart"@[0]);
    match a {
        UnitAction::Start => {
            assert(r[3] =~= seq!['/'] + action_name_of(a));
        },
        UnitAction::Stop => {
            assert("stop"@ != "start"@);
            assert(r[4] =~= seq!['/'] + action_name_of(a));
        },
        UnitAction::Restart => {
            assert("restart"@ != "start"@);
            assert("restart"@ != "stop"@);
            assert(r[5] =~= seq!['/'] + action_name_of(a));
        },
        UnitAction::Enable => {
            assert("enable"@ != "start"@);
            assert("enable"@ != "stop"@);
            assert("enable"@ != "restart"@);
            assert(r[6] =~= seq!['/'] + action_name_of(a));
        },
        UnitAction::Disable => {
            assert("disable"@ != "start"@);
            assert("disable"@ != "stop"@);
            assert("disable"@ != "restart"@);
            assert("disable"@ != "enable"@);
            assert(r[7] =~= seq!['/'] + action_name_of(a));
        },
    }
}

/// Each route name dispatches to the action of that name, and no other
/// name dispatches at all: `start` starts, `stop` stops, `restart`
/// restarts, `enable` and `disable` add and remove the `[Install]`
/// section; an action's route name is its own name.
pub proof fn lemma_routes_name_their_actions(s: Seq<char>)
    ensures
        unit_action_of("start"@) == Some(UnitAction::Start),
        unit_action_of("stop"@) == Some(UnitAction::Stop),
        unit_action_of("restart"@) == Some(UnitAction::Restart),
        unit_action_of("enable"@) == Some(UnitAction::Enable),
        unit_action_of("disable"@) == Some(UnitAction::Disable),
        action_name_of(UnitAction::Start) == "start"@,
        action_name_of(UnitAction::Stop) == "stop"@,
        action_name_of(UnitAction::Restart) == "restart"@,
        action_name_of(UnitAction::Enable) == "enable"@,
        action_name_of(UnitAction::Disable) == "disable"@,
        unit_action_of(s) is Some <==> (s == "start"@ || s == "stop"@ || s == "restart"@ || s
            == "enable"@ || s == "disable"@),
        forall|a: UnitAction| #[trigger] unit_action_of(s) == Some(a) ==> s == action_name_of(a),
{
    reveal_strlit("start");
    reveal_strlit("stop");
    reveal_strlit("restart");
    reveal_strlit("enable");
    reveal_strlit("disable");
    assert("start"@.len() == 5 && "stop"@.len() == 4 && "restart"@.len() == 7);
    assert("enable"@.len() == 6 && "disable"@.len() == 7);
    assert("stop"@ != "start"@);
    assert("restart"@ != "start"@ && "restart"@ != "stop"@);
    assert("enable"@ != "start"@ && "enable"@ != "stop"@ && "enable"@ != "restart"@);
    assert("disable"@[0] != "restart"@[0]);
    assert("disable"@ != "start"@ && "disable"@ != "stop"@ && "disable"@ != "enable"@);
}

impl UnitAction {
    /// The action a route name names.
    pub fn from_route(action: &str) -> (r: Option<UnitAction>)
        ensures
            r == unit_action_of(action@),
    {
        if text::str_eq(action, "start") {
            Some(UnitAction::Start)
        } else if text::str_eq(action, "stop") {
            Some(UnitAction::Stop)
        } else if text::str_eq(action, "restart") {
            Some(UnitAction::Restart)
        } else if text::str_eq(action, "enable") {
            Some(UnitAction::Enable)
        } else if text::str_eq(action, "disable") {
            Some(UnitAction::Disable)
        } else {
            None
        }
    }

    /// The route name.
    pub fn as_str(self) -> (r: &'static str)
        ensures
            r@ == action_name_of(self),
    {
        match self {
            UnitAction::Start => "start",
            UnitAction::Stop => "stop",
            UnitAction::Restart => "restart",
            UnitAction::Enable => "enable",
            UnitAction::Disable => "disable",
        }
    }

    /// Whether the action edits the quadlet file (and so is followed by a
    /// re-read of the unit) rather than calling systemd.
    pub fn is_autostart(self) -> (r: bool)
        ensures
            r == (self == UnitAction::Enable || self == UnitAction::Disable),
    {
        match self {
            UnitAction::Enable | UnitAction::Disable => true,
            _ => false,
        }
    }
}

/// Auto-update is a `[Container]` key: any other kind is refused.
pub fn check_autoupdate_kind(kind: UnitKind) -> (r: Result<(), &'static str>)
    ensures
        kind == UnitKind::Container ==> r is Ok,
        kind != UnitKind::Container ==> (r matches Err(m) && m@
            == "auto-update is a container-only setting"@),
{
    match kind {
        UnitKind::Container => Ok(()),
        _ => Err("auto-update is a container-only setting"),
    }
}

} // verus!
