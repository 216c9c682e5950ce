//! Where every unit's pages live: the section URL prefix of each kind, the
//! list page to land on after a delete, the sidebar item to highlight, and
//! the "Back to …" target. One place turns a unit into a URL.
use vstd::prelude::*;

use crate::kind::{all_kinds, extension_of, kind_of, kind_of_name, UnitKind};
use crate::text;
use crate::unit::{QuadletUnit, UnitView};

verus! {

/// The URL prefix of each kind's pages.
pub open spec fn section_path_of(k: UnitKind) -> Seq<char> {
    match k {
        UnitKind::Container => "/containers"@,
        UnitKind::Pod => "/pods"@,
        UnitKind::Volume => "/volumes"@,
        UnitKind::Network => "/networks"@,
        UnitKind::Image | UnitKind::Build => "/images"@,
        UnitKind::Kube => "/units"@,
    }
}

/// The list page a unit of each kind returns to (Containers and Pods live
/// on the Services home page `/`).
pub open spec fn section_index_path_of(k: UnitKind) -> Seq<char> {
    match k {
        UnitKind::Container | UnitKind::Pod => "/"@,
        UnitKind::Volume => "/volumes"@,
        UnitKind::Network => "/networks"@,
        UnitKind::Image | UnitKind::Build => "/images"@,
        UnitKind::Kube => "/units"@,
    }
}

/// The section a unit belongs to, and so the URL prefix of all its pages.
pub fn section_path(kind: UnitKind) -> (r: &'static str)
    ensures
        r@ == section_path_of(kind),
{
    match kind {
        UnitKind::Container => "/containers",
        UnitKind::Pod => "/pods",
        UnitKind::Volume => "/volumes",
        UnitKind::Network => "/networks",
        UnitKind::Image | UnitKind::Build => "/images",
        UnitKind::Kube => "/units",
    }
}

/// `<section>/<file_name>`.
pub open spec fn unit_url_of(u: UnitView) -> Seq<char> {
    section_path_of(u.kind) + seq!['/'] + u.file_name
}

/// The detail-page URL of a unit: `<section>/<file_name>`.
pub fn unit_url(unit: &QuadletUnit) -> (r: String)
    ensures
        r@ == section_path_of(unit.kind) + seq!['/'] + unit.file_name@,
        r@ == unit_url_of(unit@),
{
    let mut out = text::to_chars(section_path(unit.kind));
    out.push('/');
    text::append_str(&mut out, unit.file_name.as_str());
    text::from_chars(out.as_slice())
}

/// The list/overview page to land on after a unit of this kind is deleted.
pub fn section_index_path(kind: UnitKind) -> (r: &'static str)
    ensures
        r@ == section_index_path_of(kind),
{
    match kind {
        UnitKind::Container | UnitKind::Pod => "/",
        UnitKind::Volume => "/volumes",
        UnitKind::Network => "/networks",
        UnitKind::Image | UnitKind::Build => "/images",
        UnitKind::Kube => "/units",
    }
}

/// Whether a file name's kind carries the sidecar env-file editor
/// (Container and Build units).
pub open spec fn wants_env_spec(file_name: Seq<char>) -> bool {
    kind_of_name(file_name) == Some(UnitKind::Container) || kind_of_name(file_name) == Some(
        UnitKind::Build,
    )
}

/// Whether the file's kind carries the env-var editor and sidecar.
pub fn wants_env(file_name: &str) -> (r: bool)
    ensures
        r == wants_env_spec(file_name@),
{
    match kind_of(file_name) {
        Some(UnitKind::Container) | Some(UnitKind::Build) => true,
        _ => false,
    }
}

/// Where a deleted unit's page redirects: its kind's list page, or the
/// generic `/units` list when the file name names no kind.
pub fn delete_redirect(file_name: &str) -> (r: &'static str)
    ensures
        r@ == match kind_of_name(file_name@) {
            Some(k) => section_index_path_of(k),
            None => "/units"@,
        },
{
    match kind_of(file_name) {
        Some(kind) => section_index_path(kind),
        None => "/units",
    }
}

/// The sidebar links.
#[derive(Clone, Copy, Debug, PartialEq, Eq, Structural)]
pub enum NavItem {
    Services,
    Volumes,
    Networks,
    Images,
    Ports,
    Environment,
    /// Rendered in the sidebar footer, not the main list.
    Settings,
}

pub open spec fn nav_href_of(n: NavItem) -> Seq<char> {
    match n {
        NavItem::Services => "/"@,
        NavItem::Volumes => "/volumes"@,
        NavItem::Networks => "/networks"@,
        NavItem::Images => "/images"@,
        NavItem::Ports => "/ports"@,
        NavItem::Environment => "/environment"@,
        NavItem::Settings => "/settings"@,
    }
}

pub open spec fn nav_label_of(n: NavItem) -> Seq<char> {
    match n {
        NavItem::Services => "Services"@,
        NavItem::Volumes => "Volumes"@,
        NavItem::Networks => "Networks"@,
        NavItem::Images => "Images"@,
        NavItem::Ports => "Ports"@,
        NavItem::Environment => "Environment"@,
        NavItem::Settings => "Settings"@,
    }
}

/// The sidebar item of each kind's section (none for Kube).
pub open spec fn nav_for_kind(k: UnitKind) -> Option<NavItem> {
    match k {
        UnitKind::Container | UnitKind::Pod => Some(NavItem::Services),
        UnitKind::Volume => Some(NavItem::Volumes),
        UnitKind::Network => Some(NavItem::Networks),
        UnitKind::Image | UnitKind::Build => Some(NavItem::Images),
        UnitKind::Kube => None,
    }
}

/// `(href, label)` of the "Back to …" link of a unit's pages.
pub open spec fn back_target_of(k: UnitKind) -> (Seq<char>, Seq<char>) {
    match nav_for_kind(k) {
        Some(n) => (nav_href_of(n), nav_label_of(n)),
        None => ("/units"@, "All units"@),
    }
}

impl NavItem {
    pub fn href(self) -> (r: &'static str)
        ensures
            r@ == nav_href_of(self),
    {
        match self {
            NavItem::Services => "/",
            NavItem::Volumes => "/volumes",
            NavItem::Networks => "/networks",
            NavItem::Images => "/images",
            NavItem::Ports => "/ports",
            NavItem::Environment => "/environment",
            NavItem::Settings => "/settings",
        }
    }

    pub fn label(self) -> (r: &'static str)
        ensures
            r@ == nav_label_of(self),
    {
        match self {
            NavItem::Services => "Services",
            NavItem::Volumes => "Volumes",
            NavItem::Networks => "Networks",
            NavItem::Images => "Images",
            NavItem::Ports => "Ports",
            NavItem::Environment => "Environment",
            NavItem::Settings => "Settings",
        }
    }

    /// The main sidebar list, in order (Settings sits in the footer).
    pub fn all() -> (r: [NavItem; 6])
        ensures
            r@ == seq![
                NavItem::Services,
                NavItem::Volumes,
                NavItem::Networks,
                NavItem::Images,
                NavItem::Ports,
                NavItem::Environment,
            ],
    {
        let r = [
            NavItem::Services,
            NavItem::Volumes,
            NavItem::Networks,
            NavItem::Images,
            NavItem::Ports,
            NavItem::Environment,
        ];
        assert(r@ =~= seq![
            NavItem::Services,
            NavItem::Volumes,
            NavItem::Networks,
            NavItem::Images,
            NavItem::Ports,
            NavItem::Environment,
        ]);
        r
    }

    /// The sidebar item to highlight for a unit of a given kind.
    pub fn for_kind(kind: UnitKind) -> (r: Option<NavItem>)
        ensures
            r == nav_for_kind(kind),
    {
        match kind {
            UnitKind::Container | UnitKind::Pod => Some(NavItem::Services),
            UnitKind::Volume => Some(NavItem::Volumes),
            UnitKind::Network => Some(NavItem::Networks),
            UnitKind::Image | UnitKind::Build => Some(NavItem::Images),
            UnitKind::Kube => None,
        }
    }
}

/// The "Back to …" link of a unit's pages, as `(href, label)`.
pub fn section_back_target(kind: UnitKind) -> (r: (&'static str, &'static str))
    ensures
        (r.0@, r.1@) == back_target_of(kind),
{
    match NavItem::for_kind(kind) {
        Some(nav) => (nav.href(), nav.label()),
        None => ("/units", "All units"),
    }
}

/// The extension of every kind, in the UI's order.
pub fn kind_names() -> (r: Vec<&'static str>)
    ensures
        r@.len() == 7,
        forall|i: int| 0 <= i < 7 ==> (#[trigger] r@[i])@ == extension_of(all_kinds()[i]),
{
    let kinds = UnitKind::all();
    let mut r: Vec<&'static str> = Vec::new();
    let mut i: usize = 0;
    while i < 7
        invariant
            kinds@ == all_kinds(),
            i <= 7,
            r@.len() == i,
            forall|j: int| 0 <= j < i ==> (#[trigger] r@[j])@ == extension_of(all_kinds()[j]),
        decreases 7 - i,
    {
        r.push(kinds[i].extension());
        i = i + 1;
    }
    r
}

/// How a "New" page's file-name field behaves: a fixed extension (section
/// pages) or a `<select>` of every kind (`/units/new`).
#[derive(Clone, Copy, Debug, PartialEq, Eq, Structural)]
pub enum KindChoice {
    Fixed(UnitKind),
    Choose { selected: UnitKind },
}

impl KindChoice {
    pub fn kind(&self) -> (r: UnitKind)
        ensures
            r == match *self {
                KindChoice::Fixed(k) => k,
                KindChoice::Choose { selected } => selected,
            },
    {
        match self {
            KindChoice::Fixed(k) => *k,
            KindChoice::Choose { selected } => *selected,
        }
    }

    /// Whether the page shows the env-var editor: always for the kind
    /// picker, and for a fixed Container or Build kind.
    pub fn wants_env_editor(&self) -> (r: bool)
        ensures
            r == match *self {
                KindChoice::Fixed(k) => k == UnitKind::Container || k == UnitKind::Build,
                KindChoice::Choose { .. } => true,
            },
    {
        match self.kind() {
            UnitKind::Container | UnitKind::Build => true,
            _ => match self {
                KindChoice::Choose { .. } => true,
                KindChoice::Fixed(_) => false,
            },
        }
    }
}

/// Which sidebar item, POST target and file-name field to redisplay a
/// rejected "New" form with: the kind picker at `/units` when it came from
/// there (`origin == "units"`), otherwise the kind's own section.
pub fn redisplay_target(origin: Option<&str>, kind: UnitKind) -> (r: (
    Option<NavItem>,
    &'static str,
    KindChoice,
))
    ensures
        (origin matches Some(o) && o@ == "units"@) ==> r.0 is None && r.1@ == "/units"@ && r.2
            == (KindChoice::Choose { selected: kind }),
        !(origin matches Some(o) && o@ == "units"@) ==> r.0 == nav_for_kind(kind) && r.1@
            == section_path_of(kind) && r.2 == KindChoice::Fixed(kind),
{
    let from_units = match origin {
        Some(o) => text::str_eq(o, "units"),
        None => false,
    };
    if from_units {
        (None, "/units", KindChoice::Choose { selected: kind })
    } else {
        (NavItem::for_kind(kind), section_path(kind), KindChoice::Fixed(kind))
    }
}

/// The "Back to …" link of a unit's pages is exactly the list page a
/// deleted unit of the same kind lands on.
pub proof fn lemma_back_target_is_index_page(k: UnitKind)
    ensures
        back_target_of(k).0 == section_index_path_of(k),
{
}

/// The URL prefixes every unit's pages are mounted at, one per section.
pub open spec fn unit_route_prefixes() -> Seq<Seq<char>> {
    seq!["/containers"@, "/pods"@, "/volumes"@, "/networks"@, "/images"@, "/units"@]
}

/// The prefixes the router mounts each unit's pages at.
pub fn unit_route_prefix_list() -> (r: [&'static str; 6])
    ensures
        forall|i: int| 0 <= i < 6 ==> (#[trigger] r@[i])@ == unit_route_prefixes()[i],
{
    ["/containers", "/pods", "/volumes", "/networks", "/images", "/units"]
}

/// The pages and actions mounted under `<prefix>/<file_name>`.
pub open spec fn unit_subroutes() -> Seq<Seq<char>> {
    seq![
        ""@,
        "/actions"@,
        "/config"@,
        "/start"@,
        "/stop"@,
        "/restart"@,
        "/enable"@,
        "/disable"@,
        "/edit"@,
        "/delete"@,
        "/logs"@,
        "/logs/stream"@,
    ]
}

/// The sub-routes the router mounts under each unit.
pub fn unit_subroute_list() -> (r: [&'static str; 12])
    ensures
        forall|i: int| 0 <= i < 12 ==> (#[trigger] r@[i])@ == unit_subroutes()[i],
{
    [
        "",
        "/actions",
        "/config",
        "/start",
        "/stop",
        "/restart",
        "/enable",
        "/disable",
        "/edit",
        "/delete",
        "/logs",
        "/logs/stream",
    ]
}

/// Every unit's URL is served: the section path `unit_url` builds on is one
/// of the mounted prefixes, whatever the kind.
pub proof fn lemma_every_section_is_mounted(k: UnitKind)
    ensures
        unit_route_prefixes().contains(section_path_of(k)),
{
    let p = unit_route_prefixes();
    match k {
        UnitKind::Container => assert(p[0] == section_path_of(k)),
        UnitKind::Pod => assert(p[1] == section_path_of(k)),
        UnitKind::Volume => assert(p[2] == section_path_of(k)),
        UnitKind::Network => assert(p[3] == section_path_of(k)),
        UnitKind::Image | UnitKind::Build => assert(p[4] == section_path_of(k)),
        UnitKind::Kube => assert(p[5] == section_path_of(k)),
    }
}

} // verus!
