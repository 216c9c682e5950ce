use sooth::groups::{destination_overlap, source_overlap};
use sooth::kind::UnitKind;
use sooth::nav::{section_index_path, section_path, unit_route_prefix_list, unit_subroute_list};

#[test]
fn section_index_path_avoids_the_post_only_routes() {
    // Containers/Pods have no GET list page -- they live on `/`.
    assert_eq!(section_index_path(UnitKind::Container), "/");
    assert_eq!(section_index_path(UnitKind::Pod), "/");
    // The rest have real list pages.
    assert_eq!(section_index_path(UnitKind::Volume), "/volumes");
    assert_eq!(section_index_path(UnitKind::Network), "/networks");
    assert_eq!(section_index_path(UnitKind::Image), "/images");
    assert_eq!(section_index_path(UnitKind::Build), "/images");
    assert_eq!(section_index_path(UnitKind::Kube), "/units");
}

fn synced(groups: &[&str]) -> Vec<String> {
    groups.iter().map(|g| g.to_string()).collect()
}

#[test]
fn destination_overlap_flags_the_synced_dir_and_its_subdirs() {
    let s = synced(&["media/arr"]);
    assert_eq!(
        destination_overlap(&s, "media/arr").as_deref(),
        Some("media/arr")
    );
    assert_eq!(
        destination_overlap(&s, "media/arr/hd").as_deref(),
        Some("media/arr")
    );
    // A sibling that merely shares a prefix is not "inside" it.
    assert_eq!(destination_overlap(&s, "media/arr-extra"), None);
    assert_eq!(destination_overlap(&s, "media"), None);
    assert_eq!(destination_overlap(&s, ""), None);
}

#[test]
fn source_overlap_also_catches_moving_an_ancestor_of_a_synced_dir() {
    let s = synced(&["media/arr"]);
    // Relocating the synced dir itself.
    assert_eq!(
        source_overlap(&s, "media/arr").as_deref(),
        Some("media/arr")
    );
    // Relocating something inside it.
    assert_eq!(
        source_overlap(&s, "media/arr/hd").as_deref(),
        Some("media/arr")
    );
    // Relocating an ancestor would carry the synced dir along with it.
    assert_eq!(source_overlap(&s, "media").as_deref(), Some("media/arr"));
    // An unrelated group is untouched.
    assert_eq!(source_overlap(&s, "other"), None);
}

#[test]
fn every_section_path_is_a_mounted_prefix() {
    let prefixes = unit_route_prefix_list();
    for k in UnitKind::all() {
        assert!(prefixes.contains(&section_path(k)));
    }
    let subs = unit_subroute_list();
    for a in ["start", "stop", "restart", "enable", "disable"] {
        assert!(subs.contains(&format!("/{a}").as_str()));
    }
    assert!(subs.contains(&"/logs/stream"));
}
