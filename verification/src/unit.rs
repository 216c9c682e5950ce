//! A parsed quadlet file: its name, the group directory it is filed under,
//! its kind, its `[Section]` blocks of `Key=Value` entries, and its raw text.
use vstd::prelude::*;

use crate::kind::UnitKind;
use crate::naming;
use crate::text;

verus! {

/// One `[Section]` block, entries in file order.
pub struct Section {
    pub name: String,
    pub entries: Vec<(String, String)>,
}

/// The mathematical content of a [`Section`].
pub struct SectionView {
    pub name: Seq<char>,
    pub entries: Seq<(Seq<char>, Seq<char>)>,
}

impl View for Section {
    type V = SectionView;

    open spec fn view(&self) -> SectionView {
        SectionView { name: self.name@, entries: pairs_view(self.entries@) }
    }
}

/// The character sequences of a list of string pairs.
pub open spec fn pairs_view(v: Seq<(String, String)>) -> Seq<(Seq<char>, Seq<char>)> {
    v.map_values(|e: (String, String)| (e.0@, e.1@))
}

/// The value of the first entry whose key is `key`.
pub open spec fn lookup(entries: Seq<(Seq<char>, Seq<char>)>, key: Seq<char>) -> Option<Seq<char>>
    decreases entries.len(),
{
    if entries.len() == 0 {
        None
    } else if entries[0].0 == key {
        Some(entries[0].1)
    } else {
        lookup(entries.drop_first(), key)
    }
}

/// A quadlet file as loaded from disk.
pub struct QuadletUnit {
    /// The bare file name, e.g. `web.container`.
    pub file_name: String,
    /// The group directory (relative to the quadlet dir) it lives in; empty
    /// at the root.
    pub group: String,
    pub kind: UnitKind,
    pub sections: Vec<Section>,
    /// The file's text exactly as on disk.
    pub raw: String,
}

/// The mathematical content of a [`QuadletUnit`].
pub struct UnitView {
    pub file_name: Seq<char>,
    pub group: Seq<char>,
    pub kind: UnitKind,
    pub sections: Seq<SectionView>,
    pub raw: Seq<char>,
}

impl View for QuadletUnit {
    type V = UnitView;

    open spec fn view(&self) -> UnitView {
        UnitView {
            file_name: self.file_name@,
            group: self.group@,
            kind: self.kind,
            sections: self.sections@.map_values(|s: Section| s@),
            raw: self.raw@,
        }
    }
}

/// The first section named `name`.
pub open spec fn find_section(sections: Seq<SectionView>, name: Seq<char>) -> Option<SectionView>
    decreases sections.len(),
{
    if sections.len() == 0 {
        None
    } else if sections[0].name == name {
        Some(sections[0])
    } else {
        find_section(sections.drop_first(), name)
    }
}

/// `Key=` in `[Section]` of a unit: the first entry of the first section of
/// that name.
pub open spec fn unit_value(u: UnitView, section: Seq<char>, key: Seq<char>) -> Option<Seq<char>> {
    match find_section(u.sections, section) {
        Some(s) => lookup(s.entries, key),
        None => None,
    }
}

/// The views of a list of units.
pub open spec fn units_view(v: Seq<QuadletUnit>) -> Seq<UnitView> {
    v.map_values(|u: QuadletUnit| u@)
}

impl Section {
    /// The value of the first `key=` entry.
    pub fn get(&self, key: &str) -> (r: Option<&str>)
        ensures
            r matches Some(v) ==> lookup(self@.entries, key@) == Some(v@),
            r is None ==> lookup(self@.entries, key@) is None,
    {
        let k = text::to_chars(key);
        let mut i: usize = 0;
        proof {
            assert(self@.entries.skip(0) =~= self@.entries);
        }
        while i < self.entries.len()
            invariant
                i <= self.entries@.len(),
                k@ == key@,
                lookup(self@.entries, key@) == lookup(self@.entries.skip(i as int), key@),
            decreases self.entries.len() - i,
        {
            let ghost rest = self@.entries.skip(i as int);
            let ek = text::to_chars(self.entries[i].0.as_str());
            assert(rest[0] == (self.entries@[i as int].0@, self.entries@[i as int].1@));
            if text::chars_eq(ek.as_slice(), k.as_slice()) {
                return Some(self.entries[i].1.as_str());
            }
            assert(rest.drop_first() =~= self@.entries.skip(i + 1));
            i = i + 1;
        }
        None
    }
}

impl QuadletUnit {
    /// The first section named `name`.
    pub fn section(&self, name: &str) -> (r: Option<&Section>)
        ensures
            r matches Some(s) ==> find_section(self@.sections, name@) == Some(s@),
            r is None ==> find_section(self@.sections, name@) is None,
    {
        let n = text::to_chars(name);
        let mut i: usize = 0;
        proof {
            assert(self@.sections.skip(0) =~= self@.sections);
        }
        while i < self.sections.len()
            invariant
                i <= self.sections@.len(),
                n@ == name@,
                find_section(self@.sections, name@) == find_section(
                    self@.sections.skip(i as int),
                    name@,
                ),
            decreases self.sections.len() - i,
        {
            let ghost rest = self@.sections.skip(i as int);
            let sn = text::to_chars(self.sections[i].name.as_str());
            assert(rest[0] == self.sections@[i as int]@);
            if text::chars_eq(sn.as_slice(), n.as_slice()) {
                return Some(&self.sections[i]);
            }
            assert(rest.drop_first() =~= self@.sections.skip(i + 1));
            i = i + 1;
        }
        None
    }

    /// `Key=` in `[Section]`: the first entry of the first section of that
    /// name.
    pub fn value(&self, section: &str, key: &str) -> (r: Option<&str>)
        ensures
            r matches Some(v) ==> unit_value(self@, section@, key@) == Some(v@),
            r is None ==> unit_value(self@, section@, key@) is None,
    {
        match self.section(section) {
            Some(s) => s.get(key),
            None => None,
        }
    }

    /// The `[Unit]` `Description=`, if any.
    pub fn description(&self) -> (r: Option<&str>)
        ensures
            r matches Some(v) ==> unit_value(self@, "Unit"@, "Description"@) == Some(v@),
            r is None ==> unit_value(self@, "Unit"@, "Description"@) is None,
    {
        self.value("Unit", "Description")
    }

    /// Whether this is a template unit (`name@.kind`).
    pub fn is_template(&self) -> (r: bool)
        ensures
            r == naming::is_template_name(self@.file_name),
    {
        naming::is_template(self.file_name.as_str())
    }

    /// The systemd service the file generates.
    pub fn service_name(&self) -> (r: String)
        ensures
            r@ == naming::service_name_of(self@.file_name, self@.kind),
    {
        naming::service_name(self.file_name.as_str(), self.kind)
    }
}

} // verus!
