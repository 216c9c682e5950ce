//! The quadlet unit kinds and the file extensions / primary `[Section]`
//! names that identify them.
use vstd::prelude::*;

use crate::text;

verus! {

/// The quadlet unit kinds, one per file extension.
#[derive(Clone, Copy, Debug, PartialEq, Eq, Structural)]
pub enum UnitKind {
    Container,
    Pod,
    Volume,
    Network,
    Image,
    Build,
    Kube,
}

/// The file extension (without the dot) of each kind.
pub open spec fn extension_of(k: UnitKind) -> Seq<char> {
    match k {
        UnitKind::Container => seq!['c', 'o', 'n', 't', 'a', 'i', 'n', 'e', 'r'],
        UnitKind::Pod => seq!['p', 'o', 'd'],
        UnitKind::Volume => seq!['v', 'o', 'l', 'u', 'm', 'e'],
        UnitKind::Network => seq!['n', 'e', 't', 'w', 'o', 'r', 'k'],
        UnitKind::Image => seq!['i', 'm', 'a', 'g', 'e'],
        UnitKind::Build => seq!['b', 'u', 'i', 'l', 'd'],
        UnitKind::Kube => seq!['k', 'u', 'b', 'e'],
    }
}

/// The primary `[Section]` name of each kind.
pub open spec fn primary_section_of(k: UnitKind) -> Seq<char> {
    match k {
        UnitKind::Container => seq!['C', 'o', 'n', 't', 'a', 'i', 'n', 'e', 'r'],
        UnitKind::Pod => seq!['P', 'o', 'd'],
        UnitKind::Volume => seq!['V', 'o', 'l', 'u', 'm', 'e'],
        UnitKind::Network => seq!['N', 'e', 't', 'w', 'o', 'r', 'k'],
        UnitKind::Image => seq!['I', 'm', 'a', 'g', 'e'],
        UnitKind::Build => seq!['B', 'u', 'i', 'l', 'd'],
        UnitKind::Kube => seq!['K', 'u', 'b', 'e'],
    }
}

/// The kind whose extension is `ext`, if any.
pub open spec fn kind_for_extension(ext: Seq<char>) -> Option<UnitKind> {
    if ext == extension_of(UnitKind::Container) {
        Some(UnitKind::Container)
    } else if ext == extension_of(UnitKind::Pod) {
        Some(UnitKind::Pod)
    } else if ext == extension_of(UnitKind::Volume) {
        Some(UnitKind::Volume)
    } else if ext == extension_of(UnitKind::Network) {
        Some(UnitKind::Network)
    } else if ext == extension_of(UnitKind::Image) {
        Some(UnitKind::Image)
    } else if ext == extension_of(UnitKind::Build) {
        Some(UnitKind::Build)
    } else if ext == extension_of(UnitKind::Kube) {
        Some(UnitKind::Kube)
    } else {
        None
    }
}

/// Every kind, in the order the UI lists them.
pub open spec fn all_kinds() -> Seq<UnitKind> {
    seq![
        UnitKind::Container,
        UnitKind::Pod,
        UnitKind::Volume,
        UnitKind::Network,
        UnitKind::Image,
        UnitKind::Build,
        UnitKind::Kube,
    ]
}

/// The last index of `c` in `s`, if any.
pub open spec fn last_index_of(s: Seq<char>, c: char) -> Option<int>
    decreases s.len(),
{
    if s.len() == 0 {
        None
    } else if s.last() == c {
        Some(s.len() - 1)
    } else {
        last_index_of(s.drop_last(), c)
    }
}

pub proof fn lemma_last_index_of(s: Seq<char>, c: char)
    ensures
        match last_index_of(s, c) {
            Some(i) => 0 <= i < s.len() && s[i] == c && forall|k: int| i < k < s.len() ==> s[k] != c,
            None => forall|k: int| 0 <= k < s.len() ==> s[k] != c,
        },
    decreases s.len(),
{
    if s.len() > 0 && s.last() != c {
        lemma_last_index_of(s.drop_last(), c);
        let t = s.drop_last();
        assert forall|k: int| 0 <= k < t.len() implies t[k] == s[k] by {}
    }
}

/// The text after the last `'.'` of a file name, if it has one.
pub open spec fn extension_part(file_name: Seq<char>) -> Option<Seq<char>> {
    match last_index_of(file_name, '.') {
        Some(i) => Some(file_name.skip(i + 1)),
        None => None,
    }
}

/// The kind a file name's extension names, if any.
pub open spec fn kind_of_name(file_name: Seq<char>) -> Option<UnitKind> {
    match extension_part(file_name) {
        Some(ext) => kind_for_extension(ext),
        None => None,
    }
}

/// Executable `last_index_of`.
pub fn rfind_char(s: &[char], c: char) -> (r: Option<usize>)
    ensures
        r matches Some(i) ==> last_index_of(s@, c) == Some(i as int) && i < s@.len() && s@[i as int]
            == c,
        r is None ==> last_index_of(s@, c) is None,
{
    proof {
        lemma_last_index_of(s@, c);
        assert(s@.take(s@.len() as int) =~= s@);
    }
    let mut i = s.len();
    while i > 0
        invariant
            i <= s@.len(),
            forall|k: int| i <= k < s@.len() ==> s@[k] != c,
            last_index_of(s@, c) == last_index_of(s@.take(i as int), c),
        decreases i,
    {
        let ghost t = s@.take(i as int);
        if s[i - 1] == c {
            assert(t.last() == c);
            return Some(i - 1);
        }
        assert(t.drop_last() =~= s@.take(i - 1));
        i = i - 1;
    }
    proof {
        assert(s@.take(0) =~= Seq::<char>::empty());
    }
    None
}

impl UnitKind {
    /// The file extension, without the dot.
    pub fn extension(self) -> (r: &'static str)
        ensures
            r@ == extension_of(self),
    {
        proof {
            reveal_strlit("container");
            reveal_strlit("pod");
            reveal_strlit("volume");
            reveal_strlit("network");
            reveal_strlit("image");
            reveal_strlit("build");
            reveal_strlit("kube");
        }
        match self {
            UnitKind::Container => "container",
            UnitKind::Pod => "pod",
            UnitKind::Volume => "volume",
            UnitKind::Network => "network",
            UnitKind::Image => "image",
            UnitKind::Build => "build",
            UnitKind::Kube => "kube",
        }
    }

    /// The primary `[Section]` name.
    pub fn primary_section(self) -> (r: &'static str)
        ensures
            r@ == primary_section_of(self),
    {
        proof {
            reveal_strlit("Container");
            reveal_strlit("Pod");
            reveal_strlit("Volume");
            reveal_strlit("Network");
            reveal_strlit("Image");
            reveal_strlit("Build");
            reveal_strlit("Kube");
        }
        match self {
            UnitKind::Container => "Container",
            UnitKind::Pod => "Pod",
            UnitKind::Volume => "Volume",
            UnitKind::Network => "Network",
            UnitKind::Image => "Image",
            UnitKind::Build => "Build",
            UnitKind::Kube => "Kube",
        }
    }

    /// Every kind, in the order the UI lists them.
    pub fn all() -> (r: [UnitKind; 7])
        ensures
            r@ == all_kinds(),
    {
        let r = [
            UnitKind::Container,
            UnitKind::Pod,
            UnitKind::Volume,
            UnitKind::Network,
            UnitKind::Image,
            UnitKind::Build,
            UnitKind::Kube,
        ];
        assert(r@ =~= all_kinds());
        r
    }

    /// The kind whose extension is `ext` (no dot), if any.
    pub fn from_extension(ext: &str) -> (r: Option<UnitKind>)
        ensures
            r == kind_for_extension(ext@),
    {
        let v = text::to_chars(ext);
        Self::from_extension_chars(v.as_slice())
    }

    /// `from_extension` over a character slice.
    pub fn from_extension_chars(ext: &[char]) -> (r: Option<UnitKind>)
        ensures
            r == kind_for_extension(ext@),
    {
        let kinds = Self::all();
        let mut i: usize = 0;
        while i < 7
            invariant
                kinds@ == all_kinds(),
                i <= 7,
                forall|j: int| 0 <= j < i ==> ext@ != extension_of(#[trigger] all_kinds()[j]),
            decreases 7 - i,
        {
            let k = kinds[i];
            let e = text::to_chars(k.extension());
            if text::chars_eq(ext, e.as_slice()) {
                return Some(k);
            }
            i = i + 1;
        }
        None
    }
}

/// The kind a quadlet file name's extension names (`web.container` ->
/// `Container`), if any.
pub fn kind_of(file_name: &str) -> (r: Option<UnitKind>)
    ensures
        r == kind_of_name(file_name@),
{
    let v = text::to_chars(file_name);
    match rfind_char(v.as_slice(), '.') {
        Some(i) => {
            assert(i < v.len());
            let ext = text::slice_range(v.as_slice(), i + 1, v.len());
            assert(ext@ =~= v@.skip(i + 1));
            UnitKind::from_extension_chars(ext.as_slice())
        },
        None => None,
    }
}

/// Distinct kinds have distinct extensions, so an extension names its kind
/// back: `kind_for_extension(extension_of(k)) == Some(k)`.
pub proof fn lemma_extension_round_trip(k: UnitKind)
    ensures
        kind_for_extension(extension_of(k)) == Some(k),
{
    let c = extension_of(UnitKind::Container);
    let p = extension_of(UnitKind::Pod);
    let v = extension_of(UnitKind::Volume);
    let n = extension_of(UnitKind::Network);
    let i = extension_of(UnitKind::Image);
    let b = extension_of(UnitKind::Build);
    let ku = extension_of(UnitKind::Kube);
    assert(c != p && c != v && c != n && c != i && c != b && c != ku) by {
        assert(c.len() != p.len() && c.len() != v.len() && c.len() != n.len());
        assert(c.len() != i.len() && c.len() != b.len() && c.len() != ku.len());
    }
    assert(p != v && p != n && p != i && p != b && p != ku) by {
        assert(p.len() != v.len() && p.len() != n.len() && p.len() != i.len());
        assert(p.len() != b.len() && p.len() != ku.len());
    }
    assert(v != n && v != i && v != b && v != ku) by {
        assert(v.len() != n.len() && v.len() != i.len() && v.len() != b.len());
        assert(v.len() != ku.len());
    }
    assert(n != i && n != b && n != ku) by {
        assert(n.len() != i.len() && n.len() != b.len() && n.len() != ku.len());
    }
    assert(i != b) by {
        assert(i[0] != b[0]);
    }
    assert(i != ku && b != ku) by {
        assert(i.len() != ku.len() && b.len() != ku.len());
    }
}

} // verus!
