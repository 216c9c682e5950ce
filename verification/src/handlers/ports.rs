//! The Ports page.
use vstd::prelude::*;

use crate::text::{self, trim};
use crate::unit::{unit_value, units_view, QuadletUnit, UnitView};
use crate::groups::strings_view;
use crate::kind::UnitKind;
use crate::nav::{unit_url, unit_url_of};
use crate::sections::{insert_sorted, strictly_sorted};
use crate::pods::{find_unit, find_unit_index, opt_view};
use crate::status::UnitStatus;

verus! {

/// "Pull image" for a pod member.
pub struct PullForm {
    pub csrf_token: String,
    /// The member whose image to pull.
    pub file_name: String,
}

/// `.build`.
pub open spec fn dot_build() -> Seq<char> {
    seq!['.', 'b', 'u', 'i', 'l', 'd']
}

/// Whether the first unit named `file_name` is a container whose
/// `[Container]` `Image=` (trimmed) ends in `.build` -- a locally built
/// image there is nothing to pull for.
pub open spec fn builds_locally_spec(units: Seq<crate::unit::UnitView>, file_name: Seq<char>) -> bool {
    match find_unit(units, file_name) {
        Some(u) => match unit_value(u, "Container"@, "Image"@) {
            Some(i) => {
                let t = trim(i);
                t.len() >= 6 && t.skip(t.len() - 6) == dot_build()
            },
            None => false,
        },
        None => false,
    }
}

/// A container builds its image locally exactly when its `Image=` (the
/// first unit of that name, `[Container]` section, trimmed) names a
/// `.build` quadlet: it is some name followed by `.build`. A registry image
/// or an `.image` quadlet is pulled, never built here.
pub proof fn lemma_builds_locally_means_a_build_image(units: Seq<crate::unit::UnitView>, file_name: Seq<char>)
    ensures
        builds_locally_spec(units, file_name) <==> (find_unit(units, file_name) matches Some(u)
            && unit_value(u, "Container"@, "Image"@) matches Some(i) && exists|p: Seq<char>|
            trim(i) == p + ".build"@),
{
    reveal_strlit(".build");
    assert(".build"@ =~= dot_build());
    match find_unit(units, file_name) {
        Some(u) => match unit_value(u, "Container"@, "Image"@) {
            Some(i) => {
                let t = trim(i);
                if t.len() >= 6 && t.skip(t.len() - 6) == dot_build() {
                    assert(t =~= t.take(t.len() - 6) + ".build"@);
                }
                if exists|p: Seq<char>| t == p + ".build"@ {
                    let p = choose|p: Seq<char>| t == p + ".build"@;
                    assert(t.skip(t.len() - 6) =~= dot_build());
                }
            },
            None => {},
        },
        None => {},
    }
}

/// Whether a container's `Image=` names a `.build` quadlet.
pub fn builds_locally(file_name: &str, units: &[QuadletUnit]) -> (r: bool)
    ensures
        r == builds_locally_spec(units_view(units@), file_name@),
{
    let f = text::to_chars(file_name);
    let mut i: usize = 0;
    let ghost uv = units_view(units@);
    proof {
        assert(uv.skip(0) =~= uv);
    }
    while i < units.len()
        invariant
            i <= units@.len(),
            uv == units_view(units@),
            f@ == file_name@,
            find_unit(uv, file_name@) == find_unit(uv.skip(i as int), file_name@),
        decreases units.len() - i,
    {
        let ghost rest = uv.skip(i as int);
        assert(rest[0] == units@[i as int]@);
        let n = text::to_chars(units[i].file_name.as_str());
        if text::chars_eq(n.as_slice(), f.as_slice()) {
            return match units[i].value("Container", "Image") {
                Some(img) => {
                    let v = text::to_chars(img);
                    let t = text::trim_chars(v.as_slice());
                    let suffix: [char; 6] = ['.', 'b', 'u', 'i', 'l', 'd'];
                    assert(suffix@ =~= dot_build());
                    text::has_suffix(t.as_slice(), &suffix)
                },
                None => false,
            };
        }
        assert(rest.drop_first() =~= uv.skip(i + 1));
        i = i + 1;
    }
    false
}


/// A unit as the Ports table shows it.
pub struct UnitRef<'a> {
    pub file_name: String,
    pub href: String,
    pub status: &'a UnitStatus,
    /// On a pod member whose image is not in local storage: the image a
    /// "Pull image" button would fetch.
    pub unpulled: Option<String>,
}

/// The containers behind a pod-published port.
pub struct PodTargets<'a> {
    pub containers: Vec<UnitRef<'a>>,
    /// The list is narrowed to the members that declare the container port;
    /// when none does it holds every member.
    pub matched: bool,
}

/// The members whose flag is set, in order.
pub open spec fn serving_members(members: Seq<Seq<char>>, serves: Seq<bool>) -> Seq<Seq<char>>
    decreases members.len(),
{
    if members.len() == 0 || serves.len() == 0 {
        Seq::empty()
    } else {
        let rest = serving_members(members.drop_last(), serves.drop_last());
        if serves.last() {
            rest.push(members.last())
        } else {
            rest
        }
    }
}

/// Which of a pod's members a published port is shown reaching: the ones
/// that declare its container port (`serves[i]` for `members[i]`), or all
/// of them when none does; and whether the list was narrowed.
pub fn port_targets(members: &[String], serves: &[bool]) -> (r: (Vec<String>, bool))
    requires
        serves@.len() == members@.len(),
    ensures
        ({
            let s = serving_members(strings_view(members@), serves@);
            &&& r.1 == (s.len() > 0)
            &&& strings_view(r.0@) == if s.len() > 0 {
                s
            } else {
                strings_view(members@)
            }
        }),
{
    let ghost ms = strings_view(members@);
    let mut serving: Vec<String> = Vec::new();
    let mut i: usize = 0;
    while i < members.len()
        invariant
            i <= members@.len(),
            serves@.len() == members@.len(),
            ms == strings_view(members@),
            strings_view(serving@) == serving_members(ms.take(i as int), serves@.take(i as int)),
        decreases members.len() - i,
    {
        proof {
            assert(ms.take(i + 1).drop_last() =~= ms.take(i as int));
            assert(serves@.take(i + 1).drop_last() =~= serves@.take(i as int));
            assert(ms.take(i + 1).last() == members@[i as int]@);
        }
        if serves[i] {
            let ghost before = serving@;
            serving.push(text::owned(members[i].as_str()));
            assert(strings_view(serving@) =~= strings_view(before).push(members@[i as int]@));
        }
        i = i + 1;
    }
    assert(ms.take(i as int) =~= ms);
    assert(serves@.take(i as int) =~= serves@);
    if serving.len() > 0 {
        (serving, true)
    } else {
        let mut all: Vec<String> = Vec::new();
        let mut j: usize = 0;
        while j < members.len()
            invariant
                j <= members@.len(),
                strings_view(all@) == strings_view(members@).take(j as int),
            decreases members.len() - j,
        {
            let ghost before = all@;
            all.push(text::owned(members[j].as_str()));
            assert(strings_view(all@) =~= strings_view(before).push(members@[j as int]@));
            assert(strings_view(all@) =~= strings_view(members@).take(j + 1));
            j = j + 1;
        }
        assert(strings_view(members@).take(j as int) =~= strings_view(members@));
        (all, false)
    }
}


/// One declared `PublishPort=` mapping, as the port extraction reports it.
pub struct PortMappingRow {
    /// The quadlet declaring it.
    pub file_name: String,
    /// The host port range, `None` for a dynamic host port.
    pub host_start: Option<u16>,
    pub host_end: Option<u16>,
    pub container_port: u16,
    pub protocol: String,
    /// The line as written.
    pub raw: String,
}

/// The order key of a mapping: its first host port, a dynamic one counting
/// as 65535 (so those come last).
pub open spec fn port_key(m: PortMappingRow) -> int {
    match m.host_start {
        Some(p) => p as int,
        None => 65535,
    }
}

pub open spec fn port_keys(ms: Seq<PortMappingRow>) -> Seq<int> {
    ms.map_values(|m: PortMappingRow| port_key(m))
}

/// `x` placed after every entry of `order` whose key is not above its own.
pub open spec fn insert_by_key(order: Seq<usize>, x: usize, keys: Seq<int>) -> Seq<usize>
    decreases order.len(),
{
    if order.len() == 0 {
        seq![x]
    } else if keys[order.last() as int] <= keys[x as int] {
        order.push(x)
    } else {
        insert_by_key(order.drop_last(), x, keys).push(order.last())
    }
}

/// The first `n` positions in stable order of their keys (equal keys keep
/// their order).
pub open spec fn stable_order(keys: Seq<int>, n: int) -> Seq<usize>
    decreases n,
{
    if n <= 0 {
        Seq::empty()
    } else {
        insert_by_key(stable_order(keys, n - 1), (n - 1) as usize, keys)
    }
}

proof fn lemma_insert_at(order: Seq<usize>, x: usize, keys: Seq<int>, p: int)
    requires
        0 <= p <= order.len(),
        p == 0 || keys[order[p - 1] as int] <= keys[x as int],
        forall|q: int| p <= q < order.len() ==> keys[#[trigger] order[q] as int] > keys[x as int],
    ensures
        insert_by_key(order, x, keys) == order.insert(p, x),
    decreases order.len(),
{
    if order.len() == 0 {
        assert(order.insert(p, x) =~= seq![x]);
    } else if p == order.len() {
        assert(order.insert(p, x) =~= order.push(x));
    } else {
        let d = order.drop_last();
        assert forall|q: int| p <= q < d.len() implies keys[#[trigger] d[q] as int] > keys[x as int] by {
            assert(d[q] == order[q]);
        }
        if p > 0 {
            assert(d[p - 1] == order[p - 1]);
        }
        assert(keys[order[order.len() - 1] as int] > keys[x as int]);
        lemma_insert_at(d, x, keys, p);
        assert(d.insert(p, x).push(order.last()) =~= order.insert(p, x));
    }
}

proof fn lemma_insert_len(order: Seq<usize>, x: usize, keys: Seq<int>)
    ensures
        insert_by_key(order, x, keys).len() == order.len() + 1,
    decreases order.len(),
{
    if order.len() > 0 && keys[order.last() as int] > keys[x as int] {
        lemma_insert_len(order.drop_last(), x, keys);
    }
}

/// Every entry of an insertion has a key no greater than `hi` when all of
/// the inputs do.
proof fn lemma_insert_element_bound(d: Seq<usize>, x: usize, keys: Seq<int>, hi: usize, i: int)
    requires
        forall|q: int| 0 <= q < d.len() ==> keys[#[trigger] d[q] as int] <= keys[hi as int],
        keys[x as int] < keys[hi as int],
        0 <= i < insert_by_key(d, x, keys).len(),
    ensures
        keys[insert_by_key(d, x, keys)[i] as int] <= keys[hi as int],
    decreases d.len(),
{
    lemma_insert_len(d, x, keys);
    if d.len() > 0 && keys[d.last() as int] > keys[x as int] {
        let dd = d.drop_last();
        let t = insert_by_key(dd, x, keys);
        lemma_insert_len(dd, x, keys);
        if i < t.len() {
            assert forall|q: int| 0 <= q < dd.len() implies keys[#[trigger] dd[q] as int] <= keys[hi as int] by {
                assert(dd[q] == d[q]);
            }
            lemma_insert_element_bound(dd, x, keys, hi, i);
        } else {
            assert(insert_by_key(d, x, keys)[i] == d.last());
        }
    } else if d.len() > 0 {
        if i < d.len() {
            assert(insert_by_key(d, x, keys)[i] == d[i]);
        }
    }
}

proof fn lemma_insert_keeps_sorted(order: Seq<usize>, x: usize, keys: Seq<int>)
    requires
        forall|i: int, j: int| 0 <= i < j < order.len() ==> keys[#[trigger] order[i] as int]
            <= keys[#[trigger] order[j] as int],
    ensures
        forall|i: int, j: int|
            0 <= i < j < insert_by_key(order, x, keys).len() ==> keys[#[trigger] insert_by_key(
                order,
                x,
                keys,
            )[i] as int] <= keys[#[trigger] insert_by_key(order, x, keys)[j] as int],
        insert_by_key(order, x, keys).len() == order.len() + 1,
    decreases order.len(),
{
    lemma_insert_len(order, x, keys);
    if order.len() > 0 && keys[order.last() as int] > keys[x as int] {
        let d = order.drop_last();
        assert forall|i: int, j: int| 0 <= i < j < d.len() implies keys[#[trigger] d[i] as int]
            <= keys[#[trigger] d[j] as int] by {
            assert(d[i] == order[i] && d[j] == order[j]);
        }
        lemma_insert_keeps_sorted(d, x, keys);
        let t = insert_by_key(d, x, keys);
        let r = insert_by_key(order, x, keys);
        assert(r == t.push(order.last()));
        assert forall|q: int| 0 <= q < d.len() implies keys[#[trigger] d[q] as int] <= keys[order.last() as int] by {
            assert(d[q] == order[q]);
            assert(order[order.len() - 1] == order.last());
        }
        assert forall|i: int, j: int| 0 <= i < j < r.len() implies keys[#[trigger] r[i] as int]
            <= keys[#[trigger] r[j] as int] by {
            if j == r.len() - 1 {
                lemma_insert_element_bound(d, x, keys, order.last(), i);
                assert(r[i] == t[i]);
            } else {
                assert(r[i] == t[i] && r[j] == t[j]);
            }
        }
    } else if order.len() > 0 {
        let r = insert_by_key(order, x, keys);
        assert forall|i: int, j: int| 0 <= i < j < r.len() implies keys[#[trigger] r[i] as int]
            <= keys[#[trigger] r[j] as int] by {
            if j == r.len() - 1 {
                if i < order.len() - 1 {
                    assert(keys[order[i] as int] <= keys[order[order.len() - 1] as int]);
                }
            }
        }
    }
}

/// The mappings in host-port order are sorted by their key: the Ports
/// table lists low host ports first and dynamic ones last.
pub proof fn lemma_stable_order_is_sorted(keys: Seq<int>, n: int)
    ensures
        n >= 0 ==> stable_order(keys, n).len() == n,
        forall|i: int, j: int|
            0 <= i < j < stable_order(keys, n).len() ==> keys[#[trigger] stable_order(keys, n)[i] as int]
                <= keys[#[trigger] stable_order(keys, n)[j] as int],
    decreases n,
{
    if n > 0 {
        lemma_stable_order_is_sorted(keys, n - 1);
        lemma_insert_keeps_sorted(stable_order(keys, n - 1), (n - 1) as usize, keys);
    }
}

proof fn lemma_insert_members(order: Seq<usize>, x: usize, keys: Seq<int>)
    ensures
        forall|y: usize| #[trigger] insert_by_key(order, x, keys).contains(y) <==> (order.contains(y)
            || y == x),
        order.no_duplicates() && !order.contains(x) ==> insert_by_key(order, x, keys).no_duplicates(),
    decreases order.len(),
{
    let r = insert_by_key(order, x, keys);
    if order.len() == 0 {
        assert forall|y: usize| #[trigger] r.contains(y) <==> (order.contains(y) || y == x) by {
            if y == x {
                assert(r[0] == x);
            }
        }
    } else if keys[order.last() as int] <= keys[x as int] {
        assert forall|y: usize| #[trigger] r.contains(y) <==> (order.contains(y) || y == x) by {
            if y == x {
                assert(r[order.len() as int] == x);
            }
            if order.contains(y) {
                let q = choose|q: int| 0 <= q < order.len() && order[q] == y;
                assert(r[q] == y);
            }
        }
    } else {
        let d = order.drop_last();
        let t = insert_by_key(d, x, keys);
        lemma_insert_members(d, x, keys);
        assert(r == t.push(order.last()));
        assert forall|y: usize| #[trigger] r.contains(y) <==> (order.contains(y) || y == x) by {
            if r.contains(y) {
                let q = choose|q: int| 0 <= q < r.len() && r[q] == y;
                if q < t.len() {
                    assert(t.contains(y));
                    if d.contains(y) {
                        let w = choose|w: int| 0 <= w < d.len() && d[w] == y;
                        assert(order[w] == y);
                    }
                } else {
                    assert(order[order.len() - 1] == y);
                }
            }
            if order.contains(y) {
                let q = choose|q: int| 0 <= q < order.len() && order[q] == y;
                if q < order.len() - 1 {
                    assert(d[q] == y);
                    assert(d.contains(y));
                    assert(t.contains(y));
                    let w = choose|w: int| 0 <= w < t.len() && t[w] == y;
                    assert(r[w] == y);
                } else {
                    assert(r[r.len() - 1] == y);
                }
            }
            if y == x {
                assert(t.contains(x));
                let w = choose|w: int| 0 <= w < t.len() && t[w] == x;
                assert(r[w] == x);
            }
        }
        if order.no_duplicates() && !order.contains(x) {
            assert(!d.contains(x)) by {
                if d.contains(x) {
                    let w = choose|w: int| 0 <= w < d.len() && d[w] == x;
                    assert(order[w] == x);
                }
            }
            assert(d.no_duplicates()) by {
                assert forall|i: int, j: int| 0 <= i < d.len() && 0 <= j < d.len() && i != j implies d[i] != d[j] by {
                    assert(d[i] == order[i] && d[j] == order[j]);
                }
            }
            assert forall|i: int, j: int| 0 <= i < r.len() && 0 <= j < r.len() && i != j implies r[i] != r[j] by {
                let last = order.last();
                assert(!d.contains(last)) by {
                    if d.contains(last) {
                        let w = choose|w: int| 0 <= w < d.len() && d[w] == last;
                        assert(order[w] == last && order[order.len() - 1] == last);
                    }
                }
                assert(last != x) by {
                    assert(order[order.len() - 1] == last);
                }
                if i < t.len() && j < t.len() {
                    assert(r[i] == t[i] && r[j] == t[j]);
                } else if i < t.len() {
                    assert(r[i] == t[i]);
                    assert(t.contains(t[i]));
                } else if j < t.len() {
                    assert(r[j] == t[j]);
                    assert(t.contains(t[j]));
                }
            }
        }
    }
}

/// Host-port order lists every mapping exactly once: the first `n`
/// positions, each once, and nothing else.
pub proof fn lemma_stable_order_lists_each_once(keys: Seq<int>, n: int)
    requires
        0 <= n <= usize::MAX,
    ensures
        stable_order(keys, n).len() == n,
        stable_order(keys, n).no_duplicates(),
        forall|y: usize| #[trigger] stable_order(keys, n).contains(y) <==> (y as int) < n,
    decreases n,
{
    lemma_stable_order_is_sorted(keys, n);
    if n > 0 {
        let prev = stable_order(keys, n - 1);
        lemma_stable_order_lists_each_once(keys, n - 1);
        assert(!prev.contains((n - 1) as usize));
        lemma_insert_members(prev, (n - 1) as usize, keys);
    }
}

/// The mappings' positions in stable host-port order.
pub fn port_order(mappings: &[PortMappingRow]) -> (r: Vec<usize>)
    ensures
        r@ == stable_order(port_keys(mappings@), mappings@.len() as int),
        forall|q: int| 0 <= q < r@.len() ==> r@[q] < mappings@.len(),
{
    let ghost keys = port_keys(mappings@);
    let mut order: Vec<usize> = Vec::new();
    let mut n: usize = 0;
    while n < mappings.len()
        invariant
            n <= mappings@.len(),
            keys == port_keys(mappings@),
            order@ == stable_order(keys, n as int),
            order@.len() == n,
            forall|q: int| 0 <= q < order@.len() ==> order@[q] < n,
        decreases mappings.len() - n,
    {
        let kx: u32 = match mappings[n].host_start {
            Some(v) => v as u32,
            None => 65535,
        };
        assert(kx == keys[n as int]);
        let mut p: usize = order.len();
        while p > 0
            invariant
                p <= order@.len(),
                order@.len() == n,
                n < mappings@.len(),
                keys == port_keys(mappings@),
                kx == keys[n as int],
                forall|q: int| 0 <= q < order@.len() ==> order@[q] < n,
                forall|q: int| p <= q < order@.len() ==> keys[#[trigger] order@[q] as int] > kx,
            ensures
                p <= order@.len(),
                p == 0 || keys[order@[p - 1] as int] <= kx,
                forall|q: int| p <= q < order@.len() ==> keys[#[trigger] order@[q] as int] > kx,
            decreases p,
        {
            let o = order[p - 1];
            let ko: u32 = match mappings[o].host_start {
                Some(v) => v as u32,
                None => 65535,
            };
            assert(ko == keys[o as int]);
            if ko <= kx {
                break;
            }
            p = p - 1;
        }
        let ghost before = order@;
        proof {
            lemma_insert_at(before, n, keys, p as int);
        }
        order.insert(p, n);
        proof {
            assert(order@ == before.insert(p as int, n));
            assert forall|q: int| 0 <= q < order@.len() implies order@[q] < n + 1 by {
                if q < p {
                    assert(order@[q] == before[q]);
                } else if q > p {
                    assert(order@[q] == before[q - 1]);
                }
            }
        }
        n = n + 1;
    }
    order
}


/// A conflicting unit as the row shows it: its name and, when it is a
/// known unit, the link to its page.
pub open spec fn conflict_links(units: Seq<UnitView>, names: Seq<Seq<char>>) -> Seq<(Seq<char>, Option<Seq<char>>)> {
    names.map_values(
        |f: Seq<char>|
            (
                f,
                match find_unit(units, f) {
                    Some(u) => Some(unit_url_of(u)),
                    None => None,
                },
            ),
    )
}

/// One Ports table row: the mapping (by position), its owner (by position
/// among the units), the owner's page, and the units whose host ports
/// overlap it.
pub struct PortRow {
    pub mapping: usize,
    pub owner: usize,
    pub owner_href: String,
    pub conflicts: Vec<(String, Option<String>)>,
}

pub open spec fn link_view(v: Seq<(String, Option<String>)>) -> Seq<(Seq<char>, Option<Seq<char>>)> {
    v.map_values(|l: (String, Option<String>)| (l.0@, opt_view(l.1)))
}

/// A row as plain values: mapping position, owner unit, owner link,
/// conflicts.
pub open spec fn port_row_view(units: Seq<QuadletUnit>, r: PortRow) -> (int, UnitView, Seq<char>, Seq<(Seq<char>, Option<Seq<char>>)>) {
    (r.mapping as int, units[r.owner as int]@, r.owner_href@, link_view(r.conflicts@))
}

/// The rows for the mappings at the positions `order`, in that order; a
/// mapping whose quadlet is not among the units gives no row.
pub open spec fn rows_in_order(
    units: Seq<UnitView>,
    files: Seq<Seq<char>>,
    conflicts: Seq<Seq<Seq<char>>>,
    order: Seq<usize>,
) -> Seq<(int, UnitView, Seq<char>, Seq<(Seq<char>, Option<Seq<char>>)>)>
    decreases order.len(),
{
    if order.len() == 0 {
        Seq::empty()
    } else {
        let m = order.last() as int;
        let rest = rows_in_order(units, files, conflicts, order.drop_last());
        match find_unit(units, files[m]) {
            Some(u) => rest.push((m, u, unit_url_of(u), conflict_links(units, conflicts[m]))),
            None => rest,
        }
    }
}

pub open spec fn mapping_files(ms: Seq<PortMappingRow>) -> Seq<Seq<char>> {
    ms.map_values(|m: PortMappingRow| m.file_name@)
}

pub open spec fn conflicts_view(c: Seq<Vec<String>>) -> Seq<Seq<Seq<char>>> {
    c.map_values(|v: Vec<String>| strings_view(v@))
}

/// The Ports table: the mappings in stable host-port order (dynamic ports
/// last), each with its owner, the owner's link and its conflicts.
pub open spec fn port_rows_spec(
    units: Seq<UnitView>,
    mappings: Seq<PortMappingRow>,
    conflicts: Seq<Seq<Seq<char>>>,
) -> Seq<(int, UnitView, Seq<char>, Seq<(Seq<char>, Option<Seq<char>>)>)> {
    rows_in_order(
        units,
        mapping_files(mappings),
        conflicts,
        stable_order(port_keys(mappings), mappings.len() as int),
    )
}

fn links_for(units: &[QuadletUnit], names: &Vec<String>) -> (r: Vec<(String, Option<String>)>)
    ensures
        link_view(r@) == conflict_links(units_view(units@), strings_view(names@)),
{
    let ghost uv = units_view(units@);
    let mut out: Vec<(String, Option<String>)> = Vec::new();
    let mut i: usize = 0;
    while i < names.len()
        invariant
            i <= names@.len(),
            uv == units_view(units@),
            link_view(out@) == conflict_links(uv, strings_view(names@).take(i as int)),
        decreases names.len() - i,
    {
        let f = text::to_chars(names[i].as_str());
        let href = match find_unit_index(units, f.as_slice()) {
            Some(k) => Some(unit_url(&units[k])),
            None => None,
        };
        let ghost before = out@;
        out.push((text::owned(names[i].as_str()), href));
        proof {
            assert(link_view(out@) =~= link_view(before).push((names@[i as int]@, opt_view(href))));
            assert(strings_view(names@).take(i + 1) =~= strings_view(names@).take(i as int).push(
                names@[i as int]@,
            ));
            assert(conflict_links(uv, strings_view(names@).take(i + 1)) =~= conflict_links(
                uv,
                strings_view(names@).take(i as int),
            ).push((names@[i as int]@, opt_view(href))));
        }
        i = i + 1;
    }
    assert(strings_view(names@).take(i as int) =~= strings_view(names@));
    out
}

/// The rows of the Ports table. `conflicts[i]` names the units whose host
/// ports overlap `mappings[i]`.
pub fn plan_port_rows(units: &[QuadletUnit], mappings: &[PortMappingRow], conflicts: &[Vec<String>]) -> (rows: Vec<PortRow>)
    requires
        mappings@.len() == conflicts@.len(),
    ensures
        forall|k: int| 0 <= k < rows@.len() ==> (#[trigger] rows@[k]).owner < units@.len(),
        rows@.map_values(|r: PortRow| port_row_view(units@, r)) == port_rows_spec(
            units_view(units@),
            mappings@,
            conflicts_view(conflicts@),
        ),
{
    let order = port_order(mappings);
    let ghost uv = units_view(units@);
    let ghost files = mapping_files(mappings@);
    let ghost cv = conflicts_view(conflicts@);
    let mut rows: Vec<PortRow> = Vec::new();
    let mut k: usize = 0;
    while k < order.len()
        invariant
            k <= order@.len(),
            mappings@.len() == conflicts@.len(),
            forall|q: int| 0 <= q < order@.len() ==> order@[q] < mappings@.len(),
            uv == units_view(units@),
            files == mapping_files(mappings@),
            cv == conflicts_view(conflicts@),
            forall|q: int| 0 <= q < rows@.len() ==> (#[trigger] rows@[q]).owner < units@.len(),
            rows@.map_values(|r: PortRow| port_row_view(units@, r)) == rows_in_order(
                uv,
                files,
                cv,
                order@.take(k as int),
            ),
        decreases order.len() - k,
    {
        let m = order[k];
        proof {
            assert(order@.take(k + 1).drop_last() =~= order@.take(k as int));
            assert(order@.take(k + 1).last() == m);
            assert(files[m as int] == mappings@[m as int].file_name@);
            assert(cv[m as int] == strings_view(conflicts@[m as int]@));
        }
        let f = text::to_chars(mappings[m].file_name.as_str());
        match find_unit_index(units, f.as_slice()) {
            Some(i) => {
                let href = unit_url(&units[i]);
                let links = links_for(units, &conflicts[m]);
                let ghost before = rows@;
                rows.push(PortRow { mapping: m, owner: i, owner_href: href, conflicts: links });
                proof {
                    assert(rows@.map_values(|r: PortRow| port_row_view(units@, r)) =~= before.map_values(
                        |r: PortRow| port_row_view(units@, r),
                    ).push(port_row_view(units@, rows@.last())));
                    assert(uv[i as int] == units@[i as int]@);
                }
            },
            None => {},
        }
        k = k + 1;
    }
    assert(order@.take(k as int) =~= order@);
    rows
}


/// The position of the first unit named `f`.
pub open spec fn first_index(units: Seq<UnitView>, f: Seq<char>, n: int) -> Option<int>
    decreases n,
{
    if n <= 0 || n > units.len() {
        None
    } else {
        match first_index(units, f, n - 1) {
            Some(i) => Some(i),
            None => if units[n - 1].file_name == f {
                Some(n - 1)
            } else {
                None
            },
        }
    }
}

fn first_unit_index(units: &[QuadletUnit], f: &[char]) -> (r: Option<usize>)
    ensures
        match r {
            Some(i) => first_index(units_view(units@), f@, units@.len() as int) == Some(i as int)
                && i < units@.len(),
            None => first_index(units_view(units@), f@, units@.len() as int) is None,
        },
{
    let ghost uv = units_view(units@);
    let mut i: usize = 0;
    while i < units.len()
        invariant
            i <= units@.len(),
            uv == units_view(units@),
            first_index(uv, f@, i as int) is None,
        decreases units.len() - i,
    {
        let n = text::to_chars(units[i].file_name.as_str());
        assert(uv[i as int].file_name == n@);
        if text::chars_eq(n.as_slice(), f) {
            proof {
                lemma_first_index_stays(uv, f@, i as int + 1, units@.len() as int);
            }
            return Some(i);
        }
        i = i + 1;
    }
    None
}

proof fn lemma_first_index_stays(units: Seq<UnitView>, f: Seq<char>, n: int, m: int)
    requires
        0 < n <= m <= units.len(),
        first_index(units, f, n) is Some,
    ensures
        first_index(units, f, m) == first_index(units, f, n),
    decreases m - n,
{
    if m > n {
        lemma_first_index_stays(units, f, n, m - 1);
    }
}

/// The images of the named members (each looked up as the first unit of
/// that name), in order; members not found or without an image add none.
pub open spec fn member_images_of(units: Seq<UnitView>, images: Seq<Option<Seq<char>>>, names: Seq<Seq<char>>) -> Seq<Seq<char>>
    decreases names.len(),
{
    if names.len() == 0 {
        Seq::empty()
    } else {
        let rest = member_images_of(units, images, names.drop_last());
        match first_index(units, names.last(), units.len() as int) {
            Some(j) => match images[j] {
                Some(im) => rest.push(im),
                None => rest,
            },
            None => rest,
        }
    }
}

/// The images of the members of every pod among the first `n` units that
/// publishes a port.
pub open spec fn published_pod_images(
    units: Seq<UnitView>,
    files: Seq<Seq<char>>,
    members: Seq<Seq<Seq<char>>>,
    images: Seq<Option<Seq<char>>>,
    n: int,
) -> Seq<Seq<char>>
    decreases n,
{
    if n <= 0 || n > units.len() {
        Seq::empty()
    } else {
        let rest = published_pod_images(units, files, members, images, n - 1);
        let u = units[n - 1];
        if u.kind == UnitKind::Pod && files.contains(u.file_name) {
            rest + member_images_of(units, images, members[n - 1])
        } else {
            rest
        }
    }
}

pub open spec fn opt_strings_view(v: Seq<Option<String>>) -> Seq<Option<Seq<char>>> {
    v.map_values(|o: Option<String>| opt_view(o))
}

pub open spec fn members_view(v: Seq<Vec<String>>) -> Seq<Seq<Seq<char>>> {
    v.map_values(|m: Vec<String>| strings_view(m@))
}

fn contains_file(mappings: &[PortMappingRow], f: &[char]) -> (r: bool)
    ensures
        r == mapping_files(mappings@).contains(f@),
{
    let ghost files = mapping_files(mappings@);
    let mut i: usize = 0;
    while i < mappings.len()
        invariant
            i <= mappings@.len(),
            files == mapping_files(mappings@),
            forall|q: int| 0 <= q < i ==> files[q] != f@,
        decreases mappings.len() - i,
    {
        let n = text::to_chars(mappings[i].file_name.as_str());
        assert(files[i as int] == n@);
        if text::chars_eq(n.as_slice(), f) {
            return true;
        }
        i = i + 1;
    }
    false
}

/// The distinct images to inspect for the Ports page: those of the members
/// of every pod that publishes a port, each once, sorted. `pod_members[i]`
/// lists the members of `units[i]` and `member_image[i]` is the image
/// `units[i]` runs.
pub fn pod_member_images(
    units: &[QuadletUnit],
    mappings: &[PortMappingRow],
    pod_members: &[Vec<String>],
    member_image: &[Option<String>],
) -> (r: Vec<String>)
    requires
        pod_members@.len() == units@.len(),
        member_image@.len() == units@.len(),
    ensures
        strictly_sorted(strings_view(r@)),
        forall|s: Seq<char>|
            strings_view(r@).contains(s) <==> published_pod_images(
                units_view(units@),
                mapping_files(mappings@),
                members_view(pod_members@),
                opt_strings_view(member_image@),
                units@.len() as int,
            ).contains(s),
{
    let ghost uv = units_view(units@);
    let ghost files = mapping_files(mappings@);
    let ghost mv = members_view(pod_members@);
    let ghost iv = opt_strings_view(member_image@);
    let mut out: Vec<String> = Vec::new();
    let mut i: usize = 0;
    while i < units.len()
        invariant
            i <= units@.len(),
            pod_members@.len() == units@.len(),
            member_image@.len() == units@.len(),
            uv == units_view(units@),
            files == mapping_files(mappings@),
            mv == members_view(pod_members@),
            iv == opt_strings_view(member_image@),
            strictly_sorted(strings_view(out@)),
            forall|s: Seq<char>|
                strings_view(out@).contains(s) <==> published_pod_images(uv, files, mv, iv, i as int).contains(s),
        decreases units.len() - i,
    {
        let fc = text::to_chars(units[i].file_name.as_str());
        assert(uv[i as int].file_name == fc@);
        let ghost prev = published_pod_images(uv, files, mv, iv, i as int);
        if units[i].kind == UnitKind::Pod && contains_file(mappings, fc.as_slice()) {
            let ms = &pod_members[i];
            assert(mv[i as int] == strings_view(ms@));
            let mut j: usize = 0;
            while j < ms.len()
                invariant
                    j <= ms@.len(),
                    i < units@.len(),
                    member_image@.len() == units@.len(),
                    uv == units_view(units@),
                    iv == opt_strings_view(member_image@),
                    mv[i as int] == strings_view(ms@),
                    strictly_sorted(strings_view(out@)),
                    forall|s: Seq<char>|
                        strings_view(out@).contains(s) <==> (prev + member_images_of(uv, iv, strings_view(ms@).take(j as int))).contains(s),
                decreases ms.len() - j,
            {
                let ghost before = strings_view(out@);
                let ghost t0 = strings_view(ms@).take(j as int);
                let ghost t1 = strings_view(ms@).take(j + 1);
                proof {
                    assert(t1.drop_last() =~= t0);
                    assert(t1.last() == ms@[j as int]@);
                }
                let nc = text::to_chars(ms[j].as_str());
                match first_unit_index(units, nc.as_slice()) {
                    Some(k) => {
                        assert(iv[k as int] == opt_view(member_image@[k as int]));
                        match &member_image[k] {
                            Some(im) => {
                                insert_sorted(&mut out, im.as_str());
                                proof {
                                    let a = member_images_of(uv, iv, t0);
                                    assert(member_images_of(uv, iv, t1) == a.push(im@));
                                    assert(prev + a.push(im@) =~= (prev + a).push(im@));
                                    assert forall|s: Seq<char>| strings_view(out@).contains(s) <==> (prev + member_images_of(uv, iv, t1)).contains(s) by {
                                        let big = (prev + a).push(im@);
                                        if (prev + a).contains(s) {
                                            let q = choose|q: int| 0 <= q < (prev + a).len() && (prev + a)[q] == s;
                                            assert(big[q] == s);
                                        }
                                        if big.contains(s) && s != im@ {
                                            let q = choose|q: int| 0 <= q < big.len() && big[q] == s;
                                            assert((prev + a)[q] == s);
                                        }
                                        if s == im@ {
                                            assert(big[big.len() - 1] == s);
                                        }
                                    }
                                }
                            },
                            None => {
                                assert(member_images_of(uv, iv, t1) == member_images_of(uv, iv, t0));
                            },
                        }
                    },
                    None => {
                        assert(member_images_of(uv, iv, t1) == member_images_of(uv, iv, t0));
                    },
                }
                j = j + 1;
            }
            assert(strings_view(ms@).take(j as int) =~= strings_view(ms@));
            assert(published_pod_images(uv, files, mv, iv, i + 1) == prev + member_images_of(uv, iv, mv[i as int]));
        } else {
            assert(published_pod_images(uv, files, mv, iv, i + 1) == prev);
        }
        i = i + 1;
    }
    out
}

} // verus!
