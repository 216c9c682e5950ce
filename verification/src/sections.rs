//! The group sections of a unit list: every group a listed unit is filed
//! under plus every group directory on disk, each once, in path order: by
//! segments, so each parent path comes right before its own subgroups.
use vstd::prelude::*;

use crate::display::{count_in_group, GroupLists};
use crate::groups::{has_dir_prefix, strings_view};
use crate::status::UnitStatus;
use crate::text;
use crate::unit::QuadletUnit;

verus! {

/// Character order in a path: the separator `/` before every other
/// character, the rest by code point.
pub open spec fn char_before(x: char, y: char) -> bool {
    x != y && (x == '/' || (y != '/' && x < y))
}

/// Path order: character by character in [`char_before`] order, a proper
/// prefix first. Comparing segment by segment this way puts `a` before
/// `a/b` before `a-c`: a parent is followed by its own subgroups first.
pub open spec fn lex_lt(a: Seq<char>, b: Seq<char>) -> bool
    decreases a.len(),
{
    if a.len() == 0 {
        b.len() > 0
    } else if b.len() == 0 {
        false
    } else if a[0] == b[0] {
        lex_lt(a.drop_first(), b.drop_first())
    } else {
        char_before(a[0], b[0])
    }
}

pub proof fn lemma_lex_irreflexive(a: Seq<char>)
    ensures
        !lex_lt(a, a),
    decreases a.len(),
{
    if a.len() > 0 {
        lemma_lex_irreflexive(a.drop_first());
    }
}

pub proof fn lemma_lex_transitive(a: Seq<char>, b: Seq<char>, c: Seq<char>)
    requires
        lex_lt(a, b),
        lex_lt(b, c),
    ensures
        lex_lt(a, c),
    decreases a.len(),
{
    if a.len() > 0 && b.len() > 0 && c.len() > 0 {
        if a[0] == b[0] && b[0] == c[0] {
            lemma_lex_transitive(a.drop_first(), b.drop_first(), c.drop_first());
        }
    }
}

pub proof fn lemma_lex_total(a: Seq<char>, b: Seq<char>)
    requires
        a != b,
    ensures
        lex_lt(a, b) || lex_lt(b, a),
    decreases a.len(),
{
    if a.len() > 0 && b.len() > 0 && a[0] == b[0] {
        if a.drop_first() == b.drop_first() {
            assert(a =~= seq![a[0]] + a.drop_first());
            assert(b =~= seq![b[0]] + b.drop_first());
        }
        lemma_lex_total(a.drop_first(), b.drop_first());
    } else if a.len() == 0 && b.len() == 0 {
        assert(a =~= b);
    } else if a.len() > 0 && b.len() > 0 {
    }
}

pub proof fn lemma_lex_asymmetric(a: Seq<char>, b: Seq<char>)
    requires
        lex_lt(a, b),
    ensures
        !lex_lt(b, a),
{
    if lex_lt(b, a) {
        lemma_lex_transitive(a, b, a);
        lemma_lex_irreflexive(a);
    }
}

fn char_before_exec(x: char, y: char) -> (r: bool)
    ensures
        r == char_before(x, y),
{
    x != y && (x == '/' || (y != '/' && x < y))
}

/// `a` comes strictly before `b` in path order.
pub fn str_lt(a: &[char], b: &[char]) -> (r: bool)
    ensures
        r == lex_lt(a@, b@),
{
    let mut i: usize = 0;
    assert(a@.skip(0) =~= a@);
    assert(b@.skip(0) =~= b@);
    while i < a.len() && i < b.len()
        invariant
            i <= a@.len(),
            i <= b@.len(),
            a@.take(i as int) == b@.take(i as int),
            lex_lt(a@, b@) == lex_lt(a@.skip(i as int), b@.skip(i as int)),
        decreases a.len() - i,
    {
        let ghost sa = a@.skip(i as int);
        let ghost sb = b@.skip(i as int);
        assert(sa[0] == a@[i as int] && sb[0] == b@[i as int]);
        if a[i] != b[i] {
            return char_before_exec(a[i], b[i]);
        }
        assert(sa.drop_first() =~= a@.skip(i + 1));
        assert(sb.drop_first() =~= b@.skip(i + 1));
        assert(a@.take(i + 1) =~= a@.take(i as int).push(a@[i as int]));
        assert(b@.take(i + 1) =~= b@.take(i as int).push(b@[i as int]));
        i = i + 1;
    }
    i < b.len()
}

/// Strictly increasing in path order (so also free of repeats).
pub open spec fn strictly_sorted(s: Seq<Seq<char>>) -> bool {
    forall|i: int, j: int| 0 <= i < j < s.len() ==> lex_lt(#[trigger] s[i], #[trigger] s[j])
}

/// Adds `x` to a strictly sorted list unless it is already there.
pub fn insert_sorted(v: &mut Vec<String>, x: &str)
    requires
        strictly_sorted(strings_view(old(v)@)),
    ensures
        strictly_sorted(strings_view(final(v)@)),
        forall|s: Seq<char>|
            strings_view(final(v)@).contains(s) <==> (strings_view(old(v)@).contains(s) || s
                == x@),
{
    let xc = text::to_chars(x);
    let ghost old_v = strings_view(v@);
    let mut k: usize = 0;
    while k < v.len()
        invariant
            k <= v@.len(),
            strings_view(v@) == old_v,
            strictly_sorted(old_v),
            xc@ == x@,
            forall|i: int| 0 <= i < k ==> lex_lt(#[trigger] old_v[i], x@),
        ensures
            k <= v@.len(),
            strings_view(v@) == old_v,
            forall|i: int| 0 <= i < k ==> lex_lt(#[trigger] old_v[i], x@),
            k < v@.len() ==> !lex_lt(old_v[k as int], x@),
        decreases v.len() - k,
    {
        let e = text::to_chars(v[k].as_str());
        assert(old_v[k as int] == e@);
        if !str_lt(e.as_slice(), xc.as_slice()) {
            break;
        }
        k = k + 1;
    }
    if k < v.len() {
        let e = text::to_chars(v[k].as_str());
        assert(old_v[k as int] == e@);
        if text::chars_eq(e.as_slice(), xc.as_slice()) {
            assert(old_v.contains(x@)) by {
                assert(old_v[k as int] == x@);
            }
            return;
        }
        proof {
            lemma_lex_total(e@, x@);
        }
    }
    // Here every element before `k` is below `x`, and (when `k` is in
    // range) `x` is below the element at `k`.
    v.insert(k, text::owned(x));
    proof {
        let nv = strings_view(v@);
        assert(nv =~= old_v.insert(k as int, x@));
        assert forall|i: int, j: int| 0 <= i < j < nv.len() implies lex_lt(
            #[trigger] nv[i],
            #[trigger] nv[j],
        ) by {
            if j < k {
                assert(nv[i] == old_v[i] && nv[j] == old_v[j]);
            } else if j == k {
                assert(nv[i] == old_v[i]);
            } else if i == k {
                assert(nv[j] == old_v[j - 1]);
                if j - 1 > k {
                    lemma_lex_transitive(x@, old_v[k as int], old_v[j - 1]);
                }
            } else if i < k {
                assert(nv[i] == old_v[i] && nv[j] == old_v[j - 1]);
            } else {
                assert(nv[i] == old_v[i - 1] && nv[j] == old_v[j - 1]);
            }
        }
        assert forall|s: Seq<char>| nv.contains(s) <==> (old_v.contains(s) || s == x@) by {
            if nv.contains(s) {
                let i = choose|i: int| 0 <= i < nv.len() && nv[i] == s;
                if i < k {
                    assert(old_v[i] == s);
                } else if i > k {
                    assert(old_v[i - 1] == s);
                }
            }
            if old_v.contains(s) {
                let i = choose|i: int| 0 <= i < old_v.len() && old_v[i] == s;
                if i < k {
                    assert(nv[i] == s);
                } else {
                    assert(nv[i + 1] == s);
                }
            }
            if s == x@ {
                assert(nv[k as int] == s);
            }
        }
    }
}

/// Two strictly sorted lists holding the same strings are the same list:
/// the group sections are exactly the sorted, de-duplicated groups.
pub proof fn lemma_sorted_lists_with_same_members_are_equal(a: Seq<Seq<char>>, b: Seq<Seq<char>>)
    requires
        strictly_sorted(a),
        strictly_sorted(b),
        forall|s: Seq<char>| a.contains(s) <==> b.contains(s),
    ensures
        a == b,
    decreases a.len(),
{
    if a.len() == 0 {
        if b.len() > 0 {
            assert(b.contains(b[0]));
        }
        assert(a =~= b);
    } else {
        assert(a.contains(a[0]));
        let j = choose|j: int| 0 <= j < b.len() && b[j] == a[0];
        assert(b.contains(b[0]));
        let i = choose|i: int| 0 <= i < a.len() && a[i] == b[0];
        if j > 0 && i > 0 {
            assert(lex_lt(b[0], b[j]));
            assert(lex_lt(a[0], a[i]));
            lemma_lex_asymmetric(a[0], b[0]);
        }
        assert(a[0] == b[0]);
        let ta = a.drop_first();
        let tb = b.drop_first();
        assert forall|x: int, y: int| 0 <= x < y < ta.len() implies lex_lt(#[trigger] ta[x], #[trigger] ta[y]) by {
            assert(ta[x] == a[x + 1] && ta[y] == a[y + 1]);
        }
        assert forall|x: int, y: int| 0 <= x < y < tb.len() implies lex_lt(#[trigger] tb[x], #[trigger] tb[y]) by {
            assert(tb[x] == b[x + 1] && tb[y] == b[y + 1]);
        }
        assert forall|s: Seq<char>| ta.contains(s) <==> tb.contains(s) by {
            if ta.contains(s) {
                let x = choose|x: int| 0 <= x < ta.len() && ta[x] == s;
                assert(a[x + 1] == s);
                assert(lex_lt(a[0], s));
                lemma_lex_irreflexive(s);
                assert(b.contains(s));
                let y = choose|y: int| 0 <= y < b.len() && b[y] == s;
                assert(y != 0);
                assert(tb[y - 1] == s);
            }
            if tb.contains(s) {
                let y = choose|y: int| 0 <= y < tb.len() && tb[y] == s;
                assert(b[y + 1] == s);
                assert(lex_lt(b[0], s));
                lemma_lex_irreflexive(s);
                assert(a.contains(s));
                let x = choose|x: int| 0 <= x < a.len() && a[x] == s;
                assert(x != 0);
                assert(ta[x - 1] == s);
            }
        }
        lemma_sorted_lists_with_same_members_are_equal(ta, tb);
        assert(a =~= seq![a[0]] + ta);
        assert(b =~= seq![b[0]] + tb);
    }
}

proof fn lemma_between_parent_and_child(p: Seq<char>, s: Seq<char>, c: Seq<char>)
    requires
        lex_lt(p, s),
        lex_lt(s, c),
        has_dir_prefix(c, p),
    ensures
        has_dir_prefix(s, p),
    decreases p.len(),
{
    let n = p.len() as int;
    assert(c.take(n + 1)[0] == p.push('/')[0]);
    if n == 0 {
        assert(c[0] == '/');
        if s[0] != c[0] {
            assert(!char_before(s[0], c[0]));
        }
        assert(s.take(1) =~= p.push('/'));
    } else {
        assert(c[0] == p[0]);
        if s[0] != p[0] {
            assert(char_before(p[0], s[0]));
            assert(char_before(s[0], c[0]));
            assert(false);
        }
        let (p1, s1, c1) = (p.drop_first(), s.drop_first(), c.drop_first());
        assert(c1.take(n) =~= c.take(n + 1).drop_first());
        assert(p1.push('/') =~= p.push('/').drop_first());
        lemma_between_parent_and_child(p1, s1, c1);
        assert(s.take(n + 1) =~= seq![s[0]] + s1.take(n));
        assert(p.push('/') =~= seq![p[0]] + p1.push('/'));
    }
}

/// In path order a group is followed directly by its own subgroups: any
/// group that sorts between a group and one of its subgroups lies inside
/// that group too.
pub proof fn lemma_subgroups_follow_their_group(secs: Seq<Seq<char>>)
    requires
        strictly_sorted(secs),
    ensures
        forall|i: int, j: int, k: int|
            0 <= i < j < k < secs.len() && has_dir_prefix(#[trigger] secs[k], #[trigger] secs[i])
                ==> has_dir_prefix(#[trigger] secs[j], secs[i]),
{
    assert forall|i: int, j: int, k: int|
        0 <= i < j < k < secs.len() && has_dir_prefix(#[trigger] secs[k], #[trigger] secs[i]) implies has_dir_prefix(#[trigger] secs[j], secs[i]) by {
        lemma_between_parent_and_child(secs[i], secs[j], secs[k]);
    }
}

/// The group sections for units filed under `unit_groups` and the known
/// group directories: the one strictly path-ordered list holding exactly
/// the non-root unit groups and the known ones.
pub open spec fn section_list(unit_groups: Seq<Seq<char>>, known: Seq<Seq<char>>) -> Seq<Seq<char>> {
    choose|s: Seq<Seq<char>>|
        strictly_sorted(s) && forall|x: Seq<char>|
            s.contains(x) <==> ((unit_groups.contains(x) && x.len() > 0) || known.contains(x))
}

/// The group of each listed unit.
pub open spec fn unit_groups(units: Seq<(QuadletUnit, UnitStatus)>) -> Seq<Seq<char>> {
    units.map_values(|p: (QuadletUnit, UnitStatus)| p.0.group@)
}

/// The group sections to render: every non-root group a listed unit is in
/// and every known group directory, each once, in path order.
pub fn section_groups(units: &[(QuadletUnit, UnitStatus)], known_groups: &[String]) -> (r: Vec<
    String,
>)
    ensures
        strictly_sorted(strings_view(r@)),
        forall|s: Seq<char>|
            strings_view(r@).contains(s) <==> ((unit_groups(units@).contains(s) && s.len() > 0)
                || strings_view(known_groups@).contains(s)),
        strings_view(r@) == section_list(unit_groups(units@), strings_view(known_groups@)),
{
    let ghost ug = unit_groups(units@);
    let ghost kg = strings_view(known_groups@);
    let mut out: Vec<String> = Vec::new();
    let mut i: usize = 0;
    while i < units.len()
        invariant
            i <= units@.len(),
            ug == unit_groups(units@),
            strictly_sorted(strings_view(out@)),
            forall|s: Seq<char>|
                strings_view(out@).contains(s) <==> (ug.take(i as int).contains(s) && s.len() > 0),
        decreases units.len() - i,
    {
        let g = units[i].0.group.as_str();
        let ghost before = strings_view(out@);
        proof {
            assert(ug[i as int] == g@);
            assert(ug.take(i + 1) =~= ug.take(i as int).push(g@));
        }
        if g.unicode_len() > 0 {
            insert_sorted(&mut out, g);
        }
        proof {
            let t1 = ug.take(i + 1);
            let t0 = ug.take(i as int);
            assert forall|s: Seq<char>|
                strings_view(out@).contains(s) <==> (t1.contains(s) && s.len() > 0) by {
                if t1.contains(s) && !t0.contains(s) {
                    let k = choose|k: int| 0 <= k < t1.len() && t1[k] == s;
                    if k < i {
                        assert(t0[k] == s);
                    }
                }
                if t0.contains(s) {
                    let k = choose|k: int| 0 <= k < t0.len() && t0[k] == s;
                    assert(t1[k] == s);
                }
                if s == g@ {
                    assert(t1[i as int] == s);
                }
            }
        }
        i = i + 1;
    }
    assert(ug.take(i as int) =~= ug);
    let mut j: usize = 0;
    while j < known_groups.len()
        invariant
            i == units@.len(),
            j <= known_groups@.len(),
            ug == unit_groups(units@),
            kg == strings_view(known_groups@),
            strictly_sorted(strings_view(out@)),
            forall|s: Seq<char>|
                strings_view(out@).contains(s) <==> ((ug.contains(s) && s.len() > 0) || kg.take(
                    j as int,
                ).contains(s)),
        decreases known_groups.len() - j,
    {
        let g = known_groups[j].as_str();
        proof {
            assert(kg[j as int] == g@);
            assert(kg.take(j + 1) =~= kg.take(j as int).push(g@));
        }
        let ghost before = strings_view(out@);
        insert_sorted(&mut out, g);
        proof {
            let t1 = kg.take(j + 1);
            let t0 = kg.take(j as int);
            assert forall|s: Seq<char>|
                strings_view(out@).contains(s) <==> ((ug.contains(s) && s.len() > 0) || t1.contains(
                    s,
                )) by {
                assert(before.contains(s) <==> ((ug.contains(s) && s.len() > 0) || t0.contains(s)));
                assert(strings_view(out@).contains(s) <==> (before.contains(s) || s == g@));
                if t1.contains(s) && !t0.contains(s) {
                    let k = choose|k: int| 0 <= k < t1.len() && t1[k] == s;
                    if k < j {
                        assert(t0[k] == s);
                    }
                }
                if t0.contains(s) {
                    let k = choose|k: int| 0 <= k < t0.len() && t0[k] == s;
                    assert(t1[k] == s);
                }
                if s == g@ {
                    assert(t1[j as int] == s);
                }
            }
        }
        j = j + 1;
    }
    assert(kg.take(j as int) =~= kg);
    proof {
        lemma_section_list_is(strings_view(out@), ug, kg);
    }
    out
}

proof fn lemma_section_list_is(r: Seq<Seq<char>>, ug: Seq<Seq<char>>, kg: Seq<Seq<char>>)
    requires
        strictly_sorted(r),
        forall|x: Seq<char>| r.contains(x) <==> ((ug.contains(x) && x.len() > 0) || kg.contains(x)),
    ensures
        r == section_list(ug, kg),
{
    let c = section_list(ug, kg);
    assert(strictly_sorted(c) && forall|x: Seq<char>|
        c.contains(x) <==> ((ug.contains(x) && x.len() > 0) || kg.contains(x)));
    lemma_sorted_lists_with_same_members_are_equal(r, c);
}


/// One row of a unit list.
pub enum ListRow {
    /// The empty-list hint, shown alone.
    EmptyHint,
    /// The unit at this position, filed under a group (`None`: the root).
    Unit { index: usize, group: Option<String> },
    /// A collapsible group header with the number of units in or below it,
    /// and whether the group is a git-synced directory.
    GroupHeader { path: String, count: usize, synced: bool },
    /// The placeholder of a group with nothing in or below it.
    GroupEmpty { path: String },
}

/// [`ListRow`] as plain values.
pub enum ListRowView {
    EmptyHint,
    Unit(int, Option<Seq<char>>),
    Header(Seq<char>, nat, bool),
    Empty(Seq<char>),
}

pub open spec fn list_row_view(r: ListRow) -> ListRowView {
    match r {
        ListRow::EmptyHint => ListRowView::EmptyHint,
        ListRow::Unit { index, group } => ListRowView::Unit(
            index as int,
            match group {
                Some(g) => Some(g@),
                None => None,
            },
        ),
        ListRow::GroupHeader { path, count, synced } => ListRowView::Header(
            path@,
            count as nat,
            synced,
        ),
        ListRow::GroupEmpty { path } => ListRowView::Empty(path@),
    }
}

pub open spec fn list_rows_view(v: Seq<ListRow>) -> Seq<ListRowView> {
    v.map_values(|r: ListRow| list_row_view(r))
}

/// The root units among the first `n`, in order.
pub open spec fn root_rows(ug: Seq<Seq<char>>, n: int) -> Seq<ListRowView>
    decreases n,
{
    if n <= 0 || n > ug.len() {
        Seq::empty()
    } else if ug[n - 1].len() == 0 {
        root_rows(ug, n - 1).push(ListRowView::Unit(n - 1, None))
    } else {
        root_rows(ug, n - 1)
    }
}

/// The units among the first `n` filed directly under `g`, in order.
pub open spec fn member_rows(ug: Seq<Seq<char>>, g: Seq<char>, n: int) -> Seq<ListRowView>
    decreases n,
{
    if n <= 0 || n > ug.len() {
        Seq::empty()
    } else if ug[n - 1] == g {
        member_rows(ug, g, n - 1).push(ListRowView::Unit(n - 1, Some(g)))
    } else {
        member_rows(ug, g, n - 1)
    }
}

/// One group's rows: its header with the count of units in or below it
/// and its synced mark, then its own units, or the empty placeholder when
/// nothing lies in or below it.
pub open spec fn one_group_rows(ug: Seq<Seq<char>>, synced: Seq<Seq<char>>, g: Seq<char>) -> Seq<
    ListRowView,
> {
    let count = count_in_group(ug, g);
    let members = member_rows(ug, g, ug.len() as int);
    seq![ListRowView::Header(g, count, synced.contains(g))] + if members.len() == 0 && count == 0 {
        seq![ListRowView::Empty(g)]
    } else {
        members
    }
}

/// The rows of the first `n` group sections.
pub open spec fn group_rows(
    ug: Seq<Seq<char>>,
    synced: Seq<Seq<char>>,
    secs: Seq<Seq<char>>,
    n: int,
) -> Seq<ListRowView>
    decreases n,
{
    if n <= 0 || n > secs.len() {
        Seq::empty()
    } else {
        group_rows(ug, synced, secs, n - 1) + one_group_rows(ug, synced, secs[n - 1])
    }
}

/// A unit list's rows: the empty hint alone when there is no unit and no
/// group; otherwise the root units in order, then each group section in
/// path order.
pub open spec fn list_rows_spec(
    ug: Seq<Seq<char>>,
    known: Seq<Seq<char>>,
    synced: Seq<Seq<char>>,
) -> Seq<ListRowView> {
    let secs = section_list(ug, known);
    if ug.len() == 0 && secs.len() == 0 {
        seq![ListRowView::EmptyHint]
    } else {
        root_rows(ug, ug.len() as int) + group_rows(ug, synced, secs, secs.len() as int)
    }
}

/// The row a unit is listed in: bare at the root, or under its own group.
pub open spec fn unit_row_of(ug: Seq<Seq<char>>, i: int) -> ListRowView {
    ListRowView::Unit(i, if ug[i].len() == 0 { None } else { Some(ug[i]) })
}

proof fn lemma_root_rows_have(ug: Seq<Seq<char>>, n: int, i: int)
    requires
        0 <= i < n <= ug.len(),
        ug[i].len() == 0,
    ensures
        root_rows(ug, n).contains(ListRowView::Unit(i, None)),
    decreases n,
{
    if i == n - 1 {
        assert(root_rows(ug, n).last() == ListRowView::Unit(i, None));
    } else {
        lemma_root_rows_have(ug, n - 1, i);
        let prev = root_rows(ug, n - 1);
        let w = choose|q: int| 0 <= q < prev.len() && prev[q] == ListRowView::Unit(i, None);
        if ug[n - 1].len() == 0 {
            assert(root_rows(ug, n)[w] == ListRowView::Unit(i, None));
        }
    }
}

proof fn lemma_member_rows_have(ug: Seq<Seq<char>>, g: Seq<char>, n: int, i: int)
    requires
        0 <= i < n <= ug.len(),
        ug[i] == g,
    ensures
        member_rows(ug, g, n).contains(ListRowView::Unit(i, Some(g))),
    decreases n,
{
    if i == n - 1 {
        assert(member_rows(ug, g, n).last() == ListRowView::Unit(i, Some(g)));
    } else {
        lemma_member_rows_have(ug, g, n - 1, i);
        let prev = member_rows(ug, g, n - 1);
        let w = choose|q: int| 0 <= q < prev.len() && prev[q] == ListRowView::Unit(i, Some(g));
        if ug[n - 1] == g {
            assert(member_rows(ug, g, n)[w] == ListRowView::Unit(i, Some(g)));
        }
    }
}

proof fn lemma_count_covers_members(ug: Seq<Seq<char>>, g: Seq<char>, i: int)
    requires
        0 <= i < ug.len(),
        ug[i] == g,
    ensures
        count_in_group(ug, g) > 0,
    decreases ug.len(),
{
    if i < ug.len() - 1 {
        assert(ug.drop_last()[i] == g);
        lemma_count_covers_members(ug.drop_last(), g, i);
    }
}

proof fn lemma_group_rows_have(
    ug: Seq<Seq<char>>,
    synced: Seq<Seq<char>>,
    secs: Seq<Seq<char>>,
    n: int,
    k: int,
    x: ListRowView,
)
    requires
        0 <= k < n <= secs.len(),
        one_group_rows(ug, synced, secs[k]).contains(x),
    ensures
        group_rows(ug, synced, secs, n).contains(x),
    decreases n,
{
    let head = group_rows(ug, synced, secs, n - 1);
    let tail = one_group_rows(ug, synced, secs[n - 1]);
    if k == n - 1 {
        let w = choose|q: int| 0 <= q < tail.len() && tail[q] == x;
        assert((head + tail)[head.len() + w] == x);
    } else {
        lemma_group_rows_have(ug, synced, secs, n - 1, k, x);
        let w = choose|q: int| 0 <= q < head.len() && head[q] == x;
        assert((head + tail)[w] == x);
    }
}

proof fn lemma_every_unit_listed(ug: Seq<Seq<char>>, synced: Seq<Seq<char>>, secs: Seq<Seq<char>>, i: int)
    requires
        0 <= i < ug.len(),
        forall|x: Seq<char>| ug.contains(x) && x.len() > 0 ==> secs.contains(x),
    ensures
        (root_rows(ug, ug.len() as int) + group_rows(ug, synced, secs, secs.len() as int)).contains(
            unit_row_of(ug, i),
        ),
{
    let roots = root_rows(ug, ug.len() as int);
    let groups = group_rows(ug, synced, secs, secs.len() as int);
    if ug[i].len() == 0 {
        lemma_root_rows_have(ug, ug.len() as int, i);
        let w = choose|q: int| 0 <= q < roots.len() && roots[q] == unit_row_of(ug, i);
        assert((roots + groups)[w] == unit_row_of(ug, i));
    } else {
        let g = ug[i];
        assert(ug.contains(g));
        let k = choose|q: int| 0 <= q < secs.len() && secs[q] == g;
        lemma_count_covers_members(ug, g, i);
        lemma_member_rows_have(ug, g, ug.len() as int, i);
        let members = member_rows(ug, g, ug.len() as int);
        let w = choose|q: int| 0 <= q < members.len() && members[q] == unit_row_of(ug, i);
        let one = one_group_rows(ug, synced, g);
        assert(one[1 + w] == unit_row_of(ug, i));
        lemma_group_rows_have(ug, synced, secs, secs.len() as int, k, unit_row_of(ug, i));
        let v = choose|q: int| 0 <= q < groups.len() && groups[q] == unit_row_of(ug, i);
        assert((roots + groups)[roots.len() + v] == unit_row_of(ug, i));
    }
}

/// 1 when `row` lists the unit at position `i`, else 0.
pub open spec fn unit_hit(row: ListRowView, i: int) -> nat {
    match row {
        ListRowView::Unit(j, _) => if j == i {
            1nat
        } else {
            0nat
        },
        _ => 0nat,
    }
}

/// How many rows list the unit at position `i`.
pub open spec fn times_listed(rows: Seq<ListRowView>, i: int) -> nat
    decreases rows.len(),
{
    if rows.len() == 0 {
        0
    } else {
        times_listed(rows.drop_last(), i) + unit_hit(rows.last(), i)
    }
}

/// How many of the first `n` sections are `g`.
pub open spec fn section_hits(secs: Seq<Seq<char>>, g: Seq<char>, n: int) -> nat
    decreases n,
{
    if n <= 0 || n > secs.len() {
        0
    } else {
        section_hits(secs, g, n - 1) + if secs[n - 1] == g {
            1nat
        } else {
            0nat
        }
    }
}

proof fn lemma_times_push(rows: Seq<ListRowView>, x: ListRowView, i: int)
    ensures
        times_listed(rows.push(x), i) == times_listed(rows, i) + unit_hit(x, i),
        times_listed(seq![x], i) == unit_hit(x, i),
{
    assert(rows.push(x).drop_last() =~= rows);
    assert(seq![x].drop_last() =~= Seq::<ListRowView>::empty());
    assert(times_listed(Seq::<ListRowView>::empty(), i) == 0);
}

proof fn lemma_times_concat(a: Seq<ListRowView>, b: Seq<ListRowView>, i: int)
    ensures
        times_listed(a + b, i) == times_listed(a, i) + times_listed(b, i),
    decreases b.len(),
{
    if b.len() == 0 {
        assert(a + b =~= a);
    } else {
        lemma_times_concat(a, b.drop_last(), i);
        assert((a + b).drop_last() =~= a + b.drop_last());
        assert((a + b).last() == b.last());
    }
}

proof fn lemma_root_rows_times(ug: Seq<Seq<char>>, n: int, i: int)
    requires
        0 <= n <= ug.len(),
    ensures
        times_listed(root_rows(ug, n), i) == if 0 <= i < n && ug[i].len() == 0 {
            1nat
        } else {
            0nat
        },
    decreases n,
{
    if n > 0 {
        lemma_root_rows_times(ug, n - 1, i);
        if ug[n - 1].len() == 0 {
            lemma_times_push(root_rows(ug, n - 1), ListRowView::Unit(n - 1, None), i);
        }
    }
}

proof fn lemma_member_rows_times(ug: Seq<Seq<char>>, g: Seq<char>, n: int, i: int)
    requires
        0 <= n <= ug.len(),
    ensures
        times_listed(member_rows(ug, g, n), i) == if 0 <= i < n && ug[i] == g {
            1nat
        } else {
            0nat
        },
    decreases n,
{
    if n > 0 {
        lemma_member_rows_times(ug, g, n - 1, i);
        if ug[n - 1] == g {
            lemma_times_push(member_rows(ug, g, n - 1), ListRowView::Unit(n - 1, Some(g)), i);
        }
    }
}

proof fn lemma_group_rows_times(ug: Seq<Seq<char>>, synced: Seq<Seq<char>>, secs: Seq<Seq<char>>, n: int, i: int)
    requires
        0 <= n <= secs.len(),
        0 <= i < ug.len(),
    ensures
        times_listed(group_rows(ug, synced, secs, n), i) == section_hits(secs, ug[i], n),
    decreases n,
{
    if n > 0 {
        let g = secs[n - 1];
        lemma_group_rows_times(ug, synced, secs, n - 1, i);
        let members = member_rows(ug, g, ug.len() as int);
        let hx = ListRowView::Header(g, count_in_group(ug, g), synced.contains(g));
        let head = seq![hx];
        lemma_member_rows_times(ug, g, ug.len() as int, i);
        lemma_times_push(Seq::<ListRowView>::empty(), hx, i);
        assert(unit_hit(hx, i) == 0);
        if members.len() == 0 && count_in_group(ug, g) == 0 {
            lemma_times_concat(head, seq![ListRowView::Empty(g)], i);
            lemma_times_push(Seq::<ListRowView>::empty(), ListRowView::Empty(g), i);
        } else {
            lemma_times_concat(head, members, i);
        }
        lemma_times_concat(group_rows(ug, synced, secs, n - 1), one_group_rows(ug, synced, g), i);
        assert(group_rows(ug, synced, secs, n) == group_rows(ug, synced, secs, n - 1) + one_group_rows(
            ug,
            synced,
            g,
        ));
    }
}

proof fn lemma_section_hits_distinct(secs: Seq<Seq<char>>, g: Seq<char>, n: int)
    requires
        0 <= n <= secs.len(),
        strictly_sorted(secs),
    ensures
        section_hits(secs, g, n) == if exists|k: int| 0 <= k < n && secs[k] == g {
            1nat
        } else {
            0nat
        },
    decreases n,
{
    if n > 0 {
        lemma_section_hits_distinct(secs, g, n - 1);
        if secs[n - 1] == g {
            assert forall|k: int| 0 <= k < n - 1 implies secs[k] != g by {
                assert(lex_lt(secs[k], secs[n - 1]));
                if secs[k] == g {
                    lemma_lex_irreflexive(g);
                }
            }
        } else {
            if exists|k: int| 0 <= k < n && secs[k] == g {
                let k = choose|k: int| 0 <= k < n && secs[k] == g;
                assert(k < n - 1);
            }
        }
    }
}

/// With no blank known group, a unit list shows each unit exactly once.
proof fn lemma_each_unit_listed_once(ug: Seq<Seq<char>>, synced: Seq<Seq<char>>, secs: Seq<Seq<char>>, i: int)
    requires
        0 <= i < ug.len(),
        strictly_sorted(secs),
        forall|x: Seq<char>| ug.contains(x) && x.len() > 0 ==> secs.contains(x),
        forall|x: Seq<char>| secs.contains(x) ==> x.len() > 0,
    ensures
        times_listed(root_rows(ug, ug.len() as int) + group_rows(ug, synced, secs, secs.len() as int), i)
            == 1,
{
    lemma_times_concat(root_rows(ug, ug.len() as int), group_rows(ug, synced, secs, secs.len() as int), i);
    lemma_root_rows_times(ug, ug.len() as int, i);
    lemma_group_rows_times(ug, synced, secs, secs.len() as int, i);
    lemma_section_hits_distinct(secs, ug[i], secs.len() as int);
    if ug[i].len() == 0 {
        if exists|k: int| 0 <= k < secs.len() && secs[k] == ug[i] {
            let k = choose|k: int| 0 <= k < secs.len() && secs[k] == ug[i];
            assert(secs.contains(secs[k]));
        }
    } else {
        assert(ug.contains(ug[i]));
        assert(secs.contains(ug[i]));
    }
}

/// The rows a unit list shows, with each group's header marked when git
/// sync manages it. Every unit is listed, under its own group; and unless a
/// known group is blank, each unit is listed exactly once.
pub fn plan_list_rows(units: &[(QuadletUnit, UnitStatus)], groups: &GroupLists) -> (r: Vec<ListRow>)
    ensures
        list_rows_view(r@) == list_rows_spec(
            unit_groups(units@),
            strings_view(groups.known@),
            strings_view(groups.synced@),
        ),
        forall|i: int|
            0 <= i < units@.len() ==> list_rows_view(r@).contains(
                #[trigger] unit_row_of(unit_groups(units@), i),
            ),
        (forall|j: int| 0 <= j < groups.known@.len() ==> (#[trigger] groups.known@[j])@.len() > 0)
            ==> forall|i: int|
            0 <= i < units@.len() ==> #[trigger] times_listed(list_rows_view(r@), i) == 1,
{
    let known_groups = groups.known;
    let synced = groups.synced;
    let ghost ug = unit_groups(units@);
    let secs = section_groups(units, known_groups);
    let ghost sv = strings_view(secs@);
    if units.len() == 0 && secs.len() == 0 {
        let out = vec![ListRow::EmptyHint];
        assert(list_rows_view(out@) =~= seq![ListRowView::EmptyHint]);
        return out;
    }
    let mut out: Vec<ListRow> = Vec::new();
    let mut i: usize = 0;
    while i < units.len()
        invariant
            i <= units@.len(),
            ug == unit_groups(units@),
            list_rows_view(out@) == root_rows(ug, i as int),
        decreases units.len() - i,
    {
        assert(ug[i as int] == units@[i as int].0.group@);
        if units[i].0.group.as_str().unicode_len() == 0 {
            let ghost before = list_rows_view(out@);
            out.push(ListRow::Unit { index: i, group: None });
            assert(list_rows_view(out@) =~= before.push(ListRowView::Unit(i as int, None)));
        }
        i = i + 1;
    }
    let ghost roots = list_rows_view(out@);
    let mut k: usize = 0;
    while k < secs.len()
        invariant
            k <= secs@.len(),
            ug == unit_groups(units@),
            sv == strings_view(secs@),
            roots == root_rows(ug, units@.len() as int),
            list_rows_view(out@) == roots + group_rows(ug, strings_view(synced@), sv, k as int),
        decreases secs.len() - k,
    {
        let g = secs[k].as_str();
        assert(sv[k as int] == g@);
        let count = crate::display::nested_unit_count(units, g);
        assert(crate::display::row_groups(units@) =~= ug);
        let ghost before = list_rows_view(out@);
        let is_synced = crate::pods::contains_string(synced, g);
        out.push(ListRow::GroupHeader { path: text::owned(g), count, synced: is_synced });
        let ghost mid = list_rows_view(out@);
        assert(mid =~= before + seq![ListRowView::Header(g@, count as nat, is_synced)]);
        let mut pushed = false;
        let mut j: usize = 0;
        while j < units.len()
            invariant
                j <= units@.len(),
                ug == unit_groups(units@),
                list_rows_view(out@) == mid + member_rows(ug, g@, j as int),
                pushed <==> member_rows(ug, g@, j as int).len() > 0,
            decreases units.len() - j,
        {
            assert(ug[j as int] == units@[j as int].0.group@);
            if text::str_eq(units[j].0.group.as_str(), g) {
                let ghost b = list_rows_view(out@);
                out.push(ListRow::Unit { index: j, group: Some(text::owned(g)) });
                assert(list_rows_view(out@) =~= b.push(ListRowView::Unit(j as int, Some(g@))));
                pushed = true;
            }
            j = j + 1;
        }
        assert(ug.len() == units@.len());
        if !pushed && count == 0 {
            let ghost b = list_rows_view(out@);
            out.push(ListRow::GroupEmpty { path: text::owned(g) });
            assert(list_rows_view(out@) =~= b.push(ListRowView::Empty(g@)));
            assert(list_rows_view(out@) =~= before + one_group_rows(ug, strings_view(synced@), g@));
        } else {
            assert(list_rows_view(out@) =~= before + one_group_rows(ug, strings_view(synced@), g@));
        }
        assert(group_rows(ug, strings_view(synced@), sv, k + 1) == group_rows(
            ug,
            strings_view(synced@),
            sv,
            k as int,
        ) + one_group_rows(ug, strings_view(synced@), sv[k as int]));
        k = k + 1;
    }
    proof {
        assert(ug.len() == units@.len());
        assert forall|i: int| 0 <= i < units@.len() implies list_rows_view(out@).contains(
            #[trigger] unit_row_of(unit_groups(units@), i),
        ) by {
            lemma_every_unit_listed(ug, strings_view(synced@), sv, i);
        }
        if forall|j: int| 0 <= j < groups.known@.len() ==> (#[trigger] groups.known@[j])@.len() > 0 {
            let kg = strings_view(known_groups@);
            assert forall|x: Seq<char>| sv.contains(x) implies x.len() > 0 by {
                if kg.contains(x) {
                    let j = choose|j: int| 0 <= j < kg.len() && kg[j] == x;
                    assert(kg[j] == known_groups@[j]@);
                }
            }
            assert forall|i: int| 0 <= i < units@.len() implies #[trigger] times_listed(
                list_rows_view(out@),
                i,
            ) == 1 by {
                lemma_each_unit_listed_once(ug, strings_view(synced@), sv, i);
            }
        }
    }
    out
}

} // verus!
