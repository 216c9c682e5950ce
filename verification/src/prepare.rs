//! The pod page's brand-new containers, networks and volumes and the edits
//! to its members: every staged row is named, checked for clashes and
//! passed by the unit-file validator before anything is written, so a
//! rejected submission loses nothing the user typed.
use vstd::prelude::*;

use crate::decimal::{self, dec};
use crate::groups::strings_view;
use crate::iniedit::{is_any_header, is_nonblank};
use crate::kind::UnitKind;
use crate::drafts::{MemberDraft, NewContainerDraft, NewNetworkDraft, NewVolumeDraft};
use crate::naming::{self, stem_of, compose_file_name, file_name_of, invalid_file_name_message, valid_group, valid_group_spec, valid_stem_spec};
use crate::pods::{
    opt_view, apply_pod_resources, find_unit, find_unit_index, nonblank_trimmed, pair_firsts, parse_existing,
    resources_check, validate_existing, validate_networks, validate_volumes, with_networks,
    with_volumes,
};
use crate::text::{self, lines, seqs_of, trim};
use crate::unit::{pairs_view, units_view, QuadletUnit, UnitView};

verus! {

/// A line that is an entry (or its continuation): not blank, not a section
/// header and not a `#` / `;` comment.
pub open spec fn is_entry_line(l: Seq<char>) -> bool {
    is_nonblank(l) && !is_any_header(l) && trim(l)[0] != '#' && trim(l)[0] != ';'
}

/// The index of the first entry line at or after `j` that comes before any
/// section header.
pub open spec fn stray_entry(ls: Seq<Seq<char>>, j: int) -> Option<int>
    decreases ls.len() - j,
{
    if j < 0 || j >= ls.len() {
        None
    } else if is_any_header(ls[j]) {
        None
    } else if is_entry_line(ls[j]) {
        Some(j)
    } else {
        stray_entry(ls, j + 1)
    }
}

/// What is structurally wrong with a unit file's text, if anything: an
/// entry before the first `[Section]` header belongs to no section.
pub open spec fn structure_error_of(contents: Seq<char>) -> Option<Seq<char>> {
    match stray_entry(lines(contents), 0) {
        Some(j) => Some("line "@ + dec((j + 1) as nat) + ": entry outside any [Section]"@),
        None => None,
    }
}

fn is_entry_chars(l: &[char]) -> (r: bool)
    ensures
        r == is_entry_line(l@),
        !r ==> (is_any_header(l@) || !is_nonblank(l@) || trim(l@)[0] == '#' || trim(l@)[0]
            == ';'),
{
    let t = text::trim_chars(l);
    t.len() > 0 && t[0] != '[' && t[0] != '#' && t[0] != ';'
}

fn is_header_chars(l: &[char]) -> (r: bool)
    ensures
        r == is_any_header(l@),
{
    let t = text::trim_chars(l);
    t.len() > 0 && t[0] == '['
}

/// A structural check of a unit file's text: no entry may stand before the
/// first `[Section]` header.
pub fn structure_error(contents: &str) -> (r: Option<String>)
    ensures
        match (r, structure_error_of(contents@)) {
            (Some(a), Some(b)) => a@ == b,
            (None, None) => true,
            _ => false,
        },
{
    let v = text::to_chars(contents);
    let ls = text::split_lines(v.as_slice());
    let ghost sl = lines(contents@);
    let mut i: usize = 0;
    while i < ls.len()
        invariant
            i <= ls@.len(),
            seqs_of(ls@) == sl,
            sl == lines(contents@),
            sl.len() == ls@.len(),
            stray_entry(sl, 0) == stray_entry(sl, i as int),
        decreases ls.len() - i,
    {
        assert(sl[i as int] == ls@[i as int]@);
        let is_header = is_header_chars(ls[i].as_slice());
        let is_entry = is_entry_chars(ls[i].as_slice());
        assert(is_header == is_any_header(sl[i as int]));
        assert(is_entry == is_entry_line(sl[i as int]));
        if is_header {
            assert(stray_entry(sl, i as int) is None);
            return None;
        }
        if is_entry {
            assert(stray_entry(sl, i as int) == Some(i as int));
            assert(i < usize::MAX);
            let n: u64 = i as u64 + 1;
            let mut m = text::to_chars("line ");
            decimal::append_decimal(&mut m, n);
            text::append_str(&mut m, ": entry outside any [Section]");
            return Some(text::from_chars(m.as_slice()));
        }
        assert(stray_entry(sl, i as int) == stray_entry(sl, i + 1));
        i = i + 1;
    }
    assert(stray_entry(sl, i as int) is None);
    None
}

/// Whether `s` is one of `v`.
pub fn contains_string(v: &[String], s: &[char]) -> (r: bool)
    ensures
        r == strings_view(v@).contains(s@),
{
    let ghost sv = strings_view(v@);
    let mut i: usize = 0;
    while i < v.len()
        invariant
            i <= v@.len(),
            sv == strings_view(v@),
            forall|k: int| 0 <= k < i ==> sv[k] != s@,
        decreases v.len() - i,
    {
        let c = text::to_chars(v[i].as_str());
        assert(sv[i as int] == c@);
        if text::chars_eq(c.as_slice(), s) {
            return true;
        }
        i = i + 1;
    }
    false
}

/// The file a staged row creates (`<trimmed name>.<extension>`), or why it
/// cannot: an invalid stem, or a file that already exists on disk or
/// earlier in the same submission (`seen`).
pub open spec fn new_file_check(all: Seq<UnitView>, seen: Seq<Seq<char>>, name: Seq<char>, kind: UnitKind) -> Result<Seq<char>, Seq<char>> {
    let stem = trim(name);
    if !valid_stem_spec(stem) {
        Err(invalid_file_name_message(stem))
    } else {
        let f = file_name_of(stem, kind);
        if seen.contains(f) || find_unit(all, f) is Some {
            Err(f + " already exists"@)
        } else {
            Ok(f)
        }
    }
}

fn check_new_file(all: &[QuadletUnit], seen: &[String], name: &str, kind: UnitKind) -> (r: Result<String, String>)
    ensures
        match r {
            Ok(f) => new_file_check(units_view(all@), strings_view(seen@), name@, kind) == Ok::<
                Seq<char>,
                Seq<char>,
            >(f@),
            Err(e) => new_file_check(units_view(all@), strings_view(seen@), name@, kind) == Err::<
                Seq<char>,
                Seq<char>,
            >(e@),
        },
{
    let stem = text::trim_str(name);
    let f = compose_file_name(stem.as_str(), kind)?;
    let fc = text::to_chars(f.as_str());
    if contains_string(seen, fc.as_slice()) || find_unit_index(all, fc.as_slice()).is_some() {
        let mut m = fc;
        text::append_str(&mut m, " already exists");
        return Err(text::from_chars(m.as_slice()));
    }
    Ok(f)
}

/// A validated, write-ready new network (or volume file).
#[derive(Debug)]
pub struct PreparedResource {
    pub file_name: String,
    pub contents: String,
}

/// A validated, write-ready new volume and the mount path it gets in the
/// pod's `[Pod]` section.
#[derive(Debug)]
pub struct PreparedVolume {
    pub file_name: String,
    pub contents: String,
    pub dest: String,
}

/// The staged network rows, each with the unit-file validator's verdict on
/// the file it creates, as (name, contents, refusal).
pub open spec fn network_drafts_view(d: Seq<(NewNetworkDraft, Option<String>)>) -> Seq<
    (Seq<char>, Seq<char>, Option<Seq<char>>),
> {
    d.map_values(|x: (NewNetworkDraft, Option<String>)| (x.0.name@, x.0.contents@, opt_view(x.1)))
}

/// The staged volume rows, each with the validator's verdict, as (name,
/// contents, mount path, refusal).
pub open spec fn volume_drafts_view(d: Seq<(NewVolumeDraft, Option<String>)>) -> Seq<
    (Seq<char>, Seq<char>, Seq<char>, Option<Seq<char>>),
> {
    d.map_values(
        |x: (NewVolumeDraft, Option<String>)| (x.0.name@, x.0.contents@, x.0.dest@, opt_view(x.1)),
    )
}

pub open spec fn prepared_view(p: Seq<PreparedResource>) -> Seq<(Seq<char>, Seq<char>)> {
    p.map_values(|x: PreparedResource| (x.file_name@, x.contents@))
}

pub open spec fn prepared_volumes_view(p: Seq<PreparedVolume>) -> Seq<(Seq<char>, Seq<char>, Seq<char>)> {
    p.map_values(|x: PreparedVolume| (x.file_name@, x.contents@, x.dest@))
}

/// What preparing the staged networks gives, rows checked in order with the
/// file names accepted so far in `seen`: the first refusal (of the name,
/// else the validator's, prefixed with the file name), or every row's file
/// name and unchanged contents.
pub open spec fn prepare_networks_spec(
    all: Seq<UnitView>,
    drafts: Seq<(Seq<char>, Seq<char>, Option<Seq<char>>)>,
    seen: Seq<Seq<char>>,
) -> Result<Seq<(Seq<char>, Seq<char>)>, Seq<char>>
    decreases drafts.len(),
{
    if drafts.len() == 0 {
        Ok(Seq::empty())
    } else {
        match new_file_check(all, seen, drafts[0].0, UnitKind::Network) {
            Err(e) => Err(e),
            Ok(f) => match drafts[0].2 {
                Some(e) => Err(f + ": "@ + e),
                None => match prepare_networks_spec(all, drafts.drop_first(), seen.push(f)) {
                    Ok(rest) => Ok(seq![(f, drafts[0].1)] + rest),
                    Err(e) => Err(e),
                },
            },
        }
    }
}

/// `rest` with `done` in front of a success.
pub open spec fn after<T>(done: Seq<T>, rest: Result<Seq<T>, Seq<char>>) -> Result<Seq<T>, Seq<char>> {
    match rest {
        Ok(r) => Ok(done + r),
        Err(e) => Err(e),
    }
}

pub open spec fn prepared_names(p: Seq<(Seq<char>, Seq<char>)>) -> Seq<Seq<char>> {
    p.map_values(|x: (Seq<char>, Seq<char>)| x.0)
}

pub open spec fn prepared_volume_names(p: Seq<(Seq<char>, Seq<char>, Seq<char>)>) -> Seq<Seq<char>> {
    p.map_values(|x: (Seq<char>, Seq<char>, Seq<char>)| x.0)
}

/// Checks every staged new network before any is written. Each row comes
/// with what the unit-file validator said of the file it would create
/// (its composed file name and contents; `None`: accepted).
pub fn prepare_new_networks(all: &[QuadletUnit], drafts: &[(NewNetworkDraft, Option<String>)]) -> (r: Result<Vec<PreparedResource>, String>)
    ensures
        match r {
            Ok(p) => prepare_networks_spec(units_view(all@), network_drafts_view(drafts@), Seq::empty())
                == Ok::<Seq<(Seq<char>, Seq<char>)>, Seq<char>>(prepared_view(p@)),
            Err(e) => prepare_networks_spec(units_view(all@), network_drafts_view(drafts@), Seq::empty())
                == Err::<Seq<(Seq<char>, Seq<char>)>, Seq<char>>(e@),
        },
{
    let ghost uv = units_view(all@);
    let ghost dv = network_drafts_view(drafts@);
    let mut prepared: Vec<PreparedResource> = Vec::new();
    let mut seen: Vec<String> = Vec::new();
    let mut i: usize = 0;
    proof {
        assert(dv.skip(0) =~= dv);
        assert(prepared_view(prepared@) =~= Seq::<(Seq<char>, Seq<char>)>::empty());
        assert(strings_view(seen@) =~= Seq::<Seq<char>>::empty());
        assert(after(Seq::<(Seq<char>, Seq<char>)>::empty(), prepare_networks_spec(uv, dv, Seq::empty())) =~= prepare_networks_spec(uv, dv, Seq::empty()));
    }
    while i < drafts.len()
        invariant
            i <= drafts@.len(),
            uv == units_view(all@),
            dv == network_drafts_view(drafts@),
            strings_view(seen@) == prepared_names(prepared_view(prepared@)),
            prepare_networks_spec(uv, dv, Seq::empty()) == after(
                prepared_view(prepared@),
                prepare_networks_spec(uv, dv.skip(i as int), strings_view(seen@)),
            ),
        decreases drafts.len() - i,
    {
        let ghost rest = dv.skip(i as int);
        assert(rest[0] == (drafts@[i as int].0.name@, drafts@[i as int].0.contents@, opt_view(drafts@[i as int].1)));
        let f = match check_new_file(all, seen.as_slice(), drafts[i].0.name.as_str(), UnitKind::Network) {
            Ok(f) => f,
            Err(e) => {
                return Err(e);
            },
        };
        match &drafts[i].1 {
            Some(e) => {
                let mut m = text::to_chars(f.as_str());
                text::append_str(&mut m, ": ");
                text::append_str(&mut m, e.as_str());
                return Err(text::from_chars(m.as_slice()));
            },
            None => {},
        }
        let ghost before = prepared_view(prepared@);
        let ghost seen_before = strings_view(seen@);
        seen.push(text::owned(f.as_str()));
        prepared.push(PreparedResource { file_name: f, contents: text::owned(drafts[i].0.contents.as_str()) });
        proof {
            assert(rest.drop_first() =~= dv.skip(i + 1));
            assert(strings_view(seen@) =~= seen_before.push(f@));
            assert(prepared_view(prepared@) =~= before.push((f@, drafts@[i as int].0.contents@)));
            assert(prepared_names(prepared_view(prepared@)) =~= prepared_names(before).push(f@));
            let tail = prepare_networks_spec(uv, dv.skip(i + 1), strings_view(seen@));
            match tail {
                Ok(t) => {
                    assert(before + (seq![(f@, drafts@[i as int].0.contents@)] + t) =~= prepared_view(prepared@) + t);
                },
                Err(_) => {},
            }
        }
        i = i + 1;
    }
    proof {
        assert(dv.skip(i as int) =~= Seq::<(Seq<char>, Seq<char>, Option<Seq<char>>)>::empty());
        assert(prepared_view(prepared@) + Seq::<(Seq<char>, Seq<char>)>::empty() =~= prepared_view(prepared@));
    }
    Ok(prepared)
}

/// A mount path a volume can be given: non-empty after trimming, with no
/// `:` and no line break.
pub open spec fn dest_error_of(f: Seq<char>, dest: Seq<char>) -> Option<Seq<char>> {
    let d = trim(dest);
    if d.len() == 0 {
        Some(f + " needs a mount path"@)
    } else if d.contains(':') || d.contains('\n') || d.contains('\r') {
        Some(f + ": mount path can't contain ':' or a newline"@)
    } else {
        None
    }
}

/// What preparing the staged volumes gives: as for networks, with the
/// mount path checked after the name and before the validator's verdict,
/// and kept trimmed.
pub open spec fn prepare_volumes_spec(
    all: Seq<UnitView>,
    drafts: Seq<(Seq<char>, Seq<char>, Seq<char>, Option<Seq<char>>)>,
    seen: Seq<Seq<char>>,
) -> Result<Seq<(Seq<char>, Seq<char>, Seq<char>)>, Seq<char>>
    decreases drafts.len(),
{
    if drafts.len() == 0 {
        Ok(Seq::empty())
    } else {
        match new_file_check(all, seen, drafts[0].0, UnitKind::Volume) {
            Err(e) => Err(e),
            Ok(f) => match dest_error_of(f, drafts[0].2) {
                Some(e) => Err(e),
                None => match drafts[0].3 {
                    Some(e) => Err(f + ": "@ + e),
                    None => match prepare_volumes_spec(all, drafts.drop_first(), seen.push(f)) {
                        Ok(rest) => Ok(seq![(f, drafts[0].1, trim(drafts[0].2))] + rest),
                        Err(e) => Err(e),
                    },
                },
            },
        }
    }
}

fn dest_error(f: &str, dest: &[char]) -> (r: Option<String>)
    ensures
        match (r, dest_error_of(f@, dest@)) {
            (Some(a), Some(b)) => a@ == b,
            (None, None) => true,
            _ => false,
        },
{
    let d = text::trim_chars(dest);
    if d.len() == 0 {
        let mut m = text::to_chars(f);
        text::append_str(&mut m, " needs a mount path");
        return Some(text::from_chars(m.as_slice()));
    }
    if text::contains_char(d.as_slice(), ':') || text::contains_char(d.as_slice(), '\n')
        || text::contains_char(d.as_slice(), '\r') {
        let mut m = text::to_chars(f);
        text::append_str(&mut m, ": mount path can't contain ':' or a newline");
        return Some(text::from_chars(m.as_slice()));
    }
    None
}

/// Checks every staged new volume before any is written. Each row comes
/// with what the unit-file validator said of the file it would create
/// (`None`: accepted).
pub fn prepare_new_volumes(all: &[QuadletUnit], drafts: &[(NewVolumeDraft, Option<String>)]) -> (r: Result<Vec<PreparedVolume>, String>)
    ensures
        match r {
            Ok(p) => prepare_volumes_spec(units_view(all@), volume_drafts_view(drafts@), Seq::empty())
                == Ok::<Seq<(Seq<char>, Seq<char>, Seq<char>)>, Seq<char>>(prepared_volumes_view(p@)),
            Err(e) => prepare_volumes_spec(units_view(all@), volume_drafts_view(drafts@), Seq::empty())
                == Err::<Seq<(Seq<char>, Seq<char>, Seq<char>)>, Seq<char>>(e@),
        },
{
    let ghost uv = units_view(all@);
    let ghost dv = volume_drafts_view(drafts@);
    let mut prepared: Vec<PreparedVolume> = Vec::new();
    let mut seen: Vec<String> = Vec::new();
    let mut i: usize = 0;
    proof {
        assert(dv.skip(0) =~= dv);
        assert(prepared_volumes_view(prepared@) =~= Seq::<(Seq<char>, Seq<char>, Seq<char>)>::empty());
        assert(strings_view(seen@) =~= Seq::<Seq<char>>::empty());
        assert(after(Seq::<(Seq<char>, Seq<char>, Seq<char>)>::empty(), prepare_volumes_spec(uv, dv, Seq::empty())) =~= prepare_volumes_spec(uv, dv, Seq::empty()));
    }
    while i < drafts.len()
        invariant
            i <= drafts@.len(),
            uv == units_view(all@),
            dv == volume_drafts_view(drafts@),
            strings_view(seen@) == prepared_volume_names(prepared_volumes_view(prepared@)),
            prepare_volumes_spec(uv, dv, Seq::empty()) == after(
                prepared_volumes_view(prepared@),
                prepare_volumes_spec(uv, dv.skip(i as int), strings_view(seen@)),
            ),
        decreases drafts.len() - i,
    {
        let ghost rest = dv.skip(i as int);
        assert(rest[0] == (
            drafts@[i as int].0.name@,
            drafts@[i as int].0.contents@,
            drafts@[i as int].0.dest@,
            opt_view(drafts@[i as int].1),
        ));
        let f = match check_new_file(all, seen.as_slice(), drafts[i].0.name.as_str(), UnitKind::Volume) {
            Ok(f) => f,
            Err(e) => {
                return Err(e);
            },
        };
        let dchars = text::to_chars(drafts[i].0.dest.as_str());
        match dest_error(f.as_str(), dchars.as_slice()) {
            Some(e) => {
                return Err(e);
            },
            None => {},
        }
        match &drafts[i].1 {
            Some(e) => {
                let mut m = text::to_chars(f.as_str());
                text::append_str(&mut m, ": ");
                text::append_str(&mut m, e.as_str());
                return Err(text::from_chars(m.as_slice()));
            },
            None => {},
        }
        let d = text::trim_chars(dchars.as_slice());
        let ghost before = prepared_volumes_view(prepared@);
        let ghost seen_before = strings_view(seen@);
        seen.push(text::owned(f.as_str()));
        prepared.push(
            PreparedVolume {
                file_name: f,
                contents: text::owned(drafts[i].0.contents.as_str()),
                dest: text::from_chars(d.as_slice()),
            },
        );
        proof {
            let item = (f@, drafts@[i as int].0.contents@, trim(drafts@[i as int].0.dest@));
            assert(rest.drop_first() =~= dv.skip(i + 1));
            assert(strings_view(seen@) =~= seen_before.push(f@));
            assert(prepared_volumes_view(prepared@) =~= before.push(item));
            assert(prepared_volume_names(prepared_volumes_view(prepared@)) =~= prepared_volume_names(before).push(f@));
            let tail = prepare_volumes_spec(uv, dv.skip(i + 1), strings_view(seen@));
            match tail {
                Ok(t) => {
                    assert(before + (seq![item] + t) =~= prepared_volumes_view(prepared@) + t);
                },
                Err(_) => {},
            }
        }
        i = i + 1;
    }
    proof {
        assert(dv.skip(i as int) =~= Seq::<(Seq<char>, Seq<char>, Seq<char>, Option<Seq<char>>)>::empty());
        assert(prepared_volumes_view(prepared@) + Seq::<(Seq<char>, Seq<char>, Seq<char>)>::empty() =~= prepared_volumes_view(prepared@));
    }
    Ok(prepared)
}


/// Every network a successful preparation creates is new: no unit on disk
/// and no earlier row of the submission has its file name, no two rows
/// share one, and the validator accepted its row's unchanged text.
pub proof fn lemma_prepared_networks_are_fresh(
    all: Seq<UnitView>,
    drafts: Seq<(Seq<char>, Seq<char>, Option<Seq<char>>)>,
    seen: Seq<Seq<char>>,
    p: Seq<(Seq<char>, Seq<char>)>,
)
    requires
        prepare_networks_spec(all, drafts, seen) == Ok::<Seq<(Seq<char>, Seq<char>)>, Seq<char>>(p),
    ensures
        p.len() == drafts.len(),
        forall|i: int|
            0 <= i < p.len() ==> find_unit(all, #[trigger] p[i].0) is None && !seen.contains(p[i].0)
                && drafts[i].2 is None && p[i].1 == drafts[i].1,
        forall|i: int, j: int| 0 <= i < j < p.len() ==> #[trigger] p[i].0 != #[trigger] p[j].0,
    decreases drafts.len(),
{
    if drafts.len() > 0 {
        let f = new_file_check(all, seen, drafts[0].0, UnitKind::Network)->Ok_0;
        let rest = prepare_networks_spec(all, drafts.drop_first(), seen.push(f))->Ok_0;
        lemma_prepared_networks_are_fresh(all, drafts.drop_first(), seen.push(f), rest);
        assert(p == seq![(f, drafts[0].1)] + rest);
        assert forall|i: int|
            0 <= i < p.len() implies find_unit(all, #[trigger] p[i].0) is None && !seen.contains(p[i].0)
                && drafts[i].2 is None && p[i].1 == drafts[i].1 by {
            if i > 0 {
                assert(p[i] == rest[i - 1]);
                assert(drafts[i] == drafts.drop_first()[i - 1]);
                if seen.contains(p[i].0) {
                    let k = choose|k: int| 0 <= k < seen.len() && seen[k] == p[i].0;
                    assert(seen.push(f)[k] == p[i].0);
                }
            }
        }
        assert forall|i: int, j: int| 0 <= i < j < p.len() implies #[trigger] p[i].0 != #[trigger] p[j].0 by {
            if i == 0 {
                assert(p[j] == rest[j - 1]);
                assert(seen.push(f)[seen.len() as int] == f);
            } else {
                assert(p[i] == rest[i - 1] && p[j] == rest[j - 1]);
            }
        }
    }
}

/// The same for volumes: every prepared volume is new, distinct from the
/// others, accepted by the validator, and has a usable mount path.
pub proof fn lemma_prepared_volumes_are_fresh(
    all: Seq<UnitView>,
    drafts: Seq<(Seq<char>, Seq<char>, Seq<char>, Option<Seq<char>>)>,
    seen: Seq<Seq<char>>,
    p: Seq<(Seq<char>, Seq<char>, Seq<char>)>,
)
    requires
        prepare_volumes_spec(all, drafts, seen) == Ok::<Seq<(Seq<char>, Seq<char>, Seq<char>)>, Seq<char>>(p),
    ensures
        p.len() == drafts.len(),
        forall|i: int|
            0 <= i < p.len() ==> find_unit(all, #[trigger] p[i].0) is None && !seen.contains(p[i].0)
                && drafts[i].3 is None && p[i].1 == drafts[i].1 && p[i].2.len() > 0 && !p[i].2.contains(':'),
        forall|i: int, j: int| 0 <= i < j < p.len() ==> #[trigger] p[i].0 != #[trigger] p[j].0,
    decreases drafts.len(),
{
    if drafts.len() > 0 {
        let f = new_file_check(all, seen, drafts[0].0, UnitKind::Volume)->Ok_0;
        let rest = prepare_volumes_spec(all, drafts.drop_first(), seen.push(f))->Ok_0;
        lemma_prepared_volumes_are_fresh(all, drafts.drop_first(), seen.push(f), rest);
        assert(p == seq![(f, drafts[0].1, trim(drafts[0].2))] + rest);
        assert forall|i: int|
            0 <= i < p.len() implies find_unit(all, #[trigger] p[i].0) is None && !seen.contains(p[i].0)
                && drafts[i].3 is None && p[i].1 == drafts[i].1 && p[i].2.len() > 0 && !p[i].2.contains(':') by {
            if i > 0 {
                assert(p[i] == rest[i - 1]);
                assert(drafts[i] == drafts.drop_first()[i - 1]);
                if seen.contains(p[i].0) {
                    let k = choose|k: int| 0 <= k < seen.len() && seen[k] == p[i].0;
                    assert(seen.push(f)[k] == p[i].0);
                }
            }
        }
        assert forall|i: int, j: int| 0 <= i < j < p.len() implies #[trigger] p[i].0 != #[trigger] p[j].0 by {
            if i == 0 {
                assert(p[j] == rest[j - 1]);
                assert(seen.push(f)[seen.len() as int] == f);
            } else {
                assert(p[i] == rest[i - 1] && p[j] == rest[j - 1]);
            }
        }
    }
}

/// What the steps outside the library said of one staged container row:
/// the variable editor's parse of its env text (the pairs, or the
/// refusal), the row's text with its `Pod=` (and, with variables, its
/// `EnvironmentFile=`) line set, and the unit-file validator's verdict on
/// that text (`None`: accepted).
pub struct ContainerRowChecks {
    pub env: Result<Vec<(String, String)>, String>,
    pub contents: String,
    pub verdict: Option<String>,
}

/// A validated, write-ready new container: its file name, its stem (for
/// the env sidecar), its text and its variables.
#[derive(Debug)]
pub struct PreparedContainer {
    pub file_name: String,
    pub stem: String,
    pub contents: String,
    pub env_pairs: Vec<(String, String)>,
}

pub open spec fn env_view(e: Result<Vec<(String, String)>, String>) -> Result<Seq<(Seq<char>, Seq<char>)>, Seq<char>> {
    match e {
        Ok(v) => Ok(pairs_view(v@)),
        Err(m) => Err(m@),
    }
}

/// The staged container rows as (name, env parse, set text, verdict).
pub open spec fn container_rows_view(d: Seq<(NewContainerDraft, ContainerRowChecks)>) -> Seq<
    (Seq<char>, Result<Seq<(Seq<char>, Seq<char>)>, Seq<char>>, Seq<char>, Option<Seq<char>>),
> {
    d.map_values(
        |x: (NewContainerDraft, ContainerRowChecks)|
            (x.0.name@, env_view(x.1.env), x.1.contents@, opt_view(x.1.verdict)),
    )
}

pub open spec fn prepared_containers_view(p: Seq<PreparedContainer>) -> Seq<
    (Seq<char>, Seq<char>, Seq<char>, Seq<(Seq<char>, Seq<char>)>),
> {
    p.map_values(
        |x: PreparedContainer| (x.file_name@, x.stem@, x.contents@, pairs_view(x.env_pairs@)),
    )
}

/// What preparing the staged containers gives, rows checked in order with
/// the file names accepted so far in `seen`: the name's refusal, else the
/// variable editor's, else the validator's (both prefixed with the file
/// name); or every row's file name, trimmed name as stem, set text and
/// variables.
pub open spec fn prepare_containers_spec(
    all: Seq<UnitView>,
    rows: Seq<(Seq<char>, Result<Seq<(Seq<char>, Seq<char>)>, Seq<char>>, Seq<char>, Option<Seq<char>>)>,
    seen: Seq<Seq<char>>,
) -> Result<Seq<(Seq<char>, Seq<char>, Seq<char>, Seq<(Seq<char>, Seq<char>)>)>, Seq<char>>
    decreases rows.len(),
{
    if rows.len() == 0 {
        Ok(Seq::empty())
    } else {
        match new_file_check(all, seen, rows[0].0, UnitKind::Container) {
            Err(e) => Err(e),
            Ok(f) => match rows[0].1 {
                Err(m) => Err(f + ": "@ + m),
                Ok(pairs) => match rows[0].3 {
                    Some(e) => Err(f + ": "@ + e),
                    None => after(
                        seq![(f, trim(rows[0].0), rows[0].2, pairs)],
                        prepare_containers_spec(all, rows.drop_first(), seen.push(f)),
                    ),
                },
            },
        }
    }
}

fn copy_pairs(v: &[(String, String)]) -> (r: Vec<(String, String)>)
    ensures
        pairs_view(r@) == pairs_view(v@),
{
    let mut out: Vec<(String, String)> = Vec::new();
    let mut i: usize = 0;
    while i < v.len()
        invariant
            i <= v@.len(),
            pairs_view(out@) == pairs_view(v@).take(i as int),
        decreases v.len() - i,
    {
        let ghost before = out@;
        out.push((text::owned(v[i].0.as_str()), text::owned(v[i].1.as_str())));
        assert(pairs_view(out@) =~= pairs_view(v@).take(i + 1)) by {
            assert(pairs_view(out@) =~= pairs_view(before).push((v@[i as int].0@, v@[i as int].1@)));
        }
        i = i + 1;
    }
    assert(pairs_view(v@).take(i as int) =~= pairs_view(v@));
    out
}

fn with_file(f: &str, m: &str) -> (r: String)
    ensures
        r@ == f@ + ": "@ + m@,
{
    let mut out = text::to_chars(f);
    text::append_str(&mut out, ": ");
    text::append_str(&mut out, m);
    text::from_chars(out.as_slice())
}

/// Checks every staged brand-new container before any is written: its
/// name (new on disk and in the submission), its variables, and the
/// validator's verdict on its text.
pub fn prepare_new_containers(all: &[QuadletUnit], rows: &[(NewContainerDraft, ContainerRowChecks)]) -> (r: Result<Vec<PreparedContainer>, String>)
    ensures
        match r {
            Ok(p) => prepare_containers_spec(units_view(all@), container_rows_view(rows@), Seq::empty())
                == Ok::<Seq<(Seq<char>, Seq<char>, Seq<char>, Seq<(Seq<char>, Seq<char>)>)>, Seq<char>>(
                prepared_containers_view(p@),
            ),
            Err(e) => prepare_containers_spec(units_view(all@), container_rows_view(rows@), Seq::empty())
                == Err::<Seq<(Seq<char>, Seq<char>, Seq<char>, Seq<(Seq<char>, Seq<char>)>)>, Seq<char>>(e@),
        },
{
    let ghost uv = units_view(all@);
    let ghost dv = container_rows_view(rows@);
    let mut prepared: Vec<PreparedContainer> = Vec::new();
    let mut seen: Vec<String> = Vec::new();
    let mut i: usize = 0;
    proof {
        assert(dv.skip(0) =~= dv);
        assert(prepared_containers_view(prepared@) =~= Seq::empty());
        assert(strings_view(seen@) =~= Seq::<Seq<char>>::empty());
        assert(after(Seq::empty(), prepare_containers_spec(uv, dv, Seq::empty()))
            =~= prepare_containers_spec(uv, dv, Seq::empty()));
    }
    while i < rows.len()
        invariant
            i <= rows@.len(),
            uv == units_view(all@),
            dv == container_rows_view(rows@),
            strings_view(seen@) == prepared_containers_view(prepared@).map_values(
                |x: (Seq<char>, Seq<char>, Seq<char>, Seq<(Seq<char>, Seq<char>)>)| x.0,
            ),
            prepare_containers_spec(uv, dv, Seq::empty()) == after(
                prepared_containers_view(prepared@),
                prepare_containers_spec(uv, dv.skip(i as int), strings_view(seen@)),
            ),
        decreases rows.len() - i,
    {
        let ghost rest = dv.skip(i as int);
        assert(rest[0] == dv[i as int]);
        let f = match check_new_file(all, seen.as_slice(), rows[i].0.name.as_str(), UnitKind::Container) {
            Ok(f) => f,
            Err(e) => {
                return Err(e);
            },
        };
        let pairs = match &rows[i].1.env {
            Err(m) => {
                return Err(with_file(f.as_str(), m.as_str()));
            },
            Ok(p) => copy_pairs(p.as_slice()),
        };
        match &rows[i].1.verdict {
            Some(e) => {
                return Err(with_file(f.as_str(), e.as_str()));
            },
            None => {},
        }
        let stem = text::trim_str(rows[i].0.name.as_str());
        let ghost item = (f@, stem@, rows@[i as int].1.contents@, pairs_view(pairs@));
        let ghost before = prepared_containers_view(prepared@);
        let ghost seen_before = strings_view(seen@);
        seen.push(text::owned(f.as_str()));
        prepared.push(
            PreparedContainer {
                file_name: f,
                stem,
                contents: text::owned(rows[i].1.contents.as_str()),
                env_pairs: pairs,
            },
        );
        proof {
            assert(rest.drop_first() =~= dv.skip(i + 1));
            assert(strings_view(seen@) =~= seen_before.push(item.0));
            assert(prepared_containers_view(prepared@) =~= before.push(item));
            assert(prepared_containers_view(prepared@).map_values(
                |x: (Seq<char>, Seq<char>, Seq<char>, Seq<(Seq<char>, Seq<char>)>)| x.0,
            ) =~= before.map_values(
                |x: (Seq<char>, Seq<char>, Seq<char>, Seq<(Seq<char>, Seq<char>)>)| x.0,
            ).push(item.0));
            let tail = prepare_containers_spec(uv, dv.skip(i + 1), strings_view(seen@));
            match tail {
                Ok(t) => {
                    assert(before + (seq![item] + t) =~= prepared_containers_view(prepared@) + t);
                },
                Err(_) => {},
            }
        }
        i = i + 1;
    }
    proof {
        assert(dv.skip(i as int) =~= Seq::empty());
        assert(prepared_containers_view(prepared@) + Seq::empty() =~= prepared_containers_view(prepared@));
    }
    Ok(prepared)
}

/// What the steps outside the library said of one pending member edit:
/// the variable editor's parse of its env text, the member's text with its
/// `EnvironmentFile=` line set as the variables call for, and the
/// validator's verdict on that text.
pub struct MemberEditChecks {
    pub env: Result<Vec<(String, String)>, String>,
    pub contents: String,
    pub verdict: Option<String>,
}

/// A validated, write-ready edit of a pod member: its file name, stem,
/// text and variables.
#[derive(Debug)]
pub struct PreparedMemberEdit {
    pub file_name: String,
    pub stem: String,
    pub contents: String,
    pub env_pairs: Vec<(String, String)>,
}

pub open spec fn member_rows_view(d: Seq<(MemberDraft, MemberEditChecks)>) -> Seq<
    (Seq<char>, Result<Seq<(Seq<char>, Seq<char>)>, Seq<char>>, Seq<char>, Option<Seq<char>>),
> {
    d.map_values(
        |x: (MemberDraft, MemberEditChecks)|
            (x.0.file_name@, env_view(x.1.env), x.1.contents@, opt_view(x.1.verdict)),
    )
}

pub open spec fn prepared_edits_view(p: Seq<PreparedMemberEdit>) -> Seq<
    (Seq<char>, Seq<char>, Seq<char>, Seq<(Seq<char>, Seq<char>)>),
> {
    p.map_values(
        |x: PreparedMemberEdit| (x.file_name@, x.stem@, x.contents@, pairs_view(x.env_pairs@)),
    )
}

/// What preparing the pending member edits gives, in order: the first
/// member whose variables or text were refused, with the refusal; or every
/// member's file name, stem, set text and variables.
pub open spec fn prepare_edits_spec(
    rows: Seq<(Seq<char>, Result<Seq<(Seq<char>, Seq<char>)>, Seq<char>>, Seq<char>, Option<Seq<char>>)>,
) -> Result<Seq<(Seq<char>, Seq<char>, Seq<char>, Seq<(Seq<char>, Seq<char>)>)>, (Seq<char>, Seq<char>)>
    decreases rows.len(),
{
    if rows.len() == 0 {
        Ok(Seq::empty())
    } else {
        let f = rows[0].0;
        match rows[0].1 {
            Err(m) => Err((f, m)),
            Ok(pairs) => match rows[0].3 {
                Some(e) => Err((f, e)),
                None => match prepare_edits_spec(rows.drop_first()) {
                    Ok(rest) => Ok(seq![(f, stem_of(f), rows[0].2, pairs)] + rest),
                    Err(e) => Err(e),
                },
            },
        }
    }
}

/// Checks every pending member edit before any is written; a refusal names
/// the member it came from.
pub fn prepare_member_edits(rows: &[(MemberDraft, MemberEditChecks)]) -> (r: Result<Vec<PreparedMemberEdit>, (String, String)>)
    ensures
        match (r, prepare_edits_spec(member_rows_view(rows@))) {
            (Ok(p), Ok(q)) => prepared_edits_view(p@) == q,
            (Err((f, m)), Err((g, n))) => f@ == g && m@ == n,
            _ => false,
        },
{
    let ghost dv = member_rows_view(rows@);
    let mut prepared: Vec<PreparedMemberEdit> = Vec::new();
    let mut i: usize = 0;
    proof {
        assert(dv.skip(0) =~= dv);
    }
    while i < rows.len()
        invariant
            i <= rows@.len(),
            dv == member_rows_view(rows@),
            match prepare_edits_spec(dv) {
                Ok(all) => match prepare_edits_spec(dv.skip(i as int)) {
                    Ok(t) => all == prepared_edits_view(prepared@) + t,
                    Err(_) => false,
                },
                Err(e) => prepare_edits_spec(dv.skip(i as int)) == Err::<
                    Seq<(Seq<char>, Seq<char>, Seq<char>, Seq<(Seq<char>, Seq<char>)>)>,
                    (Seq<char>, Seq<char>),
                >(e),
            },
        decreases rows.len() - i,
    {
        let ghost rest = dv.skip(i as int);
        assert(rest[0] == dv[i as int]);
        assert(rest.drop_first() =~= dv.skip(i + 1));
        let f = rows[i].0.file_name.as_str();
        let pairs = match &rows[i].1.env {
            Err(m) => {
                return Err((text::owned(f), text::owned(m.as_str())));
            },
            Ok(p) => copy_pairs(p.as_slice()),
        };
        match &rows[i].1.verdict {
            Some(e) => {
                return Err((text::owned(f), text::owned(e.as_str())));
            },
            None => {},
        }
        let ghost item = (f@, stem_of(f@), rows@[i as int].1.contents@, pairs_view(pairs@));
        let ghost before = prepared_edits_view(prepared@);
        prepared.push(
            PreparedMemberEdit {
                file_name: text::owned(f),
                stem: naming::stem(f),
                contents: text::owned(rows[i].1.contents.as_str()),
                env_pairs: pairs,
            },
        );
        proof {
            assert(prepared_edits_view(prepared@) =~= before.push(item));
            match prepare_edits_spec(dv) {
                Ok(all) => {
                    let t = prepare_edits_spec(dv.skip(i + 1))->Ok_0;
                    assert(before + (seq![item] + t) =~= prepared_edits_view(prepared@) + t);
                },
                Err(_) => {},
            }
        }
        i = i + 1;
    }
    proof {
        assert(dv.skip(i as int) =~= Seq::empty());
        assert(prepared_edits_view(prepared@) + Seq::empty() =~= prepared_edits_view(prepared@));
    }
    Ok(prepared)
}

/// The pod's own file name for a stem, or why the stem is refused; then
/// the group check.
pub open spec fn pod_name_check(stem: Seq<char>, group: Seq<char>) -> Result<Seq<char>, Seq<char>> {
    if !valid_stem_spec(stem) {
        Err(invalid_file_name_message(stem))
    } else if !valid_group_spec(group) {
        Err("invalid group '"@ + group + "'"@)
    } else {
        Ok(file_name_of(stem, UnitKind::Pod))
    }
}

/// A new pod's name and group checks, in the order the form reports them.
pub fn check_pod_name(stem: &str, group: &str) -> (r: Result<String, String>)
    ensures
        match r {
            Ok(f) => pod_name_check(stem@, group@) == Ok::<Seq<char>, Seq<char>>(f@),
            Err(e) => pod_name_check(stem@, group@) == Err::<Seq<char>, Seq<char>>(e@),
        },
{
    let f = compose_file_name(stem, UnitKind::Pod)?;
    if !valid_group(group) {
        let mut m = text::to_chars("invalid group '");
        text::append_str(&mut m, group);
        text::append_str(&mut m, "'");
        return Err(text::from_chars(m.as_slice()));
    }
    Ok(f)
}

/// The staged existing containers and networks (one name per non-blank
/// line) once every attach list checks out: existing containers first, then
/// networks, then volumes.
pub open spec fn attachments_check(
    all: Seq<UnitView>,
    existing_body: Seq<char>,
    networks_body: Seq<char>,
    volumes: Seq<(Seq<char>, Seq<char>)>,
) -> Result<(Seq<Seq<char>>, Seq<Seq<char>>), Seq<char>> {
    let existing = nonblank_trimmed(lines(existing_body));
    let networks = nonblank_trimmed(lines(networks_body));
    match resources_check(all, existing, UnitKind::Container, "container"@) {
        Err(e) => Err(e),
        Ok(_) => match resources_check(all, networks, UnitKind::Network, "network"@) {
            Err(e) => Err(e),
            Ok(_) => match resources_check(all, pair_firsts(volumes), UnitKind::Volume, "volume"@) {
                Err(e) => Err(e),
                Ok(_) => Ok((existing, networks)),
            },
        },
    }
}

/// Reads and checks the pod form's "attach" lists against the units on
/// disk before anything is written.
pub fn check_attachments(
    all: &[QuadletUnit],
    existing_body: &str,
    networks_body: &str,
    volumes: &[(String, String)],
) -> (r: Result<(Vec<String>, Vec<String>), String>)
    ensures
        match r {
            Ok((e, n)) => attachments_check(units_view(all@), existing_body@, networks_body@, pairs_view(volumes@))
                == Ok::<(Seq<Seq<char>>, Seq<Seq<char>>), Seq<char>>((strings_view(e@), strings_view(n@))),
            Err(m) => attachments_check(units_view(all@), existing_body@, networks_body@, pairs_view(volumes@))
                == Err::<(Seq<Seq<char>>, Seq<Seq<char>>), Seq<char>>(m@),
        },
{
    let existing = parse_existing(existing_body);
    let networks = parse_existing(networks_body);
    validate_existing(all, existing.as_slice())?;
    validate_networks(all, networks.as_slice())?;
    validate_volumes(all, volumes)?;
    Ok((existing, networks))
}

/// The pod's staged brand-new networks and volumes, checked, and the pod
/// text with every attached network and volume (existing ones first, then
/// the new ones) folded into its `[Pod]` section.
pub struct PodResources {
    pub networks: Vec<PreparedResource>,
    pub volumes: Vec<PreparedVolume>,
    pub contents: String,
}

/// What preparing a pod's resources gives: the new networks' refusal, else
/// the new volumes' refusal, else the prepared rows and the patched text.
pub open spec fn pod_resources_of(
    all: Seq<UnitView>,
    contents: Seq<char>,
    networks: Seq<Seq<char>>,
    volumes: Seq<(Seq<char>, Seq<char>)>,
    new_networks: Seq<(Seq<char>, Seq<char>, Option<Seq<char>>)>,
    new_volumes: Seq<(Seq<char>, Seq<char>, Seq<char>, Option<Seq<char>>)>,
) -> Result<(Seq<(Seq<char>, Seq<char>)>, Seq<(Seq<char>, Seq<char>, Seq<char>)>, Seq<char>), Seq<char>> {
    match prepare_networks_spec(all, new_networks, Seq::empty()) {
        Err(e) => Err(e),
        Ok(pn) => match prepare_volumes_spec(all, new_volumes, Seq::empty()) {
            Err(e) => Err(e),
            Ok(pv) => Ok(
                (
                    pn,
                    pv,
                    with_volumes(
                        with_networks(contents, networks + prepared_names(pn)),
                        volumes + pv.map_values(
                            |x: (Seq<char>, Seq<char>, Seq<char>)| (x.0, x.2),
                        ),
                    ),
                ),
            ),
        },
    }
}

/// Checks the staged new networks and volumes, then folds every attached
/// network and volume into the pod's own text.
pub fn prepare_pod_resources(
    all: &[QuadletUnit],
    contents: &str,
    networks: &[String],
    volumes: &[(String, String)],
    new_networks: &[(NewNetworkDraft, Option<String>)],
    new_volumes: &[(NewVolumeDraft, Option<String>)],
) -> (r: Result<PodResources, String>)
    ensures
        match r {
            Ok(p) => pod_resources_of(
                units_view(all@),
                contents@,
                strings_view(networks@),
                pairs_view(volumes@),
                network_drafts_view(new_networks@),
                volume_drafts_view(new_volumes@),
            ) == Ok::<(Seq<(Seq<char>, Seq<char>)>, Seq<(Seq<char>, Seq<char>, Seq<char>)>, Seq<char>), Seq<char>>(
                (prepared_view(p.networks@), prepared_volumes_view(p.volumes@), p.contents@),
            ),
            Err(e) => pod_resources_of(
                units_view(all@),
                contents@,
                strings_view(networks@),
                pairs_view(volumes@),
                network_drafts_view(new_networks@),
                volume_drafts_view(new_volumes@),
            ) == Err::<(Seq<(Seq<char>, Seq<char>)>, Seq<(Seq<char>, Seq<char>, Seq<char>)>, Seq<char>), Seq<char>>(e@),
        },
{
    let pn = prepare_new_networks(all, new_networks)?;
    let pv = prepare_new_volumes(all, new_volumes)?;
    let mut all_networks: Vec<String> = Vec::new();
    let mut i: usize = 0;
    while i < networks.len()
        invariant
            i <= networks@.len(),
            strings_view(all_networks@) == strings_view(networks@).take(i as int),
        decreases networks.len() - i,
    {
        let ghost before = all_networks@;
        all_networks.push(text::owned(networks[i].as_str()));
        assert(strings_view(all_networks@) =~= strings_view(before).push(networks@[i as int]@));
        assert(strings_view(all_networks@) =~= strings_view(networks@).take(i + 1));
        i = i + 1;
    }
    let mut j: usize = 0;
    while j < pn.len()
        invariant
            i == networks@.len(),
            j <= pn@.len(),
            strings_view(all_networks@) == strings_view(networks@) + prepared_names(prepared_view(pn@)).take(j as int),
        decreases pn.len() - j,
    {
        let ghost before = all_networks@;
        all_networks.push(text::owned(pn[j].file_name.as_str()));
        assert(strings_view(all_networks@) =~= strings_view(before).push(pn@[j as int].file_name@));
        assert(prepared_names(prepared_view(pn@))[j as int] == pn@[j as int].file_name@);
        assert(strings_view(all_networks@) =~= strings_view(networks@) + prepared_names(prepared_view(pn@)).take(j + 1));
        j = j + 1;
    }
    let ghost pvv = prepared_volumes_view(pv@).map_values(|x: (Seq<char>, Seq<char>, Seq<char>)| (x.0, x.2));
    let mut all_volumes: Vec<(String, String)> = Vec::new();
    let mut k: usize = 0;
    while k < volumes.len()
        invariant
            k <= volumes@.len(),
            pairs_view(all_volumes@) == pairs_view(volumes@).take(k as int),
        decreases volumes.len() - k,
    {
        let ghost before = all_volumes@;
        all_volumes.push((text::owned(volumes[k].0.as_str()), text::owned(volumes[k].1.as_str())));
        assert(pairs_view(all_volumes@) =~= pairs_view(before).push((volumes@[k as int].0@, volumes@[k as int].1@)));
        assert(pairs_view(all_volumes@) =~= pairs_view(volumes@).take(k + 1));
        k = k + 1;
    }
    let mut m: usize = 0;
    while m < pv.len()
        invariant
            k == volumes@.len(),
            m <= pv@.len(),
            pvv == prepared_volumes_view(pv@).map_values(|x: (Seq<char>, Seq<char>, Seq<char>)| (x.0, x.2)),
            pairs_view(all_volumes@) == pairs_view(volumes@) + pvv.take(m as int),
        decreases pv.len() - m,
    {
        let ghost before = all_volumes@;
        all_volumes.push((text::owned(pv[m].file_name.as_str()), text::owned(pv[m].dest.as_str())));
        assert(pairs_view(all_volumes@) =~= pairs_view(before).push((pv@[m as int].file_name@, pv@[m as int].dest@)));
        assert(pvv[m as int] == (pv@[m as int].file_name@, pv@[m as int].dest@));
        assert(pairs_view(all_volumes@) =~= pairs_view(volumes@) + pvv.take(m + 1));
        m = m + 1;
    }
    proof {
        assert(strings_view(networks@).take(i as int) =~= strings_view(networks@));
        assert(pairs_view(volumes@).take(k as int) =~= pairs_view(volumes@));
        assert(prepared_names(prepared_view(pn@)).take(j as int) =~= prepared_names(prepared_view(pn@)));
        assert(pvv.take(m as int) =~= pvv);
    }
    let contents = apply_pod_resources(contents, all_networks.as_slice(), all_volumes.as_slice());
    Ok(PodResources { networks: pn, volumes: pv, contents })
}

} // verus!
