//! The pod create/edit form: reading its staged "attach these" lists and
//! "new container/network/volume" rows out of the submitted fields,
//! checking every staged name against the units on disk, the options the
//! pickers offer, and folding staged networks and volumes into the pod's
//! own `[Pod]` section.
use vstd::prelude::*;

use crate::decimal::{self, dec, parse_u32_spec};
use crate::groups::strings_view;
use crate::iniedit::{self, append_entry_spec};
use crate::kind::UnitKind;
use crate::naming::is_template_name;
use crate::text::{self, lines, seqs_of, trim};
use crate::unit::{lookup, pairs_view, unit_value, units_view, QuadletUnit, UnitView};

verus! {

/// The trimmed non-blank lines of `ls`, in order.
pub open spec fn nonblank_trimmed(ls: Seq<Seq<char>>) -> Seq<Seq<char>>
    decreases ls.len(),
{
    if ls.len() == 0 {
        Seq::empty()
    } else {
        let r = nonblank_trimmed(ls.drop_last());
        let t = trim(ls.last());
        if t.len() > 0 {
            r.push(t)
        } else {
            r
        }
    }
}

/// A staged "attach these" field: one file name per non-blank line,
/// surrounding whitespace dropped.
pub fn parse_existing(body: &str) -> (r: Vec<String>)
    ensures
        strings_view(r@) == nonblank_trimmed(lines(body@)),
{
    let c = text::to_chars(body);
    let ls = text::split_lines(c.as_slice());
    let ghost all = lines(body@);
    let mut out: Vec<String> = Vec::new();
    let mut i: usize = 0;
    proof {
        assert(all.take(0) =~= Seq::<Seq<char>>::empty());
    }
    while i < ls.len()
        invariant
            seqs_of(ls@) == all,
            ls@.len() == all.len(),
            i <= ls@.len(),
            strings_view(out@) == nonblank_trimmed(all.take(i as int)),
        decreases ls.len() - i,
    {
        let t = text::trim_chars(ls[i].as_slice());
        let ghost before = out@;
        proof {
            assert(all.take(i + 1).drop_last() =~= all.take(i as int));
            assert(all.take(i + 1).last() == ls@[i as int]@);
        }
        if t.len() > 0 {
            out.push(text::from_chars(t.as_slice()));
            assert(strings_view(out@) =~= strings_view(before).push(t@));
        }
        i = i + 1;
    }
    proof {
        assert(all.take(all.len() as int) =~= all);
    }
    out
}

/// `line <n>: `, with `n` counted from 1.
pub open spec fn line_prefix(index: nat) -> Seq<char> {
    "line "@ + dec(index + 1) + ": "@
}

/// What one line of the "attach volume" field says.
pub enum VolumeLine {
    Skip,
    Pair(Seq<char>, Seq<char>),
    Bad(Seq<char>),
}

/// One `FILE=DEST` line (0-based `index`), judged on its own.
pub open spec fn volume_line(index: nat, line: Seq<char>) -> VolumeLine {
    let t = trim(line);
    if t.len() == 0 {
        VolumeLine::Skip
    } else {
        match crate::naming::first_index_of(t, '=') {
            None => VolumeLine::Bad(line_prefix(index) + "expected FILE=DEST"@),
            Some(k) => {
                let file = trim(t.take(k));
                let dest = trim(t.skip(k + 1));
                if dest.len() == 0 {
                    VolumeLine::Bad(line_prefix(index) + "'"@ + file + "' needs a mount path"@)
                } else if dest.contains(':') || dest.contains('\n') || dest.contains('\r') {
                    VolumeLine::Bad(
                        line_prefix(index) + "mount path can't contain ':' or a newline"@,
                    )
                } else {
                    VolumeLine::Pair(file, dest)
                }
            },
        }
    }
}

/// The `(file, dest)` pairs of all lines, or the message of the first bad
/// line.
pub open spec fn volume_lines(ls: Seq<Seq<char>>) -> Result<Seq<(Seq<char>, Seq<char>)>, Seq<char>>
    decreases ls.len(),
{
    if ls.len() == 0 {
        Ok(Seq::empty())
    } else {
        match volume_lines(ls.drop_last()) {
            Err(e) => Err(e),
            Ok(acc) => match volume_line((ls.len() - 1) as nat, ls.last()) {
                VolumeLine::Skip => Ok(acc),
                VolumeLine::Pair(f, d) => Ok(acc.push((f, d))),
                VolumeLine::Bad(m) => Err(m),
            },
        }
    }
}

/// The result of one line, for the executable loop.
enum VolumeLineResult {
    Skip,
    Pair(Vec<char>, Vec<char>),
    Bad(Vec<char>),
}

fn judge_volume_line(index: usize, line: &[char]) -> (r: VolumeLineResult)
    requires
        index < u64::MAX,
    ensures
        match (r, volume_line(index as nat, line@)) {
            (VolumeLineResult::Skip, VolumeLine::Skip) => true,
            (VolumeLineResult::Pair(f, d), VolumeLine::Pair(fs, ds)) => f@ == fs && d@ == ds,
            (VolumeLineResult::Bad(m), VolumeLine::Bad(ms)) => m@ == ms,
            _ => false,
        },
{
    let t = text::trim_chars(line);
    if t.len() == 0 {
        return VolumeLineResult::Skip;
    }
    let mut prefix: Vec<char> = Vec::new();
    text::append_str(&mut prefix, "line ");
    decimal::append_decimal(&mut prefix, index as u64 + 1);
    text::append_str(&mut prefix, ": ");
    assert(prefix@ =~= line_prefix(index as nat));
    match text::find_char(t.as_slice(), '=') {
        None => {
            proof {
                crate::naming::lemma_first_index_of(t@, '=', t@.len() as int);
            }
            let mut m = prefix;
            text::append_str(&mut m, "expected FILE=DEST");
            VolumeLineResult::Bad(m)
        },
        Some(k) => {
            proof {
                crate::naming::lemma_first_index_of(t@, '=', k as int);
            }
            let head = text::slice_range(t.as_slice(), 0, k);
            let tail = text::slice_range(t.as_slice(), k + 1, t.len());
            assert(head@ =~= t@.take(k as int));
            assert(tail@ =~= t@.skip(k + 1));
            let file = text::trim_chars(head.as_slice());
            let dest = text::trim_chars(tail.as_slice());
            if dest.len() == 0 {
                let mut m = prefix;
                text::append_str(&mut m, "'");
                text::append_chars(&mut m, file.as_slice());
                text::append_str(&mut m, "' needs a mount path");
                VolumeLineResult::Bad(m)
            } else if text::contains_char(dest.as_slice(), ':') || text::contains_char(
                dest.as_slice(),
                '\n',
            ) || text::contains_char(dest.as_slice(), '\r') {
                let mut m = prefix;
                text::append_str(&mut m, "mount path can't contain ':' or a newline");
                VolumeLineResult::Bad(m)
            } else {
                VolumeLineResult::Pair(file, dest)
            }
        },
    }
}

/// The "attach volume" field's `FILE=DEST` lines: the volume's file name
/// and the mount path inside the pod's containers. Blank lines are
/// skipped; the first malformed line rejects the field with a 1-based line
/// number.
pub fn parse_volume_lines(raw: &str) -> (r: Result<Vec<(String, String)>, String>)
    ensures
        match r {
            Ok(v) => volume_lines(lines(raw@)) == Ok::<Seq<(Seq<char>, Seq<char>)>, Seq<char>>(
                pairs_view(v@),
            ),
            Err(e) => volume_lines(lines(raw@)) == Err::<Seq<(Seq<char>, Seq<char>)>, Seq<char>>(
                e@,
            ),
        },
{
    let c = text::to_chars(raw);
    let ls = text::split_lines(c.as_slice());
    let ghost all = lines(raw@);
    let mut out: Vec<(String, String)> = Vec::new();
    let mut i: usize = 0;
    proof {
        assert(all.take(0) =~= Seq::<Seq<char>>::empty());
        assert(pairs_view(out@) =~= Seq::<(Seq<char>, Seq<char>)>::empty());
    }
    while i < ls.len()
        invariant
            seqs_of(ls@) == all,
            ls@.len() == all.len(),
            i <= ls@.len(),
            all == lines(raw@),
            volume_lines(all.take(i as int)) == Ok::<Seq<(Seq<char>, Seq<char>)>, Seq<char>>(
                pairs_view(out@),
            ),
        decreases ls.len() - i,
    {
        proof {
            assert(all.take(i + 1).drop_last() =~= all.take(i as int));
            assert(all.take(i + 1).last() == ls@[i as int]@);
        }
        let ghost before = out@;
        match judge_volume_line(i, ls[i].as_slice()) {
            VolumeLineResult::Skip => {},
            VolumeLineResult::Pair(f, d) => {
                let fs = text::from_chars(f.as_slice());
                let ds = text::from_chars(d.as_slice());
                out.push((fs, ds));
                assert(pairs_view(out@) =~= pairs_view(before).push((f@, d@)));
            },
            VolumeLineResult::Bad(m) => {
                proof {
                    let t = all.take(i + 1);
                    assert(t.len() - 1 == i);
                    assert(volume_lines(t) == Err::<Seq<(Seq<char>, Seq<char>)>, Seq<char>>(m@));
                    lemma_volume_lines_err_sticks(all, i as int + 1);
                }
                return Err(text::from_chars(m.as_slice()));
            },
        }
        i = i + 1;
    }
    proof {
        assert(all.take(all.len() as int) =~= all);
    }
    Ok(out)
}

/// Once a prefix of the lines is rejected, so is every longer prefix, with
/// the same message.
pub proof fn lemma_volume_lines_err_sticks(ls: Seq<Seq<char>>, i: int)
    requires
        0 <= i <= ls.len(),
        volume_lines(ls.take(i)) is Err,
    ensures
        volume_lines(ls) == volume_lines(ls.take(i)),
    decreases ls.len() - i,
{
    if i < ls.len() {
        let t = ls.drop_last();
        assert(t.take(i) =~= ls.take(i));
        lemma_volume_lines_err_sticks(t, i);
    } else {
        assert(ls.take(i) =~= ls);
    }
}

/// The first unit named `file_name`.
pub open spec fn find_unit(units: Seq<UnitView>, file_name: Seq<char>) -> Option<UnitView>
    decreases units.len(),
{
    if units.len() == 0 {
        None
    } else if units[0].file_name == file_name {
        Some(units[0])
    } else {
        find_unit(units.drop_first(), file_name)
    }
}

/// Whether a staged file name resolves to a unit of the expected kind, or
/// the message to reject the submission with.
pub open spec fn resource_check(
    units: Seq<UnitView>,
    file_name: Seq<char>,
    kind: UnitKind,
    noun: Seq<char>,
) -> Result<(), Seq<char>> {
    match find_unit(units, file_name) {
        Some(u) => if u.kind == kind {
            Ok(())
        } else {
            Err(file_name + " is not a "@ + noun)
        },
        None => Err(file_name + " not found"@),
    }
}

/// The first failing `resource_check` of `names`, in order.
pub open spec fn resources_check(
    units: Seq<UnitView>,
    names: Seq<Seq<char>>,
    kind: UnitKind,
    noun: Seq<char>,
) -> Result<(), Seq<char>>
    decreases names.len(),
{
    if names.len() == 0 {
        Ok(())
    } else {
        match resource_check(units, names[0], kind, noun) {
            Err(e) => Err(e),
            Ok(_) => resources_check(units, names.drop_first(), kind, noun),
        }
    }
}

/// The index of the first unit named `file_name`.
pub(crate) fn find_unit_index(all: &[QuadletUnit], file_name: &[char]) -> (r: Option<usize>)
    ensures
        match r {
            Some(i) => i < all@.len() && find_unit(units_view(all@), file_name@) == Some(
                all@[i as int]@,
            ),
            None => find_unit(units_view(all@), file_name@) is None,
        },
{
    let ghost uv = units_view(all@);
    let mut i: usize = 0;
    proof {
        assert(uv.skip(0) =~= uv);
    }
    while i < all.len()
        invariant
            i <= all@.len(),
            uv == units_view(all@),
            find_unit(uv, file_name@) == find_unit(uv.skip(i as int), file_name@),
        decreases all.len() - i,
    {
        let ghost rest = uv.skip(i as int);
        assert(rest[0] == all@[i as int]@);
        let n = text::to_chars(all[i].file_name.as_str());
        if text::chars_eq(n.as_slice(), file_name) {
            return Some(i);
        }
        assert(rest.drop_first() =~= uv.skip(i + 1));
        i = i + 1;
    }
    None
}

/// Resolves one staged file name to a unit of the expected `kind`, or the
/// message to reject the submission with.
pub fn validate_resource(all: &[QuadletUnit], file_name: &str, kind: UnitKind, noun: &str) -> (r:
    Result<(), String>)
    ensures
        match r {
            Ok(_) => resource_check(units_view(all@), file_name@, kind, noun@) is Ok,
            Err(e) => resource_check(units_view(all@), file_name@, kind, noun@) == Err::<
                (),
                Seq<char>,
            >(e@),
        },
{
    let f = text::to_chars(file_name);
    match find_unit_index(all, f.as_slice()) {
        Some(i) => {
            if all[i].kind == kind {
                Ok(())
            } else {
                let mut m = f;
                text::append_str(&mut m, " is not a ");
                text::append_str(&mut m, noun);
                Err(text::from_chars(m.as_slice()))
            }
        },
        None => {
            let mut m = f;
            text::append_str(&mut m, " not found");
            Err(text::from_chars(m.as_slice()))
        },
    }
}

fn validate_all(all: &[QuadletUnit], names: &[String], kind: UnitKind, noun: &str) -> (r: Result<
    (),
    String,
>)
    ensures
        match r {
            Ok(_) => resources_check(units_view(all@), strings_view(names@), kind, noun@) is Ok,
            Err(e) => resources_check(units_view(all@), strings_view(names@), kind, noun@)
                == Err::<(), Seq<char>>(e@),
        },
{
    let ghost ns = strings_view(names@);
    let ghost uv = units_view(all@);
    let mut i: usize = 0;
    proof {
        assert(ns.skip(0) =~= ns);
    }
    while i < names.len()
        invariant
            i <= names@.len(),
            ns == strings_view(names@),
            uv == units_view(all@),
            resources_check(uv, ns, kind, noun@) == resources_check(uv, ns.skip(i as int), kind, noun@),
        decreases names.len() - i,
    {
        let ghost rest = ns.skip(i as int);
        assert(rest[0] == names@[i as int]@);
        let res = validate_resource(all, names[i].as_str(), kind, noun);
        if res.is_err() {
            return res;
        }
        assert(rest.drop_first() =~= ns.skip(i + 1));
        i = i + 1;
    }
    Ok(())
}

/// Every staged existing container is a `.container` on disk.
pub fn validate_existing(all: &[QuadletUnit], existing: &[String]) -> (r: Result<(), String>)
    ensures
        match r {
            Ok(_) => resources_check(
                units_view(all@),
                strings_view(existing@),
                UnitKind::Container,
                "container"@,
            ) is Ok,
            Err(e) => resources_check(
                units_view(all@),
                strings_view(existing@),
                UnitKind::Container,
                "container"@,
            ) == Err::<(), Seq<char>>(e@),
        },
{
    validate_all(all, existing, UnitKind::Container, "container")
}

/// Every staged network is a `.network` on disk.
pub fn validate_networks(all: &[QuadletUnit], networks: &[String]) -> (r: Result<(), String>)
    ensures
        match r {
            Ok(_) => resources_check(
                units_view(all@),
                strings_view(networks@),
                UnitKind::Network,
                "network"@,
            ) is Ok,
            Err(e) => resources_check(
                units_view(all@),
                strings_view(networks@),
                UnitKind::Network,
                "network"@,
            ) == Err::<(), Seq<char>>(e@),
        },
{
    validate_all(all, networks, UnitKind::Network, "network")
}

/// The file names of staged `(file, dest)` volume pairs.
pub open spec fn pair_firsts(v: Seq<(Seq<char>, Seq<char>)>) -> Seq<Seq<char>> {
    v.map_values(|p: (Seq<char>, Seq<char>)| p.0)
}

/// Every staged volume is a `.volume` on disk.
pub fn validate_volumes(all: &[QuadletUnit], volumes: &[(String, String)]) -> (r: Result<
    (),
    String,
>)
    ensures
        match r {
            Ok(_) => resources_check(
                units_view(all@),
                pair_firsts(pairs_view(volumes@)),
                UnitKind::Volume,
                "volume"@,
            ) is Ok,
            Err(e) => resources_check(
                units_view(all@),
                pair_firsts(pairs_view(volumes@)),
                UnitKind::Volume,
                "volume"@,
            ) == Err::<(), Seq<char>>(e@),
        },
{
    let mut names: Vec<String> = Vec::new();
    let mut i: usize = 0;
    while i < volumes.len()
        invariant
            i <= volumes@.len(),
            strings_view(names@) == pair_firsts(pairs_view(volumes@)).take(i as int),
        decreases volumes.len() - i,
    {
        let ghost before = names@;
        names.push(volumes[i].0.clone());
        assert(strings_view(names@) =~= strings_view(before).push(volumes@[i as int].0@));
        assert(pair_firsts(pairs_view(volumes@))[i as int] == volumes@[i as int].0@);
        assert(strings_view(names@) =~= pair_firsts(pairs_view(volumes@)).take(i + 1));
        i = i + 1;
    }
    assert(strings_view(names@) =~= pair_firsts(pairs_view(volumes@)));
    validate_all(all, names.as_slice(), UnitKind::Volume, "volume")
}

/// The character sequence held by an optional string.
pub open spec fn opt_view(o: Option<String>) -> Option<Seq<char>> {
    match o {
        Some(s) => Some(s@),
        None => None,
    }
}

/// One row the "existing container" picker offers.
pub struct ContainerOption {
    pub file_name: String,
    pub group: String,
    pub image: Option<String>,
    /// The pod it is already attached to, if any.
    pub current_pod: Option<String>,
}

pub struct ContainerOptionView {
    pub file_name: Seq<char>,
    pub group: Seq<char>,
    pub image: Option<Seq<char>>,
    pub current_pod: Option<Seq<char>>,
}

impl View for ContainerOption {
    type V = ContainerOptionView;

    open spec fn view(&self) -> ContainerOptionView {
        ContainerOptionView {
            file_name: self.file_name@,
            group: self.group@,
            image: opt_view(self.image),
            current_pod: opt_view(self.current_pod),
        }
    }
}

/// The picker row a unit gives, if it is offered at all: non-template
/// containers, minus those already in `exclude_pod`.
pub open spec fn container_option_of(u: UnitView, exclude_pod: Option<Seq<char>>) -> Option<
    ContainerOptionView,
> {
    if u.kind != UnitKind::Container || is_template_name(u.file_name) {
        None
    } else {
        let current = unit_value(u, "Container"@, "Pod"@);
        if exclude_pod is Some && current == exclude_pod {
            None
        } else {
            Some(
                ContainerOptionView {
                    file_name: u.file_name,
                    group: u.group,
                    image: unit_value(u, "Container"@, "Image"@),
                    current_pod: current,
                },
            )
        }
    }
}

/// The picker rows of all units, in order.
pub open spec fn container_options_spec(units: Seq<UnitView>, exclude_pod: Option<Seq<char>>) -> Seq<
    ContainerOptionView,
>
    decreases units.len(),
{
    if units.len() == 0 {
        Seq::empty()
    } else {
        let r = container_options_spec(units.drop_last(), exclude_pod);
        match container_option_of(units.last(), exclude_pod) {
            Some(o) => r.push(o),
            None => r,
        }
    }
}

fn opt_str_view(o: Option<&str>) -> (r: Option<String>)
    ensures
        opt_view(r) == match o {
            Some(s) => Some(s@),
            None => None::<Seq<char>>,
        },
{
    match o {
        Some(s) => Some(text::owned(s)),
        None => None,
    }
}

/// Every non-template `.container` on disk the picker can offer, with its
/// image and current `Pod=`; `exclude_pod` drops the members of the pod
/// being edited.
pub fn container_options(all: &[QuadletUnit], exclude_pod: Option<&str>) -> (r: Vec<
    ContainerOption,
>)
    ensures
        r@.map_values(|o: ContainerOption| o@) == container_options_spec(
            units_view(all@),
            match exclude_pod {
                Some(p) => Some(p@),
                None => None::<Seq<char>>,
            },
        ),
{
    let ghost ex = match exclude_pod {
        Some(p) => Some(p@),
        None => None::<Seq<char>>,
    };
    let ghost uv = units_view(all@);
    let mut out: Vec<ContainerOption> = Vec::new();
    let mut i: usize = 0;
    proof {
        assert(uv.take(0) =~= Seq::<UnitView>::empty());
    }
    while i < all.len()
        invariant
            i <= all@.len(),
            uv == units_view(all@),
            ex == match exclude_pod {
                Some(p) => Some(p@),
                None => None::<Seq<char>>,
            },
            out@.map_values(|o: ContainerOption| o@) == container_options_spec(
                uv.take(i as int),
                ex,
            ),
        decreases all.len() - i,
    {
        let u = &all[i];
        proof {
            assert(uv.take(i + 1).drop_last() =~= uv.take(i as int));
            assert(uv.take(i + 1).last() == u@);
        }
        let ghost before = out@;
        if u.kind == UnitKind::Container && !u.is_template() {
            let current = opt_str_view(u.value("Container", "Pod"));
            let excluded = match (exclude_pod, &current) {
                (Some(e), Some(c)) => text::str_eq(e, c.as_str()),
                _ => false,
            };
            if !excluded {
                let image = opt_str_view(u.value("Container", "Image"));
                out.push(
                    ContainerOption {
                        file_name: u.file_name.clone(),
                        group: u.group.clone(),
                        image,
                        current_pod: current,
                    },
                );
                assert(out@.map_values(|o: ContainerOption| o@) =~= before.map_values(
                    |o: ContainerOption| o@,
                ).push(container_option_of(u@, ex)->0));
            }
        }
        i = i + 1;
    }
    proof {
        assert(uv.take(all@.len() as int) =~= uv);
    }
    out
}

/// One row the "existing network"/"existing volume" pickers offer.
pub struct ResourceOption {
    pub file_name: String,
    pub group: String,
}

/// The picker rows of all units of `kind`, minus templates and the names in
/// `exclude`, in order.
pub open spec fn resource_options_spec(
    units: Seq<UnitView>,
    kind: UnitKind,
    exclude: Seq<Seq<char>>,
) -> Seq<(Seq<char>, Seq<char>)>
    decreases units.len(),
{
    if units.len() == 0 {
        Seq::empty()
    } else {
        let r = resource_options_spec(units.drop_last(), kind, exclude);
        let u = units.last();
        if u.kind == kind && !is_template_name(u.file_name) && !exclude.contains(u.file_name) {
            r.push((u.file_name, u.group))
        } else {
            r
        }
    }
}

pub(crate) fn contains_string(v: &[String], s: &str) -> (r: bool)
    ensures
        r == strings_view(v@).contains(s@),
{
    let mut i: usize = 0;
    while i < v.len()
        invariant
            i <= v@.len(),
            forall|k: int| 0 <= k < i ==> v@[k]@ != s@,
        decreases v.len() - i,
    {
        if text::str_eq(v[i].as_str(), s) {
            assert(strings_view(v@)[i as int] == s@);
            return true;
        }
        i = i + 1;
    }
    proof {
        if strings_view(v@).contains(s@) {
            let k = choose|k: int| 0 <= k < strings_view(v@).len() && strings_view(v@)[k] == s@;
            assert(v@[k]@ == s@);
        }
    }
    false
}

/// Every non-template unit of `kind` the network/volume pickers can offer,
/// minus anything in `exclude`.
pub fn resource_options(all: &[QuadletUnit], kind: UnitKind, exclude: &[String]) -> (r: Vec<
    ResourceOption,
>)
    ensures
        r@.map_values(|o: ResourceOption| (o.file_name@, o.group@)) == resource_options_spec(
            units_view(all@),
            kind,
            strings_view(exclude@),
        ),
{
    let ghost uv = units_view(all@);
    let mut out: Vec<ResourceOption> = Vec::new();
    let mut i: usize = 0;
    proof {
        assert(uv.take(0) =~= Seq::<UnitView>::empty());
    }
    while i < all.len()
        invariant
            i <= all@.len(),
            uv == units_view(all@),
            out@.map_values(|o: ResourceOption| (o.file_name@, o.group@)) == resource_options_spec(
                uv.take(i as int),
                kind,
                strings_view(exclude@),
            ),
        decreases all.len() - i,
    {
        let u = &all[i];
        proof {
            assert(uv.take(i + 1).drop_last() =~= uv.take(i as int));
            assert(uv.take(i + 1).last() == u@);
        }
        let ghost before = out@;
        if u.kind == kind && !u.is_template() && !contains_string(exclude, u.file_name.as_str()) {
            out.push(ResourceOption { file_name: u.file_name.clone(), group: u.group.clone() });
            assert(out@.map_values(|o: ResourceOption| (o.file_name@, o.group@)) =~= before.map_values(
                |o: ResourceOption| (o.file_name@, o.group@),
            ).push((u@.file_name, u@.group)));
        }
        i = i + 1;
    }
    proof {
        assert(uv.take(all@.len() as int) =~= uv);
    }
    out
}

/// `contents` with a `Network=<net>` entry added to `[Pod]` for each staged
/// network, in order.
pub open spec fn with_networks(contents: Seq<char>, networks: Seq<Seq<char>>) -> Seq<char>
    decreases networks.len(),
{
    if networks.len() == 0 {
        contents
    } else {
        append_entry_spec(
            with_networks(contents, networks.drop_last()),
            "Pod"@,
            "Network"@,
            networks.last(),
        )
    }
}

/// `contents` with a `Volume=<file>:<dest>` entry added to `[Pod]` for each
/// staged volume, in order.
pub open spec fn with_volumes(contents: Seq<char>, volumes: Seq<(Seq<char>, Seq<char>)>) -> Seq<
    char,
>
    decreases volumes.len(),
{
    if volumes.len() == 0 {
        contents
    } else {
        append_entry_spec(
            with_volumes(contents, volumes.drop_last()),
            "Pod"@,
            "Volume"@,
            volumes.last().0 + seq![':'] + volumes.last().1,
        )
    }
}

/// Folds the staged networks and volumes into the pod's own `[Pod]`
/// section: one appended `Network=` line per network, then one `Volume=`
/// line per volume.
pub fn apply_pod_resources(
    contents: &str,
    networks: &[String],
    volumes: &[(String, String)],
) -> (r: String)
    ensures
        r@ == with_volumes(with_networks(contents@, strings_view(networks@)), pairs_view(volumes@)),
{
    let ghost nets = strings_view(networks@);
    let ghost vols = pairs_view(volumes@);
    let mut out = text::owned(contents);
    let mut i: usize = 0;
    proof {
        assert(nets.take(0) =~= Seq::<Seq<char>>::empty());
    }
    while i < networks.len()
        invariant
            i <= networks@.len(),
            nets == strings_view(networks@),
            out@ == with_networks(contents@, nets.take(i as int)),
        decreases networks.len() - i,
    {
        proof {
            assert(nets.take(i + 1).drop_last() =~= nets.take(i as int));
        }
        out = iniedit::append_entry(out.as_str(), "Pod", "Network", networks[i].as_str());
        i = i + 1;
    }
    proof {
        assert(nets.take(networks@.len() as int) =~= nets);
    }
    let ghost base = out@;
    let mut j: usize = 0;
    proof {
        assert(vols.take(0) =~= Seq::<(Seq<char>, Seq<char>)>::empty());
    }
    while j < volumes.len()
        invariant
            j <= volumes@.len(),
            vols == pairs_view(volumes@),
            out@ == with_volumes(base, vols.take(j as int)),
        decreases volumes.len() - j,
    {
        proof {
            assert(vols.take(j + 1).drop_last() =~= vols.take(j as int));
        }
        let mut v: Vec<char> = text::to_chars(volumes[j].0.as_str());
        v.push(':');
        text::append_str(&mut v, volumes[j].1.as_str());
        let value = text::from_chars(v.as_slice());
        assert(vols.take(j + 1).last() == vols[j as int]);
        assert(value@ =~= vols[j as int].0 + seq![':'] + vols[j as int].1);
        out = iniedit::append_entry(out.as_str(), "Pod", "Volume", value.as_str());
        j = j + 1;
    }
    proof {
        assert(vols.take(volumes@.len() as int) =~= vols);
    }
    out
}

} // verus!
