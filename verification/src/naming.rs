//! Quadlet file and group naming: which stems and group paths are
//! acceptable, and how a file name, a group-relative path, a basename and a
//! systemd service name are composed from them.
use vstd::prelude::*;

use crate::kind::{
    extension_of, kind_of_name, last_index_of, lemma_extension_round_trip, lemma_last_index_of,
    rfind_char, UnitKind,
};
use crate::text::{self, seqs_of, split_on};

verus! {

/// A character allowed in a group segment: an ASCII letter or digit, `_`,
/// `-` or `.`.
pub open spec fn is_name_char(c: char) -> bool {
    ('a' <= c && c <= 'z') || ('A' <= c && c <= 'Z') || ('0' <= c && c <= '9') || c == '_' || c
        == '-' || c == '.'
}

pub fn char_is_name_char(c: char) -> (r: bool)
    ensures
        r == is_name_char(c),
{
    ('a' <= c && c <= 'z') || ('A' <= c && c <= 'Z') || ('0' <= c && c <= '9') || c == '_' || c
        == '-' || c == '.'
}

/// No two consecutive `'.'` characters.
pub open spec fn no_double_dot(s: Seq<char>) -> bool {
    forall|i: int| 0 <= i < s.len() - 1 ==> !(#[trigger] s[i] == '.' && s[i + 1] == '.')
}

/// One path segment of a group: non-empty, made of name characters, not
/// `.`, and without `..`.
pub open spec fn valid_segment(seg: Seq<char>) -> bool {
    &&& seg.len() > 0
    &&& forall|i: int| 0 <= i < seg.len() ==> is_name_char(#[trigger] seg[i])
    &&& no_double_dot(seg)
    &&& seg != seq!['.']
}

/// A group path: empty (the quadlet-dir root), or `/`-separated valid
/// segments.
pub open spec fn valid_group_spec(g: Seq<char>) -> bool {
    g.len() == 0 || forall|i: int|
        0 <= i < split_on(g, '/').len() ==> valid_segment(#[trigger] split_on(g, '/')[i])
}

/// A file-name stem: non-empty, made of name characters or `@`, not `.`,
/// and without `..` (so never a `/`).
pub open spec fn valid_stem_spec(s: Seq<char>) -> bool {
    &&& s.len() > 0
    &&& forall|i: int| 0 <= i < s.len() ==> (is_name_char(#[trigger] s[i]) || s[i] == '@')
    &&& no_double_dot(s)
    &&& s != seq!['.']
}

/// `<stem>.<extension>`.
pub open spec fn file_name_of(stem: Seq<char>, kind: UnitKind) -> Seq<char> {
    stem + seq!['.'] + extension_of(kind)
}

/// `<group>/<name>`, or just `<name>` at the root.
pub open spec fn rel_path_of(group: Seq<char>, name: Seq<char>) -> Seq<char> {
    if group.len() == 0 {
        name
    } else {
        group + seq!['/'] + name
    }
}

/// The last `/`-separated segment of a path.
pub open spec fn basename_of(p: Seq<char>) -> Seq<char> {
    match last_index_of(p, '/') {
        Some(i) => p.skip(i + 1),
        None => p,
    }
}

/// Everything before the last `/` of a path (empty when there is none).
pub open spec fn parent_of(p: Seq<char>) -> Seq<char> {
    match last_index_of(p, '/') {
        Some(i) => p.take(i),
        None => Seq::empty(),
    }
}

/// A file name without its extension (everything before the last `.`).
pub open spec fn stem_of(f: Seq<char>) -> Seq<char> {
    match last_index_of(f, '.') {
        Some(i) => f.take(i),
        None => f,
    }
}

/// A template unit's stem ends in `@` (`worker@.container`).
pub open spec fn is_template_name(f: Seq<char>) -> bool {
    let st = stem_of(f);
    st.len() > 0 && st.last() == '@'
}

/// The first index of `c` in `s`, if any.
pub open spec fn first_index_of(s: Seq<char>, c: char) -> Option<int>
    decreases s.len(),
{
    if s.len() == 0 {
        None
    } else if s[0] == c {
        Some(0)
    } else {
        match first_index_of(s.drop_first(), c) {
            Some(i) => Some(i + 1),
            None => None,
        }
    }
}

pub proof fn lemma_first_index_of(s: Seq<char>, c: char, i: int)
    requires
        0 <= i <= s.len(),
        forall|k: int| 0 <= k < i ==> s[k] != c,
        i == s.len() || s[i] == c,
    ensures
        first_index_of(s, c) == (if i == s.len() {
            None::<int>
        } else {
            Some(i)
        }),
    decreases i,
{
    if i > 0 {
        let t = s.drop_first();
        assert forall|k: int| 0 <= k < i - 1 implies t[k] != c by {
            assert(t[k] == s[k + 1]);
        }
        if i < s.len() {
            assert(t[i - 1] == s[i]);
        }
        lemma_first_index_of(t, c, i - 1);
    }
}

/// The `-<kind>` infix podman puts in a generated service name.
pub open spec fn service_infix(kind: UnitKind) -> Seq<char> {
    match kind {
        UnitKind::Container | UnitKind::Kube => Seq::empty(),
        UnitKind::Pod => seq!['-', 'p', 'o', 'd'],
        UnitKind::Volume => seq!['-', 'v', 'o', 'l', 'u', 'm', 'e'],
        UnitKind::Network => seq!['-', 'n', 'e', 't', 'w', 'o', 'r', 'k'],
        UnitKind::Image => seq!['-', 'i', 'm', 'a', 'g', 'e'],
        UnitKind::Build => seq!['-', 'b', 'u', 'i', 'l', 'd'],
    }
}

/// `.service`.
pub open spec fn dot_service() -> Seq<char> {
    seq!['.', 's', 'e', 'r', 'v', 'i', 'c', 'e']
}

/// The systemd service a quadlet file generates: its stem with the kind's
/// infix (placed before any `@` instance marker) and `.service`.
pub open spec fn service_name_of(f: Seq<char>, kind: UnitKind) -> Seq<char> {
    let st = stem_of(f);
    match first_index_of(st, '@') {
        Some(i) => st.take(i) + service_infix(kind) + st.skip(i) + dot_service(),
        None => st + service_infix(kind) + dot_service(),
    }
}

/// Whether `s` satisfies `no_double_dot`.
fn chars_no_double_dot(s: &[char]) -> (r: bool)
    ensures
        r == no_double_dot(s@),
{
    if s.len() < 2 {
        return true;
    }
    let mut i: usize = 0;
    while i + 1 < s.len()
        invariant
            s@.len() >= 2,
            i + 1 <= s@.len(),
            forall|k: int| 0 <= k < i ==> !(#[trigger] s@[k] == '.' && s@[k + 1] == '.'),
        decreases s.len() - i,
    {
        if s[i] == '.' && s[i + 1] == '.' {
            return false;
        }
        i = i + 1;
    }
    true
}

/// Executable `valid_segment`.
fn segment_is_valid(seg: &[char]) -> (r: bool)
    ensures
        r == valid_segment(seg@),
{
    if seg.len() == 0 {
        return false;
    }
    if seg.len() == 1 && seg[0] == '.' {
        assert(seg@ =~= seq!['.']);
        return false;
    }
    let mut i: usize = 0;
    while i < seg.len()
        invariant
            i <= seg@.len(),
            forall|k: int| 0 <= k < i ==> is_name_char(#[trigger] seg@[k]),
        decreases seg.len() - i,
    {
        if !char_is_name_char(seg[i]) {
            return false;
        }
        i = i + 1;
    }
    proof {
        if seg@ == seq!['.'] {
            assert(seg@[0] == '.');
        }
    }
    chars_no_double_dot(seg)
}

/// Whether `group` is an acceptable group path (empty = the root).
pub fn valid_group(group: &str) -> (r: bool)
    ensures
        r == valid_group_spec(group@),
{
    let v = text::to_chars(group);
    valid_group_chars(v.as_slice())
}

/// `valid_group` over characters.
pub fn valid_group_chars(g: &[char]) -> (r: bool)
    ensures
        r == valid_group_spec(g@),
{
    if g.len() == 0 {
        return true;
    }
    let segs = split_on_slash(g);
    let mut i: usize = 0;
    while i < segs.len()
        invariant
            seqs_of(segs@) == split_on(g@, '/'),
            segs@.len() == split_on(g@, '/').len(),
            g@.len() > 0,
            i <= segs@.len(),
            forall|k: int| 0 <= k < i ==> valid_segment(#[trigger] split_on(g@, '/')[k]),
        decreases segs.len() - i,
    {
        assert(split_on(g@, '/')[i as int] == segs@[i as int]@);
        if !segment_is_valid(segs[i].as_slice()) {
            assert(!valid_segment(split_on(g@, '/')[i as int]));
            return false;
        }
        i = i + 1;
    }
    true
}

fn split_on_slash(g: &[char]) -> (r: Vec<Vec<char>>)
    ensures
        seqs_of(r@) == split_on(g@, '/'),
        r@.len() == split_on(g@, '/').len(),
{
    let r = text::split_on_char(g, '/');
    assert(seqs_of(r@).len() == r@.len());
    r
}

/// Whether `stem` is an acceptable file-name stem.
pub fn valid_stem(stem: &[char]) -> (r: bool)
    ensures
        r == valid_stem_spec(stem@),
{
    if stem.len() == 0 {
        return false;
    }
    if stem.len() == 1 && stem[0] == '.' {
        assert(stem@ =~= seq!['.']);
        return false;
    }
    let mut i: usize = 0;
    while i < stem.len()
        invariant
            i <= stem@.len(),
            forall|k: int| 0 <= k < i ==> (is_name_char(#[trigger] stem@[k]) || stem@[k] == '@'),
        decreases stem.len() - i,
    {
        if !(char_is_name_char(stem[i]) || stem[i] == '@') {
            return false;
        }
        i = i + 1;
    }
    proof {
        if stem@ == seq!['.'] {
            assert(stem@[0] == '.');
        }
    }
    chars_no_double_dot(stem)
}

/// The message a rejected stem is reported with.
pub open spec fn invalid_file_name_message(stem: Seq<char>) -> Seq<char> {
    "invalid file name '"@ + stem + "': use letters, digits, '_', '-', '.', '@'; no '/' or '..'"@
}

/// `<stem>.<extension>` for a valid stem, or the message saying why the
/// stem was rejected.
pub fn compose_file_name(stem: &str, kind: UnitKind) -> (r: Result<String, String>)
    ensures
        valid_stem_spec(stem@) ==> (r matches Ok(f) && f@ == file_name_of(stem@, kind)),
        !valid_stem_spec(stem@) ==> (r matches Err(e) && e@ == invalid_file_name_message(stem@)),
{
    let v = text::to_chars(stem);
    if valid_stem(v.as_slice()) {
        let mut out = v;
        out.push('.');
        text::append_str(&mut out, kind.extension());
        assert(out@ =~= file_name_of(stem@, kind));
        Ok(text::from_chars(out.as_slice()))
    } else {
        let mut out: Vec<char> = Vec::new();
        text::append_str(&mut out, "invalid file name '");
        text::append_str(&mut out, stem);
        text::append_str(
            &mut out,
            "': use letters, digits, '_', '-', '.', '@'; no '/' or '..'",
        );
        Err(text::from_chars(out.as_slice()))
    }
}

/// `<group>/<name>`, or `<name>` when `group` is empty.
pub fn compose_rel_path(group: &str, name: &str) -> (r: String)
    ensures
        r@ == rel_path_of(group@, name@),
{
    let mut out = text::to_chars(group);
    if out.len() > 0 {
        out.push('/');
    }
    text::append_str(&mut out, name);
    assert(out@ =~= rel_path_of(group@, name@));
    text::from_chars(out.as_slice())
}

/// The last `/`-separated segment of a path.
pub fn basename(p: &str) -> (r: String)
    ensures
        r@ == basename_of(p@),
{
    let v = text::to_chars(p);
    match rfind_char(v.as_slice(), '/') {
        Some(i) => {
            assert(i < v.len());
            let b = text::slice_range(v.as_slice(), i + 1, v.len());
            assert(b@ =~= v@.skip(i + 1));
            text::from_chars(b.as_slice())
        },
        None => text::owned(p),
    }
}

/// Everything before the last `/` of a path (empty when there is none).
pub fn parent(p: &str) -> (r: String)
    ensures
        r@ == parent_of(p@),
{
    let v = text::to_chars(p);
    match rfind_char(v.as_slice(), '/') {
        Some(i) => {
            let b = text::slice_range(v.as_slice(), 0, i);
            assert(b@ =~= v@.take(i as int));
            text::from_chars(b.as_slice())
        },
        None => String::new(),
    }
}

/// A file name without its extension.
pub fn stem(file_name: &str) -> (r: String)
    ensures
        r@ == stem_of(file_name@),
{
    let v = text::to_chars(file_name);
    let s = stem_chars(v.as_slice());
    text::from_chars(s.as_slice())
}

fn stem_chars(v: &[char]) -> (r: Vec<char>)
    ensures
        r@ == stem_of(v@),
{
    match rfind_char(v, '.') {
        Some(i) => {
            let b = text::slice_range(v, 0, i);
            assert(b@ =~= v@.take(i as int));
            b
        },
        None => text::slice_range(v, 0, v.len()),
    }
}

/// Whether a file name names a template unit (`worker@.container`).
pub fn is_template(file_name: &str) -> (r: bool)
    ensures
        r == is_template_name(file_name@),
{
    let v = text::to_chars(file_name);
    let s = stem_chars(v.as_slice());
    s.len() > 0 && s[s.len() - 1] == '@'
}

/// The systemd service name a quadlet file generates.
pub fn service_name(file_name: &str, kind: UnitKind) -> (r: String)
    ensures
        r@ == service_name_of(file_name@, kind),
{
    proof {
        reveal_strlit(".service");
        reveal_strlit("-pod");
        reveal_strlit("-volume");
        reveal_strlit("-network");
        reveal_strlit("-image");
        reveal_strlit("-build");
        reveal_strlit("");
    }
    let v = text::to_chars(file_name);
    let st = stem_chars(v.as_slice());
    let infix = match kind {
        UnitKind::Container | UnitKind::Kube => "",
        UnitKind::Pod => "-pod",
        UnitKind::Volume => "-volume",
        UnitKind::Network => "-network",
        UnitKind::Image => "-image",
        UnitKind::Build => "-build",
    };
    assert(infix@ =~= service_infix(kind));
    let at = text::find_char(st.as_slice(), '@');
    let mut out: Vec<char> = Vec::new();
    match at {
        Some(i) => {
            proof {
                lemma_first_index_of(st@, '@', i as int);
            }
            let head = text::slice_range(st.as_slice(), 0, i);
            let tail = text::slice_range(st.as_slice(), i, st.len());
            text::append_chars(&mut out, head.as_slice());
            text::append_str(&mut out, infix);
            text::append_chars(&mut out, tail.as_slice());
            assert(head@ =~= st@.take(i as int));
            assert(tail@ =~= st@.skip(i as int));
        },
        None => {
            proof {
                lemma_first_index_of(st@, '@', st@.len() as int);
            }
            text::append_chars(&mut out, st.as_slice());
            text::append_str(&mut out, infix);
        },
    }
    text::append_str(&mut out, ".service");
    assert(out@ =~= service_name_of(file_name@, kind));
    text::from_chars(out.as_slice())
}

/// A file name composed from a stem and a kind is recognised as that kind
/// again: the extension applied on creation is the one read back.
pub proof fn lemma_composed_name_has_its_kind(stem: Seq<char>, kind: UnitKind)
    ensures
        kind_of_name(file_name_of(stem, kind)) == Some(kind),
{
    let f = file_name_of(stem, kind);
    let e = extension_of(kind);
    let j = stem.len() as int;
    assert(f[j] == '.');
    assert forall|k: int| j < k < f.len() implies f[k] != '.' by {
        assert(f[k] == e[k - j - 1]);
    }
    lemma_last_index_of(f, '.');
    match last_index_of(f, '.') {
        Some(i) => {
            assert(i == j);
            assert(f.skip(i + 1) =~= e);
        },
        None => {
            assert(false);
        },
    }
    lemma_extension_round_trip(kind);
}

/// Filing a name under a group and taking the path apart again gives back
/// the group and the name: `parent(rel_path(g, n)) == g` and
/// `basename(rel_path(g, n)) == n`, for any name without a `/`.
pub proof fn lemma_rel_path_round_trip(group: Seq<char>, name: Seq<char>)
    requires
        forall|i: int| 0 <= i < name.len() ==> name[i] != '/',
    ensures
        basename_of(rel_path_of(group, name)) == name,
        parent_of(rel_path_of(group, name)) == group,
{
    let p = rel_path_of(group, name);
    lemma_last_index_of(p, '/');
    lemma_last_index_of(name, '/');
    if group.len() == 0 {
        assert(p == name);
        assert(name.take(0) =~= group);
    } else {
        let j = group.len() as int;
        assert(p[j] == '/');
        assert forall|k: int| j < k < p.len() implies p[k] != '/' by {
            assert(p[k] == name[k - j - 1]);
        }
        match last_index_of(p, '/') {
            Some(i) => {
                assert(i == j);
                assert(p.skip(i + 1) =~= name);
                assert(p.take(i) =~= group);
            },
            None => {
                assert(false);
            },
        }
    }
}

} // verus!
