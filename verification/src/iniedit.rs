//! Line-level editing of a quadlet's INI text: appending a `Key=Value`
//! entry to a `[Section]` block, leaving every other line as it was.
use vstd::prelude::*;

use crate::text::{self, seqs_of, split_on, trim};

verus! {

/// Lines joined back together with `'\n'` (the inverse of `split_on`).
pub open spec fn join_lines(ls: Seq<Seq<char>>) -> Seq<char>
    decreases ls.len(),
{
    if ls.len() == 0 {
        Seq::empty()
    } else if ls.len() == 1 {
        ls[0]
    } else {
        join_lines(ls.drop_last()) + seq!['\n'] + ls.last()
    }
}

/// `[<name>]`.
pub open spec fn header_text(name: Seq<char>) -> Seq<char> {
    seq!['['] + name + seq![']']
}

/// A line that opens the section `name` (surrounding whitespace ignored).
pub open spec fn is_header_of(l: Seq<char>, name: Seq<char>) -> bool {
    trim(l) == header_text(name)
}

/// A line that opens any section.
pub open spec fn is_any_header(l: Seq<char>) -> bool {
    trim(l).len() > 0 && trim(l)[0] == '['
}

/// A line with something other than whitespace on it.
pub open spec fn is_nonblank(l: Seq<char>) -> bool {
    trim(l).len() > 0
}

/// The index of the first line at or after `j` that opens `name`
/// (`ls.len()` when there is none).
pub open spec fn find_header(ls: Seq<Seq<char>>, name: Seq<char>, j: int) -> int
    decreases ls.len() - j,
{
    if j >= ls.len() {
        ls.len() as int
    } else if is_header_of(ls[j], name) {
        j
    } else {
        find_header(ls, name, j + 1)
    }
}

/// The index of the first line at or after `j` that opens any section
/// (`ls.len()` when there is none).
pub open spec fn find_any_header(ls: Seq<Seq<char>>, j: int) -> int
    decreases ls.len() - j,
{
    if j >= ls.len() {
        ls.len() as int
    } else if is_any_header(ls[j]) {
        j
    } else {
        find_any_header(ls, j + 1)
    }
}

/// The last non-blank line strictly between `lo` and `hi` (`lo` when all
/// of them are blank).
pub open spec fn last_nonblank(ls: Seq<Seq<char>>, lo: int, hi: int) -> int
    decreases hi - lo,
{
    if hi <= lo + 1 {
        lo
    } else if is_nonblank(ls[hi - 1]) {
        hi - 1
    } else {
        last_nonblank(ls, lo, hi - 1)
    }
}

/// `contents` with the line `<key>=<value>` added as the last entry of its
/// first `[section]` block — right after that block's last non-blank line
/// (or its header) — or, when there is no such block, with a new
/// `[section]` block holding that one entry appended at the end.
pub open spec fn append_entry_spec(
    contents: Seq<char>,
    section: Seq<char>,
    key: Seq<char>,
    value: Seq<char>,
) -> Seq<char> {
    let ls = split_on(contents, '\n');
    let entry = key + seq!['='] + value;
    let h = find_header(ls, section, 0);
    if h < ls.len() {
        let e = find_any_header(ls, h + 1);
        let at = last_nonblank(ls, h, e) + 1;
        join_lines(ls.take(at) + seq![entry] + ls.skip(at))
    } else if ls.last().len() == 0 {
        contents + header_text(section) + seq!['\n'] + entry + seq!['\n']
    } else {
        contents + seq!['\n'] + header_text(section) + seq!['\n'] + entry + seq!['\n']
    }
}

proof fn lemma_find_header(ls: Seq<Seq<char>>, name: Seq<char>, j: int)
    requires
        0 <= j <= ls.len(),
    ensures
        j <= find_header(ls, name, j) <= ls.len(),
        find_header(ls, name, j) < ls.len() ==> is_header_of(ls[find_header(ls, name, j)], name),
        forall|k: int| j <= k < find_header(ls, name, j) ==> !is_header_of(#[trigger] ls[k], name),
    decreases ls.len() - j,
{
    if j < ls.len() && !is_header_of(ls[j], name) {
        lemma_find_header(ls, name, j + 1);
    }
}

proof fn lemma_find_any_header(ls: Seq<Seq<char>>, j: int)
    requires
        0 <= j <= ls.len(),
    ensures
        j <= find_any_header(ls, j) <= ls.len(),
        find_any_header(ls, j) < ls.len() ==> is_any_header(ls[find_any_header(ls, j)]),
        forall|k: int| j <= k < find_any_header(ls, j) ==> !is_any_header(#[trigger] ls[k]),
    decreases ls.len() - j,
{
    if j < ls.len() && !is_any_header(ls[j]) {
        lemma_find_any_header(ls, j + 1);
    }
}

proof fn lemma_last_nonblank(ls: Seq<Seq<char>>, lo: int, hi: int)
    requires
        0 <= lo < hi <= ls.len(),
    ensures
        lo <= last_nonblank(ls, lo, hi) < hi,
        forall|k: int| last_nonblank(ls, lo, hi) < k < hi ==> !is_nonblank(#[trigger] ls[k]),
    decreases hi - lo,
{
    if hi > lo + 1 && !is_nonblank(ls[hi - 1]) {
        lemma_last_nonblank(ls, lo, hi - 1);
    }
}

/// The entry `<key>=<value>` sits at line `at` of the result, inside the
/// `[section]` block whose header is line `h` of `contents`: `h` is the
/// first header of that section, no line between it and the entry opens
/// another section, only blank lines stand between the entry and the next
/// header, and the result is the original lines with the entry inserted.
pub open spec fn placed_in_section(
    contents: Seq<char>,
    section: Seq<char>,
    key: Seq<char>,
    value: Seq<char>,
    h: int,
    at: int,
) -> bool {
    let ls = split_on(contents, '\n');
    &&& 0 <= h < at <= ls.len()
    &&& is_header_of(ls[h], section)
    &&& forall|k: int| 0 <= k < h ==> !is_header_of(#[trigger] ls[k], section)
    &&& forall|k: int| h < k < at ==> !is_any_header(#[trigger] ls[k])
    &&& forall|k: int|
        at <= k < ls.len() && (forall|m: int| at <= m <= k ==> !is_any_header(#[trigger] ls[m]))
            ==> !is_nonblank(#[trigger] ls[k])
    &&& append_entry_spec(contents, section, key, value) == join_lines(
        ls.take(at) + seq![key + seq!['='] + value] + ls.skip(at),
    )
}

/// Adding an entry to a section that the text has puts it inside that
/// section: the new line goes after the first `[section]` header and
/// before any later header (no line between that header and the entry
/// opens another section), right after the section's last non-blank line
/// (only blank lines stand between it and the next header), and every
/// other line stays as it was.
pub proof fn lemma_entry_lands_in_its_section(
    contents: Seq<char>,
    section: Seq<char>,
    key: Seq<char>,
    value: Seq<char>,
)
    requires
        exists|j: int|
            0 <= j < split_on(contents, '\n').len() && is_header_of(
                #[trigger] split_on(contents, '\n')[j],
                section,
            ),
    ensures
        exists|h: int, at: int| #[trigger] placed_in_section(contents, section, key, value, h, at),
{
    let ls = split_on(contents, '\n');
    let j = choose|j: int| 0 <= j < ls.len() && is_header_of(#[trigger] ls[j], section);
    lemma_find_header(ls, section, 0);
    let h = find_header(ls, section, 0);
    assert(h <= j);
    assert(h < ls.len());
    lemma_find_any_header(ls, h + 1);
    let e = find_any_header(ls, h + 1);
    lemma_last_nonblank(ls, h, e);
    let at = last_nonblank(ls, h, e) + 1;
    assert(h < at <= e);
    assert forall|k: int|
        at <= k < ls.len() && (forall|m: int| at <= m <= k ==> !is_any_header(#[trigger] ls[m]))
            implies !is_nonblank(#[trigger] ls[k]) by {
        if k >= e {
            assert(is_any_header(ls[e]));
        }
    }
    assert(placed_in_section(contents, section, key, value, h, at));
}

/// The lines joined with `'\n'`.
pub fn join(ls: &Vec<Vec<char>>) -> (r: Vec<char>)
    ensures
        r@ == join_lines(seqs_of(ls@)),
{
    let mut out: Vec<char> = Vec::new();
    let mut i: usize = 0;
    while i < ls.len()
        invariant
            i <= ls@.len(),
            out@ == join_lines(seqs_of(ls@).take(i as int)),
        decreases ls.len() - i,
    {
        let ghost before = seqs_of(ls@).take(i as int);
        if i > 0 {
            out.push('\n');
        }
        text::append_chars(&mut out, ls[i].as_slice());
        proof {
            let after = seqs_of(ls@).take(i + 1);
            assert(after.drop_last() =~= before);
            assert(after.last() == ls@[i as int]@);
            if i == 0 {
                assert(after.len() == 1);
                assert(out@ =~= join_lines(after));
            } else {
                assert(out@ =~= join_lines(after));
            }
        }
        i = i + 1;
    }
    proof {
        assert(seqs_of(ls@).take(ls@.len() as int) =~= seqs_of(ls@));
    }
    out
}

/// Joining the pieces that `split_on` cut a text into gives the text back.
pub proof fn lemma_join_split(s: Seq<char>)
    ensures
        join_lines(split_on(s, '\n')) == s,
    decreases s.len(),
{
    if s.len() > 0 {
        let t = s.drop_last();
        lemma_join_split(t);
        text::lemma_split_on_nonempty(t, '\n');
        let p = split_on(t, '\n');
        if s.last() == '\n' {
            let q = p.push(Seq::<char>::empty());
            assert(q.drop_last() =~= p);
            assert(join_lines(q) =~= t + seq!['\n']);
            assert(t + seq!['\n'] =~= s);
        } else {
            let q = p.update(p.len() - 1, p.last().push(s.last()));
            if p.len() == 1 {
                assert(q[0] =~= t.push(s.last()));
                assert(t.push(s.last()) =~= s);
            } else {
                assert(q.drop_last() =~= p.drop_last());
                assert(join_lines(p) == join_lines(p.drop_last()) + seq!['\n'] + p.last());
                assert(join_lines(q) =~= join_lines(p) + seq![s.last()]);
                assert(t + seq![s.last()] =~= s);
            }
        }
    }
}

fn line_is_header_of(l: &[char], header: &[char]) -> (r: bool)
    ensures
        r == (trim(l@) == header@),
{
    let t = text::trim_chars(l);
    text::chars_eq(t.as_slice(), header)
}

fn line_is_any_header(l: &[char]) -> (r: bool)
    ensures
        r == is_any_header(l@),
{
    let t = text::trim_chars(l);
    t.len() > 0 && t[0] == '['
}

fn line_is_nonblank(l: &[char]) -> (r: bool)
    ensures
        r == is_nonblank(l@),
{
    let t = text::trim_chars(l);
    t.len() > 0
}

/// Adds `<key>=<value>` to the first `[section]` block of `contents` (see
/// `append_entry_spec`).
pub fn append_entry(contents: &str, section: &str, key: &str, value: &str) -> (r: String)
    ensures
        r@ == append_entry_spec(contents@, section@, key@, value@),
{
    let c = text::to_chars(contents);
    let ls = text::split_on_char(c.as_slice(), '\n');
    let ghost sl = split_on(contents@, '\n');
    proof {
        text::lemma_split_on_nonempty(contents@, '\n');
    }
    assert(seqs_of(ls@) == sl);
    assert(ls@.len() == sl.len());
    let mut header: Vec<char> = Vec::new();
    header.push('[');
    text::append_str(&mut header, section);
    header.push(']');
    assert(header@ =~= header_text(section@));
    let mut entry: Vec<char> = Vec::new();
    text::append_str(&mut entry, key);
    entry.push('=');
    text::append_str(&mut entry, value);
    assert(entry@ =~= key@ + seq!['='] + value@);
    let n = ls.len();
    // The section's header line.
    let mut h: usize = 0;
    while h < n && !line_is_header_of(ls[h].as_slice(), header.as_slice())
        invariant
            n == sl.len(),
            seqs_of(ls@) == sl,
            header@ == header_text(section@),
            h <= n,
            find_header(sl, section@, 0) == find_header(sl, section@, h as int),
        decreases n - h,
    {
        assert(sl[h as int] == ls@[h as int]@);
        h = h + 1;
    }
    if h < n {
        assert(sl[h as int] == ls@[h as int]@);
    }
    if h == n {
        let mut out = c;
        if ls[n - 1].len() > 0 {
            assert(sl.last() == ls@[n - 1]@);
            out.push('\n');
        } else {
            assert(sl.last() == ls@[n - 1]@);
        }
        text::append_chars(&mut out, header.as_slice());
        out.push('\n');
        text::append_chars(&mut out, entry.as_slice());
        out.push('\n');
        assert(out@ =~= append_entry_spec(contents@, section@, key@, value@));
        return text::from_chars(out.as_slice());
    }
    // The next section's header line, or the end.
    let mut e: usize = h + 1;
    while e < n && !line_is_any_header(ls[e].as_slice())
        invariant
            n == sl.len(),
            seqs_of(ls@) == sl,
            h < n,
            h + 1 <= e <= n,
            find_any_header(sl, h + 1) == find_any_header(sl, e as int),
        decreases n - e,
    {
        assert(sl[e as int] == ls@[e as int]@);
        e = e + 1;
    }
    if e < n {
        assert(sl[e as int] == ls@[e as int]@);
    }
    // The last non-blank line of the block.
    let mut k: usize = e;
    while k > h + 1 && !line_is_nonblank(ls[k - 1].as_slice())
        invariant
            n == sl.len(),
            seqs_of(ls@) == sl,
            h < k <= e <= n,
            last_nonblank(sl, h as int, e as int) == last_nonblank(sl, h as int, k as int),
        decreases k,
    {
        assert(sl[k - 1] == ls@[k - 1]@);
        k = k - 1;
    }
    if k > h + 1 {
        assert(sl[k - 1] == ls@[k - 1]@);
    }
    let at: usize = if k > h + 1 {
        k
    } else {
        h + 1
    };
    assert(at == last_nonblank(sl, h as int, e as int) + 1);
    let mut pieces: Vec<Vec<char>> = Vec::new();
    let mut i: usize = 0;
    while i < n
        invariant
            n == sl.len(),
            seqs_of(ls@) == sl,
            at <= n,
            i <= n,
            i <= at ==> seqs_of(pieces@) == sl.take(i as int),
            i > at ==> seqs_of(pieces@) == sl.take(at as int) + seq![entry@] + sl.subrange(
                at as int,
                i as int,
            ),
        decreases n - i,
    {
        let ghost before = pieces@;
        if i == at {
            pieces.push(entry.clone());
            assert(seqs_of(pieces@) =~= seqs_of(before).push(entry@));
        }
        let ghost mid = pieces@;
        pieces.push(ls[i].clone());
        assert(seqs_of(pieces@) =~= seqs_of(mid).push(sl[i as int]));
        i = i + 1;
        proof {
            if i <= at {
                assert(seqs_of(pieces@) =~= sl.take(i as int));
            } else {
                assert(seqs_of(pieces@) =~= sl.take(at as int) + seq![entry@] + sl.subrange(
                    at as int,
                    i as int,
                ));
            }
        }
    }
    if at == n {
        let ghost before = pieces@;
        pieces.push(entry);
        assert(seqs_of(pieces@) =~= seqs_of(before).push(entry@));
    }
    proof {
        assert(seqs_of(pieces@) =~= sl.take(at as int) + seq![entry@] + sl.skip(at as int));
        assert(find_header(sl, section@, 0) == h);
        assert(find_any_header(sl, h + 1) == e);
    }
    let out = join(&pieces);
    text::from_chars(out.as_slice())
}

} // verus!
