//! The unit log viewer: journal lines grouped into runs by systemd
//! invocation, their timestamps, and the line-ending clean-up every live
//! line gets before it is sent as a server-sent event.
use vstd::prelude::*;

use crate::pods::opt_view;
use crate::text;

verus! {

/// `s` with every `\r\n` and then every lone `\r` turned into `\n` (what an
/// HTML parser does to the initial page's lines).
pub open spec fn normalized(s: Seq<char>) -> Seq<char>
    decreases s.len(),
{
    if s.len() == 0 {
        s
    } else if s[0] == '\r' && s.len() >= 2 && s[1] == '\n' {
        seq!['\n'] + normalized(s.skip(2))
    } else if s[0] == '\r' {
        seq!['\n'] + normalized(s.skip(1))
    } else {
        seq![s[0]] + normalized(s.skip(1))
    }
}

/// Rewrites `\r\n` and lone `\r` to `\n`, so a live line renders the same
/// as it would after a reload.
pub fn normalize_newlines(s: &str) -> (r: String)
    ensures
        r@ == normalized(s@),
{
    let v = text::to_chars(s);
    let mut out: Vec<char> = Vec::new();
    let mut i: usize = 0;
    proof {
        assert(v@.skip(0) =~= v@);
        assert(out@ + normalized(v@.skip(0)) =~= normalized(v@));
    }
    while i < v.len()
        invariant
            i <= v@.len(),
            v@ == s@,
            out@ + normalized(v@.skip(i as int)) == normalized(v@),
        decreases v.len() - i,
    {
        let ghost rest = v@.skip(i as int);
        assert(rest[0] == v@[i as int]);
        if v[i] == '\r' {
            out.push('\n');
            if i + 1 < v.len() && v[i + 1] == '\n' {
                assert(rest[1] == '\n');
                assert(rest.skip(2) =~= v@.skip(i + 2));
                i = i + 2;
            } else {
                assert(rest.skip(1) =~= v@.skip(i + 1));
                i = i + 1;
            }
        } else {
            assert(rest.skip(1) =~= v@.skip(i + 1));
            out.push(v[i]);
            i = i + 1;
        }
        assert(out@ + normalized(v@.skip(i as int)) =~= normalized(v@));
    }
    assert(v@.skip(i as int) =~= Seq::<char>::empty());
    assert(out@ =~= normalized(v@));
    text::from_chars(out.as_slice())
}

/// No carriage return survives normalisation.
pub proof fn lemma_normalized_has_no_cr(s: Seq<char>)
    ensures
        !normalized(s).contains('\r'),
    decreases s.len(),
{
    if s.len() > 0 {
        let (head, tail) = if s[0] == '\r' && s.len() >= 2 && s[1] == '\n' {
            (seq!['\n'], s.skip(2))
        } else if s[0] == '\r' {
            (seq!['\n'], s.skip(1))
        } else {
            (seq![s[0]], s.skip(1))
        };
        lemma_normalized_has_no_cr(tail);
        assert(normalized(s) == head + normalized(tail));
        if normalized(s).contains('\r') {
            let k = choose|k: int| 0 <= k < normalized(s).len() && normalized(s)[k] == '\r';
            if k > 0 {
                assert(normalized(tail)[k - 1] == '\r');
            }
        }
    }
}

/// Text without carriage returns comes back unchanged.
pub proof fn lemma_normalized_keeps_cr_free_text(s: Seq<char>)
    requires
        !s.contains('\r'),
    ensures
        normalized(s) == s,
    decreases s.len(),
{
    if s.len() > 0 {
        assert(s[0] != '\r');
        let t = s.skip(1);
        assert(!t.contains('\r')) by {
            if t.contains('\r') {
                let k = choose|k: int| 0 <= k < t.len() && t[k] == '\r';
                assert(s[k + 1] == '\r');
            }
        }
        lemma_normalized_keeps_cr_free_text(t);
        assert(seq![s[0]] + t =~= s);
    }
}

/// The line indices of the `Line` rows, in order (dividers skipped).
pub open spec fn line_indices(rows: Seq<LogRow>) -> Seq<int>
    decreases rows.len(),
{
    if rows.len() == 0 {
        Seq::empty()
    } else {
        match rows[0] {
            LogRow::Line { line, .. } => seq![line as int] + line_indices(rows.drop_first()),
            LogRow::Divider { .. } => line_indices(rows.drop_first()),
        }
    }
}

proof fn lemma_line_indices_concat(a: Seq<LogRow>, b: Seq<LogRow>)
    ensures
        line_indices(a + b) == line_indices(a) + line_indices(b),
    decreases a.len(),
{
    if a.len() == 0 {
        assert(a + b =~= b);
    } else {
        lemma_line_indices_concat(a.drop_first(), b);
        assert((a + b).drop_first() =~= a.drop_first() + b);
        match a[0] {
            LogRow::Line { line, .. } => {
                let h: Seq<int> = seq![line as int];
                assert(h + line_indices(a.drop_first()) + line_indices(b) =~= h + (line_indices(
                    a.drop_first(),
                ) + line_indices(b)));
            },
            LogRow::Divider { .. } => {},
        }
    }
}

proof fn lemma_rows_from_cover(
    invs: Seq<Option<Seq<char>>>,
    i: int,
    current: Option<Seq<char>>,
    latest: Option<Seq<char>>,
)
    requires
        0 <= i <= invs.len(),
        invs.len() <= usize::MAX,
    ensures
        line_indices(rows_from(invs, i, current, latest)) == Seq::new(
            (invs.len() - i) as nat,
            |k: int| i + k,
        ),
    decreases invs.len() - i,
{
    if i < invs.len() {
        let next = match invs[i] {
            Some(v) => Some(v),
            None => current,
        };
        lemma_rows_from_cover(invs, i + 1, next, latest);
        let divider: Seq<LogRow> = match invs[i] {
            Some(v) => if current is Some && current != Some(v) {
                seq![LogRow::Divider { line: i as usize, old: Some(v) != latest }]
            } else {
                Seq::empty()
            },
            None => Seq::empty(),
        };
        let line = seq![LogRow::Line { line: i as usize, old: next is Some && next != latest }];
        let tail = rows_from(invs, i + 1, next, latest);
        assert(rows_from(invs, i, current, latest) == divider + line + tail);
        lemma_line_indices_concat(divider + line, tail);
        lemma_line_indices_concat(divider, line);
        reveal_with_fuel(line_indices, 2);
        assert(line_indices(divider) =~= Seq::<int>::empty()) by {
            if divider.len() > 0 {
                assert(divider.drop_first() =~= Seq::<LogRow>::empty());
            }
        }
        assert(line.drop_first() =~= Seq::<LogRow>::empty());
        assert((i as usize) as int == i);
        assert(line_indices(line) =~= seq![i]);
        assert(seq![i] + Seq::new((invs.len() - i - 1) as nat, |k: int| i + 1 + k) =~= Seq::new(
            (invs.len() - i) as nat,
            |k: int| i + k,
        ));
        assert(Seq::<int>::empty() + seq![i] =~= seq![i]);
    } else {
        assert(Seq::new((invs.len() - i) as nat, |k: int| i + k) =~= Seq::<int>::empty());
    }
}

/// Every journal line is shown exactly once and in order: the view's line
/// rows are lines `0, 1, …, n-1`, whatever runs and dividers surround them.
pub proof fn lemma_log_rows_show_every_line_once(invs: Seq<Option<Seq<char>>>)
    requires
        invs.len() <= usize::MAX,
    ensures
        line_indices(log_rows_of(invs)) == Seq::new(invs.len(), |k: int| k),
{
    lemma_rows_from_cover(invs, 0, None, latest_of(invs));
    assert(Seq::new((invs.len() - 0) as nat, |k: int| 0 + k) =~= Seq::new(invs.len(), |k: int| k));
}

/// The last invocation id among the lines (the latest run), if any line
/// carries one.
pub open spec fn latest_of(invs: Seq<Option<Seq<char>>>) -> Option<Seq<char>>
    decreases invs.len(),
{
    if invs.len() == 0 {
        None
    } else {
        match invs.last() {
            Some(v) => Some(v),
            None => latest_of(invs.drop_last()),
        }
    }
}

/// One row of the log view: the line at an index, or a "new run" divider
/// placed before it; `old` marks rows outside the latest run.
#[derive(Clone, Copy, Debug, PartialEq, Eq, Structural)]
pub enum LogRow {
    Divider { line: usize, old: bool },
    Line { line: usize, old: bool },
}

/// The rows from line `i` on, with `current` the run the lines before it
/// belong to: a line with an id different from `current` starts a new run
/// (a divider first, when there was a run before); a line with no id stays
/// in the run before it.
pub open spec fn rows_from(
    invs: Seq<Option<Seq<char>>>,
    i: int,
    current: Option<Seq<char>>,
    latest: Option<Seq<char>>,
) -> Seq<LogRow>
    decreases invs.len() - i,
{
    if i < 0 || i >= invs.len() {
        Seq::empty()
    } else {
        let next = match invs[i] {
            Some(v) => Some(v),
            None => current,
        };
        let divider: Seq<LogRow> = match invs[i] {
            Some(v) => if current is Some && current != Some(v) {
                seq![LogRow::Divider { line: i as usize, old: Some(v) != latest }]
            } else {
                Seq::empty()
            },
            None => Seq::empty(),
        };
        divider + seq![LogRow::Line { line: i as usize, old: next is Some && next != latest }]
            + rows_from(invs, i + 1, next, latest)
    }
}

/// The run line `k` belongs to: the last invocation id at or before it
/// (none when no line up to it carries one).
pub open spec fn run_of(invs: Seq<Option<Seq<char>>>, k: int) -> Option<Seq<char>> {
    latest_of(invs.take(k + 1))
}

proof fn lemma_rows_from_old_lines(
    invs: Seq<Option<Seq<char>>>,
    i: int,
    current: Option<Seq<char>>,
    latest: Option<Seq<char>>,
)
    requires
        0 <= i <= invs.len(),
        invs.len() <= usize::MAX,
        current == latest_of(invs.take(i)),
    ensures
        forall|q: int|
            0 <= q < rows_from(invs, i, current, latest).len() ==> match #[trigger] rows_from(
                invs,
                i,
                current,
                latest,
            )[q] {
                LogRow::Line { line, old } => i <= line < invs.len() && old == (run_of(invs, line as int)
                    is Some && run_of(invs, line as int) != latest),
                LogRow::Divider { line, old } => i <= line < invs.len() && invs[line as int] is Some
                    && run_of(invs, line - 1) is Some && run_of(invs, line - 1) != invs[line as int]
                    && old == (invs[line as int] != latest),
            },
    decreases invs.len() - i,
{
    if i < invs.len() {
        let next = match invs[i] {
            Some(v) => Some(v),
            None => current,
        };
        assert(invs.take(i + 1).drop_last() =~= invs.take(i));
        assert(invs.take(i + 1).last() == invs[i]);
        assert(next == latest_of(invs.take(i + 1)));
        lemma_rows_from_old_lines(invs, i + 1, next, latest);
        let divider: Seq<LogRow> = match invs[i] {
            Some(v) => if current is Some && current != Some(v) {
                seq![LogRow::Divider { line: i as usize, old: Some(v) != latest }]
            } else {
                Seq::empty()
            },
            None => Seq::empty(),
        };
        let line = seq![LogRow::Line { line: i as usize, old: next is Some && next != latest }];
        let tail = rows_from(invs, i + 1, next, latest);
        let all = rows_from(invs, i, current, latest);
        assert(all == divider + line + tail);
        assert((i as usize) as int == i);
        assert forall|q: int| 0 <= q < all.len() implies match #[trigger] all[q] {
            LogRow::Line { line, old } => i <= line < invs.len() && old == (run_of(invs, line as int)
                is Some && run_of(invs, line as int) != latest),
            LogRow::Divider { line, old } => i <= line < invs.len() && invs[line as int] is Some
                && run_of(invs, line - 1) is Some && run_of(invs, line - 1) != invs[line as int]
                && old == (invs[line as int] != latest),
        } by {
            if q < divider.len() {
                assert(all[q] == divider[q]);
                assert(invs.take(i - 1 + 1) =~= invs.take(i));
            } else if q == divider.len() {
                assert(all[q] == line[0]);
            } else {
                assert(all[q] == tail[q - divider.len() - 1]);
            }
        }
    }
}

/// A line is marked old exactly when it belongs to a run and that run is
/// not the latest one: a line before every line carrying an invocation id
/// (in no run) is never old, and every line of the latest run is shown. A
/// divider only stands before a line whose id differs from the run before
/// it (never before the first run), and is old unless it opens the latest
/// run.
pub proof fn lemma_old_lines_are_outside_the_latest_run(invs: Seq<Option<Seq<char>>>)
    requires
        invs.len() <= usize::MAX,
    ensures
        forall|q: int|
            0 <= q < log_rows_of(invs).len() ==> match #[trigger] log_rows_of(invs)[q] {
                LogRow::Line { line, old } => old == (run_of(invs, line as int) is Some && run_of(
                    invs,
                    line as int,
                ) != latest_of(invs)),
                LogRow::Divider { line, old } => invs[line as int] is Some && run_of(invs, line - 1)
                    is Some && run_of(invs, line - 1) != invs[line as int] && old == (invs[line as int]
                    != latest_of(invs)),
            },
{
    assert(invs.take(0) =~= Seq::<Option<Seq<char>>>::empty());
    lemma_rows_from_old_lines(invs, 0, None, latest_of(invs));
}

/// The rows of the whole view.
pub open spec fn log_rows_of(invs: Seq<Option<Seq<char>>>) -> Seq<LogRow> {
    rows_from(invs, 0, None, latest_of(invs))
}

pub open spec fn invs_view(v: Seq<Option<String>>) -> Seq<Option<Seq<char>>> {
    v.map_values(|o: Option<String>| opt_view(o))
}

/// The index of the last line carrying an invocation id.
pub fn latest_invocation(invocations: &[Option<String>]) -> (r: Option<usize>)
    ensures
        match r {
            Some(k) => k < invocations@.len() && invs_view(invocations@)[k as int] is Some
                && latest_of(invs_view(invocations@)) == invs_view(invocations@)[k as int],
            None => latest_of(invs_view(invocations@)) is None,
        },
{
    let ghost iv = invs_view(invocations@);
    let mut n: usize = invocations.len();
    proof {
        assert(iv.take(n as int) =~= iv);
    }
    while n > 0
        invariant
            n <= invocations@.len(),
            iv == invs_view(invocations@),
            latest_of(iv) == latest_of(iv.take(n as int)),
        decreases n,
    {
        let ghost p = iv.take(n as int);
        assert(p.last() == iv[n - 1]);
        match &invocations[n - 1] {
            Some(_) => {
                return Some(n - 1);
            },
            None => {},
        }
        assert(p.drop_last() =~= iv.take(n - 1));
        n = n - 1;
    }
    None
}

fn same_inv(a: &Option<String>, b: &Option<String>) -> (r: bool)
    ensures
        r == (match a {
            Some(s) => Some(s@),
            None => None::<Seq<char>>,
        } == match b {
            Some(s) => Some(s@),
            None => None::<Seq<char>>,
        }),
{
    match (a, b) {
        (Some(x), Some(y)) => text::str_eq(x.as_str(), y.as_str()),
        (None, None) => true,
        _ => false,
    }
}

/// The log view's rows for lines carrying these invocation ids, in order.
pub fn plan_log_rows(invocations: &[Option<String>]) -> (r: Vec<LogRow>)
    ensures
        r@ == log_rows_of(invs_view(invocations@)),
{
    let ghost iv = invs_view(invocations@);
    let latest_idx = latest_invocation(invocations);
    let latest: Option<String> = match latest_idx {
        Some(k) => match &invocations[k] {
            Some(s) => Some(text::owned(s.as_str())),
            None => None,
        },
        None => None,
    };
    let ghost lat = latest_of(iv);
    assert(opt_view(latest) == lat);
    let mut current: Option<String> = None;
    let mut out: Vec<LogRow> = Vec::new();
    let mut i: usize = 0;
    while i < invocations.len()
        invariant
            i <= invocations@.len(),
            iv == invs_view(invocations@),
            lat == latest_of(iv),
            opt_view(latest) == lat,
            out@ + rows_from(
                iv,
                i as int,
                opt_view(current),
                lat,
            ) == log_rows_of(iv),
        decreases invocations.len() - i,
    {
        let ghost cur = opt_view(current);
        let ghost before = out@;
        match &invocations[i] {
            Some(inv) => {
                assert(iv[i as int] == Some(inv@));
                let starts_new = match &current {
                    Some(c) => !text::str_eq(c.as_str(), inv.as_str()),
                    None => false,
                };
                if starts_new {
                    let old = match &latest {
                        Some(l) => !text::str_eq(inv.as_str(), l.as_str()),
                        None => true,
                    };
                    out.push(LogRow::Divider { line: i, old });
                }
                current = Some(text::owned(inv.as_str()));
            },
            None => {
                assert(iv[i as int] is None);
            },
        }
        let line_old = match &current {
            Some(_) => !same_inv(&current, &latest),
            None => false,
        };
        out.push(LogRow::Line { line: i, old: line_old });
        proof {
            let next = opt_view(current);
            let tail = rows_from(iv, i + 1, next, lat);
            assert(rows_from(iv, i as int, cur, lat) == (out@.skip(before.len() as int)) + tail) by {
                assert(out@.skip(before.len() as int) =~= out@.subrange(before.len() as int, out@.len() as int));
            }
            assert(before + out@.skip(before.len() as int) =~= out@);
            assert(before + (out@.skip(before.len() as int) + tail) =~= out@ + tail);
        }
        i = i + 1;
    }
    out
}

/// The RFC 3339 text (UTC) the `time` crate gives for a Unix timestamp in
/// nanoseconds, or `None` when the instant is outside what it can
/// represent or format.
pub uninterp spec fn rfc3339_of_nanos(nanos: int) -> Option<Seq<char>>;

/// `time::OffsetDateTime::from_unix_timestamp_nanos`, then `format` with
/// `well_known::Rfc3339`. The contract claims only that the result is the
/// one named by `rfc3339_of_nanos` for the argument: the same timestamp
/// always formats the same way. Which instants succeed, and the text, are
/// left unsaid.
#[verifier::external_body]
fn rfc3339_from_nanos(nanos: i128) -> (r: Option<String>)
    ensures
        match r {
            Some(s) => rfc3339_of_nanos(nanos as int) == Some(s@),
            None => rfc3339_of_nanos(nanos as int) is None,
        },
{
    match time::OffsetDateTime::from_unix_timestamp_nanos(nanos) {
        Ok(t) => t.format(&time::format_description::well_known::Rfc3339).ok(),
        Err(_) => None,
    }
}

/// The text shown for a journal timestamp (microseconds since the epoch):
/// its RFC 3339 form in UTC, or empty when it cannot be formatted.
pub fn timestamp(realtime_us: i64) -> (r: String)
    ensures
        r@ == match rfc3339_of_nanos(realtime_us * 1000) {
            Some(s) => s,
            None => Seq::empty(),
        },
{
    let nanos: i128 = realtime_us as i128 * 1000;
    timestamp_text(rfc3339_from_nanos(nanos))
}

/// The shown text for a formatting outcome.
pub fn timestamp_text(formatted: Option<String>) -> (r: String)
    ensures
        r@ == match formatted {
            Some(s) => s@,
            None => Seq::empty(),
        },
{
    match formatted {
        Some(s) => s,
        None => String::new(),
    }
}

} // verus!
