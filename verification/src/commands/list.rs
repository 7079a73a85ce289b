//! The `list` table: which todos are shown, and how each row is laid out.
use vstd::prelude::*;

use crate::text::{decimal, decimal_string, push_char, chars_of, string_of_range};
use crate::todo::{elapsed_secs, Status, Timestamp, Todo};

verus! {

/// Which todos `list` shows.
pub enum Filter {
    Open,
    Done,
    All,
}

impl Filter {
    /// The filter that the `list` flags ask for: `--all`, else `--done`,
    /// else open todos only.
    pub fn from_flags(all: bool, done: bool) -> (f: Filter)
        ensures
            all ==> f is All,
            !all && done ==> f is Done,
            !all && !done ==> f is Open,
    {
        if all {
            Filter::All
        } else if done {
            Filter::Done
        } else {
            Filter::Open
        }
    }

    pub open spec fn admits(self, t: Todo) -> bool {
        match self {
            Filter::Open => t.status == Status::Open,
            Filter::Done => t.status == Status::Done,
            Filter::All => true,
        }
    }

    pub fn admits_todo(&self, t: &Todo) -> (b: bool)
        ensures
            b == self.admits(*t),
    {
        match self {
            Filter::Open => t.is_open(),
            Filter::Done => !t.is_open(),
            Filter::All => true,
        }
    }
}

/// `s` cut to at most `max` characters: when longer, its first `max - 1`
/// characters and an ellipsis.
pub open spec fn spec_truncate(s: Seq<char>, max: nat) -> Seq<char> {
    if s.len() <= max {
        s
    } else {
        s.take(if max > 0 { max - 1 } else { 0 }).push('…')
    }
}

/// A title that fits is kept; a longer one is cut to `max` characters (one,
/// where `max` is 0): its first characters, then an ellipsis.
pub proof fn law_truncate(s: Seq<char>, max: nat)
    ensures
        s.len() <= max ==> spec_truncate(s, max) == s,
        s.len() > max ==> spec_truncate(s, max).len() == (if max > 0 { max } else { 1 }),
        s.len() > max ==> spec_truncate(s, max).last() == '…',
        s.len() > max ==> spec_truncate(s, max).drop_last() == s.take(spec_truncate(s, max).len() - 1),
{
    if s.len() > max {
        let k: int = if max > 0 { max - 1 } else { 0 };
        assert(s.take(k).push('…').drop_last() =~= s.take(k));
    }
}

pub fn truncate(s: &str, max: usize) -> (r: String)
    ensures
        r@ == spec_truncate(s@, max as nat),
{
    let v = chars_of(s);
    if v.len() <= max {
        return string_of_range(&v, 0, v.len());
    }
    let keep = if max > 0 { max - 1 } else { 0 };
    let mut out = string_of_range(&v, 0, keep);
    push_char(&mut out, '…');
    out
}

/// An age in seconds in the largest whole unit that fits: seconds, minutes,
/// hours, days, 30-day months or 365-day years; a negative age counts as 0.
pub open spec fn spec_age(secs: int) -> Seq<char> {
    let s = if secs < 0 { 0 } else { secs };
    if s < 60 {
        decimal(s as nat) + "s"@
    } else if s < 3600 {
        decimal((s / 60) as nat) + "m"@
    } else if s < 86400 {
        decimal((s / 3600) as nat) + "h"@
    } else if s < 86400 * 30 {
        decimal((s / 86400) as nat) + "d"@
    } else if s < 86400 * 365 {
        decimal((s / 2592000int) as nat) + "mo"@
    } else {
        decimal((s / 31536000int) as nat) + "y"@
    }
}

pub fn humanize_age(secs: i64) -> (r: String)
    ensures
        r@ == spec_age(secs as int),
{
    let s: u64 = if secs < 0 { 0 } else { secs as u64 };
    let (n, unit) = if s < 60 {
        (s, "s")
    } else if s < 3600 {
        (s / 60, "m")
    } else if s < 86400 {
        (s / 3600, "h")
    } else if s < 86400 * 30 {
        (s / 86400, "d")
    } else if s < 86400 * 365 {
        (s / (86400 * 30), "mo")
    } else {
        (s / (86400 * 365), "y")
    };
    let mut r = decimal_string(n);
    r.append(unit);
    r
}

/// `n` spaces.
pub open spec fn spaces(n: nat) -> Seq<char> {
    Seq::new(n, |i: int| ' ')
}

/// `s` followed by spaces up to `width` characters (`{:<width}`).
pub open spec fn pad_right(s: Seq<char>, width: nat) -> Seq<char> {
    if s.len() < width {
        s + spaces((width - s.len()) as nat)
    } else {
        s
    }
}

/// `s` after spaces up to `width` characters (`{:>width}`).
pub open spec fn pad_left(s: Seq<char>, width: nat) -> Seq<char> {
    if s.len() < width {
        spaces((width - s.len()) as nat) + s
    } else {
        s
    }
}

fn push_spaces(out: &mut String, n: usize)
    ensures
        final(out)@ == old(out)@ + spaces(n as nat),
{
    let mut i: usize = 0;
    while i < n
        invariant
            i <= n,
            out@ == old(out)@ + spaces(i as nat),
        decreases n - i,
    {
        push_char(out, ' ');
        assert(spaces((i + 1) as nat) =~= spaces(i as nat).push(' '));
        i += 1;
    }
}

/// Indices of the todos of `ts` that `f` admits, in order.
pub open spec fn shown_indices(ts: Seq<Todo>, f: Filter) -> Seq<int>
    decreases ts.len(),
{
    if ts.len() == 0 {
        seq![]
    } else if f.admits(ts.last()) {
        shown_indices(ts.drop_last(), f).push(ts.len() - 1)
    } else {
        shown_indices(ts.drop_last(), f)
    }
}

/// `list` shows open todos by default, finished ones with `--done`, and
/// all with `--all`, in stored order: one more todo is shown after the
/// others exactly when the filter admits it.
pub proof fn law_shown_in_order(ts: Seq<Todo>, f: Filter, t: Todo)
    ensures
        (f is Open ==> (f.admits(t) <==> t.status == Status::Open)),
        (f is Done ==> (f.admits(t) <==> t.status == Status::Done)),
        (f is All ==> f.admits(t)),
        shown_indices(seq![], f) == Seq::<int>::empty(),
        shown_indices(ts.push(t), f) == (if f.admits(t) {
            shown_indices(ts, f).push(ts.len() as int)
        } else {
            shown_indices(ts, f)
        }),
{
    assert(ts.push(t).drop_last() =~= ts);
    match t.status {
        Status::Open => {},
        Status::Done => {},
    }
}

/// The widest title among the todos of `ts` at `idx`, in characters.
pub open spec fn widest_title(ts: Seq<Todo>, idx: Seq<int>) -> nat
    decreases idx.len(),
{
    if idx.len() == 0 {
        0
    } else {
        let w = widest_title(ts, idx.drop_last());
        let l = ts[idx.last()].title@.len();
        if l > w { l } else { w }
    }
}

/// The title column's width: the widest title shown, at most 60.
pub open spec fn title_width(ts: Seq<Todo>, idx: Seq<int>) -> nat {
    if widest_title(ts, idx) < 60 { widest_title(ts, idx) } else { 60 }
}

/// One row: `<id>  <[ ] or [x]>  <title>  <age>  <author>`, the title cut and
/// padded to `width`, the age (`age` seconds) right-aligned in six characters.
pub open spec fn row(t: Todo, width: nat, age: int) -> Seq<char> {
    let mark = if t.status == Status::Open { "[ ]"@ } else { "[x]"@ };
    t.id@ + "  "@ + mark + "  "@ + pad_right(spec_truncate(t.title@, width), width) + "  "@
        + pad_left(spec_age(age), 6) + "  "@ + t.created_by@
}

/// The rows of the table for the todos `ts`, the todo at `i` being `ages[i]`
/// seconds old: one for each todo that `f` admits.
pub open spec fn spec_rows_with(ts: Seq<Todo>, f: Filter, ages: Seq<i64>) -> Seq<Seq<char>> {
    let idx = shown_indices(ts, f);
    Seq::new(idx.len(), |i: int| row(ts[idx[i]], title_width(ts, idx), ages[idx[i]] as int))
}

/// The rows that `list` prints for the todos `ts` at time `now`, ages as
/// chrono counts them.
pub open spec fn spec_rows(ts: Seq<Todo>, f: Filter, now: Timestamp) -> Seq<Seq<char>> {
    spec_rows_with(
        ts,
        f,
        Seq::new(
            ts.len(),
            |i: int|
                elapsed_secs(now.spec_secs(), now.spec_nanos(), ts[i].created.spec_secs(), ts[i].created.spec_nanos()),
        ),
    )
}

fn row_string(t: &Todo, width: usize, age: i64) -> (r: String)
    ensures
        r@ == row(*t, width as nat, age as int),
{
    let mut r = t.id.clone();
    r.append("  ");
    if t.is_open() {
        r.append("[ ]");
    } else {
        r.append("[x]");
    }
    r.append("  ");
    let title = truncate(t.title.as_str(), width);
    let tl = chars_of(title.as_str()).len();
    r.append(title.as_str());
    if tl < width {
        push_spaces(&mut r, width - tl);
    }
    r.append("  ");
    let age = humanize_age(age);
    let al = chars_of(age.as_str()).len();
    if al < 6 {
        push_spaces(&mut r, 6 - al);
    }
    r.append(age.as_str());
    r.append("  ");
    r.append(t.created_by.as_str());
    r
}

/// The rows of the `list` table for `todos`, the todo at `i` being
/// `ages[i]` seconds old: the todos that `filter` admits, one row each.
pub fn rows_with_ages(todos: &[Todo], filter: Filter, ages: &[i64]) -> (r: Vec<String>)
    requires
        ages@.len() == todos@.len(),
    ensures
        r@.map_values(|s: String| s@) == spec_rows_with(todos@, filter, ages@),
{
    let ghost ts = todos@;
    let mut picked: Vec<usize> = Vec::new();
    let mut widest: usize = 0;
    let mut i: usize = 0;
    while i < todos.len()
        invariant
            i <= todos@.len(),
            ts == todos@,
            picked@.map_values(|k: usize| k as int) == shown_indices(ts.take(i as int), filter),
            forall|k: int| 0 <= k < picked@.len() ==> #[trigger] picked@[k] < i,
            widest == widest_title(ts, shown_indices(ts.take(i as int), filter)),
        decreases todos@.len() - i,
    {
        let ghost idx0 = shown_indices(ts.take(i as int), filter);
        assert(ts.take(i + 1).drop_last() =~= ts.take(i as int));
        assert(ts.take(i + 1).last() == ts[i as int]);
        if filter.admits_todo(&todos[i]) {
            let ghost p0 = picked@;
            picked.push(i);
            assert(picked@.map_values(|k: usize| k as int) =~= p0.map_values(|k: usize| k as int).push(
                i as int,
            ));
            assert(shown_indices(ts.take(i + 1), filter) == idx0.push(i as int));
            assert(idx0.push(i as int).drop_last() =~= idx0);
            let l = chars_of(todos[i].title.as_str()).len();
            assert(l == ts[i as int].title@.len());
            if l > widest {
                widest = l;
            }
        } else {
            assert(shown_indices(ts.take(i + 1), filter) == idx0);
        }
        i += 1;
    }
    assert(ts.take(i as int) =~= ts);
    let width = if widest < 60 { widest } else { 60 };
    let ghost idx = shown_indices(ts, filter);
    let mut out: Vec<String> = Vec::new();
    let mut k: usize = 0;
    while k < picked.len()
        invariant
            k <= picked@.len(),
            ts == todos@,
            ages@.len() == ts.len(),
            idx == shown_indices(ts, filter),
            picked@.map_values(|k: usize| k as int) == idx,
            forall|k: int| 0 <= k < picked@.len() ==> #[trigger] picked@[k] < todos@.len(),
            width == title_width(ts, idx),
            out@.map_values(|x: String| x@) == Seq::new(
                k as nat,
                |j: int| row(ts[idx[j]], width as nat, ages@[idx[j]] as int),
            ),
        decreases picked@.len() - k,
    {
        let ghost o0 = out@;
        assert(idx[k as int] == picked@[k as int] as int);
        let line = row_string(&todos[picked[k]], width, ages[picked[k]]);
        out.push(line);
        assert(out@.map_values(|x: String| x@) =~= o0.map_values(|x: String| x@).push(line@));
        assert(out@.map_values(|x: String| x@) =~= Seq::new(
            (k + 1) as nat,
            |j: int| row(ts[idx[j]], width as nat, ages@[idx[j]] as int),
        ));
        k += 1;
    }
    out
}

/// The rows of the `list` table for `todos` at time `now`.
pub fn rows(todos: &[Todo], filter: Filter, now: &Timestamp) -> (r: Vec<String>)
    ensures
        r@.map_values(|s: String| s@) == spec_rows(todos@, filter, *now),
{
    let mut ages: Vec<i64> = Vec::new();
    let mut i: usize = 0;
    while i < todos.len()
        invariant
            i <= todos@.len(),
            ages@ == Seq::new(
                i as nat,
                |j: int|
                    elapsed_secs(now.spec_secs(), now.spec_nanos(), todos@[j].created.spec_secs(), todos@[j].created.spec_nanos()),
            ),
        decreases todos@.len() - i,
    {
        ages.push(now.seconds_since(&todos[i].created));
        proof {
            assert(ages@ =~= Seq::new(
                (i + 1) as nat,
                |j: int|
                    elapsed_secs(now.spec_secs(), now.spec_nanos(), todos@[j].created.spec_secs(), todos@[j].created.spec_nanos()),
            ));
        }
        i += 1;
    }
    rows_with_ages(todos, filter, ages.as_slice())
}

} // verus!
