//! Facts about `lines`, `join_lines` and trimming that the laws of the
//! editor text rest on: which characters they keep, how lines come back
//! from joined text, and that no `#` line appears where none was joined.
use vstd::prelude::*;

use crate::text::{
    is_blank, is_comment_line, is_ws, join_lines, lemma_newline_index_bounds,
    lemma_trim_end_len, lemma_trim_start_blank, lines, newline_index, strip_cr, trim, trim_end,
    trim_start, uncommented,
};

verus! {

/// No character of `s` is `c`.
pub open spec fn free_of(s: Seq<char>, c: char) -> bool {
    forall|i: int| 0 <= i < s.len() ==> #[trigger] s[i] != c
}

pub proof fn lemma_trim_start_skip(s: Seq<char>)
    ensures
        trim_start(s).len() <= s.len(),
        trim_start(s) =~= s.skip(s.len() - trim_start(s).len()),
        forall|i: int| 0 <= i < s.len() - trim_start(s).len() ==> is_ws(#[trigger] s[i]),
    decreases s.len(),
{
    if s.len() > 0 && is_ws(s[0]) {
        lemma_trim_start_skip(s.drop_first());
        assert forall|i: int| 0 <= i < s.len() - trim_start(s).len() implies is_ws(#[trigger] s[i]) by {
            if i > 0 {
                assert(s[i] == s.drop_first()[i - 1]);
            }
        }
    }
}

pub proof fn lemma_trim_end_tail(s: Seq<char>)
    ensures
        forall|i: int| trim_end(s).len() <= i < s.len() ==> is_ws(#[trigger] s[i]),
    decreases s.len(),
{
    lemma_trim_end_len(s);
    if s.len() > 0 && is_ws(s.last()) {
        lemma_trim_end_tail(s.drop_last());
        assert forall|i: int| trim_end(s).len() <= i < s.len() implies is_ws(#[trigger] s[i]) by {
            if i < s.len() - 1 {
                assert(s[i] == s.drop_last()[i]);
            }
        }
    }
}

/// Trimming keeps only characters of `s`.
pub proof fn lemma_trim_free_of(s: Seq<char>, c: char)
    requires
        free_of(s, c),
    ensures
        free_of(trim_start(s), c),
        free_of(trim_end(s), c),
        free_of(trim(s), c),
{
    lemma_trim_start_skip(s);
    lemma_trim_end_len(s);
    let a = trim_start(s);
    lemma_trim_end_len(a);
    assert forall|i: int| 0 <= i < a.len() implies #[trigger] a[i] != c by {
        assert(a[i] == s[i + (s.len() - a.len())]);
    }
    assert forall|i: int| 0 <= i < trim_end(s).len() implies #[trigger] trim_end(s)[i] != c by {
        assert(trim_end(s)[i] == s[i]);
    }
    assert forall|i: int| 0 <= i < trim(s).len() implies #[trigger] trim(s)[i] != c by {
        assert(trim(s)[i] == a[i]);
    }
}

pub proof fn lemma_trim_end_first(s: Seq<char>)
    ensures
        trim_start(s).len() > 0 ==> !is_ws(trim_start(s)[0]),
        trim(s).len() > 0 ==> trim(s)[0] == trim_start(s)[0],
        trim(s).len() > 0 ==> !is_ws(trim(s)[0]) && !is_ws(trim(s).last()),
    decreases s.len(),
{
    if s.len() > 0 && is_ws(s[0]) {
        lemma_trim_end_first(s.drop_first());
    }
    let a = trim_start(s);
    lemma_trim_end_len(a);
    lemma_trim_end_last(a);
}

pub proof fn lemma_trim_end_last(s: Seq<char>)
    ensures
        trim_end(s).len() > 0 ==> !is_ws(trim_end(s).last()),
    decreases s.len(),
{
    if s.len() > 0 && is_ws(s.last()) {
        lemma_trim_end_last(s.drop_last());
    }
}

/// Trimming twice trims no more than trimming once.
pub proof fn lemma_trim_idempotent(s: Seq<char>)
    ensures
        trim_end(trim_end(s)) == trim_end(s),
        trim(trim(s)) == trim(s),
{
    lemma_trim_end_last(s);
    lemma_trim_end_first(s);
    let t = trim(s);
    lemma_trim_end_last(trim_start(s));
    if t.len() > 0 {
        assert(trim_start(t) == t);
        assert(trim_end(t) == t);
    } else {
        assert(trim_start(t) =~= t);
    }
}

/// Whether `s` has only whitespace characters.
pub proof fn lemma_blank_all_ws(s: Seq<char>)
    ensures
        is_blank(s) <==> forall|i: int| 0 <= i < s.len() ==> is_ws(#[trigger] s[i]),
    decreases s.len(),
{
    lemma_trim_start_blank(s);
    if s.len() > 0 && is_ws(s[0]) {
        lemma_blank_all_ws(s.drop_first());
        lemma_trim_start_blank(s.drop_first());
        if forall|i: int| 0 <= i < s.drop_first().len() ==> is_ws(#[trigger] s.drop_first()[i]) {
            assert forall|i: int| 0 <= i < s.len() implies is_ws(#[trigger] s[i]) by {
                if i > 0 {
                    assert(s[i] == s.drop_first()[i - 1]);
                }
            }
        }
        if forall|i: int| 0 <= i < s.len() ==> is_ws(#[trigger] s[i]) {
            assert forall|i: int| 0 <= i < s.drop_first().len() implies is_ws(#[trigger] s.drop_first()[i]) by {
                assert(s.drop_first()[i] == s[i + 1]);
            }
        }
    }
}

/// A line of `lines(x)` never holds `'\n'`, and holds only characters of `x`.
pub proof fn lemma_lines_free_of(x: Seq<char>, c: char)
    ensures
        forall|i: int| 0 <= i < lines(x).len() ==> free_of(#[trigger] lines(x)[i], '\n'),
        free_of(x, c) ==> forall|i: int| 0 <= i < lines(x).len() ==> free_of(#[trigger] lines(x)[i], c),
    decreases x.len(),
{
    if x.len() > 0 {
        let k = newline_index(x) as int;
        lemma_newline_index_bounds(x);
        if k < x.len() {
            let rest = x.skip(k + 1);
            lemma_lines_free_of(rest, c);
            let t = x.take(k);
            let l = strip_cr(t);
            assert forall|j: int| 0 <= j < l.len() implies #[trigger] l[j] != '\n' by {
                assert(l[j] == x[j]);
            }
            if free_of(x, c) {
                assert forall|j: int| 0 <= j < rest.len() implies #[trigger] rest[j] != c by {
                    assert(rest[j] == x[j + k + 1]);
                }
                assert forall|j: int| 0 <= j < l.len() implies #[trigger] l[j] != c by {
                    assert(l[j] == x[j]);
                }
            }
            assert forall|i: int| 0 <= i < lines(x).len() implies free_of(#[trigger] lines(x)[i], '\n') by {
                if i > 0 {
                    assert(lines(x)[i] == lines(rest)[i - 1]);
                }
            }
            if free_of(x, c) {
                assert forall|i: int| 0 <= i < lines(x).len() implies free_of(#[trigger] lines(x)[i], c) by {
                    if i > 0 {
                        assert(lines(x)[i] == lines(rest)[i - 1]);
                    }
                }
            }
        }
    }
}

/// Every line of `uncommented(ls)` is a line of `ls`.
pub proof fn lemma_uncommented_from(ls: Seq<Seq<char>>)
    ensures
        uncommented(ls).len() <= ls.len(),
        forall|i: int| 0 <= i < uncommented(ls).len() ==> exists|j: int| 0 <= j < ls.len() && #[trigger] uncommented(ls)[i] == ls[j],
    decreases ls.len(),
{
    if ls.len() > 0 {
        let prev = ls.drop_last();
        lemma_uncommented_from(prev);
        assert forall|i: int| 0 <= i < uncommented(ls).len() implies exists|j: int| 0 <= j < ls.len() && #[trigger] uncommented(ls)[i] == ls[j] by {
            if i < uncommented(prev).len() {
                assert(uncommented(ls)[i] == uncommented(prev)[i]);
                let j = choose|j: int| 0 <= j < prev.len() && uncommented(prev)[i] == prev[j];
                assert(ls[j] == prev[j]);
            } else {
                assert(uncommented(ls)[i] == ls[ls.len() - 1]);
            }
        }
    }
}

/// Lines none of which is a comment line are all kept.
pub proof fn lemma_uncommented_keeps(ls: Seq<Seq<char>>)
    requires
        forall|i: int| 0 <= i < ls.len() ==> !is_comment_line(#[trigger] ls[i]),
    ensures
        uncommented(ls) == ls,
    decreases ls.len(),
{
    if ls.len() > 0 {
        lemma_uncommented_keeps(ls.drop_last());
        assert(!is_comment_line(ls[ls.len() - 1]));
        assert(ls.drop_last().push(ls.last()) =~= ls);
    }
}

/// `join_lines` read from the front: the first line, `'\n'`, the rest.
pub proof fn lemma_join_front(ls: Seq<Seq<char>>)
    requires
        ls.len() > 0,
    ensures
        join_lines(ls) == ls[0] + seq!['\n'] + join_lines(ls.drop_first()),
    decreases ls.len(),
{
    if ls.len() == 1 {
        assert(ls.drop_last() =~= Seq::<Seq<char>>::empty());
        assert(ls.drop_first() =~= Seq::<Seq<char>>::empty());
        assert(join_lines(ls) =~= ls[0] + seq!['\n']);
        assert(join_lines(ls.drop_first()) =~= Seq::<char>::empty());
        assert(join_lines(ls) =~= ls[0] + seq!['\n'] + join_lines(ls.drop_first()));
    } else {
        lemma_join_front(ls.drop_last());
        assert(ls.drop_last().drop_first() =~= ls.drop_first().drop_last());
        assert(ls.drop_last()[0] == ls[0]);
        assert(ls.drop_first().last() == ls.last());
        assert(join_lines(ls) =~= ls[0] + seq!['\n'] + join_lines(ls.drop_first()));
    }
}

/// Joined lines hold only characters of the lines, and `'\n'`.
pub proof fn lemma_join_free_of(ls: Seq<Seq<char>>, c: char)
    requires
        c != '\n',
        forall|i: int| 0 <= i < ls.len() ==> free_of(#[trigger] ls[i], c),
    ensures
        free_of(join_lines(ls), c),
    decreases ls.len(),
{
    if ls.len() > 0 {
        let p = ls.drop_last();
        assert forall|i: int| 0 <= i < p.len() implies free_of(#[trigger] p[i], c) by {
            assert(p[i] == ls[i]);
        }
        lemma_join_free_of(p, c);
        let l = ls[ls.len() - 1];
        let j = join_lines(ls);
        let jp = join_lines(p);
        assert forall|i: int| 0 <= i < j.len() implies #[trigger] j[i] != c by {
            if i < jp.len() {
                assert(j[i] == jp[i]);
            } else if i < jp.len() + l.len() {
                assert(j[i] == l[i - jp.len()]);
            }
        }
    }
}

/// Reading the lines of `x` and joining them gives `x` back, ended by
/// `'\n'` where it was not, when `x` holds no `'\r'`.
pub proof fn lemma_join_lines_of(x: Seq<char>)
    requires
        free_of(x, '\r'),
    ensures
        join_lines(lines(x)) == (if x.len() == 0 || x.last() == '\n' {
            x
        } else {
            x.push('\n')
        }),
    decreases x.len(),
{
    if x.len() == 0 {
        assert(lines(x) =~= Seq::<Seq<char>>::empty());
    } else {
        let k = newline_index(x) as int;
        lemma_newline_index_bounds(x);
        if k < x.len() {
            let t = x.take(k);
            let rest = x.skip(k + 1);
            assert forall|j: int| 0 <= j < rest.len() implies #[trigger] rest[j] != '\r' by {
                assert(rest[j] == x[j + k + 1]);
            }
            lemma_join_lines_of(rest);
            if t.len() > 0 {
                assert(t.last() == x[k - 1]);
            }
            assert(strip_cr(t) == t);
            let ls = lines(x);
            assert(ls == seq![t] + lines(rest));
            lemma_join_front(ls);
            assert(ls.drop_first() =~= lines(rest));
            assert(ls[0] == t);
            if rest.len() == 0 {
                assert(x =~= t + seq!['\n']);
                assert(join_lines(lines(rest)) =~= Seq::<char>::empty());
                assert(join_lines(ls) =~= x);
            } else {
                assert(x =~= t + seq!['\n'] + rest);
                assert(x.last() == rest.last());
                if rest.last() == '\n' {
                    assert(join_lines(ls) =~= x);
                } else {
                    assert(join_lines(ls) =~= x.push('\n'));
                }
            }
        } else {
            assert(lines(x) == seq![x]);
            assert(seq![x].drop_last() =~= Seq::<Seq<char>>::empty());
            assert(join_lines(Seq::<Seq<char>>::empty()) =~= Seq::<char>::empty());
            assert(seq![x].last() == x);
            assert(join_lines(seq![x]) =~= x.push('\n'));
            assert(x.last() != '\n');
        }
    }
}

/// Whether, reading `x` with `blank` telling whether all of the current line
/// so far is whitespace, no `#` comes first on a line (after whitespace).
pub open spec fn no_comment_from(x: Seq<char>, blank: bool) -> bool
    decreases x.len(),
{
    if x.len() == 0 {
        true
    } else if x[0] == '#' && blank {
        false
    } else {
        no_comment_from(x.drop_first(), next_blank(x[0], blank))
    }
}

/// Whether the current line is still all whitespace after reading `c`.
pub open spec fn next_blank(c: char, blank: bool) -> bool {
    if c == '\n' {
        true
    } else {
        blank && is_ws(c)
    }
}

/// Whether the current line is all whitespace after reading `x`.
pub open spec fn blank_after(x: Seq<char>, blank: bool) -> bool
    decreases x.len(),
{
    if x.len() == 0 {
        blank
    } else {
        blank_after(x.drop_first(), next_blank(x[0], blank))
    }
}

/// No line of `x` is a comment line.
pub open spec fn comment_free(x: Seq<char>) -> bool {
    no_comment_from(x, true)
}

pub proof fn lemma_no_comment_concat(a: Seq<char>, b: Seq<char>, blank: bool)
    ensures
        no_comment_from(a + b, blank) == (no_comment_from(a, blank) && no_comment_from(
            b,
            blank_after(a, blank),
        )),
        blank_after(a + b, blank) == blank_after(b, blank_after(a, blank)),
    decreases a.len(),
{
    if a.len() > 0 {
        assert((a + b)[0] == a[0]);
        assert((a + b).drop_first() =~= a.drop_first() + b);
        lemma_no_comment_concat(a.drop_first(), b, next_blank(a[0], blank));
    } else {
        assert(a + b =~= b);
    }
}

/// Within one line, reading from a non-blank point finds no comment.
pub proof fn lemma_no_comment_midline(x: Seq<char>)
    requires
        free_of(x, '\n'),
    ensures
        no_comment_from(x, false),
        !blank_after(x, false),
    decreases x.len(),
{
    if x.len() > 0 {
        assert forall|i: int| 0 <= i < x.drop_first().len() implies #[trigger] x.drop_first()[i] != '\n' by {
            assert(x.drop_first()[i] == x[i + 1]);
        }
        assert(x[0] != '\n');
        lemma_no_comment_midline(x.drop_first());
    }
}

/// For one line, reading it from a line start finds no comment exactly when
/// it is not a comment line.
pub proof fn lemma_no_comment_line(t: Seq<char>)
    requires
        free_of(t, '\n'),
    ensures
        no_comment_from(t, true) == !is_comment_line(t),
    decreases t.len(),
{
    if t.len() > 0 {
        assert forall|i: int| 0 <= i < t.drop_first().len() implies #[trigger] t.drop_first()[i] != '\n' by {
            assert(t.drop_first()[i] == t[i + 1]);
        }
        assert(t[0] != '\n');
        if t[0] == '#' {
            assert(!is_ws(t[0]));
        } else if is_ws(t[0]) {
            lemma_no_comment_line(t.drop_first());
        } else {
            lemma_no_comment_midline(t.drop_first());
        }
    }
}

/// A line, then `'\n'`, ends with a line start.
pub proof fn lemma_line_then_newline(t: Seq<char>, blank: bool)
    ensures
        no_comment_from(t + seq!['\n'], blank) == no_comment_from(t, blank),
        blank_after(t + seq!['\n'], blank),
{
    lemma_newline_alone(blank_after(t, blank));
    lemma_no_comment_concat(t, seq!['\n'], blank);
}

/// `"\n"` alone holds no comment and ends at a line start.
pub proof fn lemma_newline_alone(blank: bool)
    ensures
        no_comment_from(seq!['\n'], blank),
        blank_after(seq!['\n'], blank),
{
    let n = seq!['\n'];
    assert(n.drop_first() =~= Seq::<char>::empty());
    assert(n[0] == '\n');
    assert(no_comment_from(n.drop_first(), true));
    assert(blank_after(n.drop_first(), true));
}

/// Lines that are not comment lines, joined, hold no comment line.
pub proof fn lemma_join_comment_free(ls: Seq<Seq<char>>)
    requires
        forall|i: int| 0 <= i < ls.len() ==> free_of(#[trigger] ls[i], '\n') && !is_comment_line(ls[i]),
    ensures
        comment_free(join_lines(ls)),
        blank_after(join_lines(ls), true),
    decreases ls.len(),
{
    if ls.len() > 0 {
        let p = ls.drop_last();
        assert forall|i: int| 0 <= i < p.len() implies free_of(#[trigger] p[i], '\n') && !is_comment_line(p[i]) by {
            assert(p[i] == ls[i]);
        }
        lemma_join_comment_free(p);
        let l = ls[ls.len() - 1];
        assert(free_of(l, '\n') && !is_comment_line(l));
        lemma_no_comment_line(l);
        lemma_line_then_newline(l, true);
        assert(join_lines(ls) =~= join_lines(p) + (l + seq!['\n']));
        lemma_no_comment_concat(join_lines(p), l + seq!['\n'], true);
    }
}

/// Leading whitespace, and anything after a prefix, can be cut without
/// making a comment line.
pub proof fn lemma_trim_comment_free(x: Seq<char>)
    requires
        comment_free(x),
    ensures
        comment_free(trim_start(x)),
        comment_free(trim_end(x)),
        comment_free(trim(x)),
    decreases x.len(),
{
    if x.len() > 0 && is_ws(x[0]) {
        assert(x[0] != '#');
        lemma_trim_comment_free(x.drop_first());
    }
    lemma_trim_end_len(x);
    lemma_prefix_comment_free(x, trim_end(x).len() as int, true);
    lemma_trim_end_len(trim_start(x));
    lemma_prefix_comment_free(trim_start(x), trim(x).len() as int, true);
}

pub proof fn lemma_prefix_comment_free(x: Seq<char>, m: int, blank: bool)
    requires
        0 <= m <= x.len(),
        no_comment_from(x, blank),
    ensures
        no_comment_from(x.take(m), blank),
{
    lemma_no_comment_concat(x.take(m), x.skip(m), blank);
    assert(x.take(m) + x.skip(m) =~= x);
}

/// Dropping a `'\r'` at the end of a line does not make it a comment line.
pub proof fn lemma_strip_cr_comment(t: Seq<char>)
    ensures
        is_comment_line(strip_cr(t)) ==> is_comment_line(t),
{
    if t.len() > 0 && t.last() == '\r' {
        lemma_trim_start_push(t.drop_last(), '\r');
        assert(t.drop_last().push('\r') =~= t);
    }
}

pub proof fn lemma_trim_start_push(s: Seq<char>, c: char)
    ensures
        trim_start(s).len() > 0 ==> trim_start(s.push(c)) == trim_start(s).push(c),
    decreases s.len(),
{
    if s.len() > 0 {
        assert(s.push(c)[0] == s[0]);
        assert(s.push(c).drop_first() =~= s.drop_first().push(c));
        if is_ws(s[0]) {
            lemma_trim_start_push(s.drop_first(), c);
        }
    }
}

/// A text with no comment line has no comment line among its lines.
pub proof fn lemma_lines_comment_free(x: Seq<char>)
    requires
        comment_free(x),
    ensures
        forall|i: int| 0 <= i < lines(x).len() ==> !is_comment_line(#[trigger] lines(x)[i]),
    decreases x.len(),
{
    if x.len() > 0 {
        let k = newline_index(x) as int;
        lemma_newline_index_bounds(x);
        let t = x.take(k);
        assert forall|i: int| 0 <= i < t.len() implies #[trigger] t[i] != '\n' by {
            assert(t[i] == x[i]);
        }
        if k < x.len() {
            let rest = x.skip(k + 1);
            assert(x =~= t + (seq!['\n'] + rest));
            lemma_no_comment_concat(t, seq!['\n'] + rest, true);
            lemma_no_comment_concat(seq!['\n'], rest, blank_after(t, true));
            lemma_newline_alone(blank_after(t, true));
            lemma_no_comment_line(t);
            lemma_strip_cr_comment(t);
            lemma_lines_comment_free(rest);
            assert forall|i: int| 0 <= i < lines(x).len() implies !is_comment_line(#[trigger] lines(x)[i]) by {
                if i > 0 {
                    assert(lines(x)[i] == lines(rest)[i - 1]);
                }
            }
        } else {
            assert(t =~= x);
            lemma_no_comment_line(x);
        }
    }
}

} // verus!
