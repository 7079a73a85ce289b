//! What the text that the user left in the editor means: a todo's title and
//! body, or a comment, with `#` lines and surrounding blank lines dropped.
use vstd::prelude::*;

use crate::line_facts::{
    comment_free, free_of, lemma_blank_all_ws, lemma_join_comment_free, lemma_join_free_of,
    lemma_join_front, lemma_join_lines_of, lemma_lines_comment_free, lemma_lines_free_of,
    lemma_trim_comment_free, lemma_trim_end_first, lemma_trim_end_last, lemma_trim_end_tail,
    lemma_trim_free_of, lemma_trim_idempotent, lemma_uncommented_from, lemma_uncommented_keeps,
};
use crate::text::{
    chars_of, is_blank, is_comment_line, is_ws, lemma_newline_index_bounds, lemma_trim_end_len, newline_index,
    strip_cr, trim_start, join_lines, lines, pieces, push_joined, range_is_blank, ranges_within,
    string_of_range, trim, trim_end, trim_end_index, trim_range, trimmed, uncommented,
    uncommented_line_ranges,
};

verus! {

/// The text the editor opens with for a new todo: two empty lines for the
/// title and body, then instructions as `#` lines, so that leaving it as it
/// is gives an empty title.
pub const NEW_TEMPLATE: &'static str = "\n\n# Enter the todo title on the first non-comment line.\n# Subsequent lines (after a blank line) become the body.\n# Lines starting with '#' are ignored. An empty title aborts.\n";

/// The text the editor opens with for a comment: instructions as `#` lines,
/// so that leaving it as it is gives an empty comment.
pub const COMMENT_TEMPLATE: &'static str = "\n\n# Enter your comment.\n# Lines starting with '#' are ignored. An empty comment aborts.\n";

/// Title and body of a new todo as composed in the editor.
pub struct Composed {
    pub title: String,
    pub body: String,
}

/// Index of the first line of `ls` that is not blank, or `ls.len()`.
pub open spec fn first_nonblank(ls: Seq<Seq<char>>) -> nat
    decreases ls.len(),
{
    if ls.len() == 0 {
        0
    } else if !is_blank(ls[0]) {
        0
    } else {
        1 + first_nonblank(ls.drop_first())
    }
}

pub proof fn lemma_first_nonblank(ls: Seq<Seq<char>>, m: int)
    requires
        0 <= m <= ls.len(),
        forall|j: int| 0 <= j < m ==> is_blank(#[trigger] ls[j]),
        m < ls.len() ==> !is_blank(ls[m]),
    ensures
        first_nonblank(ls) == m,
    decreases m,
{
    if m > 0 {
        assert forall|j: int| 0 <= j < m - 1 implies is_blank(#[trigger] ls.drop_first()[j]) by {
            assert(ls.drop_first()[j] == ls[j + 1]);
        }
        lemma_first_nonblank(ls.drop_first(), m - 1);
    }
}

/// The title: the first non-blank line, trimmed; empty when there is none.
pub open spec fn title_of(ls: Seq<Seq<char>>) -> Seq<char> {
    let k = first_nonblank(ls);
    if k < ls.len() {
        trim(ls[k as int])
    } else {
        seq![]
    }
}

/// The lines after the title line.
pub open spec fn after_title(ls: Seq<Seq<char>>) -> Seq<Seq<char>> {
    let k = first_nonblank(ls);
    if k < ls.len() {
        ls.skip(k + 1 as int)
    } else {
        seq![]
    }
}

/// The body: the lines after the title, from the first non-blank one on,
/// joined with newlines and without trailing whitespace.
pub open spec fn body_of(ls: Seq<Seq<char>>) -> Seq<char> {
    let rest = after_title(ls);
    trim_end(join_lines(rest.skip(first_nonblank(rest) as int)))
}

/// Title and body that the editor text `raw` holds, `#` lines left out.
pub open spec fn spec_title(raw: Seq<char>) -> Seq<char> {
    title_of(uncommented(lines(raw)))
}

pub open spec fn spec_body(raw: Seq<char>) -> Seq<char> {
    body_of(uncommented(lines(raw)))
}

/// The text of a comment: the lines of `raw` that are not `#` lines,
/// joined with newlines and trimmed.
pub open spec fn spec_comment(raw: Seq<char>) -> Seq<char> {
    trim(join_lines(uncommented(lines(raw))))
}

pub proof fn lemma_uncommented(ls: Seq<Seq<char>>)
    ensures
        forall|i: int| 0 <= i < uncommented(ls).len() ==> !is_comment_line(#[trigger] uncommented(ls)[i]),
    decreases ls.len(),
{
    if ls.len() > 0 {
        let prev = uncommented(ls.drop_last());
        lemma_uncommented(ls.drop_last());
        if !is_comment_line(ls.last()) {
            assert forall|i: int| 0 <= i < uncommented(ls).len() implies !is_comment_line(#[trigger] uncommented(ls)[i]) by {
                if i < prev.len() {
                    assert(uncommented(ls)[i] == prev[i]);
                }
            }
        }
    }
}

/// The title never comes from a `#` line: when there is one, it does not
/// start with `#`, and it has no surrounding whitespace.
pub proof fn law_title_is_not_a_comment(raw: Seq<char>)
    ensures
        spec_title(raw).len() > 0 ==> spec_title(raw)[0] != '#',
        spec_title(raw).len() > 0 ==> !is_ws(spec_title(raw)[0]) && !is_ws(spec_title(raw).last()),
{
    let ls = uncommented(lines(raw));
    lemma_uncommented(lines(raw));
    let k = first_nonblank(ls);
    if k < ls.len() {
        let l = ls[k as int];
        let a = trim_start(l);
        lemma_trim_end_len(a);
        lemma_trim_end_first(l);
        lemma_trim_end_last(a);
        if trim(l).len() > 0 {
            assert(trim(l)[0] == a[0]);
        }
    }
}

/// The lines of `uncommented(lines(raw))`: none holds `'\n'` or is a
/// comment line, and none holds `'\r'` when `raw` does not.
pub proof fn lemma_editor_lines(raw: Seq<char>)
    ensures
        forall|i: int| 0 <= i < uncommented(lines(raw)).len() ==> free_of(#[trigger] uncommented(lines(raw))[i], '\n')
            && !is_comment_line(uncommented(lines(raw))[i]),
        free_of(raw, '\r') ==> forall|i: int| 0 <= i < uncommented(lines(raw)).len() ==> free_of(
            #[trigger] uncommented(lines(raw))[i],
            '\r',
        ),
{
    let ls = lines(raw);
    let u = uncommented(ls);
    lemma_lines_free_of(raw, '\r');
    lemma_uncommented_from(ls);
    lemma_uncommented(ls);
    assert forall|i: int| 0 <= i < u.len() implies free_of(#[trigger] u[i], '\n') && (free_of(raw, '\r') ==> free_of(u[i], '\r')) by {
        let j = choose|j: int| 0 <= j < ls.len() && u[i] == ls[j];
        assert(free_of(ls[j], '\n'));
    }
}

/// What a parsed title and body look like: the title is one line without
/// surrounding whitespace; an empty title comes with an empty body; the body
/// has no trailing whitespace, none of its lines is a `#` line, and its first
/// line, when it has one, is not blank.
pub proof fn law_title_and_body_shape(raw: Seq<char>)
    ensures
        free_of(spec_title(raw), '\n'),
        trim(spec_title(raw)) == spec_title(raw),
        spec_title(raw).len() == 0 ==> spec_body(raw).len() == 0,
        trim_end(spec_body(raw)) == spec_body(raw),
        forall|i: int| 0 <= i < lines(spec_body(raw)).len() ==> !is_comment_line(#[trigger] lines(spec_body(raw))[i]),
        spec_body(raw).len() > 0 ==> !is_blank(lines(spec_body(raw))[0]),
{
    let ls = uncommented(lines(raw));
    lemma_editor_lines(raw);
    let k = first_nonblank(ls);
    lemma_first_nonblank_bounds(ls);
    let title = spec_title(raw);
    if k < ls.len() {
        lemma_trim_free_of(ls[k as int], '\n');
        lemma_trim_idempotent(ls[k as int]);
    } else {
        assert(trim_start(title) =~= title);
    }
    let rest = after_title(ls);
    let r = rest.skip(first_nonblank(rest) as int);
    let body = spec_body(raw);
    lemma_first_nonblank_bounds(rest);
    assert forall|i: int| 0 <= i < r.len() implies free_of(#[trigger] r[i], '\n') && !is_comment_line(r[i]) by {
        assert(r[i] == ls[i + first_nonblank(rest) + k + 1]);
    }
    if k >= ls.len() {
        assert(r =~= Seq::<Seq<char>>::empty());
        assert(join_lines(r) =~= Seq::<char>::empty());
    }
    lemma_trim_idempotent(join_lines(r));
    lemma_join_comment_free(r);
    lemma_trim_comment_free(join_lines(r));
    lemma_lines_comment_free(body);
    if body.len() > 0 {
        assert(r.len() > 0) by {
            if r.len() == 0 {
                assert(join_lines(r) =~= Seq::<char>::empty());
            }
        }
        lemma_first_line_not_blank(r);
    }
}

/// Where the title and the body come from, in terms of the lines of `raw`
/// that are not `#` lines: when line `k` is the first that is not blank,
/// the title is that line trimmed; and when line `m` is the first line after
/// it that is not blank (or `m` is past the end), the body is every line from
/// `m` on, joined with newlines, without trailing whitespace. No line after
/// the title line is lost.
pub proof fn law_body_follows_title(raw: Seq<char>, k: int, m: int)
    requires
        0 <= k < m <= uncommented(lines(raw)).len(),
        forall|j: int| 0 <= j < k ==> is_blank(#[trigger] uncommented(lines(raw))[j]),
        !is_blank(uncommented(lines(raw))[k]),
        forall|j: int| k < j < m ==> is_blank(#[trigger] uncommented(lines(raw))[j]),
        m < uncommented(lines(raw)).len() ==> !is_blank(uncommented(lines(raw))[m]),
    ensures
        spec_title(raw) == trim(uncommented(lines(raw))[k]),
        spec_body(raw) == trim_end(
            join_lines(uncommented(lines(raw)).subrange(m, uncommented(lines(raw)).len() as int)),
        ),
{
    let ls = uncommented(lines(raw));
    lemma_first_nonblank(ls, k);
    let rest = ls.skip(k + 1);
    assert forall|j: int| 0 <= j < m - k - 1 implies is_blank(#[trigger] rest[j]) by {
        assert(rest[j] == ls[j + k + 1]);
    }
    if m < ls.len() {
        assert(rest[m - k - 1] == ls[m]);
    }
    lemma_first_nonblank(rest, m - k - 1);
    assert(after_title(ls) == rest);
    assert(rest.skip(m - k - 1) =~= ls.subrange(m, ls.len() as int));
}

/// With no line that is not blank (`#` lines aside), both title and body
/// are empty.
pub proof fn law_no_title_no_body(raw: Seq<char>)
    requires
        forall|j: int| 0 <= j < uncommented(lines(raw)).len() ==> is_blank(#[trigger] uncommented(lines(raw))[j]),
    ensures
        spec_title(raw) == Seq::<char>::empty(),
        spec_body(raw) == Seq::<char>::empty(),
{
    let ls = uncommented(lines(raw));
    lemma_first_nonblank(ls, ls.len() as int);
    assert(after_title(ls) =~= Seq::<Seq<char>>::empty());
    lemma_first_nonblank(Seq::<Seq<char>>::empty(), 0);
    assert(Seq::<Seq<char>>::empty().skip(0) =~= Seq::<Seq<char>>::empty());
    assert(join_lines(Seq::<Seq<char>>::empty()) =~= Seq::<char>::empty());
}

/// Index of the first non-blank line: all before it are blank, and it is not.
pub proof fn lemma_first_nonblank_bounds(ls: Seq<Seq<char>>)
    ensures
        first_nonblank(ls) <= ls.len(),
        first_nonblank(ls) < ls.len() ==> !is_blank(ls[first_nonblank(ls) as int]),
    decreases ls.len(),
{
    if ls.len() > 0 && is_blank(ls[0]) {
        lemma_first_nonblank_bounds(ls.drop_first());
        if first_nonblank(ls) < ls.len() {
            assert(ls[first_nonblank(ls) as int] == ls.drop_first()[first_nonblank(ls) - 1]);
        }
    }
}

/// When the first of the joined lines is not blank, neither is the first
/// line of the joined text with its trailing whitespace removed.
pub proof fn lemma_first_line_not_blank(r: Seq<Seq<char>>)
    requires
        r.len() > 0,
        !is_blank(r[0]),
        free_of(r[0], '\n'),
    ensures
        !is_blank(lines(trim_end(join_lines(r)))[0]),
{
    let l0 = r[0];
    lemma_blank_all_ws(l0);
    let p = choose|p: int| 0 <= p < l0.len() && !is_ws(#[trigger] l0[p]);
    let j = join_lines(r);
    lemma_join_front(r);
    assert(j[p] == l0[p]);
    let b = trim_end(j);
    lemma_trim_end_len(j);
    lemma_trim_end_tail(j);
    assert(b.len() > p);
    assert forall|q: int| 0 <= q <= p implies #[trigger] b[q] == l0[q] && b[q] != '\n' by {
        assert(b[q] == j[q]);
        assert(j[q] == l0[q]);
    }
    let n = newline_index(b) as int;
    lemma_newline_index_bounds(b);
    assert(n > p) by {
        if n <= p {
            assert(b[n] == l0[n]);
        }
    }
    let line = lines(b)[0];
    if n < b.len() {
        assert(line == strip_cr(b.take(n)));
    } else {
        assert(line == b);
    }
    assert(line[p] == l0[p]) by {
        assert(b.take(n)[p] == b[p]);
        if n < b.len() && b.take(n).len() > 0 && b.take(n).last() == '\r' {
            assert(p < n - 1);
        }
    }
    lemma_blank_all_ws(line);
}

/// What `strip_comments` gives: text without surrounding whitespace and
/// with no `#` line; and, where `raw` holds no `'\r'`, stripping it again
/// changes nothing.
pub proof fn law_comment_shape(raw: Seq<char>)
    ensures
        trim(spec_comment(raw)) == spec_comment(raw),
        forall|i: int| 0 <= i < lines(spec_comment(raw)).len() ==> !is_comment_line(#[trigger] lines(spec_comment(raw))[i]),
        free_of(raw, '\r') ==> spec_comment(spec_comment(raw)) == spec_comment(raw),
{
    let u = uncommented(lines(raw));
    let j = join_lines(u);
    let x = spec_comment(raw);
    lemma_editor_lines(raw);
    lemma_trim_idempotent(j);
    lemma_join_comment_free(u);
    lemma_trim_comment_free(j);
    lemma_lines_comment_free(x);
    if free_of(raw, '\r') {
        lemma_join_free_of(u, '\r');
        lemma_trim_free_of(j, '\r');
        lemma_join_lines_of(x);
        lemma_uncommented_keeps(lines(x));
        lemma_trim_end_first(j);
        if x.len() > 0 {
            let y = x.push('\n');
            assert(!is_ws(x[0]) && !is_ws(x.last()));
            assert(x.last() != '\n');
            assert(y[0] == x[0]);
            assert(trim_start(y) == y);
            assert(y.drop_last() =~= x);
            assert(trim_end(y) == trim_end(x));
            assert(trim_start(x) == x);
            assert(trim_end(x) == x);
        } else {
            assert(lines(x) =~= Seq::<Seq<char>>::empty());
            assert(join_lines(Seq::<Seq<char>>::empty()) =~= Seq::<char>::empty());
        }
    }
}

/// Index of the first range from `from` on whose text is not blank.
fn skip_blank(v: &Vec<char>, rs: &Vec<(usize, usize)>, from: usize) -> (k: usize)
    requires
        from <= rs@.len(),
        ranges_within(v@, rs@),
    ensures
        from <= k <= rs@.len(),
        k == from + first_nonblank(pieces(v@, rs@).skip(from as int)),
{
    let ghost ls = pieces(v@, rs@);
    let mut k = from;
    while k < rs.len() && range_is_blank(v, rs[k].0, rs[k].1)
        invariant
            from <= k <= rs@.len(),
            ranges_within(v@, rs@),
            ls == pieces(v@, rs@),
            forall|j: int| from <= j < k ==> is_blank(#[trigger] ls[j]),
        decreases rs@.len() - k,
    {
        k += 1;
    }
    proof {
        let t = ls.skip(from as int);
        assert forall|j: int| 0 <= j < k - from implies is_blank(#[trigger] t[j]) by {
            assert(t[j] == ls[j + from]);
        }
        lemma_first_nonblank(t, k - from);
    }
    k
}

/// Splits editor text into a title and a body. `#` lines are dropped; the
/// title is the first non-blank line, trimmed; the body is what follows it,
/// leading blank lines skipped and trailing whitespace removed.
pub fn parse_title_body(raw: &str) -> (c: Composed)
    ensures
        c.title@ == spec_title(raw@),
        c.body@ == spec_body(raw@),
{
    let v = chars_of(raw);
    let rs = uncommented_line_ranges(&v);
    let ghost ls = pieces(v@, rs@);
    let k = skip_blank(&v, &rs, 0);
    assert(ls.skip(0) =~= ls);
    let title = if k < rs.len() {
        let (a, b) = trim_range(&v, rs[k].0, rs[k].1);
        string_of_range(&v, a, b)
    } else {
        String::new()
    };
    let start = if k < rs.len() {
        k + 1
    } else {
        rs.len()
    };
    let m = skip_blank(&v, &rs, start);
    proof {
        let rest = after_title(ls);
        if k < rs@.len() {
            assert(rest =~= ls.skip(start as int));
        } else {
            assert(rest =~= ls.skip(start as int));
        }
        assert(rest.skip(m - start) =~= ls.skip(m as int));
    }
    let mut joined = String::new();
    push_joined(&mut joined, &v, &rs, m);
    let jv = chars_of(joined.as_str());
    let end = trim_end_index(&jv, 0, jv.len());
    assert(jv@.subrange(0, jv@.len() as int) =~= jv@);
    let body = string_of_range(&jv, 0, end);
    Composed { title, body }
}

/// The editor text of a new todo, read as a title and a body.
pub fn compose_new(edited: &str) -> (c: Composed)
    ensures
        c.title@ == spec_title(edited@),
        c.body@ == spec_body(edited@),
{
    parse_title_body(edited)
}

/// Drops the `#` lines of `raw` and trims what is left.
pub fn strip_comments(raw: &str) -> (s: String)
    ensures
        s@ == spec_comment(raw@),
{
    let v = chars_of(raw);
    let rs = uncommented_line_ranges(&v);
    let mut joined = String::new();
    push_joined(&mut joined, &v, &rs, 0);
    assert(pieces(v@, rs@).skip(0) =~= pieces(v@, rs@));
    trimmed(joined.as_str())
}

/// The editor text of a comment, read as the comment's body.
pub fn compose_comment(edited: &str) -> (s: String)
    ensures
        s@ == spec_comment(edited@),
{
    strip_comments(edited)
}

/// The editor to run: the first of `$GIT_EDITOR`, `$VISUAL`, `$EDITOR`
/// that is set and not empty.
pub open spec fn spec_editor(
    git_editor: Option<Seq<char>>,
    visual: Option<Seq<char>>,
    editor: Option<Seq<char>>,
) -> Option<Seq<char>> {
    if git_editor is Some && git_editor->0.len() > 0 {
        git_editor
    } else if visual is Some && visual->0.len() > 0 {
        visual
    } else if editor is Some && editor->0.len() > 0 {
        editor
    } else {
        None
    }
}

pub open spec fn opt_view(o: Option<String>) -> Option<Seq<char>> {
    match o {
        Some(s) => Some(s@),
        None => None,
    }
}

/// Picks the editor command from the values of `GIT_EDITOR`, `VISUAL` and
/// `EDITOR` (`None` where unset); `vi` when none of them is set and non-empty.
pub fn pick_editor(git_editor: Option<String>, visual: Option<String>, editor: Option<String>) -> (e: String)
    ensures
        e@ == match spec_editor(opt_view(git_editor), opt_view(visual), opt_view(editor)) {
            Some(s) => s,
            None => "vi"@,
        },
{
    if let Some(v) = git_editor {
        if !v.as_str().is_empty() {
            return v;
        }
    }
    if let Some(v) = visual {
        if !v.as_str().is_empty() {
            return v;
        }
    }
    if let Some(v) = editor {
        if !v.as_str().is_empty() {
            return v;
        }
    }
    "vi".to_owned()
}

} // verus!
