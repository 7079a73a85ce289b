//! Character-level text handling: whitespace trimming, line splitting and
//! joining, and the lexicographic order of strings, each as a spec function
//! over `Seq<char>` with an executable counterpart proved against it.
use vstd::prelude::*;

verus! {

/// Unicode `White_Space`, the property that `char::is_whitespace` tests.
pub open spec fn is_ws(c: char) -> bool {
    let u = c as u32;
    ||| 0x9 <= u <= 0xD
    ||| u == 0x20
    ||| u == 0x85
    ||| u == 0xA0
    ||| u == 0x1680
    ||| 0x2000 <= u <= 0x200A
    ||| u == 0x2028
    ||| u == 0x2029
    ||| u == 0x202F
    ||| u == 0x205F
    ||| u == 0x3000
}

/// Whether `c` has the Unicode `White_Space` property, the test that
/// `char::is_whitespace` makes.
pub fn char_is_whitespace(c: char) -> (b: bool)
    ensures
        b == is_ws(c),
{
    let u = c as u32;
    (0x9 <= u && u <= 0xD) || u == 0x20 || u == 0x85 || u == 0xA0 || u == 0x1680 || (0x2000 <= u
        && u <= 0x200A) || u == 0x2028 || u == 0x2029 || u == 0x202F || u == 0x205F || u == 0x3000
}

/// `String::push`: appends one character.
#[verifier::external_body]
pub(crate) fn push_char(s: &mut String, c: char)
    ensures
        final(s)@ == old(s)@.push(c),
{
    s.push(c)
}

/// The characters of `s`, in order.
pub fn chars_of(s: &str) -> (v: Vec<char>)
    ensures
        v@ == s@,
{
    broadcast use vstd::string::group_string_axioms;

    let mut v: Vec<char> = Vec::new();
    for c in it: s.chars()
        invariant
            v@ == it.seq().take(it.index() as int),
    {
        v.push(c);
    }
    v
}

/// Appends `v[from..to]` to `out`.
pub fn push_range(out: &mut String, v: &Vec<char>, from: usize, to: usize)
    requires
        from <= to <= v@.len(),
    ensures
        final(out)@ == old(out)@ + v@.subrange(from as int, to as int),
{
    let mut i = from;
    while i < to
        invariant
            from <= i <= to <= v@.len(),
            out@ == old(out)@ + v@.subrange(from as int, i as int),
        decreases to - i,
    {
        push_char(out, v[i]);
        assert(v@.subrange(from as int, i + 1) =~= v@.subrange(from as int, i as int).push(v@[i as int]));
        i += 1;
    }
}

/// A string holding `v[from..to]`.
pub fn string_of_range(v: &Vec<char>, from: usize, to: usize) -> (s: String)
    requires
        from <= to <= v@.len(),
    ensures
        s@ == v@.subrange(from as int, to as int),
{
    let mut s = String::new();
    push_range(&mut s, v, from, to);
    s
}

/// `s` without its leading whitespace (`str::trim_start`).
pub open spec fn trim_start(s: Seq<char>) -> Seq<char>
    decreases s.len(),
{
    if s.len() > 0 && is_ws(s[0]) {
        trim_start(s.drop_first())
    } else {
        s
    }
}

/// `s` without its trailing whitespace (`str::trim_end`).
pub open spec fn trim_end(s: Seq<char>) -> Seq<char>
    decreases s.len(),
{
    if s.len() > 0 && is_ws(s.last()) {
        trim_end(s.drop_last())
    } else {
        s
    }
}

/// `s` without leading and trailing whitespace (`str::trim`).
pub open spec fn trim(s: Seq<char>) -> Seq<char> {
    trim_end(trim_start(s))
}

/// True when `s` holds nothing but whitespace.
pub open spec fn is_blank(s: Seq<char>) -> bool {
    trim(s).len() == 0
}

pub proof fn lemma_trim_start_blank(s: Seq<char>)
    ensures
        trim_start(s).len() == 0 <==> is_blank(s),
        trim_start(s).len() <= s.len(),
    decreases s.len(),
{
    if s.len() > 0 && is_ws(s[0]) {
        lemma_trim_start_blank(s.drop_first());
    }
    lemma_trim_end_len(trim_start(s));
}

pub proof fn lemma_trim_end_len(s: Seq<char>)
    ensures
        trim_end(s).len() <= s.len(),
        s.len() > 0 && !is_ws(s[0]) ==> trim_end(s).len() > 0,
        trim_end(s).len() == 0 ==> forall|i: int| 0 <= i < s.len() ==> is_ws(#[trigger] s[i]),
        trim_end(s) =~= s.take(trim_end(s).len() as int),
    decreases s.len(),
{
    if s.len() > 0 && is_ws(s.last()) {
        lemma_trim_end_len(s.drop_last());
        if trim_end(s).len() == 0 {
            assert forall|i: int| 0 <= i < s.len() implies is_ws(#[trigger] s[i]) by {
                if i < s.len() - 1 {
                    assert(s.drop_last()[i] == s[i]);
                }
            }
        }
    }
}

/// Index of the first character of `v[from..to]` that is not whitespace
/// (or `to`): `v[result..to]` is `trim_start(v[from..to])`.
pub fn trim_start_index(v: &Vec<char>, from: usize, to: usize) -> (r: usize)
    requires
        from <= to <= v@.len(),
    ensures
        from <= r <= to,
        v@.subrange(r as int, to as int) == trim_start(v@.subrange(from as int, to as int)),
{
    let mut i = from;
    while i < to && char_is_whitespace(v[i])
        invariant
            from <= i <= to <= v@.len(),
            trim_start(v@.subrange(i as int, to as int)) == trim_start(
                v@.subrange(from as int, to as int),
            ),
        decreases to - i,
    {
        assert(v@.subrange(i as int, to as int).drop_first() =~= v@.subrange(
            i + 1,
            to as int,
        ));
        i += 1;
    }
    i
}

/// Index just past the last character of `v[from..to]` that is not
/// whitespace (or `from`): `v[from..result]` is `trim_end(v[from..to])`.
pub fn trim_end_index(v: &Vec<char>, from: usize, to: usize) -> (r: usize)
    requires
        from <= to <= v@.len(),
    ensures
        from <= r <= to,
        v@.subrange(from as int, r as int) == trim_end(v@.subrange(from as int, to as int)),
{
    let mut j = to;
    while j > from && char_is_whitespace(v[j - 1])
        invariant
            from <= j <= to <= v@.len(),
            trim_end(v@.subrange(from as int, j as int)) == trim_end(
                v@.subrange(from as int, to as int),
            ),
        decreases j,
    {
        assert(v@.subrange(from as int, j as int).drop_last() =~= v@.subrange(
            from as int,
            j - 1,
        ));
        j -= 1;
    }
    j
}

/// Bounds of `trim(v[from..to])` inside `v`.
pub fn trim_range(v: &Vec<char>, from: usize, to: usize) -> (r: (usize, usize))
    requires
        from <= to <= v@.len(),
    ensures
        from <= r.0 <= r.1 <= to,
        v@.subrange(r.0 as int, r.1 as int) == trim(v@.subrange(from as int, to as int)),
{
    let a = trim_start_index(v, from, to);
    let b = trim_end_index(v, a, to);
    (a, b)
}

/// True when `v[from..to]` holds nothing but whitespace.
pub fn range_is_blank(v: &Vec<char>, from: usize, to: usize) -> (b: bool)
    requires
        from <= to <= v@.len(),
    ensures
        b == is_blank(v@.subrange(from as int, to as int)),
{
    let a = trim_start_index(v, from, to);
    proof {
        lemma_trim_start_blank(v@.subrange(from as int, to as int));
    }
    a == to
}

/// Whether `s`, a whole string, is whitespace only (`s.trim().is_empty()`).
pub fn str_is_blank(s: &str) -> (b: bool)
    ensures
        b == is_blank(s@),
{
    let v = chars_of(s);
    let b = range_is_blank(&v, 0, v.len());
    assert(v@.subrange(0, v@.len() as int) =~= v@);
    b
}

/// A copy of `s` with surrounding whitespace removed (`s.trim().to_string()`).
pub fn trimmed(s: &str) -> (t: String)
    ensures
        t@ == trim(s@),
{
    let v = chars_of(s);
    let (a, b) = trim_range(&v, 0, v.len());
    assert(v@.subrange(0, v@.len() as int) =~= v@);
    string_of_range(&v, a, b)
}

/// Position of the first `'\n'` in `s`, or `s.len()` when there is none.
pub open spec fn newline_index(s: Seq<char>) -> nat
    decreases s.len(),
{
    if s.len() == 0 {
        0
    } else if s[0] == '\n' {
        0
    } else {
        1 + newline_index(s.drop_first())
    }
}

/// A line without the `'\r'` of a `"\r\n"` terminator.
pub open spec fn strip_cr(line: Seq<char>) -> Seq<char> {
    if line.len() > 0 && line.last() == '\r' {
        line.drop_last()
    } else {
        line
    }
}

/// The lines of `s` as `str::lines` yields them: split at `'\n'`, a `'\r'`
/// just before a `'\n'` dropped, and no empty line after a final `'\n'`.
pub open spec fn lines(s: Seq<char>) -> Seq<Seq<char>>
    decreases s.len(),
{
    if s.len() == 0 {
        seq![]
    } else {
        let k = newline_index(s);
        if k < s.len() {
            seq![strip_cr(s.take(k as int))] + lines(s.skip(k + 1 as int))
        } else {
            seq![s]
        }
    }
}

pub proof fn lemma_newline_index(t: Seq<char>, m: int)
    requires
        0 <= m <= t.len(),
        forall|j: int| 0 <= j < m ==> t[j] != '\n',
        m < t.len() ==> t[m] == '\n',
    ensures
        newline_index(t) == m,
    decreases m,
{
    if m > 0 {
        lemma_newline_index(t.drop_first(), m - 1);
    }
}

pub proof fn lemma_newline_index_bounds(t: Seq<char>)
    ensures
        newline_index(t) <= t.len(),
        forall|j: int| 0 <= j < newline_index(t) ==> t[j] != '\n',
        newline_index(t) < t.len() ==> t[newline_index(t) as int] == '\n',
    decreases t.len(),
{
    if t.len() > 0 && t[0] != '\n' {
        lemma_newline_index_bounds(t.drop_first());
        assert forall|j: int| 0 <= j < newline_index(t) implies t[j] != '\n' by {
            if j > 0 {
                assert(t[j] == t.drop_first()[j - 1]);
            }
        }
    }
}

/// A final line ending adds no line: `lines` reads `s` and `s` followed by
/// `'\n'` alike, unless `s` already ends a line or ends in `'\r'` (which the
/// added `'\n'` turns into a `"\r\n"` line ending, so `"a\r"` has the line
/// `"a\r"` while `"a\r\n"` has the line `"a"`).
pub proof fn law_lines_final_newline(s: Seq<char>)
    requires
        s.len() > 0,
        s.last() != '\n',
        s.last() != '\r',
    ensures
        lines(s.push('\n')) == lines(s),
    decreases s.len(),
{
    let t = s.push('\n');
    let k = newline_index(s) as int;
    lemma_newline_index_bounds(s);
    if k < s.len() {
        lemma_newline_index(t, k);
        assert(t.take(k) =~= s.take(k));
        assert(t.skip(k + 1) =~= s.skip(k + 1).push('\n'));
        assert(k < s.len() - 1);
        assert(s.skip(k + 1).last() == s.last());
        law_lines_final_newline(s.skip(k + 1));
    } else {
        lemma_newline_index(t, s.len() as int);
        assert(t.take(s.len() as int) =~= s);
        assert(t.skip(s.len() + 1int) =~= Seq::<char>::empty());
        assert(strip_cr(s) == s);
        assert(lines(Seq::<char>::empty()) =~= Seq::<Seq<char>>::empty());
        assert(lines(t) == seq![strip_cr(t.take(s.len() as int))] + lines(t.skip(s.len() + 1int)));
        assert(lines(t) =~= seq![s]);
    }
}

/// The pieces of `s` that the ranges `rs` select, in order.
pub open spec fn pieces(s: Seq<char>, rs: Seq<(usize, usize)>) -> Seq<Seq<char>> {
    Seq::new(rs.len(), |i: int| s.subrange(rs[i].0 as int, rs[i].1 as int))
}

/// Every range of `rs` lies within `s`.
pub open spec fn ranges_within(s: Seq<char>, rs: Seq<(usize, usize)>) -> bool {
    forall|i: int| 0 <= i < rs.len() ==> #[trigger] rs[i].0 <= rs[i].1 <= s.len()
}

/// The lines of `v`, each as the range of `v` that holds it.
pub fn line_ranges(v: &Vec<char>) -> (rs: Vec<(usize, usize)>)
    ensures
        ranges_within(v@, rs@),
        pieces(v@, rs@) == lines(v@),
{
    let mut rs: Vec<(usize, usize)> = Vec::new();
    let mut start: usize = 0;
    let mut i: usize = 0;
    assert(v@.skip(0) =~= v@);
    while i < v.len()
        invariant
            start <= i <= v@.len(),
            ranges_within(v@, rs@),
            forall|j: int| start <= j < i ==> v@[j] != '\n',
            pieces(v@, rs@) + lines(v@.skip(start as int)) == lines(v@),
        decreases v@.len() - i,
    {
        if v[i] == '\n' {
            let end = if i > start && v[i - 1] == '\r' {
                i - 1
            } else {
                i
            };
            proof {
                let t = v@.skip(start as int);
                lemma_newline_index(t, i - start);
                assert(t.take(i - start) =~= v@.subrange(start as int, i as int));
                assert(t.skip(i - start + 1) =~= v@.skip(i + 1));
                assert(strip_cr(t.take(i - start)) =~= v@.subrange(start as int, end as int));
                assert(lines(t) == seq![v@.subrange(start as int, end as int)] + lines(
                    v@.skip(i + 1),
                ));
            }
            let ghost old_rs = rs@;
            rs.push((start, end));
            assert(pieces(v@, rs@) =~= pieces(v@, old_rs).push(
                v@.subrange(start as int, end as int),
            ));
            assert(pieces(v@, rs@) + lines(v@.skip(i + 1)) =~= pieces(v@, old_rs) + (seq![
                v@.subrange(start as int, end as int),
            ] + lines(v@.skip(i + 1))));
            start = i + 1;
        }
        i += 1;
    }
    if start < v.len() {
        proof {
            let t = v@.skip(start as int);
            lemma_newline_index(t, t.len() as int);
            assert(t =~= v@.subrange(start as int, v@.len() as int));
        }
        let ghost old_rs = rs@;
        rs.push((start, v.len()));
        assert(pieces(v@, rs@) =~= pieces(v@, old_rs).push(
            v@.subrange(start as int, v@.len() as int),
        ));
    } else {
        assert(v@.skip(start as int) =~= Seq::<char>::empty());
    }
    assert(pieces(v@, rs@) + Seq::<Seq<char>>::empty() =~= pieces(v@, rs@));
    rs
}

/// The lines `ls`, each followed by `'\n'`, run together.
pub open spec fn join_lines(ls: Seq<Seq<char>>) -> Seq<char>
    decreases ls.len(),
{
    if ls.len() == 0 {
        seq![]
    } else {
        join_lines(ls.drop_last()) + ls.last() + seq!['\n']
    }
}

/// A line that `#` starts once leading whitespace is skipped.
pub open spec fn is_comment_line(line: Seq<char>) -> bool {
    trim_start(line).len() > 0 && trim_start(line)[0] == '#'
}

/// The lines of `ls` that are not comment lines, in order.
pub open spec fn uncommented(ls: Seq<Seq<char>>) -> Seq<Seq<char>>
    decreases ls.len(),
{
    if ls.len() == 0 {
        seq![]
    } else if is_comment_line(ls.last()) {
        uncommented(ls.drop_last())
    } else {
        uncommented(ls.drop_last()).push(ls.last())
    }
}

/// Whether `v[from..to]` is a comment line.
pub fn range_is_comment(v: &Vec<char>, from: usize, to: usize) -> (b: bool)
    requires
        from <= to <= v@.len(),
    ensures
        b == is_comment_line(v@.subrange(from as int, to as int)),
{
    let a = trim_start_index(v, from, to);
    a < to && v[a] == '#'
}

/// The ranges of the lines of `v` that are not comment lines.
pub fn uncommented_line_ranges(v: &Vec<char>) -> (rs: Vec<(usize, usize)>)
    ensures
        ranges_within(v@, rs@),
        pieces(v@, rs@) == uncommented(lines(v@)),
{
    let all = line_ranges(v);
    let mut rs: Vec<(usize, usize)> = Vec::new();
    let mut i: usize = 0;
    while i < all.len()
        invariant
            i <= all@.len(),
            ranges_within(v@, all@),
            pieces(v@, all@) == lines(v@),
            ranges_within(v@, rs@),
            pieces(v@, rs@) == uncommented(pieces(v@, all@).take(i as int)),
        decreases all@.len() - i,
    {
        let (a, b) = all[i];
        let ghost ls = pieces(v@, all@);
        assert(ls.take(i + 1).drop_last() =~= ls.take(i as int));
        assert(ls.take(i + 1).last() == v@.subrange(a as int, b as int));
        if !range_is_comment(v, a, b) {
            let ghost old_rs = rs@;
            rs.push((a, b));
            assert(pieces(v@, rs@) =~= pieces(v@, old_rs).push(v@.subrange(a as int, b as int)));
        }
        i += 1;
    }
    assert(pieces(v@, all@).take(all@.len() as int) =~= pieces(v@, all@));
    rs
}

/// Appends each selected piece of `v`, followed by `'\n'`, to `out`.
pub fn push_joined(out: &mut String, v: &Vec<char>, rs: &Vec<(usize, usize)>, from: usize)
    requires
        from <= rs@.len(),
        ranges_within(v@, rs@),
    ensures
        final(out)@ == old(out)@ + join_lines(pieces(v@, rs@).skip(from as int)),
{
    let ghost ps = pieces(v@, rs@).skip(from as int);
    let mut i = from;
    assert(ps.take(0) =~= Seq::<Seq<char>>::empty());
    while i < rs.len()
        invariant
            from <= i <= rs@.len(),
            ranges_within(v@, rs@),
            ps == pieces(v@, rs@).skip(from as int),
            out@ == old(out)@ + join_lines(ps.take(i - from)),
        decreases rs@.len() - i,
    {
        let (a, b) = rs[i];
        push_range(out, v, a, b);
        push_char(out, '\n');
        assert(ps.take(i - from + 1).drop_last() =~= ps.take(i - from));
        assert(ps.take(i - from + 1).last() == v@.subrange(a as int, b as int));
        i += 1;
    }
    assert(ps.take(i - from) =~= ps);
}

/// The decimal digit for `d` (`d < 10`).
pub open spec fn digit(d: nat) -> char {
    seq!['0', '1', '2', '3', '4', '5', '6', '7', '8', '9'][d as int]
}

/// `n` in decimal, without leading zeros, as `{}` prints it.
pub open spec fn decimal(n: nat) -> Seq<char>
    decreases n,
{
    if n < 10 {
        seq![digit(n)]
    } else {
        decimal(n / 10).push(digit(n % 10))
    }
}

/// `n` written in decimal.
pub fn decimal_string(n: u64) -> (s: String)
    ensures
        s@ == decimal(n as nat),
    decreases n,
{
    let table: Vec<char> = vec!['0', '1', '2', '3', '4', '5', '6', '7', '8', '9'];
    assert(table@ =~= seq!['0', '1', '2', '3', '4', '5', '6', '7', '8', '9']);
    if n < 10 {
        let mut s = String::new();
        push_char(&mut s, table[n as usize]);
        s
    } else {
        let mut s = decimal_string(n / 10);
        push_char(&mut s, table[(n % 10) as usize]);
        s
    }
}

/// The pieces `ls` with `sep` between neighbours.
pub open spec fn join_with(ls: Seq<Seq<char>>, sep: Seq<char>) -> Seq<char>
    decreases ls.len(),
{
    if ls.len() == 0 {
        seq![]
    } else if ls.len() == 1 {
        ls[0]
    } else {
        join_with(ls.drop_last(), sep) + sep + ls.last()
    }
}

/// Joining puts `sep` between every two neighbours: nothing joins to
/// nothing, one piece to itself, and one more piece adds `sep` and the
/// piece at the end; so the length is that of the pieces plus one `sep` for
/// each gap.
pub proof fn law_join_with(ls: Seq<Seq<char>>, sep: Seq<char>, x: Seq<char>)
    ensures
        join_with(seq![], sep) == Seq::<char>::empty(),
        join_with(seq![x], sep) == x,
        ls.len() > 0 ==> join_with(ls.push(x), sep) == join_with(ls, sep) + sep + x,
        ls.len() > 0 ==> join_with(ls.push(x), sep).len() == join_with(ls, sep).len() + sep.len() + x.len(),
{
    assert(seq![x][0] == x);
    if ls.len() > 0 {
        assert(ls.push(x).drop_last() =~= ls);
        assert(ls.push(x).last() == x);
    }
}

/// The strings `parts` with `sep` between neighbours (`parts.join(sep)`).
pub fn join_strings(parts: &Vec<String>, sep: &str) -> (s: String)
    ensures
        s@ == join_with(parts@.map_values(|p: String| p@), sep@),
{
    let ghost ls = parts@.map_values(|p: String| p@);
    let mut s = String::new();
    let mut i: usize = 0;
    while i < parts.len()
        invariant
            i <= parts@.len(),
            ls == parts@.map_values(|p: String| p@),
            s@ == join_with(ls.take(i as int), sep@),
        decreases parts@.len() - i,
    {
        assert(ls.take(i + 1).drop_last() =~= ls.take(i as int));
        assert(ls.take(i + 1).last() == parts@[i as int]@);
        if i > 0 {
            s.append(sep);
        } else {
            assert(ls.take(0) =~= Seq::<Seq<char>>::empty());
        }
        s.append(parts[i].as_str());
        i += 1;
    }
    assert(ls.take(i as int) =~= ls);
    s
}

/// Whether `p` is a prefix of `s`.
pub fn is_prefix(p: &Vec<char>, s: &Vec<char>) -> (b: bool)
    ensures
        b == p@.is_prefix_of(s@),
{
    if p.len() > s.len() {
        return false;
    }
    let mut i: usize = 0;
    while i < p.len()
        invariant
            i <= p@.len() <= s@.len(),
            forall|j: int| 0 <= j < i ==> p@[j] == s@[j],
        decreases p@.len() - i,
    {
        if p[i] != s[i] {
            return false;
        }
        i += 1;
    }
    assert(p@ =~= s@.subrange(0, p@.len() as int));
    true
}

/// Whether `s` starts with `p` (`str::starts_with`).
pub fn str_starts_with(s: &str, p: &str) -> (b: bool)
    ensures
        b == p@.is_prefix_of(s@),
{
    is_prefix(&chars_of(p), &chars_of(s))
}

} // verus!
