//! The lines that `show` prints for a todo.
use vstd::prelude::*;

use crate::text::{chars_of, join_strings, join_with, line_ranges, lines, pieces, push_range, ranges_within};
use crate::todo::{rfc3339_text, views, Comment, Status, Timestamp, Todo};

verus! {

pub open spec fn strs(v: Seq<String>) -> Seq<Seq<char>> {
    v.map_values(|s: String| s@)
}

/// The instant as chrono writes it in RFC 3339 form.
pub open spec fn rfc(t: Timestamp) -> Seq<char> {
    rfc3339_text(t.spec_secs(), t.spec_nanos())
}

/// Each line indented by four spaces.
pub open spec fn indented(ls: Seq<Seq<char>>) -> Seq<Seq<char>> {
    ls.map_values(|l: Seq<char>| "    "@ + l)
}

/// A comment written at `when`: a blank line, a `--- <when> by <who>`
/// header, then its body indented.
pub open spec fn comment_block(c: Comment, when: Seq<char>) -> Seq<Seq<char>> {
    seq![Seq::<char>::empty(), "--- "@ + when + " by "@ + c.by@] + indented(lines(c.body@))
}

pub open spec fn comments_block(cs: Seq<Comment>, whens: Seq<Seq<char>>) -> Seq<Seq<char>>
    decreases cs.len(),
{
    if cs.len() == 0 {
        seq![]
    } else {
        comments_block(cs.drop_last(), whens.take(cs.len() - 1)) + comment_block(cs.last(), whens[cs.len() - 1])
    }
}

/// The comments are shown in the order they were added: no comment shows
/// nothing, and one more comment `c`, written at `w`, adds after the blocks
/// of the others a blank line, the line `--- <w> by <author>`, and the lines
/// of its body, each indented by four spaces.
pub proof fn law_comments_in_order(cs: Seq<Comment>, ws: Seq<Seq<char>>, c: Comment, w: Seq<char>)
    requires
        ws.len() == cs.len(),
    ensures
        comments_block(seq![], seq![]) == Seq::<Seq<char>>::empty(),
        comments_block(cs.push(c), ws.push(w)) == comments_block(cs, ws) + seq![
            Seq::<char>::empty(),
            "--- "@ + w + " by "@ + c.by@,
        ] + Seq::new(lines(c.body@).len(), |i: int| "    "@ + lines(c.body@)[i]),
{
    assert(cs.push(c).drop_last() =~= cs);
    assert(ws.push(w).take(cs.len() as int) =~= ws);
    assert(indented(lines(c.body@)) =~= Seq::new(lines(c.body@).len(), |i: int| "    "@ + lines(c.body@)[i]));
}

/// The lines of `show`, given the creation time, the finishing time and the
/// comments' times as text: id, title, status, creation; when done, when
/// and by whom; the labels, if any; the body, if any, after a blank line
/// and indented; then each comment.
pub open spec fn spec_show_with(t: Todo, created: Seq<char>, done: Seq<char>, whens: Seq<Seq<char>>) -> Seq<Seq<char>> {
    seq![
        "id:      "@ + t.id@,
        "title:   "@ + t.title@,
        "status:  "@ + (if t.status == Status::Open { "open"@ } else { "done"@ }),
        "created: "@ + created + "  by "@ + t.created_by@,
    ] + (match (t.done, t.done_by) {
        (Some(_), Some(by)) => seq!["done:    "@ + done + "  by "@ + by@],
        _ => seq![],
    }) + (if t.labels@.len() > 0 {
        seq!["labels:  "@ + join_with(views(t.labels@), ", "@)]
    } else {
        seq![]
    }) + (if t.body@.len() > 0 {
        seq![Seq::<char>::empty()] + indented(lines(t.body@))
    } else {
        seq![]
    }) + comments_block(t.comments@, whens)
}

/// The lines of `show`, the times written as chrono writes RFC 3339.
pub open spec fn spec_show(t: Todo) -> Seq<Seq<char>> {
    spec_show_with(
        t,
        rfc(t.created),
        match t.done {
            Some(at) => rfc(at),
            None => Seq::<char>::empty(),
        },
        t.comments@.map_values(|c: Comment| rfc(c.at)),
    )
}

fn push_line(out: &mut Vec<String>, line: String)
    ensures
        strs(final(out)@) == strs(old(out)@).push(line@),
{
    out.push(line);
    assert(strs(out@) =~= strs(old(out)@).push(line@));
}

/// Appends the lines of `text`, each indented by four spaces.
fn push_indented(out: &mut Vec<String>, text: &String)
    ensures
        strs(final(out)@) == strs(old(out)@) + indented(lines(text@)),
{
    let v = chars_of(text.as_str());
    let rs = line_ranges(&v);
    let ghost ls = pieces(v@, rs@);
    let mut i: usize = 0;
    assert(strs(old(out)@) + indented(ls.take(0)) =~= strs(old(out)@));
    while i < rs.len()
        invariant
            i <= rs@.len(),
            ranges_within(v@, rs@),
            ls == pieces(v@, rs@),
            strs(out@) == strs(old(out)@) + indented(ls.take(i as int)),
        decreases rs@.len() - i,
    {
        let (a, b) = rs[i];
        let mut line = "    ".to_owned();
        push_range(&mut line, &v, a, b);
        let ghost o0 = strs(out@);
        push_line(out, line);
        assert(indented(ls.take(i + 1)) =~= indented(ls.take(i as int)).push("    "@ + ls[i as int]));
        i += 1;
    }
    assert(ls.take(i as int) =~= ls);
}

/// The lines that `show` prints for `todo`, given its creation time, its
/// finishing time (used when it is done) and its comments' times as text.
pub fn show_lines_with(todo: &Todo, created: &String, done: &String, comment_times: &Vec<String>) -> (r: Vec<String>)
    requires
        comment_times@.len() == todo.comments@.len(),
    ensures
        strs(r@) == spec_show_with(*todo, created@, done@, strs(comment_times@)),
{
    let mut out: Vec<String> = Vec::new();
    let mut l = "id:      ".to_owned();
    l.append(todo.id.as_str());
    push_line(&mut out, l);
    let mut l = "title:   ".to_owned();
    l.append(todo.title.as_str());
    push_line(&mut out, l);
    let mut l = "status:  ".to_owned();
    l.append(if todo.is_open() { "open" } else { "done" });
    push_line(&mut out, l);
    let mut l = "created: ".to_owned();
    l.append(created.as_str());
    l.append("  by ");
    l.append(todo.created_by.as_str());
    push_line(&mut out, l);
    match (&todo.done, &todo.done_by) {
        (Some(_), Some(by)) => {
            let mut l = "done:    ".to_owned();
            l.append(done.as_str());
            l.append("  by ");
            l.append(by.as_str());
            push_line(&mut out, l);
        },
        _ => {},
    }
    if todo.labels.len() > 0 {
        let mut l = "labels:  ".to_owned();
        l.append(join_strings(&todo.labels, ", ").as_str());
        assert(todo.labels@.map_values(|p: String| p@) =~= views(todo.labels@));
        push_line(&mut out, l);
    }
    if !todo.body.as_str().is_empty() {
        push_line(&mut out, String::new());
        push_indented(&mut out, &todo.body);
    }
    let ghost with_body = strs(out@);
    let mut k: usize = 0;
    let ghost cs = todo.comments@;
    let ghost ws = strs(comment_times@);
    assert(cs.take(0) =~= Seq::<Comment>::empty());
    assert(with_body + comments_block(cs.take(0), ws.take(0)) =~= with_body);
    while k < todo.comments.len()
        invariant
            k <= cs.len(),
            cs == todo.comments@,
            ws == strs(comment_times@),
            ws.len() == cs.len(),
            strs(out@) == with_body + comments_block(cs.take(k as int), ws.take(k as int)),
        decreases cs.len() - k,
    {
        let c = &todo.comments[k];
        push_line(&mut out, String::new());
        let mut l = "--- ".to_owned();
        l.append(comment_times[k].as_str());
        l.append(" by ");
        l.append(c.by.as_str());
        push_line(&mut out, l);
        push_indented(&mut out, &c.body);
        assert(cs.take(k + 1).drop_last() =~= cs.take(k as int));
        assert(ws.take(k + 1).take(k as int) =~= ws.take(k as int));
        assert(cs.take(k + 1).last() == cs[k as int]);
        assert(ws.take(k + 1)[k as int] == comment_times@[k as int]@);
        assert(strs(out@) =~= with_body + comments_block(cs.take(k + 1), ws.take(k + 1)));
        k += 1;
    }
    assert(cs.take(k as int) =~= cs);
    assert(ws.take(k as int) =~= ws);
    assert(strs(out@) =~= spec_show_with(*todo, created@, done@, ws));
    out
}

/// The lines that `show` prints for `todo`.
pub fn show_lines(todo: &Todo) -> (r: Vec<String>)
    ensures
        strs(r@) == spec_show(*todo),
{
    let created = todo.created.to_rfc3339();
    let done = match &todo.done {
        Some(at) => at.to_rfc3339(),
        None => String::new(),
    };
    let mut times: Vec<String> = Vec::new();
    let mut k: usize = 0;
    while k < todo.comments.len()
        invariant
            k <= todo.comments@.len(),
            strs(times@) == todo.comments@.take(k as int).map_values(|c: Comment| rfc(c.at)),
        decreases todo.comments@.len() - k,
    {
        let ghost t0 = times@;
        times.push(todo.comments[k].at.to_rfc3339());
        assert(strs(times@) =~= strs(t0).push(rfc(todo.comments@[k as int].at)));
        assert(todo.comments@.take(k + 1).map_values(|c: Comment| rfc(c.at)) =~= todo.comments@.take(
            k as int,
        ).map_values(|c: Comment| rfc(c.at)).push(rfc(todo.comments@[k as int].at)));
        k += 1;
    }
    assert(todo.comments@.take(k as int) =~= todo.comments@);
    show_lines_with(todo, &created, &done, &times)
}

} // verus!
