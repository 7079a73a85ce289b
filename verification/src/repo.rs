//! How todos are laid out on the todo branch (one `todos/<id>.toml` file per
//! todo) and what is accepted when reading them back, plus the author
//! identity written into each change.
use vstd::prelude::*;

use crate::text::{chars_of, is_prefix};
use crate::todo::{loaded_problem, ts_before, unit_result_view, validate_loaded, Todo};

verus! {

/// `name <email>`, the form git uses for an identity.
pub fn identity_string(name: &str, email: &str) -> (s: String)
    ensures
        s@ == name@ + " <"@ + email@ + ">"@,
{
    let mut s = name.to_owned();
    s.append(" <");
    s.append(email);
    s.append(">");
    s
}

/// The file name of a todo in the todos directory: `<id>.toml`.
pub fn todo_file_name(id: &str) -> (s: String)
    ensures
        s@ == id@ + ".toml"@,
{
    let mut s = id.to_owned();
    s.append(".toml");
    s
}

/// Whether a tree entry holds a todo: a blob whose name ends in `.toml`.
pub fn is_todo_entry(name: &str, is_blob: bool) -> (b: bool)
    ensures
        b == (is_blob && ".toml"@.is_suffix_of(name@)),
{
    if !is_blob {
        return false;
    }
    let v = chars_of(name);
    let suffix = chars_of(".toml");
    if suffix.len() > v.len() {
        return false;
    }
    let start = v.len() - suffix.len();
    let mut i: usize = 0;
    while i < suffix.len()
        invariant
            i <= suffix@.len(),
            suffix@ == ".toml"@,
            v@ == name@,
            start + suffix@.len() == v@.len(),
            v@.len() <= usize::MAX,
            forall|j: int| 0 <= j < i ==> suffix@[j] == v@[start + j],
        decreases suffix@.len() - i,
    {
        if suffix[i] != v[start + i] {
            assert(".toml"@[i as int] != name@.subrange(start as int, name@.len() as int)[i as int]);
            return false;
        }
        i += 1;
    }
    assert(".toml"@ =~= name@.subrange(start as int, name@.len() as int));
    true
}

/// Why the todo read from the file `name` is refused, if it is: it fails the
/// checks of `validate_loaded`, or its file is not named after its id.
pub open spec fn entry_problem(name: Seq<char>, t: Todo) -> Option<Seq<char>> {
    match loaded_problem(t) {
        Some(e) => Some("rejecting todo file "@ + name + ": "@ + e),
        None => if name != t.id@ + ".toml"@ {
            Some("todo file "@ + name + " does not match its id `"@ + t.id@ + "`"@)
        } else {
            None
        },
    }
}

/// Checks a todo read from the file `name` of the todo branch.
pub fn check_loaded_entry(name: &str, todo: &Todo) -> (r: Result<(), String>)
    ensures
        unit_result_view(r) == entry_problem(name@, *todo),
{
    if let Err(e) = validate_loaded(todo) {
        let mut m = "rejecting todo file ".to_owned();
        m.append(name);
        m.append(": ");
        m.append(e.as_str());
        return Err(m);
    }
    let expected = todo_file_name(todo.id.as_str());
    let nv = chars_of(name);
    let ev = chars_of(expected.as_str());
    if !(nv.len() == ev.len() && is_prefix(&ev, &nv)) {
        proof {
            if name@ == todo.id@ + ".toml"@ {
                assert(ev@.is_prefix_of(nv@)) by {
                    assert(ev@ =~= nv@.subrange(0, ev@.len() as int));
                }
            }
        }
        let mut m = "todo file ".to_owned();
        m.append(name);
        m.append(" does not match its id `");
        m.append(todo.id.as_str());
        m.append("`");
        return Err(m);
    }
    assert(nv@ =~= ev@);
    Ok(())
}

/// What is written is read back: the file a todo is written to counts as a
/// todo entry, and reading the todo from it is refused exactly when the
/// todo itself fails the checks of `validate_loaded`.
pub proof fn law_written_file_is_read_back(t: Todo)
    ensures
        ".toml"@.is_suffix_of(t.id@ + ".toml"@),
        entry_problem(t.id@ + ".toml"@, t) is None <==> loaded_problem(t) is None,
{
    let suffix = ".toml"@;
    let name = t.id@ + suffix;
    assert(suffix =~= name.subrange(name.len() - suffix.len(), name.len() as int));
}

/// `a` was created strictly before `b`.
pub open spec fn created_before(a: Todo, b: Todo) -> bool {
    ts_before(a.created, b.created)
}

/// `ts` sorted by creation time, stably: `t` goes after every todo created
/// at or before it.
pub open spec fn insert_by_created(ts: Seq<Todo>, t: Todo) -> Seq<Todo>
    decreases ts.len(),
{
    if ts.len() == 0 {
        seq![t]
    } else if created_before(t, ts.last()) {
        insert_by_created(ts.drop_last(), t).push(ts.last())
    } else {
        ts.push(t)
    }
}

pub open spec fn sorted_by_created(ts: Seq<Todo>) -> Seq<Todo>
    decreases ts.len(),
{
    if ts.len() == 0 {
        seq![]
    } else {
        insert_by_created(sorted_by_created(ts.drop_last()), ts.last())
    }
}

/// Whether no todo of `ts` is created after one that follows it.
pub open spec fn in_created_order(ts: Seq<Todo>) -> bool {
    forall|i: int, j: int| 0 <= i < j < ts.len() ==> !created_before(#[trigger] ts[j], #[trigger] ts[i])
}

/// Position at which `t` goes into `ts` when `ts` is in creation order:
/// after every todo not created after `t`.
pub open spec fn insert_position(ts: Seq<Todo>, t: Todo) -> nat
    decreases ts.len(),
{
    if ts.len() == 0 {
        0
    } else if created_before(t, ts.last()) {
        insert_position(ts.drop_last(), t)
    } else {
        ts.len()
    }
}

pub proof fn lemma_insert_by_created(ts: Seq<Todo>, t: Todo)
    ensures
        insert_position(ts, t) <= ts.len(),
        insert_by_created(ts, t) == ts.insert(insert_position(ts, t) as int, t),
        forall|q: int| insert_position(ts, t) <= q < ts.len() ==> created_before(t, #[trigger] ts[q]),
        insert_position(ts, t) > 0 ==> !created_before(t, ts[insert_position(ts, t) - 1]),
    decreases ts.len(),
{
    if ts.len() > 0 {
        lemma_insert_by_created(ts.drop_last(), t);
        let p = insert_position(ts, t);
        if created_before(t, ts.last()) {
            assert(insert_by_created(ts, t) =~= ts.insert(p as int, t));
            assert forall|q: int| p <= q < ts.len() implies created_before(t, #[trigger] ts[q]) by {
                if q < ts.len() - 1 {
                    assert(ts.drop_last()[q] == ts[q]);
                }
            }
            if p > 0 {
                assert(ts.drop_last()[p - 1] == ts[p - 1]);
            }
        } else {
            assert(insert_by_created(ts, t) =~= ts.insert(p as int, t));
        }
    } else {
        assert(insert_by_created(ts, t) =~= ts.insert(0, t));
    }
}

/// Sorts todos by creation time, keeping the read order among todos
/// created at the same instant.
pub fn sort_by_created(todos: Vec<Todo>) -> (out: Vec<Todo>)
    ensures
        out@ == sorted_by_created(todos@),
{
    let ghost ts = todos@;
    let n = todos.len();
    let mut rest = todos;
    let mut out: Vec<Todo> = Vec::new();
    let mut i: usize = 0;
    assert(ts.skip(0) =~= ts);
    assert(ts.take(0) =~= Seq::<Todo>::empty());
    while rest.len() > 0
        invariant
            i <= ts.len(),
            ts.len() == n,
            rest@ == ts.skip(i as int),
            out@ == sorted_by_created(ts.take(i as int)),
        decreases rest@.len(),
    {
        let t = rest.remove(0);
        assert(rest@ =~= ts.skip(i + 1));
        assert(ts.take(i + 1).drop_last() =~= ts.take(i as int));
        assert(ts.take(i + 1).last() == t);
        let mut p: usize = 0;
        while p < out.len() && !t.created.before(&out[p].created)
            invariant
                p <= out@.len(),
                forall|q: int| 0 <= q < p ==> !created_before(t, #[trigger] out@[q]),
            decreases out@.len() - p,
        {
            p += 1;
        }
        proof {
            lemma_insert_by_created(out@, t);
            lemma_sorted_by_created_ordered(ts.take(i as int));
            let k = insert_position(out@, t);
            if p < k {
                assert(created_before(t, out@[p as int]));
            } else if p > k {
                assert(created_before(t, out@[k as int]));
            }
        }
        out.insert(p, t);
        i += 1;
    }
    assert(ts.take(i as int) =~= ts);
    out
}

pub proof fn lemma_sorted_by_created_ordered(ts: Seq<Todo>)
    ensures
        in_created_order(sorted_by_created(ts)),
        sorted_by_created(ts).to_multiset() == ts.to_multiset(),
    decreases ts.len(),
{
    broadcast use vstd::seq_lib::group_to_multiset_ensures;

    if ts.len() > 0 {
        let init = ts.drop_last();
        let s = sorted_by_created(init);
        let t = ts.last();
        lemma_sorted_by_created_ordered(init);
        lemma_insert_by_created(s, t);
        let p = insert_position(s, t) as int;
        let r = s.insert(p, t);
        assert(ts =~= init.push(t));
        assert forall|i: int, j: int| 0 <= i < j < r.len() implies !created_before(#[trigger] r[j], #[trigger] r[i]) by {
            if j < p {
                assert(r[i] == s[i] && r[j] == s[j]);
            } else if j == p {
                assert(r[i] == s[i]);
                assert(!created_before(t, s[p - 1]));
                if i < p - 1 {
                    assert(!created_before(s[p - 1], s[i]));
                }
            } else if i == p {
                assert(r[j] == s[j - 1]);
                assert(created_before(t, s[j - 1]));
            } else if i < p {
                assert(r[i] == s[i] && r[j] == s[j - 1]);
            } else {
                assert(r[i] == s[i - 1] && r[j] == s[j - 1]);
            }
        }
    }
}

/// The todos as loaded are in creation order and are the todos read, each
/// as often as it was read.
pub proof fn law_loaded_order(ts: Seq<Todo>)
    ensures
        in_created_order(sorted_by_created(ts)),
        sorted_by_created(ts).to_multiset() == ts.to_multiset(),
{
    lemma_sorted_by_created_ordered(ts);
}

} // verus!
