//! The ids offered for shell completion.
use vstd::prelude::*;

use crate::todo::{loaded_problem, spec_valid_id, Status, Todo};

verus! {

/// Whether `t` is offered: every todo, or only open ones when `open_only`.
pub open spec fn offered(t: Todo, open_only: bool) -> bool {
    !open_only || t.status == Status::Open
}

/// The ids of the offered todos of `ts`, in order.
pub open spec fn offered_ids(ts: Seq<Todo>, open_only: bool) -> Seq<Seq<char>>
    decreases ts.len(),
{
    if ts.len() == 0 {
        seq![]
    } else if offered(ts.last(), open_only) {
        offered_ids(ts.drop_last(), open_only).push(ts.last().id@)
    } else {
        offered_ids(ts.drop_last(), open_only)
    }
}

/// Ids offered for completion from todos that passed the load checks are
/// well-formed: eight lowercase hex digits, nothing a shell would expand.
pub proof fn law_offered_ids_are_valid(ts: Seq<Todo>, open_only: bool)
    requires
        forall|i: int| 0 <= i < ts.len() ==> loaded_problem(#[trigger] ts[i]) is None,
    ensures
        forall|j: int| 0 <= j < offered_ids(ts, open_only).len() ==> spec_valid_id(
            #[trigger] offered_ids(ts, open_only)[j],
        ),
    decreases ts.len(),
{
    if ts.len() > 0 {
        let init = ts.drop_last();
        assert forall|i: int| 0 <= i < init.len() implies loaded_problem(#[trigger] init[i]) is None by {
            assert(init[i] == ts[i]);
        }
        law_offered_ids_are_valid(init, open_only);
        assert(loaded_problem(ts[ts.len() - 1]) is None);
        let prev = offered_ids(init, open_only);
        if offered(ts.last(), open_only) {
            assert forall|j: int| 0 <= j < offered_ids(ts, open_only).len() implies spec_valid_id(
                #[trigger] offered_ids(ts, open_only)[j],
            ) by {
                if j < prev.len() {
                    assert(offered_ids(ts, open_only)[j] == prev[j]);
                }
            }
        }
    }
}

/// The ids to complete, one per line of output: all todos by default, only
/// open ones with `open` (unless `all` is given too).
pub fn ids(todos: &[Todo], open: bool, all: bool) -> (r: Vec<String>)
    ensures
        r@.map_values(|s: String| s@) == offered_ids(todos@, open && !all),
{
    let open_only = open && !all;
    let ghost ts = todos@;
    let mut r: Vec<String> = Vec::new();
    let mut i: usize = 0;
    while i < todos.len()
        invariant
            i <= todos@.len(),
            ts == todos@,
            open_only == (open && !all),
            r@.map_values(|s: String| s@) == offered_ids(ts.take(i as int), open_only),
        decreases todos@.len() - i,
    {
        assert(ts.take(i + 1).drop_last() =~= ts.take(i as int));
        assert(ts.take(i + 1).last() == ts[i as int]);
        let t = &todos[i];
        if !open_only || t.is_open() {
            let ghost r0 = r@;
            r.push(t.id.clone());
            assert(r@.map_values(|s: String| s@) =~= r0.map_values(|s: String| s@).push(t.id@));
        }
        i += 1;
    }
    assert(ts.take(i as int) =~= ts);
    r
}

} // verus!
