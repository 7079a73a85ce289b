//! The in-memory snapshot of the todo branch, the changes made to it, and
//! the decision what to do after trying to commit a change: finish, or, when
//! the branch moved under us, reload and try again a bounded number of times.
use vstd::prelude::*;

use crate::labels::{apply_edits, edit_views, sorted_labels};
use crate::text::{decimal, decimal_string, is_blank, join_with, str_is_blank, str_starts_with};
use crate::todo::{lemma_free_id_exists, spec_valid_id, views, LabelEdit, Status, Timestamp, Todo};

verus! {

/// How many times a change is tried before giving up on a moving branch.
pub const MAX_ATTEMPTS: usize = 5;

/// The id of a commit on the todo branch, as raw bytes.
pub struct CommitId {
    pub bytes: Vec<u8>,
}

/// Whether `t` is a candidate for the id prefix `p`: its id starts with `p`,
/// and it is open where only open todos count.
pub open spec fn todo_matches(t: Todo, p: Seq<char>, open_only: bool) -> bool {
    (!open_only || t.status == Status::Open) && p.is_prefix_of(t.id@)
}

/// Indices of the todos of `ts` that match, in order.
pub open spec fn match_indices(ts: Seq<Todo>, p: Seq<char>, open_only: bool) -> Seq<int>
    decreases ts.len(),
{
    if ts.len() == 0 {
        seq![]
    } else {
        let m = match_indices(ts.drop_last(), p, open_only);
        if todo_matches(ts.last(), p, open_only) {
            m.push(ts.len() - 1)
        } else {
            m
        }
    }
}

/// The ids of the todos at `idx`.
pub open spec fn ids_at(ts: Seq<Todo>, idx: Seq<int>) -> Seq<Seq<char>> {
    idx.map_values(|i: int| ts[i].id@)
}

/// The one todo that the id prefix `p` names, or why there is none: an
/// empty prefix, no match, or several matches (all listed).
pub open spec fn spec_find(ts: Seq<Todo>, p: Seq<char>, open_only: bool) -> Result<int, Seq<char>> {
    let m = match_indices(ts, p, open_only);
    if p.len() == 0 {
        Err("empty id"@)
    } else if m.len() == 0 {
        Err("no "@ + (if open_only {
            "open "@
        } else {
            ""@
        }) + "todo matches id `"@ + p + "`"@)
    } else if m.len() == 1 {
        Ok(m[0])
    } else {
        Err("ambiguous id `"@ + p + "` matches "@ + decimal(m.len()) + " todos: "@ + join_with(
            ids_at(ts, m),
            ", "@,
        ))
    }
}

pub open spec fn index_result_view(r: Result<usize, String>) -> Result<int, Seq<char>> {
    match r {
        Ok(i) => Ok(i as int),
        Err(m) => Err(m@),
    }
}

pub proof fn lemma_match_indices(ts: Seq<Todo>, p: Seq<char>, open_only: bool)
    ensures
        forall|k: int|
            0 <= k < match_indices(ts, p, open_only).len() ==> 0 <= #[trigger] match_indices(
                ts,
                p,
                open_only,
            )[k] < ts.len() && todo_matches(ts[match_indices(ts, p, open_only)[k]], p, open_only),
        forall|i: int|
            0 <= i < ts.len() && todo_matches(ts[i], p, open_only) ==> #[trigger] match_indices(
                ts,
                p,
                open_only,
            ).contains(i),
    decreases ts.len(),
{
    if ts.len() > 0 {
        let init = ts.drop_last();
        lemma_match_indices(init, p, open_only);
        let m = match_indices(init, p, open_only);
        assert forall|i: int| 0 <= i < ts.len() && todo_matches(ts[i], p, open_only) implies #[trigger] match_indices(
            ts,
            p,
            open_only,
        ).contains(i) by {
            if i < ts.len() - 1 {
                assert(init[i] == ts[i]);
                assert(m.contains(i));
                let k = choose|k: int| 0 <= k < m.len() && m[k] == i;
                if todo_matches(ts.last(), p, open_only) {
                    assert(m.push(ts.len() - 1)[k] == i);
                }
            } else {
                assert(m.push(ts.len() - 1)[m.len() as int] == i);
            }
        }
    }
}

/// Finds the todo that the id prefix `prefix` names; with `open_only`, only
/// open todos are candidates (a finished todo cannot be finished again).
pub fn find_index(todos: &[Todo], prefix: &str, open_only: bool) -> (r: Result<usize, String>)
    ensures
        index_result_view(r) == spec_find(todos@, prefix@, open_only),
{
    if prefix.is_empty() {
        return Err("empty id".to_owned());
    }
    let ghost ts = todos@;
    let mut matches: Vec<usize> = Vec::new();
    let mut ids: Vec<String> = Vec::new();
    let mut i: usize = 0;
    while i < todos.len()
        invariant
            i <= todos@.len(),
            ts == todos@,
            matches@.map_values(|k: usize| k as int) == match_indices(ts.take(i as int), prefix@, open_only),
            ids@.map_values(|s: String| s@) == ids_at(ts, matches@.map_values(|k: usize| k as int)),
            forall|k: int| 0 <= k < matches@.len() ==> #[trigger] matches@[k] < i,
        decreases todos@.len() - i,
    {
        let t = &todos[i];
        assert(ts.take(i + 1).drop_last() =~= ts.take(i as int));
        assert(ts.take(i + 1).last() == ts[i as int]);
        if (!open_only || t.is_open()) && str_starts_with(t.id.as_str(), prefix) {
            let ghost m0 = matches@;
            let ghost d0 = ids@;
            matches.push(i);
            ids.push(t.id.clone());
            assert(matches@.map_values(|k: usize| k as int) =~= m0.map_values(|k: usize| k as int).push(
                i as int,
            ));
            assert(ids@.map_values(|s: String| s@) =~= d0.map_values(|s: String| s@).push(t.id@));
            assert(ids_at(ts, matches@.map_values(|k: usize| k as int)) =~= ids_at(
                ts,
                m0.map_values(|k: usize| k as int),
            ).push(t.id@));
        }
        i += 1;
    }
    assert(ts.take(i as int) =~= ts);
    let ghost m = match_indices(ts, prefix@, open_only);
    assert(m.len() == matches@.len());
    if matches.len() == 0 {
        let mut msg = "no ".to_owned();
        if open_only {
            msg.append("open ");
        } else {
            msg.append("");
        }
        msg.append("todo matches id `");
        msg.append(prefix);
        msg.append("`");
        return Err(msg);
    }
    if matches.len() == 1 {
        assert(m[0] == matches@.map_values(|k: usize| k as int)[0]);
        return Ok(matches[0]);
    }
    let mut msg = "ambiguous id `".to_owned();
    msg.append(prefix);
    msg.append("` matches ");
    let n = decimal_string(matches.len() as u64);
    msg.append(n.as_str());
    msg.append(" todos: ");
    let joined = crate::text::join_strings(&ids, ", ");
    msg.append(joined.as_str());
    Err(msg)
}

/// When the id prefix names a todo, it is the only candidate: it matches,
/// and no other todo does.
pub proof fn law_find_names_the_only_candidate(ts: Seq<Todo>, p: Seq<char>, open_only: bool)
    ensures
        spec_find(ts, p, open_only) matches Ok(i) ==> {
            &&& 0 <= i < ts.len()
            &&& todo_matches(ts[i], p, open_only)
            &&& forall|j: int| 0 <= j < ts.len() && j != i ==> !todo_matches(#[trigger] ts[j], p, open_only)
        },
        spec_find(ts, p, open_only) is Err <==> (p.len() == 0 || match_indices(ts, p, open_only).len() != 1),
{
    lemma_match_indices(ts, p, open_only);
    let m = match_indices(ts, p, open_only);
    if spec_find(ts, p, open_only) is Ok {
        assert(m.len() == 1);
        assert(0 <= m[0] < ts.len());
        assert forall|j: int| 0 <= j < ts.len() && j != m[0] implies !todo_matches(#[trigger] ts[j], p, open_only) by {
            if todo_matches(ts[j], p, open_only) {
                assert(m.contains(j));
            }
        }
    }
}

pub proof fn lemma_match_indices_increasing(ts: Seq<Todo>, p: Seq<char>, open_only: bool)
    ensures
        forall|a: int, b: int|
            0 <= a < b < match_indices(ts, p, open_only).len() ==> #[trigger] match_indices(ts, p, open_only)[a]
                < #[trigger] match_indices(ts, p, open_only)[b],
    decreases ts.len(),
{
    if ts.len() > 0 {
        let init = ts.drop_last();
        lemma_match_indices_increasing(init, p, open_only);
        lemma_match_indices(init, p, open_only);
        let m = match_indices(init, p, open_only);
        if todo_matches(ts.last(), p, open_only) {
            assert forall|a: int, b: int| 0 <= a < b < m.push(ts.len() - 1).len() implies #[trigger] m.push(ts.len() - 1)[a]
                < #[trigger] m.push(ts.len() - 1)[b] by {
                if b == m.len() {
                    assert(m[a] < init.len());
                } else {
                    assert(m.push(ts.len() - 1)[a] == m[a] && m.push(ts.len() - 1)[b] == m[b]);
                }
            }
        }
    }
}

/// A prefix names a todo through its id alone: the todo at `i` is found
/// exactly when the prefix is not empty, starts the id of that todo (an
/// open one, where only open todos count), and starts the id of no other
/// such todo; the title plays no part. When no todo's id starts with the
/// prefix, nothing is found, and neither when two do.
pub proof fn law_find_by_id_prefix(ts: Seq<Todo>, p: Seq<char>, open_only: bool, i: int)
    ensures
        spec_find(ts, p, open_only) == Ok::<int, Seq<char>>(i) <==> {
            &&& p.len() > 0
            &&& 0 <= i < ts.len()
            &&& (!open_only || ts[i].status == Status::Open) && p.is_prefix_of(ts[i].id@)
            &&& forall|j: int|
                0 <= j < ts.len() && j != i ==> !((!open_only || ts[j].status == Status::Open) && p.is_prefix_of(
                    #[trigger] ts[j].id@,
                ))
        },
        (forall|j: int| 0 <= j < ts.len() ==> !((!open_only || ts[j].status == Status::Open) && p.is_prefix_of(
            #[trigger] ts[j].id@,
        ))) ==> spec_find(ts, p, open_only) is Err,
{
    lemma_match_indices(ts, p, open_only);
    lemma_match_indices_increasing(ts, p, open_only);
    law_find_names_the_only_candidate(ts, p, open_only);
    let m = match_indices(ts, p, open_only);
    let cand = p.len() > 0 && 0 <= i < ts.len() && todo_matches(ts[i], p, open_only) && forall|j: int|
        0 <= j < ts.len() && j != i ==> !todo_matches(#[trigger] ts[j], p, open_only);
    if cand {
        assert(m.contains(i));
        assert forall|a: int| 0 <= a < m.len() implies #[trigger] m[a] == i by {
            assert(todo_matches(ts[m[a]], p, open_only));
        }
        if m.len() >= 2 {
            assert(m[0] < m[1]);
        }
        assert(m.len() == 1);
    }
    if forall|j: int| 0 <= j < ts.len() ==> !todo_matches(#[trigger] ts[j], p, open_only) {
        if m.len() > 0 {
            assert(todo_matches(ts[m[0]], p, open_only));
        }
    }
}

/// No two todos of `ts` share an id.
pub open spec fn ids_distinct(ts: Seq<Todo>) -> bool {
    forall|i: int, j: int| 0 <= i < j < ts.len() ==> #[trigger] ts[i].id@ != #[trigger] ts[j].id@
}

/// A finished todo cannot be finished again: among todos with distinct,
/// well-formed ids, the full id of a done todo names no open todo.
pub proof fn law_done_todo_is_not_found_again(ts: Seq<Todo>, i: int)
    requires
        0 <= i < ts.len(),
        ts[i].status == Status::Done,
        ids_distinct(ts),
        forall|j: int| 0 <= j < ts.len() ==> spec_valid_id(#[trigger] ts[j].id@),
    ensures
        spec_find(ts, ts[i].id@, true) is Err,
{
    let p = ts[i].id@;
    lemma_match_indices(ts, p, true);
    let m = match_indices(ts, p, true);
    if m.len() > 0 {
        let j = m[0];
        assert(todo_matches(ts[j], p, true));
        assert(spec_valid_id(ts[j].id@));
        assert(p =~= ts[j].id@);
        if j < i {
            assert(ts[j].id@ != ts[i].id@);
        } else if j > i {
            assert(ts[i].id@ != ts[j].id@);
        }
    }
}

/// A change to a snapshot: the index of the todo it concerns and the commit
/// message that describes it.
pub type Staged = (usize, String);

pub open spec fn staged_view(r: Result<Staged, String>) -> Result<(int, Seq<char>), Seq<char>> {
    match r {
        Ok((i, m)) => Ok((i as int, m@)),
        Err(e) => Err(e@),
    }
}

/// Who makes a change, fixed once and kept over every try, and how many
/// tries have been made.
pub struct Attempt {
    pub author: String,
    pub tries: usize,
}

impl Attempt {
    /// A first try of a change by `author`.
    pub fn start(author: String) -> (a: Attempt)
        ensures
            a.author == author,
            a.tries == 0,
    {
        Attempt { author, tries: 0 }
    }
}

/// What committing a snapshot came to: the new commit, or a lost race, with
/// the tip and the todos that the branch holds now.
pub enum CommitOutcome {
    Committed(CommitId),
    Conflict { tip: Option<CommitId>, todos: Vec<Todo> },
}

/// What to do next: return the todo at the index, try the change again on
/// the reloaded snapshot, or give up with the message.
pub enum RetryStep {
    Finished(usize),
    Retry,
    GiveUp(String),
}

/// The message given when the branch moved under every try.
pub open spec fn give_up_message() -> Seq<char> {
    "todo branch kept moving under us — gave up after 5 attempts"@
}

/// What a run of tries has to go on: the snapshot's todos, its commit, and
/// the number of tries lost to a moving branch.
pub type RunState = (Seq<Todo>, Option<Seq<u8>>, nat);

/// What to do next, as a value: finish with the index, try again, or give
/// up with the message.
pub enum NextStep {
    Finished(int),
    Retry,
    GiveUp(Seq<char>),
}

pub open spec fn commit_view(c: Option<CommitId>) -> Option<Seq<u8>> {
    match c {
        Some(c) => Some(c.bytes@),
        None => None,
    }
}

pub open spec fn step_view(step: RetryStep) -> NextStep {
    match step {
        RetryStep::Finished(i) => NextStep::Finished(i as int),
        RetryStep::Retry => NextStep::Retry,
        RetryStep::GiveUp(m) => NextStep::GiveUp(m@),
    }
}

/// One decision after a try that staged its change at `staged`: a commit
/// becomes the parent and finishes; a lost race takes the branch's snapshot
/// and tip, counts the try, and retries below `MAX_ATTEMPTS` tries.
pub open spec fn settle_step(st: RunState, staged: int, outcome: CommitOutcome) -> (RunState, NextStep) {
    match outcome {
        CommitOutcome::Committed(c) => ((st.0, Some(c.bytes@), st.2), NextStep::Finished(staged)),
        CommitOutcome::Conflict { tip, todos } => {
            let tries = st.2 + 1;
            (
                (todos@, commit_view(tip), tries),
                if tries < MAX_ATTEMPTS {
                    NextStep::Retry
                } else {
                    NextStep::GiveUp(give_up_message())
                },
            )
        },
    }
}

/// A run of tries, each given as the index its change was staged at and
/// what committing came to, decided one after another until one finishes
/// or gives up; `Retry` when the tries run out before that.
pub open spec fn settle_run(st: RunState, tries: Seq<(int, CommitOutcome)>) -> (RunState, NextStep)
    decreases tries.len(),
{
    if tries.len() == 0 {
        (st, NextStep::Retry)
    } else {
        let (next, step) = settle_step(st, tries[0].0, tries[0].1);
        if step is Retry {
            settle_run(next, tries.drop_first())
        } else {
            (next, step)
        }
    }
}

/// A run in which the first `c` tries lose the race and the one after
/// commits.
pub open spec fn conflicts_then_commit(tries: Seq<(int, CommitOutcome)>, c: int) -> bool {
    &&& 0 <= c < tries.len()
    &&& forall|i: int| 0 <= i < c ==> #[trigger] tries[i].1 is Conflict
    &&& tries[c].1 is Committed
}

/// The snapshot that the race lost at try `i` left: its todos and tip.
pub open spec fn conflict_state(o: CommitOutcome, tries: nat) -> RunState {
    match o {
        CommitOutcome::Conflict { tip, todos } => (todos@, commit_view(tip), tries),
        CommitOutcome::Committed(_) => (seq![], None, tries),
    }
}

pub proof fn lemma_settle_run_conflicts(st: RunState, tries: Seq<(int, CommitOutcome)>, k: int)
    requires
        0 < k <= tries.len(),
        st.2 + k < MAX_ATTEMPTS,
        forall|i: int| 0 <= i < k ==> #[trigger] tries[i].1 is Conflict,
    ensures
        settle_run(st, tries) == settle_run(conflict_state(tries[k - 1].1, (st.2 + k) as nat), tries.skip(k)),
        settle_run(st, tries.take(k)) == (conflict_state(tries[k - 1].1, (st.2 + k) as nat), NextStep::Retry),
    decreases k,
{
    let o = tries[0].1;
    assert(o is Conflict);
    let next = settle_step(st, tries[0].0, o).0;
    assert(next == conflict_state(o, (st.2 + 1) as nat));
    assert(settle_step(st, tries[0].0, o).1 is Retry);
    assert(tries.take(k)[0] == tries[0]);
    assert(tries.take(k).len() > 0);
    assert(settle_run(st, tries.take(k)) == settle_run(next, tries.take(k).drop_first()));
    if k == 1 {
        assert(tries.drop_first() =~= tries.skip(1));
        assert(tries.take(1).drop_first() =~= Seq::<(int, CommitOutcome)>::empty());
        assert(settle_run(next, Seq::<(int, CommitOutcome)>::empty()) == (next, NextStep::Retry));
    } else {
        let rest = tries.drop_first();
        assert forall|i: int| 0 <= i < k - 1 implies #[trigger] rest[i].1 is Conflict by {
            assert(rest[i] == tries[i + 1]);
        }
        lemma_settle_run_conflicts(next, rest, k - 1);
        assert(rest[k - 2] == tries[k - 1]);
        assert(rest.skip(k - 1) =~= tries.skip(k));
        assert(tries.take(k).drop_first() =~= rest.take(k - 1));
    }
}

/// Committing with retries, over a whole run that loses the race `c` times
/// and then commits, starting from the snapshot `st` with no try lost yet:
/// - when `c` is below `MAX_ATTEMPTS`, the run finishes at try `c`, with the
///   index that the committing try staged, the new commit as parent, the
///   snapshot that try worked on, and `c` tries lost;
/// - otherwise it gives up, with the message, after exactly `MAX_ATTEMPTS`
///   lost races, whatever follows;
/// - before each retry `i` (`0 < i`, and below both `c + 1` and
///   `MAX_ATTEMPTS`) the snapshot is the one the race lost at try `i - 1`
///   brought: its todos and its tip.
pub proof fn law_retry_run(st: RunState, tries: Seq<(int, CommitOutcome)>, c: int)
    requires
        st.2 == 0,
        conflicts_then_commit(tries, c),
    ensures
        c < MAX_ATTEMPTS ==> ({
            let (end, step) = settle_run(st, tries);
            &&& step == NextStep::Finished(tries[c].0)
            &&& end.1 == commit_view(Some(tries[c].1->Committed_0))
            &&& end.2 == c
            &&& end.0 == (if c == 0 { st.0 } else { conflict_state(tries[c - 1].1, c as nat).0 })
        }),
        c >= MAX_ATTEMPTS ==> settle_run(st, tries) == (
            conflict_state(tries[MAX_ATTEMPTS - 1].1, MAX_ATTEMPTS as nat),
            NextStep::GiveUp(give_up_message()),
        ),
        forall|i: int|
            0 < i <= c && i < MAX_ATTEMPTS ==> #[trigger] settle_run(st, tries.take(i)) == (
                conflict_state(tries[i - 1].1, i as nat),
                NextStep::Retry,
            ),
{
    assert forall|i: int|
        0 < i <= c && i < MAX_ATTEMPTS implies #[trigger] settle_run(st, tries.take(i)) == (
            conflict_state(tries[i - 1].1, i as nat),
            NextStep::Retry,
        ) by {
        lemma_settle_run_conflicts(st, tries, i);
    }
    if c < MAX_ATTEMPTS {
        let mid = if c == 0 { st } else { conflict_state(tries[c - 1].1, c as nat) };
        if c > 0 {
            lemma_settle_run_conflicts(st, tries, c);
        } else {
            assert(tries.skip(0) =~= tries);
        }
        let rest = tries.skip(c);
        assert(rest[0] == tries[c]);
        assert(settle_run(mid, rest) == settle_step(mid, rest[0].0, rest[0].1));
    } else {
        let k = (MAX_ATTEMPTS - 1) as int;
        lemma_settle_run_conflicts(st, tries, k);
        let mid = conflict_state(tries[k - 1].1, k as nat);
        let rest = tries.skip(k);
        assert(rest[0] == tries[k]);
        assert(tries[k].1 is Conflict);
        assert(settle_run(mid, rest) == settle_step(mid, rest[0].0, rest[0].1));
    }
}

/// The todos of the todo branch as last read or written, and the commit
/// that holds them (`None` while the branch does not exist).
pub struct Store {
    todos: Vec<Todo>,
    parent: Option<CommitId>,
}

/// The commit message of a label change: `label: <id>`, then ` +name` for
/// each name added and ` -name` for each removed.
pub open spec fn label_summary(added: Seq<Seq<char>>, removed: Seq<Seq<char>>) -> Seq<char>
    decreases added.len() + removed.len(),
{
    if removed.len() > 0 {
        label_summary(added, removed.drop_last()) + " -"@ + removed.last()
    } else if added.len() > 0 {
        label_summary(added.drop_last(), removed) + " +"@ + added.last()
    } else {
        seq![]
    }
}

/// The label commit message lists every added name, each after ` +`, in
/// the order added, then every removed name, each after ` -`, in the order
/// removed: one more added name (before any removal) or one more removed
/// name extends it at the end.
pub proof fn law_label_summary(added: Seq<Seq<char>>, removed: Seq<Seq<char>>, x: Seq<char>)
    ensures
        label_summary(seq![], seq![]) == Seq::<char>::empty(),
        label_summary(added.push(x), seq![]) == label_summary(added, seq![]) + " +"@ + x,
        label_summary(added, removed.push(x)) == label_summary(added, removed) + " -"@ + x,
{
    assert(added.push(x).drop_last() =~= added);
    assert(removed.push(x).drop_last() =~= removed);
}

impl Store {
    pub closed spec fn spec_todos(&self) -> Seq<Todo> {
        self.todos@
    }

    pub closed spec fn spec_parent(&self) -> Option<Seq<u8>> {
        match &self.parent {
            Some(c) => Some(c.bytes@),
            None => None,
        }
    }

    /// A store over the todos read from the branch and the commit they came
    /// from.
    pub fn from_snapshot(todos: Vec<Todo>, parent: Option<CommitId>) -> (s: Store)
        ensures
            s.spec_todos() == todos@,
            s.spec_parent() == (match parent {
                Some(c) => Some(c.bytes@),
                None => None,
            }),
    {
        Store { todos, parent }
    }

    pub fn todos(&self) -> (t: &[Todo])
        ensures
            t@ == self.spec_todos(),
    {
        self.todos.as_slice()
    }

    /// The commit the snapshot came from, to name as the parent of the next.
    pub fn parent(&self) -> (p: &Option<CommitId>)
        ensures
            (match p {
                Some(c) => Some(c.bytes@),
                None => None,
            }) == self.spec_parent(),
    {
        &self.parent
    }

    /// The todo that the id prefix names.
    pub fn find(&self, prefix: &str) -> (r: Result<&Todo, String>)
        ensures
            match spec_find(self.spec_todos(), prefix@, false) {
                Ok(i) => r matches Ok(t) && *t == self.spec_todos()[i],
                Err(m) => r matches Err(e) && e@ == m,
            },
    {
        match find_index(self.todos.as_slice(), prefix, false) {
            Ok(idx) => {
                proof {
                    lemma_match_indices(self.todos@, prefix@, false);
                }
                Ok(&self.todos[idx])
            },
            Err(e) => Err(e),
        }
    }

    /// Adds a new todo by `author`, created at `at`, with an id none of the
    /// todos has. Returns its index (the last) and the commit message
    /// `new: <title> (<id>)`.
    pub fn add(&mut self, title: &String, body: &String, author: &String, at: Timestamp) -> (r: Staged)
        requires
            old(self).spec_todos().len() < 0x1_0000_0000,
        ensures
            ids_distinct(old(self).spec_todos()) ==> ids_distinct(final(self).spec_todos()),
            final(self).spec_parent() == old(self).spec_parent(),
            final(self).spec_todos().len() == old(self).spec_todos().len() + 1,
            final(self).spec_todos().drop_last() == old(self).spec_todos(),
            r.0 == old(self).spec_todos().len(),
            ({
                let t = final(self).spec_todos().last();
                &&& spec_valid_id(t.id@)
                &&& forall|i: int| 0 <= i < old(self).spec_todos().len() ==> old(self).spec_todos()[i].id@ != t.id@
                &&& t.title == *title
                &&& t.body == *body
                &&& t.created_by == *author
                &&& t.created == at
                &&& t.status == Status::Open
                &&& t.done is None
                &&& t.done_by is None
                &&& t.labels@.len() == 0
                &&& t.comments@.len() == 0
                &&& r.1@ == "new: "@ + title@ + " ("@ + t.id@ + ")"@
            }),
    {
        let mut taken: Vec<String> = Vec::new();
        let mut i: usize = 0;
        while i < self.todos.len()
            invariant
                i <= self.todos@.len(),
                taken@.len() == i,
                forall|j: int| 0 <= j < i ==> #[trigger] taken@[j]@ == self.todos@[j].id@,
            decreases self.todos@.len() - i,
        {
            taken.push(self.todos[i].id.clone());
            i += 1;
        }
        proof {
            lemma_free_id_exists(views(taken@));
        }
        let t = Todo::new(title.clone(), body.clone(), author.clone(), at, taken.as_slice());
        proof {
            assert forall|j: int| 0 <= j < self.todos@.len() implies self.todos@[j].id@ != t.id@ by {
                assert(views(taken@)[j] == taken@[j]@);
            }
        }
        let mut msg = "new: ".to_owned();
        msg.append(title.as_str());
        msg.append(" (");
        msg.append(t.id.as_str());
        msg.append(")");
        let ghost before = self.todos@;
        self.todos.push(t);
        assert(self.todos@.drop_last() =~= before);
        (self.todos.len() - 1, msg)
    }

    /// Marks the open todo that the id prefix names as done by `author` at
    /// `at`. Returns its index and the commit message `done: <id>`.
    pub fn mark_done(&mut self, prefix: &str, author: &String, at: Timestamp) -> (r: Result<Staged, String>)
        ensures
            ids_distinct(old(self).spec_todos()) ==> ids_distinct(final(self).spec_todos()),
            final(self).spec_parent() == old(self).spec_parent(),
            match spec_find(old(self).spec_todos(), prefix@, true) {
                Err(m) => staged_view(r) == Err::<(int, Seq<char>), Seq<char>>(m) && final(self).spec_todos() == old(self).spec_todos(),
                Ok(i) => {
                    let t = old(self).spec_todos()[i];
                    let u = final(self).spec_todos()[i];
                    &&& staged_view(r) == Ok::<(int, Seq<char>), Seq<char>>((i, "done: "@ + t.id@))
                    &&& final(self).spec_todos().len() == old(self).spec_todos().len()
                    &&& forall|j: int| 0 <= j < old(self).spec_todos().len() && j != i ==> final(self).spec_todos()[j] == old(self).spec_todos()[j]
                    &&& u.status == Status::Done
                    &&& u.done == Some(at)
                    &&& u.done_by == Some(*author)
                    &&& u.id == t.id && u.title == t.title && u.created == t.created
                    &&& u.created_by == t.created_by && u.labels == t.labels && u.body == t.body
                    &&& u.comments == t.comments
                },
            },
    {
        let idx = find_index(self.todos.as_slice(), prefix, true)?;
        proof {
            lemma_match_indices(self.todos@, prefix@, true);
        }
        let mut t = self.todos.remove(idx);
        t.mark_done(author.clone(), at);
        let mut msg = "done: ".to_owned();
        msg.append(t.id.as_str());
        self.todos.insert(idx, t);
        Ok((idx, msg))
    }

    /// Applies label edits to the todo that the id prefix names. Returns its
    /// index and the commit message `label: <id> +added... -removed...`; an
    /// error when the edits change nothing.
    pub fn edit_labels(&mut self, prefix: &str, edits: &[LabelEdit]) -> (r: Result<Staged, String>)
        ensures
            ids_distinct(old(self).spec_todos()) ==> ids_distinct(final(self).spec_todos()),
            final(self).spec_parent() == old(self).spec_parent(),
            match spec_find(old(self).spec_todos(), prefix@, false) {
                Err(m) => staged_view(r) == Err::<(int, Seq<char>), Seq<char>>(m) && final(self).spec_todos() == old(self).spec_todos(),
                Ok(i) => {
                    let t = old(self).spec_todos()[i];
                    let st = apply_edits((views(t.labels@), seq![], seq![]), edit_views(edits@));
                    let u = final(self).spec_todos()[i];
                    &&& staged_view(r) == if st.1.len() == 0 && st.2.len() == 0 {
                        Err::<(int, Seq<char>), Seq<char>>("no label changes to apply"@)
                    } else {
                        Ok::<(int, Seq<char>), Seq<char>>((i, "label: "@ + t.id@ + label_summary(st.1, st.2)))
                    }
                    &&& final(self).spec_todos().len() == old(self).spec_todos().len()
                    &&& forall|j: int| 0 <= j < old(self).spec_todos().len() && j != i ==> final(self).spec_todos()[j] == old(self).spec_todos()[j]
                    &&& views(u.labels@) == sorted_labels(st.0)
                    &&& u.id == t.id && u.title == t.title && u.status == t.status && u.created == t.created
                    &&& u.created_by == t.created_by && u.done == t.done && u.done_by == t.done_by
                    &&& u.body == t.body && u.comments == t.comments
                },
            },
    {
        let idx = find_index(self.todos.as_slice(), prefix, false)?;
        proof {
            lemma_match_indices(self.todos@, prefix@, false);
        }
        let mut t = self.todos.remove(idx);
        let (added, removed) = t.apply_label_edits(edits);
        let id = t.id.clone();
        self.todos.insert(idx, t);
        if added.len() == 0 && removed.len() == 0 {
            return Err("no label changes to apply".to_owned());
        }
        let mut msg = "label: ".to_owned();
        msg.append(id.as_str());
        let ghost av = views(added@);
        let ghost rv = views(removed@);
        let mut k: usize = 0;
        while k < added.len()
            invariant
                k <= added@.len(),
                av == views(added@),
                msg@ == "label: "@ + id@ + label_summary(av.take(k as int), seq![]),
            decreases added@.len() - k,
        {
            assert(av.take(k + 1).drop_last() =~= av.take(k as int));
            msg.append(" +");
            msg.append(added[k].as_str());
            k += 1;
        }
        assert(av.take(k as int) =~= av);
        assert(rv.take(0) =~= Seq::<Seq<char>>::empty());
        let mut k: usize = 0;
        while k < removed.len()
            invariant
                k <= removed@.len(),
                rv == views(removed@),
                msg@ == "label: "@ + id@ + label_summary(av, rv.take(k as int)),
            decreases removed@.len() - k,
        {
            assert(rv.take(k + 1).drop_last() =~= rv.take(k as int));
            msg.append(" -");
            msg.append(removed[k].as_str());
            k += 1;
        }
        assert(rv.take(k as int) =~= rv);
        Ok((idx, msg))
    }

    /// Adds a comment by `author`, written at `at`, to the todo that the id
    /// prefix names. Returns its index and the commit message
    /// `comment: <id> by <author>`; an error for a blank comment.
    pub fn add_comment(&mut self, prefix: &str, body: &String, author: &String, at: Timestamp) -> (r: Result<Staged, String>)
        ensures
            ids_distinct(old(self).spec_todos()) ==> ids_distinct(final(self).spec_todos()),
            final(self).spec_parent() == old(self).spec_parent(),
            is_blank(body@) ==> staged_view(r) == Err::<(int, Seq<char>), Seq<char>>("aborting: empty comment"@) && final(self).spec_todos() == old(self).spec_todos(),
            !is_blank(body@) ==> match spec_find(old(self).spec_todos(), prefix@, false) {
                Err(m) => staged_view(r) == Err::<(int, Seq<char>), Seq<char>>(m) && final(self).spec_todos() == old(self).spec_todos(),
                Ok(i) => {
                    let t = old(self).spec_todos()[i];
                    let u = final(self).spec_todos()[i];
                    &&& staged_view(r) == Ok::<(int, Seq<char>), Seq<char>>((i, "comment: "@ + t.id@ + " by "@ + author@))
                    &&& final(self).spec_todos().len() == old(self).spec_todos().len()
                    &&& forall|j: int| 0 <= j < old(self).spec_todos().len() && j != i ==> final(self).spec_todos()[j] == old(self).spec_todos()[j]
                    &&& u.comments@ == t.comments@.push(crate::todo::Comment { at, by: *author, body: *body })
                    &&& u.id == t.id && u.title == t.title && u.status == t.status && u.created == t.created
                    &&& u.created_by == t.created_by && u.done == t.done && u.done_by == t.done_by
                    &&& u.labels == t.labels && u.body == t.body
                },
            },
    {
        if str_is_blank(body.as_str()) {
            return Err("aborting: empty comment".to_owned());
        }
        let idx = find_index(self.todos.as_slice(), prefix, false)?;
        proof {
            lemma_match_indices(self.todos@, prefix@, false);
        }
        let mut t = self.todos.remove(idx);
        let ghost c0 = t.comments@;
        t.add_comment(author.clone(), body.clone(), at);
        assert(t.comments@ =~= c0.push(crate::todo::Comment { at, by: *author, body: *body }));
        let mut msg = "comment: ".to_owned();
        msg.append(t.id.as_str());
        msg.append(" by ");
        msg.append(author.as_str());
        self.todos.insert(idx, t);
        Ok((idx, msg))
    }

    /// After trying to commit the change staged at `staged`: on success the
    /// new commit becomes the parent and the todo at `staged` is the result;
    /// on a lost race the snapshot is replaced by what the branch holds now,
    /// and the change is tried again unless `MAX_ATTEMPTS` tries are used up.
    pub fn settle(&mut self, attempt: &mut Attempt, staged: usize, outcome: CommitOutcome) -> (step: RetryStep)
        requires
            old(attempt).tries < MAX_ATTEMPTS,
        ensures
            final(attempt).author == old(attempt).author,
            settle_step(
                (old(self).spec_todos(), old(self).spec_parent(), old(attempt).tries as nat),
                staged as int,
                outcome,
            ) == (
                (final(self).spec_todos(), final(self).spec_parent(), final(attempt).tries as nat),
                step_view(step),
            ),
            match outcome {
                CommitOutcome::Committed(c) => {
                    &&& step matches RetryStep::Finished(i) && i == staged
                    &&& final(self).spec_parent() == Some(c.bytes@)
                    &&& final(self).spec_todos() == old(self).spec_todos()
                    &&& final(attempt).tries == old(attempt).tries
                },
                CommitOutcome::Conflict { tip, todos } => {
                    &&& final(self).spec_todos() == todos@
                    &&& final(self).spec_parent() == (match tip {
                        Some(c) => Some(c.bytes@),
                        None => None,
                    })
                    &&& final(attempt).tries == old(attempt).tries + 1
                    &&& if final(attempt).tries < MAX_ATTEMPTS {
                        step is Retry
                    } else {
                        step matches RetryStep::GiveUp(m) && m@ == "todo branch kept moving under us — gave up after 5 attempts"@
                    }
                },
            },
    {
        match outcome {
            CommitOutcome::Committed(c) => {
                self.parent = Some(c);
                RetryStep::Finished(staged)
            },
            CommitOutcome::Conflict { tip, todos } => {
                self.parent = tip;
                self.todos = todos;
                attempt.tries = attempt.tries + 1;
                if attempt.tries < MAX_ATTEMPTS {
                    RetryStep::Retry
                } else {
                    RetryStep::GiveUp("todo branch kept moving under us — gave up after 5 attempts".to_owned())
                }
            },
        }
    }
}

} // verus!
