//! Labels: the order they are kept in, and what a list of label edits does
//! to a todo's labels.
use vstd::prelude::*;
use vstd::relations::sorted_by;

use crate::text::chars_of;
use crate::todo::{contains_string, views, LabelEdit, Todo};

verus! {

broadcast use vstd::seq_lib::group_to_multiset_ensures;

/// `a` sorts strictly before `b`: the first differing character decides,
/// and a proper prefix comes first. Comparing characters by code point is
/// the byte order of their UTF-8 encodings, the order of `String`.
pub open spec fn lex_lt(a: Seq<char>, b: Seq<char>) -> bool
    decreases a.len(),
{
    if a.len() == 0 {
        b.len() > 0
    } else if b.len() == 0 {
        false
    } else if a[0] != b[0] {
        a[0] < b[0]
    } else {
        lex_lt(a.drop_first(), b.drop_first())
    }
}

/// `a` sorts before `b` or equals it.
pub open spec fn lex_le(a: Seq<char>, b: Seq<char>) -> bool {
    a == b || lex_lt(a, b)
}

pub open spec fn label_le() -> spec_fn(Seq<char>, Seq<char>) -> bool {
    |a: Seq<char>, b: Seq<char>| lex_le(a, b)
}

/// The labels `ls` in sorted order.
pub open spec fn sorted_labels(ls: Seq<Seq<char>>) -> Seq<Seq<char>> {
    ls.sort_by(label_le())
}

pub proof fn lemma_lex_irreflexive(a: Seq<char>)
    ensures
        !lex_lt(a, a),
    decreases a.len(),
{
    if a.len() > 0 {
        lemma_lex_irreflexive(a.drop_first());
    }
}

pub proof fn lemma_lex_asymmetric(a: Seq<char>, b: Seq<char>)
    ensures
        !(lex_lt(a, b) && lex_lt(b, a)),
    decreases a.len(),
{
    if a.len() > 0 && b.len() > 0 && a[0] == b[0] {
        lemma_lex_asymmetric(a.drop_first(), b.drop_first());
    }
}

pub proof fn lemma_lex_transitive(a: Seq<char>, b: Seq<char>, c: Seq<char>)
    requires
        lex_lt(a, b),
        lex_lt(b, c),
    ensures
        lex_lt(a, c),
    decreases a.len(),
{
    if a.len() > 0 && b.len() > 0 && c.len() > 0 && a[0] == b[0] && b[0] == c[0] {
        lemma_lex_transitive(a.drop_first(), b.drop_first(), c.drop_first());
    }
}

pub proof fn lemma_lex_total(a: Seq<char>, b: Seq<char>)
    ensures
        a == b || lex_lt(a, b) || lex_lt(b, a),
    decreases a.len(),
{
    if a.len() > 0 && b.len() > 0 && a[0] == b[0] {
        lemma_lex_total(a.drop_first(), b.drop_first());
        if a.drop_first() == b.drop_first() {
            assert(a =~= seq![a[0]] + a.drop_first());
            assert(b =~= seq![b[0]] + b.drop_first());
        }
    } else if a.len() == 0 && b.len() == 0 {
        assert(a =~= b);
    }
}

pub proof fn lemma_label_le_total_ordering()
    ensures
        vstd::relations::total_ordering(label_le()),
{
    assert forall|a: Seq<char>| #[trigger] label_le()(a, a) by {}
    assert forall|a: Seq<char>, b: Seq<char>|
        #[trigger] label_le()(a, b) && #[trigger] label_le()(b, a) implies a == b by {
        lemma_lex_asymmetric(a, b);
    }
    assert forall|a: Seq<char>, b: Seq<char>, c: Seq<char>|
        #[trigger] label_le()(a, b) && #[trigger] label_le()(b, c) implies label_le()(a, c) by {
        if a != b && b != c {
            lemma_lex_transitive(a, b, c);
        }
    }
    assert forall|a: Seq<char>, b: Seq<char>| #[trigger] label_le()(a, b) || #[trigger] label_le()(
        b,
        a,
    ) by {
        lemma_lex_total(a, b);
    }
}

/// Two sorted orderings of the same labels are the same sequence.
pub proof fn lemma_sorted_unique(a: Seq<Seq<char>>, b: Seq<Seq<char>>)
    requires
        sorted_by(a, label_le()),
        sorted_by(b, label_le()),
        a.to_multiset() == b.to_multiset(),
    ensures
        a == b,
    decreases a.len(),
{
    assert(a.len() == a.to_multiset().len());
    assert(b.len() == b.to_multiset().len());
    if a.len() > 0 {
        let x = a[0];
        let y = b[0];
        assert(a.to_multiset().count(x) > 0);
        assert(b.contains(x));
        let j = choose|j: int| 0 <= j < b.len() && b[j] == x;
        if j > 0 {
            assert(label_le()(b[0], b[j]));
        }
        assert(b.to_multiset().count(y) > 0);
        assert(a.contains(y));
        let i = choose|i: int| 0 <= i < a.len() && a[i] == y;
        if i > 0 {
            assert(label_le()(a[0], a[i]));
        }
        lemma_lex_asymmetric(x, y);
        assert(x == y);
        assert(a.remove(0) =~= a.drop_first());
        assert(b.remove(0) =~= b.drop_first());
        assert(a.remove(0).to_multiset() == a.to_multiset().remove(x));
        assert(b.remove(0).to_multiset() == b.to_multiset().remove(y));
        assert(sorted_by(a.drop_first(), label_le())) by {
            assert forall|p: int, q: int| 0 <= p < q < a.drop_first().len() implies #[trigger] label_le()(
                a.drop_first()[p],
                a.drop_first()[q],
            ) by {
                assert(label_le()(a[p + 1], a[q + 1]));
            }
        }
        assert(sorted_by(b.drop_first(), label_le())) by {
            assert forall|p: int, q: int| 0 <= p < q < b.drop_first().len() implies #[trigger] label_le()(
                b.drop_first()[p],
                b.drop_first()[q],
            ) by {
                assert(label_le()(b[p + 1], b[q + 1]));
            }
        }
        lemma_sorted_unique(a.drop_first(), b.drop_first());
        assert(a =~= b) by {
            assert forall|k: int| 0 <= k < a.len() implies a[k] == b[k] by {
                if k > 0 {
                    assert(a[k] == a.drop_first()[k - 1]);
                    assert(b[k] == b.drop_first()[k - 1]);
                }
            }
        }
    } else {
        assert(a =~= b);
    }
}

/// A sorted ordering of `ls` is `sorted_labels(ls)`.
pub proof fn lemma_sorted_is_sorted_labels(ls: Seq<Seq<char>>, s: Seq<Seq<char>>)
    requires
        sorted_by(s, label_le()),
        s.to_multiset() == ls.to_multiset(),
    ensures
        s == sorted_labels(ls),
{
    lemma_label_le_total_ordering();
    ls.lemma_sort_by_ensures(label_le());
    lemma_sorted_unique(s, sorted_labels(ls));
}

/// Whether `a` sorts strictly before `b`.
pub fn lex_less(a: &Vec<char>, b: &Vec<char>) -> (r: bool)
    ensures
        r == lex_lt(a@, b@),
{
    let mut i: usize = 0;
    assert(a@.skip(0) =~= a@);
    assert(b@.skip(0) =~= b@);
    while i < a.len() && i < b.len() && a[i] == b[i]
        invariant
            i <= a@.len(),
            i <= b@.len(),
            lex_lt(a@, b@) == lex_lt(a@.skip(i as int), b@.skip(i as int)),
        decreases a@.len() - i,
    {
        assert(a@.skip(i as int).drop_first() =~= a@.skip(i + 1));
        assert(b@.skip(i as int).drop_first() =~= b@.skip(i + 1));
        i += 1;
    }
    if i == a.len() {
        i < b.len()
    } else if i == b.len() {
        false
    } else {
        a[i] < b[i]
    }
}

/// `labels` in sorted order: each label is inserted after every label that
/// does not sort after it.
pub fn sort_labels(labels: &Vec<String>) -> (out: Vec<String>)
    ensures
        views(out@) == sorted_labels(views(labels@)),
{
    let mut out: Vec<String> = Vec::new();
    let mut i: usize = 0;
    while i < labels.len()
        invariant
            i <= labels@.len(),
            sorted_by(views(out@), label_le()),
            views(out@).to_multiset() == views(labels@.take(i as int)).to_multiset(),
        decreases labels@.len() - i,
    {
        let x = labels[i].clone();
        let xc = chars_of(x.as_str());
        let mut p: usize = 0;
        while p < out.len() && !lex_less(&xc, &chars_of(out[p].as_str()))
            invariant
                p <= out@.len(),
                xc@ == x@,
                forall|q: int| 0 <= q < p ==> !lex_lt(x@, #[trigger] out@[q]@),
            decreases out@.len() - p,
        {
            p += 1;
        }
        let ghost before = views(out@);
        out.insert(p, x);
        proof {
            assert(views(out@) =~= before.insert(p as int, x@));
            assert(labels@.take(i + 1) =~= labels@.take(i as int).push(labels@[i as int]));
            assert(views(labels@.take(i + 1)) =~= views(labels@.take(i as int)).push(x@));
            assert forall|a: int, b: int| 0 <= a < b < views(out@).len() implies #[trigger] label_le()(
                views(out@)[a],
                views(out@)[b],
            ) by {
                let s = views(out@);
                if b < p {
                    assert(label_le()(before[a], before[b]));
                } else if b == p {
                    assert(!lex_lt(x@, out@[a]@));
                    lemma_lex_total(before[a], x@);
                } else if a == p {
                    assert(lex_lt(x@, before[p as int]));
                    if b - 1 > p {
                        assert(label_le()(before[p as int], before[b - 1]));
                        if before[p as int] != before[b - 1] {
                            lemma_lex_transitive(x@, before[p as int], before[b - 1]);
                        }
                    }
                } else if a < p {
                    assert(label_le()(before[a], before[b - 1]));
                } else {
                    assert(label_le()(before[a - 1], before[b - 1]));
                }
            }
        }
        i += 1;
    }
    proof {
        assert(labels@.take(i as int) =~= labels@);
        lemma_sorted_is_sorted_labels(views(labels@), views(out@));
    }
    out
}

/// `ls` without any occurrence of `x`, the others in order.
pub open spec fn without(ls: Seq<Seq<char>>, x: Seq<char>) -> Seq<Seq<char>>
    decreases ls.len(),
{
    if ls.len() == 0 {
        seq![]
    } else if ls.last() == x {
        without(ls.drop_last(), x)
    } else {
        without(ls.drop_last(), x).push(ls.last())
    }
}

/// Labels, with the names added and the names removed so far.
pub type EditState = (Seq<Seq<char>>, Seq<Seq<char>>, Seq<Seq<char>>);

/// One edit: adding a label that is absent appends it; removing a label
/// that is present drops every occurrence; anything else changes nothing.
pub open spec fn edit_step(st: EditState, e: (bool, Seq<char>)) -> EditState {
    let (ls, added, removed) = st;
    if e.0 {
        if ls.contains(e.1) {
            st
        } else {
            (ls.push(e.1), added.push(e.1), removed)
        }
    } else {
        if ls.contains(e.1) {
            (without(ls, e.1), added, removed.push(e.1))
        } else {
            st
        }
    }
}

/// The edits `es`, applied in order.
pub open spec fn apply_edits(st: EditState, es: Seq<(bool, Seq<char>)>) -> EditState
    decreases es.len(),
{
    if es.len() == 0 {
        st
    } else {
        edit_step(apply_edits(st, es.drop_last()), es.last())
    }
}

pub open spec fn edit_views(es: Seq<LabelEdit>) -> Seq<(bool, Seq<char>)> {
    es.map_values(|e: LabelEdit| e.edit_view())
}

/// Adding a label that is there, or removing one that is not, changes
/// nothing and is not reported; any other edit is reported.
pub proof fn law_redundant_edit_is_noop(st: EditState, e: (bool, Seq<char>))
    ensures
        (e.0 == st.0.contains(e.1)) ==> edit_step(st, e) == st,
        (e.0 != st.0.contains(e.1)) ==> (if e.0 {
            edit_step(st, e).1 == st.1.push(e.1) && edit_step(st, e).2 == st.2
        } else {
            edit_step(st, e).2 == st.2.push(e.1) && edit_step(st, e).1 == st.1
        }),
{
}

/// The labels after the edits `es`, sorted.
pub open spec fn edited_labels(ls: Seq<Seq<char>>, es: Seq<(bool, Seq<char>)>) -> Seq<Seq<char>> {
    sorted_labels(apply_edits((ls, seq![], seq![]), es).0)
}

pub proof fn lemma_without(ls: Seq<Seq<char>>, x: Seq<char>)
    ensures
        !without(ls, x).contains(x),
        !ls.contains(x) ==> without(ls, x) == ls,
        ls.contains(x) ==> without(ls, x).len() < ls.len(),
        without(ls, x).len() <= ls.len(),
        forall|y: Seq<char>| #[trigger] without(ls, x).to_multiset().count(y) == if y == x {
            0
        } else {
            ls.to_multiset().count(y)
        },
    decreases ls.len(),
{
    if ls.len() > 0 {
        let init = ls.drop_last();
        lemma_without(init, x);
        assert(ls =~= init.push(ls.last()));
        if ls.contains(x) && ls.last() != x {
            let i = choose|i: int| 0 <= i < ls.len() && ls[i] == x;
            assert(init[i] == x);
        }
        if !ls.contains(x) {
            assert(!init.contains(x)) by {
                if init.contains(x) {
                    let i = choose|i: int| 0 <= i < init.len() && init[i] == x;
                    assert(ls[i] == x);
                }
            }
        }
        if ls.last() != x {
            assert forall|y: Seq<char>| without(ls, x).contains(y) implies y != x by {
                let w = without(init, x);
                assert(without(ls, x) == w.push(ls.last()));
                let i = choose|i: int| 0 <= i < w.push(ls.last()).len() && w.push(ls.last())[i] == y;
                if i < w.len() {
                    assert(w.contains(y));
                }
            }
        }
    } else {
        assert(ls =~= Seq::<Seq<char>>::empty());
    }
}

/// How the edits `es` change the number of copies of `x`: 0 keeps it, 1
/// makes it 0, 2 makes it 1, 3 makes it at least 1 (keeping a positive count).
pub open spec fn count_effect(es: Seq<(bool, Seq<char>)>, x: Seq<char>) -> int
    decreases es.len(),
{
    if es.len() == 0 {
        0
    } else {
        let before = count_effect(es.drop_last(), x);
        let e = es.last();
        if e.1 != x {
            before
        } else if !e.0 {
            1
        } else if before == 0 || before == 3 {
            3
        } else {
            2
        }
    }
}

pub open spec fn apply_effect(k: int, c: nat) -> nat {
    if k == 0 {
        c
    } else if k == 1 {
        0
    } else if k == 2 {
        1
    } else if c > 0 {
        c
    } else {
        1
    }
}

/// The last edit in `es` that names `x`: `Some(true)` for an add,
/// `Some(false)` for a removal, `None` when no edit names `x`.
pub open spec fn last_edit_of(es: Seq<(bool, Seq<char>)>, x: Seq<char>) -> Option<bool>
    decreases es.len(),
{
    if es.len() == 0 {
        None
    } else if es.last().1 == x {
        Some(es.last().0)
    } else {
        last_edit_of(es.drop_last(), x)
    }
}

pub proof fn lemma_count_effect(st: EditState, es: Seq<(bool, Seq<char>)>, x: Seq<char>)
    ensures
        0 <= count_effect(es, x) <= 3,
        apply_edits(st, es).0.to_multiset().count(x) == apply_effect(
            count_effect(es, x),
            st.0.to_multiset().count(x),
        ),
        last_edit_of(es, x) == Some(false) <==> count_effect(es, x) == 1,
        last_edit_of(es, x) == Some(true) <==> (count_effect(es, x) == 2 || count_effect(es, x) == 3),
        last_edit_of(es, x) is None <==> count_effect(es, x) == 0,
    decreases es.len(),
{
    if es.len() > 0 {
        let prev = apply_edits(st, es.drop_last());
        lemma_count_effect(st, es.drop_last(), x);
        let e = es.last();
        let ls = prev.0;
        lemma_without(ls, e.1);
        if e.0 && !ls.contains(e.1) {
            assert(ls.push(e.1).to_multiset() == ls.to_multiset().insert(e.1));
        }
        assert(ls.contains(e.1) <==> ls.to_multiset().count(e.1) > 0);
    }
}

/// Applying the same edits a second time leaves the labels as the first
/// application left them.
pub proof fn law_label_edits_idempotent(ls: Seq<Seq<char>>, es: Seq<(bool, Seq<char>)>)
    ensures
        edited_labels(edited_labels(ls, es), es) == edited_labels(ls, es),
{
    let once = apply_edits((ls, seq![], seq![]), es).0;
    let s1 = sorted_labels(once);
    let twice = apply_edits((s1, seq![], seq![]), es).0;
    lemma_label_le_total_ordering();
    once.lemma_sort_by_ensures(label_le());
    assert(twice.to_multiset() =~= once.to_multiset()) by {
        assert forall|x: Seq<char>| twice.to_multiset().count(x) == once.to_multiset().count(x) by {
            lemma_count_effect((ls, seq![], seq![]), es, x);
            lemma_count_effect((s1, seq![], seq![]), es, x);
        }
    }
    twice.lemma_sort_by_ensures(label_le());
    lemma_sorted_is_sorted_labels(once, sorted_labels(twice));
}

/// After the edits, a label is present exactly when the last edit naming it
/// adds it, or, when no edit names it, when it was present before.
pub proof fn law_label_membership(ls: Seq<Seq<char>>, es: Seq<(bool, Seq<char>)>, x: Seq<char>)
    ensures
        edited_labels(ls, es).contains(x) <==> match last_edit_of(es, x) {
            Some(add) => add,
            None => ls.contains(x),
        },
{
    let once = apply_edits((ls, seq![], seq![]), es).0;
    lemma_count_effect((ls, seq![], seq![]), es, x);
    lemma_label_le_total_ordering();
    once.lemma_sort_by_ensures(label_le());
    assert(edited_labels(ls, es).contains(x) <==> edited_labels(ls, es).to_multiset().count(x) > 0);
    assert(ls.contains(x) <==> ls.to_multiset().count(x) > 0);
}

/// The edited labels are in sorted order.
pub proof fn law_labels_sorted(ls: Seq<Seq<char>>, es: Seq<(bool, Seq<char>)>)
    ensures
        sorted_by(edited_labels(ls, es), label_le()),
{
    lemma_label_le_total_ordering();
    apply_edits((ls, seq![], seq![]), es).0.lemma_sort_by_ensures(label_le());
}

/// Edits never double a label: when the labels had no repeated name, the
/// edited labels have none either.
pub proof fn law_labels_stay_distinct(ls: Seq<Seq<char>>, es: Seq<(bool, Seq<char>)>)
    requires
        ls.no_duplicates(),
    ensures
        edited_labels(ls, es).no_duplicates(),
{
    let once = apply_edits((ls, seq![], seq![]), es).0;
    let out = edited_labels(ls, es);
    lemma_label_le_total_ordering();
    once.lemma_sort_by_ensures(label_le());
    ls.lemma_multiset_has_no_duplicates();
    assert forall|x: Seq<char>| out.to_multiset().contains(x) implies out.to_multiset().count(x) == 1 by {
        lemma_count_effect((ls, seq![], seq![]), es, x);
        assert(ls.to_multiset().count(x) <= 1) by {
            if ls.to_multiset().count(x) > 0 {
                assert(ls.to_multiset().contains(x));
            }
        }
    }
    out.lemma_multiset_has_no_duplicates_conv();
}

impl Todo {
    /// Applies label edits (`+foo` adds, `-foo` removes) in order, then sorts
    /// the labels. Returns the names actually added and actually removed:
    /// adding a label that is there, or removing one that is not, does
    /// nothing and is not reported.
    pub fn apply_label_edits(&mut self, edits: &[LabelEdit]) -> (r: (Vec<String>, Vec<String>))
        ensures
            ({
                let st = apply_edits((views(old(self).labels@), seq![], seq![]), edit_views(edits@));
                &&& views(final(self).labels@) == sorted_labels(st.0)
                &&& views(r.0@) == st.1
                &&& views(r.1@) == st.2
            }),
            final(self).id == old(self).id,
            final(self).title == old(self).title,
            final(self).status == old(self).status,
            final(self).created == old(self).created,
            final(self).created_by == old(self).created_by,
            final(self).done == old(self).done,
            final(self).done_by == old(self).done_by,
            final(self).body == old(self).body,
            final(self).comments == old(self).comments,
    {
        let mut labels: Vec<String> = Vec::new();
        std::mem::swap(&mut labels, &mut self.labels);
        let mut added: Vec<String> = Vec::new();
        let mut removed: Vec<String> = Vec::new();
        let ghost es = edit_views(edits@);
        let ghost start: EditState = (views(labels@), seq![], seq![]);
        let mut i: usize = 0;
        while i < edits.len()
            invariant
                i <= edits@.len(),
                es == edit_views(edits@),
                apply_edits(start, es.take(i as int)) == (views(labels@), views(added@), views(removed@)),
            decreases edits@.len() - i,
        {
            proof {
                assert(es.take(i + 1).drop_last() =~= es.take(i as int));
                assert(es.take(i + 1).last() == edits@[i as int].edit_view());
            }
            match &edits[i] {
                LabelEdit::Add(name) => {
                    if !contains_string(labels.as_slice(), name) {
                        let ghost (l0, a0, r0) = (labels@, added@, removed@);
                        labels.push(name.clone());
                        added.push(name.clone());
                        assert(views(labels@) =~= views(l0).push(name@));
                        assert(views(added@) =~= views(a0).push(name@));
                    }
                },
                LabelEdit::Remove(name) => {
                    let ghost l0 = labels@;
                    let mut kept: Vec<String> = Vec::new();
                    let mut j: usize = 0;
                    while j < labels.len()
                        invariant
                            j <= labels@.len(),
                            labels@ == l0,
                            views(kept@) == without(views(labels@).take(j as int), name@),
                        decreases labels@.len() - j,
                    {
                        let ghost k0 = kept@;
                        assert(views(labels@).take(j + 1).drop_last() =~= views(labels@).take(j as int));
                        assert(views(labels@).take(j + 1).last() == labels@[j as int]@);
                        if labels[j] != *name {
                            kept.push(labels[j].clone());
                            assert(views(kept@) =~= views(k0).push(labels@[j as int]@));
                        }
                        j += 1;
                    }
                    assert(views(labels@).take(j as int) =~= views(labels@));
                    proof {
                        lemma_without(views(labels@), name@);
                    }
                    if kept.len() != labels.len() {
                        let ghost r0 = removed@;
                        removed.push(name.clone());
                        assert(views(removed@) =~= views(r0).push(name@));
                        labels = kept;
                    }
                },
            }
            i += 1;
        }
        assert(es.take(i as int) =~= es);
        self.labels = sort_labels(&labels);
        (added, removed)
    }
}

} // verus!
