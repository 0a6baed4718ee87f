//! Ids that wait to be resolved, each with the reason why it is needed.

use std::collections::VecDeque;
use vstd::prelude::*;

use crate::ids::{lemma_sorted_is, sorted, strictly_sorted};
use crate::text::{id_less, lemma_id_less_transitive, place, Placement};

verus! {

/// Why a record is brought in.
#[derive(Debug)]
pub struct DependencyCause {
    /// The pass that brings it in.
    pub pass: &'static str,
    /// The kind of the record that needs it.
    pub source_type: String,
    /// The record that needs it.
    pub source_id: String,
    /// The field in which it is named.
    pub field: &'static str,
}

/// What a [`DependencyCause`] holds.
pub struct CauseView {
    pub pass: Seq<char>,
    pub source_type: Seq<char>,
    pub source_id: Seq<char>,
    pub field: Seq<char>,
}

impl DeepView for DependencyCause {
    type V = CauseView;

    open spec fn deep_view(&self) -> CauseView {
        CauseView {
            pass: self.pass@,
            source_type: self.source_type@,
            source_id: self.source_id@,
            field: self.field@,
        }
    }
}

impl Clone for DependencyCause {
    fn clone(&self) -> (res: Self)
        ensures
            res.deep_view() == self.deep_view(),
    {
        DependencyCause {
            pass: self.pass,
            source_type: self.source_type.clone(),
            source_id: self.source_id.clone(),
            field: self.field,
        }
    }
}

/// An id that waits to be resolved.
#[derive(Debug)]
pub struct PendingDependency {
    /// The id in lower case.
    pub id: String,
    pub cause: DependencyCause,
}

/// What a [`PendingDependency`] holds.
pub struct PendingView {
    pub id: Seq<char>,
    pub cause: CauseView,
}

impl DeepView for PendingDependency {
    type V = PendingView;

    open spec fn deep_view(&self) -> PendingView {
        PendingView { id: self.id@, cause: self.cause.deep_view() }
    }
}

/// What the waiting entries hold.
pub open spec fn waiting(entries: Seq<PendingDependency>) -> Seq<PendingView> {
    entries.map_values(|p: PendingDependency| p.deep_view())
}

/// The ids of the waiting entries.
pub open spec fn waiting_ids(entries: Seq<PendingDependency>) -> Seq<Seq<char>> {
    entries.map_values(|p: PendingDependency| p.id@)
}

/// No entry of `a` has the id of an entry of `b`.
spec fn apart(a: Seq<PendingDependency>, b: Seq<PendingDependency>) -> bool {
    forall|i: int, j: int|
        0 <= i < a.len() && 0 <= j < b.len() ==> (#[trigger] a[i]).id@ != (#[trigger] b[j]).id@
}

/// Puts an entry behind a sorted list of smaller ones.
proof fn lemma_push_sorted(out: Seq<PendingDependency>, p: PendingDependency)
    requires
        strictly_sorted(waiting_ids(out)),
        forall|k: int| 0 <= k < out.len() ==> id_less((#[trigger] out[k]).id@, p.id@),
    ensures
        strictly_sorted(waiting_ids(out.push(p))),
{
    let ids = waiting_ids(out);
    let more = waiting_ids(out.push(p));
    assert forall|i: int, j: int| 0 <= i < j < more.len() implies id_less(
        #[trigger] more[i],
        #[trigger] more[j],
    ) by {
        if j < out.len() {
            assert(more[i] == ids[i] && more[j] == ids[j]);
        } else {
            assert(more[i] == out[i].id@);
        }
    }
}

/// The entries of `out` all come before those of `rest`.
spec fn all_before(out: Seq<PendingDependency>, rest: Seq<PendingDependency>) -> bool {
    forall|i: int, j: int|
        0 <= i < out.len() && 0 <= j < rest.len() ==> id_less(
            (#[trigger] out[i]).id@,
            (#[trigger] rest[j]).id@,
        )
}

/// Moving the smallest of what is left behind `out` keeps `out` sorted and before the rest.
proof fn lemma_move_first(
    out: Seq<PendingDependency>,
    from: Seq<PendingDependency>,
    other: Seq<PendingDependency>,
)
    requires
        strictly_sorted(waiting_ids(out)),
        strictly_sorted(waiting_ids(from)),
        strictly_sorted(waiting_ids(other)),
        all_before(out, from),
        all_before(out, other),
        from.len() > 0,
        other.len() > 0 ==> id_less(from[0].id@, other[0].id@),
    ensures
        strictly_sorted(waiting_ids(out.push(from[0]))),
        strictly_sorted(waiting_ids(from.skip(1))),
        all_before(out.push(from[0]), from.skip(1)),
        all_before(out.push(from[0]), other),
{
    lemma_push_sorted(out, from[0]);
    let ids = waiting_ids(from);
    let tail = from.skip(1);
    assert forall|i: int, j: int|
        0 <= i < j < waiting_ids(tail).len() implies id_less(
        #[trigger] waiting_ids(tail)[i],
        #[trigger] waiting_ids(tail)[j],
    ) by {
        assert(waiting_ids(tail)[i] == ids[i + 1]);
        assert(waiting_ids(tail)[j] == ids[j + 1]);
    }
    let more = out.push(from[0]);
    assert forall|i: int, j: int| 0 <= i < more.len() && 0 <= j < tail.len() implies id_less(
        (#[trigger] more[i]).id@,
        (#[trigger] tail[j]).id@,
    ) by {
        assert(tail[j] == from[j + 1]);
        if i < out.len() {
            assert(more[i] == out[i]);
        } else {
            assert(ids[0] == from[0].id@ && ids[j + 1] == from[j + 1].id@);
        }
    }
    assert forall|i: int, j: int| 0 <= i < more.len() && 0 <= j < other.len() implies id_less(
        (#[trigger] more[i]).id@,
        (#[trigger] other[j]).id@,
    ) by {
        if i < out.len() {
            assert(more[i] == out[i]);
        } else if j > 0 {
            assert(waiting_ids(other)[0] == other[0].id@ && waiting_ids(other)[j] == other[j].id@);
            lemma_id_less_transitive(from[0].id@, other[0].id@, other[j].id@);
        }
    }
}

/// What was in `from` is its first entry or in the rest.
proof fn lemma_first_or_rest(s: Seq<PendingDependency>, x: PendingDependency)
    requires
        s.len() > 0,
    ensures
        s.contains(x) <==> x == s[0] || s.skip(1).contains(x),
{
    let rest = s.skip(1);
    if s.contains(x) {
        let i = choose|i: int| 0 <= i < s.len() && s[i] == x;
        if i > 0 {
            assert(rest[i - 1] == x);
        }
    }
    if rest.contains(x) {
        let i = choose|i: int| 0 <= i < rest.len() && rest[i] == x;
        assert(s[i + 1] == x);
    }
}

proof fn lemma_push_contains(s: Seq<PendingDependency>, p: PendingDependency, x: PendingDependency)
    ensures
        s.push(p).contains(x) <==> s.contains(x) || x == p,
{
    if s.contains(x) {
        let i = choose|i: int| 0 <= i < s.len() && s[i] == x;
        assert(s.push(p)[i] == x);
    }
    assert(s.push(p)[s.len() as int] == p);
}

fn merge(a: VecDeque<PendingDependency>, b: VecDeque<PendingDependency>) -> (res: VecDeque<
    PendingDependency,
>)
    requires
        strictly_sorted(waiting_ids(a@)),
        strictly_sorted(waiting_ids(b@)),
        apart(a@, b@),
    ensures
        strictly_sorted(waiting_ids(res@)),
        forall|x: PendingDependency| #[trigger]
            res@.contains(x) <==> a@.contains(x) || b@.contains(x),
{
    let mut left = a;
    let mut right = b;
    let mut out: VecDeque<PendingDependency> = VecDeque::new();
    let ghost first = a@;
    let ghost second = b@;
    while left.len() > 0 || right.len() > 0
        invariant
            strictly_sorted(waiting_ids(out@)),
            strictly_sorted(waiting_ids(left@)),
            strictly_sorted(waiting_ids(right@)),
            all_before(out@, left@),
            all_before(out@, right@),
            apart(left@, right@),
            forall|x: PendingDependency|
                (#[trigger] first.contains(x) || second.contains(x)) <==> out@.contains(x)
                    || left@.contains(x) || right@.contains(x),
            forall|x: PendingDependency| #[trigger]
                second.contains(x) ==> out@.contains(x) || left@.contains(x) || right@.contains(x),
        decreases left@.len() + right@.len(),
    {
        let ghost out_before = out@;
        let ghost left_before = left@;
        let ghost right_before = right@;
        let take_left: bool = if right.len() == 0 {
            true
        } else if left.len() == 0 {
            false
        } else {
            match place(left[0].id.as_str(), right[0].id.as_str()) {
                Placement::Before => true,
                _ => {
                    assert(left@[0].id@ != right@[0].id@);
                    false
                },
            }
        };
        if take_left {
            proof {
                lemma_move_first(out@, left@, right@);
            }
            match left.pop_front() {
                Some(p) => {
                    out.push_back(p);
                    assert(left@ =~= left_before.skip(1));
                    assert(out@ =~= out_before.push(left_before[0]));
                },
                None => {},
            }
            proof {
                assert forall|x: PendingDependency|
                    (out_before.contains(x) || left_before.contains(x)) <==> (
                    #[trigger] out@.contains(x) || left@.contains(x)) by {
                    lemma_first_or_rest(left_before, x);
                    lemma_push_contains(out_before, left_before[0], x);
                }
                assert forall|i: int, j: int|
                    0 <= i < left@.len() && 0 <= j < right@.len() implies (#[trigger] left@[i]).id@
                    != (#[trigger] right@[j]).id@ by {
                    assert(left@[i] == left_before[i + 1]);
                }
            }
        } else {
            proof {
                assert(id_less(right@[0].id@, left@[0].id@) || left@.len() == 0);
                lemma_move_first(out@, right@, left@);
            }
            match right.pop_front() {
                Some(p) => {
                    out.push_back(p);
                    assert(right@ =~= right_before.skip(1));
                    assert(out@ =~= out_before.push(right_before[0]));
                },
                None => {},
            }
            proof {
                assert forall|x: PendingDependency|
                    (out_before.contains(x) || right_before.contains(x)) <==> (
                    #[trigger] out@.contains(x) || right@.contains(x)) by {
                    lemma_first_or_rest(right_before, x);
                    lemma_push_contains(out_before, right_before[0], x);
                }
                assert forall|i: int, j: int|
                    0 <= i < left@.len() && 0 <= j < right@.len() implies (#[trigger] left@[i]).id@
                    != (#[trigger] right@[j]).id@ by {
                    assert(right@[j] == right_before[j + 1]);
                }
            }
        }
    }
    out
}

/// No two entries have the same id.
pub open spec fn distinct_ids(entries: Seq<PendingDependency>) -> bool {
    forall|i: int, j: int|
        0 <= i < j < entries.len() ==> (#[trigger] entries[i]).id@ != (#[trigger] entries[j]).id@
}

/// Lists with the same entries have the same ids.
proof fn lemma_same_ids(a: Seq<PendingDependency>, b: Seq<PendingDependency>)
    requires
        forall|x: PendingDependency| #[trigger] a.contains(x) <==> b.contains(x),
    ensures
        waiting_ids(a).to_set() == waiting_ids(b).to_set(),
{
    assert forall|id: Seq<char>| #[trigger]
        waiting_ids(a).to_set().contains(id) <==> waiting_ids(b).to_set().contains(id) by {
        if waiting_ids(a).to_set().contains(id) {
            let i = choose|i: int| 0 <= i < a.len() && waiting_ids(a)[i] == id;
            assert(a.contains(a[i]));
            let j = choose|j: int| 0 <= j < b.len() && b[j] == a[i];
            assert(waiting_ids(b)[j] == id);
        }
        if waiting_ids(b).to_set().contains(id) {
            let i = choose|i: int| 0 <= i < b.len() && waiting_ids(b)[i] == id;
            assert(b.contains(b[i]) && a.contains(b[i]));
            let j = choose|j: int| 0 <= j < a.len() && a[j] == b[i];
            assert(waiting_ids(a)[j] == id);
        }
    }
    assert(waiting_ids(a).to_set() =~= waiting_ids(b).to_set());
}

/// Puts the waiting entries in the order of their ids.
pub fn sort_pending(entries: VecDeque<PendingDependency>) -> (res: VecDeque<PendingDependency>)
    requires
        distinct_ids(entries@),
    ensures
        waiting_ids(res@) == sorted(waiting_ids(entries@).to_set()),
        strictly_sorted(waiting_ids(res@)),
        forall|x: PendingDependency| #[trigger] res@.contains(x) <==> entries@.contains(x),
    decreases entries@.len(),
{
    let ghost all = entries@;
    if entries.len() <= 1 {
        proof {
            lemma_sorted_is(waiting_ids(all), waiting_ids(all).to_set());
        }
        return entries;
    }
    let middle: usize = entries.len() / 2;
    let mut low = entries;
    let high = low.split_off(middle);
    let ghost first = low@;
    let ghost second = high@;
    assert forall|x: PendingDependency| #[trigger]
        all.contains(x) <==> first.contains(x) || second.contains(x) by {
        if all.contains(x) {
            let i = choose|i: int| 0 <= i < all.len() && all[i] == x;
            if i < middle {
                assert(first[i] == x);
            } else {
                assert(second[i - middle] == x);
            }
        }
        if first.contains(x) {
            let i = choose|i: int| 0 <= i < first.len() && first[i] == x;
            assert(all[i] == x);
        }
        if second.contains(x) {
            let i = choose|i: int| 0 <= i < second.len() && second[i] == x;
            assert(all[i + middle] == x);
        }
    }
    let low = sort_pending(low);
    let high = sort_pending(high);
    assert forall|i: int, j: int| 0 <= i < low@.len() && 0 <= j < high@.len() implies (
    #[trigger] low@[i]).id@ != (#[trigger] high@[j]).id@ by {
        assert(low@.contains(low@[i]) && high@.contains(high@[j]));
        let k = choose|k: int| 0 <= k < first.len() && first[k] == low@[i];
        let l = choose|l: int| 0 <= l < second.len() && second[l] == high@[j];
        assert(all[k] == low@[i] && all[l + middle] == high@[j]);
    }
    let res = merge(low, high);
    proof {
        lemma_same_ids(res@, all);
        lemma_sorted_is(waiting_ids(res@), waiting_ids(all).to_set());
    }
    res
}

} // verus!
