//! What holds of the lines of a topic, whatever is merged in.

use vstd::prelude::*;

use crate::dialogue_group::{lemma_position, merged, place_behind, position};
use crate::record_views::DialogueInfoView;
use crate::text::same;

verus! {

/// No two lines have the same id.
pub open spec fn are_distinct(infos: Seq<DialogueInfoView>) -> bool {
    forall|i: int, j: int|
        0 <= i < j < infos.len() ==> !same((#[trigger] infos[i]).id, (#[trigger] infos[j]).id)
}

/// Where a merged line ends up.
pub open spec fn landing(infos: Seq<DialogueInfoView>, info: DialogueInfoView) -> int {
    let place = place_behind(infos, info.prev_id);
    match position(infos, info.id) {
        Some(i) => if same(infos[i].prev_id, info.prev_id) {
            i
        } else if i < place {
            place - 1
        } else {
            place
        },
        None => place,
    }
}

/// The line of `infos` that stands at `k` after `info` was merged in, for any `k` but that of
/// `info`.
proof fn lemma_merged_at(infos: Seq<DialogueInfoView>, info: DialogueInfoView, k: int) -> (from:
    int)
    requires
        0 <= k < merged(infos, info).len(),
        k != landing(infos, info),
    ensures
        0 <= from < infos.len(),
        merged(infos, info)[k] == infos[from],
        position(infos, info.id) != Some(from),
{
    lemma_position(infos, info.id);
    lemma_position(infos, info.prev_id);
    let at = landing(infos, info);
    match position(infos, info.id) {
        Some(i) => if same(infos[i].prev_id, info.prev_id) {
            k
        } else {
            let without = infos.remove(i);
            let j = if k < at {
                k
            } else {
                k - 1
            };
            assert(merged(infos, info)[k] == without[j]);
            if j < i {
                j
            } else {
                j + 1
            }
        },
        None => if k < at {
            k
        } else {
            k - 1
        },
    }
}

/// A merged line is there, in the form in which it was merged.
pub proof fn law_merged_line_is_there(infos: Seq<DialogueInfoView>, info: DialogueInfoView)
    ensures
        0 <= landing(infos, info) < merged(infos, info).len(),
        merged(infos, info)[landing(infos, info)] == info,
        merged(infos, info).len() == infos.len() + if position(infos, info.id) is Some {
            0int
        } else {
            1
        },
{
    lemma_position(infos, info.id);
    lemma_position(infos, info.prev_id);
}

/// Every line is the merged one or was there.
pub proof fn lemma_merged_origin(infos: Seq<DialogueInfoView>, info: DialogueInfoView, k: int)
    requires
        0 <= k < merged(infos, info).len(),
    ensures
        merged(infos, info)[k] == info || infos.contains(merged(infos, info)[k]),
{
    law_merged_line_is_there(infos, info);
    if k != landing(infos, info) {
        let from = lemma_merged_at(infos, info, k);
        assert(infos.contains(infos[from]));
    }
}

/// If no two lines have the same id, none do after a line was merged in.
pub proof fn law_ids_stay_distinct(infos: Seq<DialogueInfoView>, info: DialogueInfoView)
    requires
        are_distinct(infos),
    ensures
        are_distinct(merged(infos, info)),
{
    let out = merged(infos, info);
    let at = landing(infos, info);
    law_merged_line_is_there(infos, info);
    lemma_position(infos, info.id);
    assert forall|i: int, j: int| 0 <= i < j < out.len() implies !same(
        (#[trigger] out[i]).id,
        (#[trigger] out[j]).id,
    ) by {
        if i != at && j != at {
            lemma_merged_order(infos, info, i, j);
        } else {
            let k = if i == at {
                j
            } else {
                i
            };
            let a = lemma_merged_at(infos, info, k);
            match position(infos, info.id) {
                Some(p) => {
                    if a < p {
                        assert(!same(infos[a].id, infos[p].id));
                    } else {
                        assert(!same(infos[p].id, infos[a].id));
                    }
                },
                None => {},
            }
        }
    }
}

/// Two lines other than the merged one come from two lines, in the same order.
proof fn lemma_merged_order(
    infos: Seq<DialogueInfoView>,
    info: DialogueInfoView,
    i: int,
    j: int,
)
    requires
        0 <= i < j < merged(infos, info).len(),
        i != landing(infos, info),
        j != landing(infos, info),
    ensures
        exists|a: int, b: int|
            0 <= a < b < infos.len() && merged(infos, info)[i] == #[trigger] infos[a] && merged(
                infos,
                info,
            )[j] == #[trigger] infos[b],
{
    lemma_position(infos, info.id);
    lemma_position(infos, info.prev_id);
    let at = landing(infos, info);
    let out = merged(infos, info);
    let (a, b) = match position(infos, info.id) {
        Some(p) => if same(infos[p].prev_id, info.prev_id) {
            (i, j)
        } else {
            let without = infos.remove(p);
            let i1 = if i < at {
                i
            } else {
                i - 1
            };
            let j1 = if j < at {
                j
            } else {
                j - 1
            };
            assert(out[i] == without[i1] && out[j] == without[j1]);
            (if i1 < p { i1 } else { i1 + 1 }, if j1 < p { j1 } else { j1 + 1 })
        },
        None => (if i < at { i } else { i - 1 }, if j < at { j } else { j - 1 }),
    };
    assert(out[i] == infos[a] && out[j] == infos[b]);
}

/// The lines that do not have the id `id`.
pub open spec fn others(infos: Seq<DialogueInfoView>, id: Seq<char>) -> Seq<DialogueInfoView> {
    infos.filter(|i: DialogueInfoView| !same(i.id, id))
}

/// A line with the id `id` does not show among the others, wherever it is put.
proof fn lemma_others_insert(
    infos: Seq<DialogueInfoView>,
    at: int,
    info: DialogueInfoView,
    id: Seq<char>,
)
    requires
        0 <= at <= infos.len(),
        same(info.id, id),
    ensures
        others(infos.insert(at, info), id) == others(infos, id),
{
    let keep = |i: DialogueInfoView| !same(i.id, id);
    let front = infos.take(at);
    let back = infos.skip(at);
    assert(infos =~= front + back);
    assert(infos.insert(at, info) =~= front.push(info) + back);
    Seq::filter_distributes_over_add(front, back, keep);
    Seq::filter_distributes_over_add(front.push(info), back, keep);
    front.lemma_filter_push(info, keep);
}

/// Merging a line in leaves the other lines as they are, in their order.
pub proof fn law_other_lines_stay(infos: Seq<DialogueInfoView>, info: DialogueInfoView)
    ensures
        others(merged(infos, info), info.id) == others(infos, info.id),
{
    lemma_position(infos, info.id);
    lemma_position(infos, info.prev_id);
    let at = landing(infos, info);
    match position(infos, info.id) {
        Some(i) => {
            let without = infos.remove(i);
            assert(infos =~= without.insert(i, infos[i]));
            assert(merged(infos, info) =~= without.insert(at, info));
            lemma_others_insert(without, i, infos[i], info.id);
            lemma_others_insert(without, at, info, info.id);
        },
        None => {
            lemma_others_insert(infos, at, info, info.id);
        },
    }
}

/// A line that is new, or that names another line before it than it did, stands directly behind
/// the line it names, if that is another line of the topic; at the front, if it names none; at the
/// end, if the line it names is missing.
pub proof fn law_line_follows_its_predecessor(
    infos: Seq<DialogueInfoView>,
    info: DialogueInfoView,
)
    requires
        position(infos, info.id) matches Some(i) ==> !same(infos[i].prev_id, info.prev_id),
        !same(info.prev_id, info.id),
    ensures
        ({
            let at = landing(infos, info);
            let out = merged(infos, info);
            &&& info.prev_id.len() == 0 ==> at == 0
            &&& info.prev_id.len() > 0 && position(infos, info.prev_id) is Some ==> at > 0 && same(
                out[at - 1].id,
                info.prev_id,
            )
            &&& info.prev_id.len() > 0 && position(infos, info.prev_id) is None ==> at
                == out.len() - 1
        }),
{
    lemma_position(infos, info.id);
    lemma_position(infos, info.prev_id);
}

} // verus!
