//! Only the records that are scanned make a difference to what is copied.

use vstd::prelude::*;

use crate::closure::{completed, needing, start};
use crate::closure_laws::lemma_all_required_finite;
use crate::ids::{lemma_sorted_lists, sorted};
use crate::record_views::ObjectView;
use crate::records::EffectId;
use crate::references::{all_required_ids, is_required, is_scanned, required_ids};
use crate::trace_laws::scanned;

verus! {

proof fn lemma_required_last(objects: Seq<ObjectView>, with_dialogue: bool, id: Seq<char>)
    requires
        objects.len() > 0,
    ensures
        is_required(objects, with_dialogue, id) <==> is_required(
            objects.drop_last(),
            with_dialogue,
            id,
        ) || is_scanned(objects.last(), with_dialogue) && required_ids(objects.last()).contains(id),
{
    let rest = objects.drop_last();
    if is_required(rest, with_dialogue, id) {
        let i = choose|i: int|
            0 <= i < rest.len() && is_scanned(#[trigger] rest[i], with_dialogue) && required_ids(
                rest[i],
            ).contains(id);
        assert(objects[i] == rest[i]);
    }
    if is_required(objects, with_dialogue, id) {
        let i = choose|i: int|
            0 <= i < objects.len() && is_scanned(#[trigger] objects[i], with_dialogue)
                && required_ids(objects[i]).contains(id);
        if i < rest.len() {
            assert(rest[i] == objects[i]);
        }
    }
    assert(objects[objects.len() - 1] == objects.last());
}

proof fn lemma_scanned_needs(objects: Seq<ObjectView>, with_dialogue: bool, id: Seq<char>)
    ensures
        is_required(scanned(objects, with_dialogue), with_dialogue, id) == is_required(
            objects,
            with_dialogue,
            id,
        ),
        is_required(objects, with_dialogue, id) ==> needing(
            scanned(objects, with_dialogue),
            with_dialogue,
            id,
        ) == needing(objects, with_dialogue, id),
    decreases objects.len(),
{
    reveal(Seq::filter);
    if objects.len() > 0 {
        let rest = objects.drop_last();
        lemma_scanned_needs(rest, with_dialogue, id);
        lemma_required_last(objects, with_dialogue, id);
        let few = scanned(objects, with_dialogue);
        if is_scanned(objects.last(), with_dialogue) {
            assert(few.drop_last() =~= scanned(rest, with_dialogue));
            lemma_required_last(few, with_dialogue, id);
        } else {
            assert(few == scanned(rest, with_dialogue));
        }
    }
}

/// Deleted records, and lines of dialogue while they are not asked for, make no difference to what
/// is copied: without them the pass copies the same records for the same reasons.
pub proof fn law_unscanned_records_need_nothing(
    objects: Seq<ObjectView>,
    masters: Seq<Seq<ObjectView>>,
    with_dialogue: bool,
    defined: Set<Seq<char>>,
    effects: Set<EffectId>,
    pass: Seq<char>,
)
    ensures
        completed(objects, masters, with_dialogue, defined, effects, pass) == completed(
            scanned(objects, with_dialogue),
            masters,
            with_dialogue,
            defined,
            effects,
            pass,
        ),
{
    let few = scanned(objects, with_dialogue);
    let required = all_required_ids(objects, with_dialogue);
    assert forall|id: Seq<char>| #[trigger]
        is_required(few, with_dialogue, id) == is_required(objects, with_dialogue, id) by {
        lemma_scanned_needs(objects, with_dialogue, id);
    }
    assert(all_required_ids(few, with_dialogue) =~= required);
    lemma_all_required_finite(objects, with_dialogue);
    lemma_sorted_lists(required);
    let left = start(objects, with_dialogue, defined, pass);
    let right = start(few, with_dialogue, defined, pass);
    assert forall|k: int| 0 <= k < left.pending.len() implies left.pending[k]
        == #[trigger] right.pending[k] by {
        let id = sorted(required)[k];
        assert(sorted(required).to_set().contains(id));
        assert(is_required(objects, with_dialogue, id));
        lemma_scanned_needs(objects, with_dialogue, id);
    }
    assert(left.pending =~= right.pending);
    assert(left == right);
}

} // verus!
