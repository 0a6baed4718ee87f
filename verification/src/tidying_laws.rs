//! What is done to a plugin besides copying, record by record.

use vstd::prelude::*;

use crate::cleanup::{
    defined_effects, has_same_effect, header_at, homed, is_same_effect, lemma_header_at, undeleted,
    without_doubles, without_masters,
};
use crate::record_views::{
    AiPackageView, CreatureView, HeaderView, MagicEffectView, NpcView, ObjectView,
};
use crate::records::EffectId;
use crate::text::lower;

verus! {

/// Records that are not deleted stay, in order; those that are go.
pub proof fn law_deleted_records_go_one_by_one(objects: Seq<ObjectView>, object: ObjectView)
    ensures
        undeleted(Seq::empty()) == Seq::<ObjectView>::empty(),
        object.deleted() ==> undeleted(objects.push(object)) == undeleted(objects),
        !object.deleted() ==> undeleted(objects.push(object)) == undeleted(objects).push(object),
{
    reveal(Seq::filter);
    assert(objects.push(object).drop_last() =~= objects);
}

/// The two magic effects agree in every field that is stored; the handle is none.
pub open spec fn are_equal_effects(a: MagicEffectView, b: MagicEffectView) -> bool {
    &&& a.id == b.id
    &&& a.deleted == b.deleted
    &&& a.tag == b.tag
    &&& a.effect_id == b.effect_id
    &&& a.bolt_sound == b.bolt_sound
    &&& a.cast_sound == b.cast_sound
    &&& a.hit_sound == b.hit_sound
    &&& a.area_sound == b.area_sound
    &&& a.cast_visual == b.cast_visual
    &&& a.bolt_visual == b.bolt_visual
    &&& a.hit_visual == b.hit_visual
    &&& a.area_visual == b.area_visual
    &&& a.rest == b.rest
}

/// One of the records is a magic effect that agrees with this one in every field that is stored.
pub open spec fn is_doubled(objects: Seq<ObjectView>, effect: MagicEffectView) -> bool {
    exists|i: int|
        0 <= i < objects.len() && #[trigger] objects[i] is MagicEffect && are_equal_effects(
            objects[i]->MagicEffect_0,
            effect,
        )
}

/// A magic effect goes just if one that stays before it agrees with it in every field that is
/// stored; all other records stay, in order.
pub proof fn law_doubled_effects_go_one_by_one(objects: Seq<ObjectView>, object: ObjectView)
    ensures
        without_doubles(Seq::empty()) == Seq::<ObjectView>::empty(),
        match object {
            ObjectView::MagicEffect(r) => if is_doubled(without_doubles(objects), r) {
                without_doubles(objects.push(object)) == without_doubles(objects)
            } else {
                without_doubles(objects.push(object)) == without_doubles(objects).push(object)
            },
            _ => without_doubles(objects.push(object)) == without_doubles(objects).push(object),
        },
{
    assert(objects.push(object).drop_last() =~= objects);
    let kept = without_doubles(objects);
    if let ObjectView::MagicEffect(r) = object {
        if has_same_effect(kept, r) {
            let i = choose|i: int|
                0 <= i < kept.len() && (#[trigger] kept[i] matches ObjectView::MagicEffect(other)
                    && is_same_effect(other, r));
            assert(are_equal_effects(kept[i]->MagicEffect_0, r));
        }
        if is_doubled(kept, r) {
            let i = choose|i: int|
                0 <= i < kept.len() && #[trigger] kept[i] is MagicEffect && are_equal_effects(
                    kept[i]->MagicEffect_0,
                    r,
                );
            let other = kept[i]->MagicEffect_0;
            assert(is_same_effect(other, r));
            assert(kept[i] matches ObjectView::MagicEffect(o) && is_same_effect(o, r));
        }
    }
}

/// A package keeps its target. An escort or a follower keeps a cell that is defined and is sent to
/// the test cell in place of any other; other packages stay as they are.
pub open spec fn is_sent_home(
    before: AiPackageView,
    after: AiPackageView,
    defined: Set<Seq<char>>,
) -> bool {
    match before {
        AiPackageView::Escort(p) => after matches AiPackageView::Escort(q) && q.target == p.target
            && (if defined.contains(lower(p.cell)) {
            q.cell == p.cell
        } else {
            q.cell == "igtestcell"@
        }),
        AiPackageView::Follow(p) => after matches AiPackageView::Follow(q) && q.target == p.target
            && (if defined.contains(lower(p.cell)) {
            q.cell == p.cell
        } else {
            q.cell == "igtestcell"@
        }),
        _ => after == before,
    }
}

/// The packages are sent home, each in its place.
pub open spec fn are_sent_home(
    before: Seq<AiPackageView>,
    after: Seq<AiPackageView>,
    defined: Set<Seq<char>>,
) -> bool {
    &&& after.len() == before.len()
    &&& forall|k: int|
        0 <= k < before.len() ==> is_sent_home(
            #[trigger] before[k],
            #[trigger] after[k],
            defined,
        )
}

/// Sending actors home changes the cells of their packages and nothing else.
pub proof fn law_only_cells_of_packages_change(
    objects: Seq<ObjectView>,
    defined: Set<Seq<char>>,
    i: int,
)
    requires
        0 <= i < objects.len(),
    ensures
        homed(objects, defined).len() == objects.len(),
        match objects[i] {
            ObjectView::Npc(r) => homed(objects, defined)[i] matches ObjectView::Npc(q) && q == (
            NpcView { ai_packages: q.ai_packages, ..r }) && are_sent_home(
                r.ai_packages,
                q.ai_packages,
                defined,
            ),
            ObjectView::Creature(r) => homed(objects, defined)[i] matches ObjectView::Creature(q)
                && q == (CreatureView { ai_packages: q.ai_packages, ..r }) && are_sent_home(
                r.ai_packages,
                q.ai_packages,
                defined,
            ),
            _ => homed(objects, defined)[i] == objects[i],
        },
{
}

/// Every magic effect among the records defines its number, deleted or not, and nothing else does.
pub proof fn law_effects_define_their_numbers(objects: Seq<ObjectView>, effect: EffectId)
    ensures
        defined_effects(objects).contains(effect) <==> exists|i: int|
            0 <= i < objects.len() && #[trigger] objects[i] is MagicEffect
                && objects[i]->MagicEffect_0.effect_id == effect,
    decreases objects.len(),
{
    if objects.len() > 0 {
        let rest = objects.drop_last();
        law_effects_define_their_numbers(rest, effect);
        if defined_effects(rest).contains(effect) {
            let i = choose|i: int|
                0 <= i < rest.len() && #[trigger] rest[i] is MagicEffect
                    && rest[i]->MagicEffect_0.effect_id == effect;
            assert(objects[i] == rest[i]);
        }
        assert forall|i: int|
            0 <= i < objects.len() && #[trigger] objects[i] is MagicEffect
                && objects[i]->MagicEffect_0.effect_id == effect implies defined_effects(
            objects,
        ).contains(effect) by {
            if i < rest.len() {
                assert(rest[i] == objects[i]);
            }
        }
        assert(objects[objects.len() - 1] == objects.last());
    }
}

/// The first header loses its masters and nothing else; any other record stays as it is.
pub proof fn law_the_first_header_loses_its_masters(objects: Seq<ObjectView>, i: int)
    requires
        0 <= i < objects.len(),
        objects[i] is Header,
        forall|j: int| 0 <= j < i ==> !(#[trigger] objects[j] is Header),
    ensures
        without_masters(objects) == objects.update(
            i,
            ObjectView::Header(
                (HeaderView { masters: Seq::empty(), ..objects[i]->Header_0 }),
            ),
        ),
        header_at(objects) == i,
{
    lemma_header_at(objects);
    if header_at(objects) < i {
        assert(objects[header_at(objects)] is Header);
    }
}

/// A plugin without a header stays as it is.
pub proof fn law_without_a_header_nothing_changes(objects: Seq<ObjectView>)
    requires
        forall|j: int| 0 <= j < objects.len() ==> !(#[trigger] objects[j] is Header),
    ensures
        without_masters(objects) == objects,
        header_at(objects) == objects.len(),
{
    lemma_header_at(objects);
}

} // verus!
