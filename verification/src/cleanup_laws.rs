//! What holds of a plugin once it was cleaned up.

use vstd::prelude::*;

use crate::cleanup::{
    has_same_effect, header_at, homed, homed_package, homed_packages, is_same_effect,
    lemma_header_at, undeleted, without_doubles, without_masters,
};
use crate::record_views::{AiPackageView, ObjectView};
use crate::text::lower;

verus! {

/// No deleted record stays, and every other one does.
pub proof fn law_only_deleted_records_go(objects: Seq<ObjectView>)
    ensures
        forall|o: ObjectView| #[trigger]
            undeleted(objects).contains(o) <==> objects.contains(o) && !o.deleted(),
{
    let stays = |o: ObjectView| !o.deleted();
    assert forall|o: ObjectView| #[trigger]
        undeleted(objects).contains(o) <==> objects.contains(o) && !o.deleted() by {
        let kept = undeleted(objects);
        if kept.contains(o) {
            let k = choose|k: int| 0 <= k < kept.len() && kept[k] == o;
            objects.lemma_filter_pred(stays, k);
            objects.lemma_filter_contains_rev(stays, o);
        }
        if objects.contains(o) && !o.deleted() {
            let k = choose|k: int| 0 <= k < objects.len() && objects[k] == o;
            objects.lemma_filter_contains(stays, k);
        }
    }
}

/// The record stands for `object`: it is that record, or a magic effect like it.
pub open spec fn stands_for(kept: Seq<ObjectView>, object: ObjectView) -> bool {
    ||| kept.contains(object)
    ||| object matches ObjectView::MagicEffect(effect) && has_same_effect(kept, effect)
}

/// The records are magic effects that are alike.
pub open spec fn are_alike(a: ObjectView, b: ObjectView) -> bool {
    match (a, b) {
        (ObjectView::MagicEffect(x), ObjectView::MagicEffect(y)) => is_same_effect(x, y),
        _ => false,
    }
}

/// No two magic effects are alike.
pub open spec fn are_effects_distinct(objects: Seq<ObjectView>) -> bool {
    forall|i: int, j: int|
        0 <= i < j < objects.len() ==> !are_alike(#[trigger] objects[i], #[trigger] objects[j])
}

/// Of magic effects that are alike one stays, and no other record goes.
pub proof fn law_one_of_the_doubles_stays(objects: Seq<ObjectView>)
    ensures
        are_effects_distinct(without_doubles(objects)),
        forall|o: ObjectView| #[trigger] objects.contains(o) ==> stands_for(
            without_doubles(objects),
            o,
        ),
        forall|o: ObjectView| #[trigger]
            without_doubles(objects).contains(o) ==> objects.contains(o),
    decreases objects.len(),
{
    if objects.len() > 0 {
        let rest = objects.drop_last();
        let last = objects.last();
        let before = without_doubles(rest);
        let after = without_doubles(objects);
        law_one_of_the_doubles_stays(rest);
        assert(after == before || after == before.push(last));
        assert forall|o: ObjectView| #[trigger] objects.contains(o) implies stands_for(
            after,
            o,
        ) by {
            let k = choose|k: int| 0 <= k < objects.len() && objects[k] == o;
            if k < rest.len() {
                assert(rest[k] == o);
                assert(rest.contains(o));
                lemma_stands_for_more(before, after, o);
            } else if after != before {
                assert(after[before.len() as int] == o);
            }
        }
        assert forall|o: ObjectView| #[trigger] after.contains(o) implies objects.contains(o) by {
            let k = choose|k: int| 0 <= k < after.len() && after[k] == o;
            if k < before.len() {
                assert(before[k] == o);
                assert(before.contains(o));
                assert(rest.contains(o));
                let j = choose|j: int| 0 <= j < rest.len() && rest[j] == o;
                assert(objects[j] == o);
            } else {
                assert(objects[objects.len() - 1] == o);
            }
        }
        assert forall|i: int, j: int| 0 <= i < j < after.len() implies !are_alike(
            #[trigger] after[i],
            #[trigger] after[j],
        ) by {
            assert(before[i] == after[i]);
            if j < before.len() {
                assert(before[j] == after[j]);
            }
        }
    }
}

proof fn lemma_stands_for_more(before: Seq<ObjectView>, after: Seq<ObjectView>, o: ObjectView)
    requires
        stands_for(before, o),
        before.len() <= after.len(),
        forall|k: int| 0 <= k < before.len() ==> before[k] == after[k],
    ensures
        stands_for(after, o),
{
    if before.contains(o) {
        let k = choose|k: int| 0 <= k < before.len() && before[k] == o;
        assert(after[k] == o);
    } else {
        let effect = o->MagicEffect_0;
        let k = choose|k: int|
            0 <= k < before.len() && (#[trigger] before[k] matches ObjectView::MagicEffect(other)
                && is_same_effect(other, effect));
        assert(after[k] == before[k]);
    }
}

/// The record at `i` is like none before it.
pub open spec fn is_first_of_its_like(objects: Seq<ObjectView>, i: int) -> bool {
    &&& 0 <= i < objects.len()
    &&& forall|j: int| 0 <= j < i ==> !are_alike(#[trigger] objects[j], objects[i])
}

/// The records that are like none before them.
pub open spec fn firsts(objects: Seq<ObjectView>) -> Seq<ObjectView>
    decreases objects.len(),
{
    if objects.len() == 0 {
        Seq::empty()
    } else if is_first_of_its_like(objects, objects.len() - 1) {
        firsts(objects.drop_last()).push(objects.last())
    } else {
        firsts(objects.drop_last())
    }
}

/// Of magic effects that are alike the first one stays, and all that stay keep their order.
pub proof fn law_the_first_of_the_doubles_stays(objects: Seq<ObjectView>)
    ensures
        without_doubles(objects) == firsts(objects),
    decreases objects.len(),
{
    if objects.len() > 0 {
        let rest = objects.drop_last();
        let last = objects.last();
        let kept = without_doubles(rest);
        law_the_first_of_the_doubles_stays(rest);
        law_one_of_the_doubles_stays(rest);
        if let ObjectView::MagicEffect(effect) = last {
            if has_same_effect(kept, effect) {
                let k = choose|k: int|
                    0 <= k < kept.len() && (#[trigger] kept[k] matches ObjectView::MagicEffect(
                        other,
                    ) && is_same_effect(other, effect));
                assert(kept.contains(kept[k]));
                assert(rest.contains(kept[k]));
                let j = choose|j: int| 0 <= j < rest.len() && rest[j] == kept[k];
                assert(are_alike(objects[j], last));
            } else {
                assert forall|j: int| 0 <= j < rest.len() implies !are_alike(
                    #[trigger] objects[j],
                    last,
                ) by {
                    if are_alike(objects[j], last) {
                        assert(rest[j] == objects[j]);
                        assert(rest.contains(objects[j]));
                        assert(stands_for(kept, objects[j]));
                        let near = objects[j]->MagicEffect_0;
                        if kept.contains(objects[j]) {
                            let k = choose|k: int| 0 <= k < kept.len() && kept[k] == objects[j];
                            assert(has_same_effect(kept, effect));
                        } else {
                            let k = choose|k: int|
                                0 <= k < kept.len() && (
                                #[trigger] kept[k] matches ObjectView::MagicEffect(other)
                                    && is_same_effect(other, near));
                            assert(kept[k] matches ObjectView::MagicEffect(other)
                                && is_same_effect(other, effect));
                        }
                    }
                }
                assert(is_first_of_its_like(objects, objects.len() - 1));
            }
        } else {
            assert(is_first_of_its_like(objects, objects.len() - 1));
        }
    }
}

/// The package leads to a cell that is there, or to the one that stands in for such cells.
pub open spec fn leads_home(package: AiPackageView, defined: Set<Seq<char>>) -> bool {
    match package {
        AiPackageView::Escort(p) => defined.contains(lower(p.cell)) || p.cell == "igtestcell"@,
        AiPackageView::Follow(p) => defined.contains(lower(p.cell)) || p.cell == "igtestcell"@,
        _ => true,
    }
}

/// The packages of an actor.
pub open spec fn packages_of(object: ObjectView) -> Seq<AiPackageView> {
    match object {
        ObjectView::Creature(r) => r.ai_packages,
        ObjectView::Npc(r) => r.ai_packages,
        _ => Seq::empty(),
    }
}

/// Once actors were sent home, none escorts or follows to a cell that is not there; and sending
/// them home again changes nothing.
pub proof fn law_actors_are_home(objects: Seq<ObjectView>, defined: Set<Seq<char>>)
    ensures
        forall|i: int, k: int|
            0 <= i < objects.len() && 0 <= k < packages_of(objects[i]).len() ==> leads_home(
                #[trigger] packages_of(homed(objects, defined)[i])[k],
                defined,
            ),
        homed(homed(objects, defined), defined) == homed(objects, defined),
{
    let once = homed(objects, defined);
    let twice = homed(once, defined);
    assert forall|i: int, k: int|
        0 <= i < objects.len() && 0 <= k < packages_of(objects[i]).len() implies leads_home(
        #[trigger] packages_of(once[i])[k],
        defined,
    ) by {
        assert(packages_of(once[i])[k] == homed_package(packages_of(objects[i])[k], defined));
    }
    assert forall|i: int| 0 <= i < objects.len() implies once[i] == #[trigger] twice[i] by {
        let packages = packages_of(once[i]);
        assert forall|k: int| 0 <= k < packages.len() implies packages[k]
            == #[trigger] homed_packages(packages, defined)[k] by {
            assert(packages[k] == homed_package(packages_of(objects[i])[k], defined));
        }
        assert(homed_packages(packages, defined) =~= packages);
    }
    assert(twice =~= once);
}

/// Sending actors home changes nothing but the cells of their packages: every record keeps its
/// kind, its id and its place.
pub proof fn law_records_keep_their_places(objects: Seq<ObjectView>, defined: Set<Seq<char>>)
    ensures
        homed(objects, defined).len() == objects.len(),
        forall|i: int|
            0 <= i < objects.len() ==> {
                let o = #[trigger] homed(objects, defined)[i];
                o.id() == objects[i].id() && o.tag() == objects[i].tag() && o.deleted()
                    == objects[i].deleted()
            },
{
}

/// Once the masters were released, the header names none; every other record is as it was.
pub proof fn law_header_names_no_masters(objects: Seq<ObjectView>)
    ensures
        ({
            let after = without_masters(objects);
            &&& after.len() == objects.len()
            &&& header_at(after) == header_at(objects)
            &&& header_at(objects) < objects.len() ==> (
            after[header_at(objects)] matches ObjectView::Header(header) && header.masters
                == Seq::<Seq<char>>::empty())
            &&& forall|i: int|
                0 <= i < objects.len() && i != header_at(objects) ==> after[i]
                    == #[trigger] objects[i]
        }),
{
    let after = without_masters(objects);
    lemma_header_at(objects);
    lemma_header_at(after);
    let a = header_at(objects);
    let b = header_at(after);
    if a < objects.len() {
        assert(after[a] is Header);
        if b < a {
            assert(after[b] == objects[b]);
        }
    } else if b < after.len() {
        assert(after[b] == objects[b]);
    }
}

} // verus!
