//! What the two passes over a plugin do, and what they leave of its records.

use vstd::prelude::*;

use crate::cleanup::{
    defined_effects, header_at, lemma_header_at, undeleted, without_doubles, without_masters,
};
use crate::closure::{completed, copies_of, ImportView};
use crate::closure_laws::law_copies_are_new;
use crate::copying_laws::{
    is_divided, is_portable, law_foundations_come_behind_the_needs_of_the_plugin,
    law_portable_records_define_their_ids,
};
use crate::rebuild::decoupled;
use crate::record_views::{CreatureView, NpcView, ObjectView};
use crate::records::EffectId;
use crate::release::{finished, first_pass, gathered, prepared, second_pass};
use crate::references::defined_ids;
use crate::text::lower;
use crate::tidying_laws::{
    are_equal_effects, are_sent_home, is_doubled, law_doubled_effects_go_one_by_one,
    law_effects_define_their_numbers, law_only_cells_of_packages_change,
};
use crate::trace_laws::{is_attributed, law_copies_are_put_down_to_the_first_need, looked_at};

verus! {

proof fn lemma_pass_name(
    objects: Seq<ObjectView>,
    masters: Seq<Seq<ObjectView>>,
    with_dialogue: bool,
    defined: Set<Seq<char>>,
    effects: Set<EffectId>,
    pass: Seq<char>,
    k: int,
)
    requires
        0 <= k < completed(
            objects,
            masters,
            with_dialogue,
            defined,
            effects,
            pass,
        ).work.imports.len(),
    ensures
        completed(
            objects,
            masters,
            with_dialogue,
            defined,
            effects,
            pass,
        ).work.imports[k].cause.pass == pass,
{
    let imports = completed(
        objects,
        masters,
        with_dialogue,
        defined,
        effects,
        pass,
    ).work.imports;
    if imports[k].foundation {
        law_foundations_come_behind_the_needs_of_the_plugin(
            objects,
            masters,
            with_dialogue,
            defined,
            effects,
            pass,
        );
        let (a, b) = choose|a: int, b: int| #[trigger]
            is_divided(objects, masters, with_dialogue, imports, pass, a, b);
        assert(is_divided(objects, masters, with_dialogue, imports, pass, a, b));
        assert(imports[k].foundation <==> a <= k < b);
    } else {
        law_copies_are_put_down_to_the_first_need(
            objects,
            masters,
            with_dialogue,
            defined,
            effects,
            pass,
            k,
        );
    }
}

/// The first pass copies nothing that the plugin has, deleted or not, and nothing for the sake of
/// lines of dialogue: what is no foundation is put down to the first other record that needs it.
pub proof fn law_first_pass_leaves_dialogue_for_later(
    objects: Seq<ObjectView>,
    masters: Seq<Seq<ObjectView>>,
    k: int,
)
    requires
        0 <= k < first_pass(objects, masters).work.imports.len(),
    ensures
        ({
            let imports = first_pass(objects, masters).work.imports;
            let import = imports[k];
            &&& import.cause.pass == "pre-dialogue"@
            &&& !import.foundation ==> is_attributed(
                looked_at(objects, false, imports.take(k)),
                lower(import.object.id()),
                import.cause,
                "pre-dialogue"@,
            )
            &&& !(import.foundation && import.object is MagicEffect) ==> forall|i: int|
                0 <= i < objects.len() && is_portable(#[trigger] objects[i]) ==> lower(
                    objects[i].id(),
                ) != lower(import.object.id())
            &&& import.foundation && import.object is MagicEffect ==> forall|i: int|
                0 <= i < objects.len() && #[trigger] objects[i] is MagicEffect
                    ==> objects[i]->MagicEffect_0.effect_id
                    != import.object->MagicEffect_0.effect_id
        }),
{
    let defined = defined_ids(objects);
    let effects = defined_effects(objects);
    let pass = "pre-dialogue"@;
    let imports = first_pass(objects, masters).work.imports;
    let import = imports[k];
    lemma_pass_name(objects, masters, false, defined, effects, pass, k);
    if !import.foundation {
        law_copies_are_put_down_to_the_first_need(
            objects,
            masters,
            false,
            defined,
            effects,
            pass,
            k,
        );
    }
    law_copies_are_new(objects, masters, false, defined, effects, pass);
    law_portable_records_define_their_ids(objects, lower(import.object.id()));
    if import.object is MagicEffect {
        law_effects_define_their_numbers(objects, import.object->MagicEffect_0.effect_id);
    }
}

/// The second pass looks at the dialogue that was written anew, its lines too, and copies nothing
/// that the first one has left defined.
pub proof fn law_second_pass_looks_at_dialogue(
    objects: Seq<ObjectView>,
    masters: Seq<Seq<ObjectView>>,
    defined: Set<Seq<char>>,
    effects: Set<EffectId>,
    k: int,
)
    requires
        0 <= k < second_pass(objects, masters, defined, effects).work.imports.len(),
    ensures
        ({
            let imports = second_pass(objects, masters, defined, effects).work.imports;
            let import = imports[k];
            &&& import.cause.pass == "post-dialogue"@
            &&& !import.foundation ==> is_attributed(
                looked_at(decoupled(objects, masters), true, imports.take(k)),
                lower(import.object.id()),
                import.cause,
                "post-dialogue"@,
            )
            &&& !(import.foundation && import.object is MagicEffect) ==> !defined.contains(
                lower(import.object.id()),
            )
            &&& import.foundation && import.object is MagicEffect ==> !effects.contains(
                import.object->MagicEffect_0.effect_id,
            )
        }),
{
    let written = decoupled(objects, masters);
    let pass = "post-dialogue"@;
    let imports = second_pass(objects, masters, defined, effects).work.imports;
    lemma_pass_name(written, masters, true, defined, effects, pass, k);
    if !imports[k].foundation {
        law_copies_are_put_down_to_the_first_need(
            written,
            masters,
            true,
            defined,
            effects,
            pass,
            k,
        );
    }
    law_copies_are_new(written, masters, true, defined, effects, pass);
}

/// Before the dialogue is written anew, the plugin holds its own records and behind them the copies
/// of the first pass, in order, and all of them as they were but for the cells of AI packages:
/// those that are not defined by then give way to the test cell.
pub proof fn law_copies_follow_the_records_of_the_plugin(
    objects: Seq<ObjectView>,
    masters: Seq<Seq<ObjectView>>,
    i: int,
)
    requires
        0 <= i < objects.len() + first_pass(objects, masters).work.imports.len(),
    ensures
        ({
            let first = first_pass(objects, masters).work;
            let out = prepared(objects, masters);
            let before = if i < objects.len() {
                objects[i]
            } else {
                first.imports[i - objects.len()].object
            };
            &&& out.len() == objects.len() + first.imports.len()
            &&& match before {
                ObjectView::Npc(r) => {
                    &&& out[i] is Npc
                    &&& ObjectView::Npc(
                        (NpcView {
                            ai_packages: r.ai_packages,
                            ..out[i]->Npc_0
                        }),
                    ) == before
                    &&& are_sent_home(r.ai_packages, out[i]->Npc_0.ai_packages, first.defined)
                },
                ObjectView::Creature(r) => {
                    &&& out[i] is Creature
                    &&& ObjectView::Creature(
                        (CreatureView {
                            ai_packages: r.ai_packages,
                            ..out[i]->Creature_0
                        }),
                    ) == before
                    &&& are_sent_home(
                        r.ai_packages,
                        out[i]->Creature_0.ai_packages,
                        first.defined,
                    )
                },
                _ => out[i] == before,
            }
        }),
{
    let first = first_pass(objects, masters).work;
    let all = objects + copies_of(first.imports);
    law_only_cells_of_packages_change(all, first.defined, i);
    if i < objects.len() {
        assert(all[i] == objects[i]);
    } else {
        assert(all[i] == first.imports[i - objects.len()].object);
    }
}

/// The records that are neither headers nor magic effects.
pub open spec fn plain(objects: Seq<ObjectView>) -> Seq<ObjectView> {
    objects.filter(|o: ObjectView| !(o is Header) && !(o is MagicEffect))
}

/// The records that are neither headers nor magic effects nor deleted.
pub open spec fn plain_undeleted(objects: Seq<ObjectView>) -> Seq<ObjectView> {
    objects.filter(|o: ObjectView| !(o is Header) && !(o is MagicEffect) && !o.deleted())
}

proof fn lemma_plain_undeleted(objects: Seq<ObjectView>)
    ensures
        plain(undeleted(objects)) == plain_undeleted(objects),
    decreases objects.len(),
{
    reveal(Seq::filter);
    if objects.len() > 0 {
        let rest = objects.drop_last();
        let last = objects.last();
        lemma_plain_undeleted(rest);
        if !last.deleted() {
            assert(undeleted(objects) == undeleted(rest).push(last));
            assert(undeleted(rest).push(last).drop_last() =~= undeleted(rest));
        }
    }
}

proof fn lemma_plain_doubles(objects: Seq<ObjectView>)
    ensures
        plain(without_doubles(objects)) == plain(objects),
    decreases objects.len(),
{
    reveal(Seq::filter);
    if objects.len() > 0 {
        let rest = objects.drop_last();
        let last = objects.last();
        lemma_plain_doubles(rest);
        assert(rest.push(last) =~= objects);
        law_doubled_effects_go_one_by_one(rest, last);
        assert(without_doubles(rest).push(last).drop_last() =~= without_doubles(rest));
    }
}

proof fn lemma_plain_masters(objects: Seq<ObjectView>)
    ensures
        plain(without_masters(objects)) == plain(objects),
{
    lemma_header_at(objects);
    let h = header_at(objects);
    let after = without_masters(objects);
    let pred = |o: ObjectView| !(o is Header) && !(o is MagicEffect);
    if h < objects.len() {
        let front = objects.take(h);
        let back = objects.skip(h + 1);
        assert(objects =~= front.push(objects[h]) + back);
        assert(after =~= front.push(after[h]) + back);
        Seq::filter_distributes_over_add(front.push(objects[h]), back, pred);
        Seq::filter_distributes_over_add(front.push(after[h]), back, pred);
        front.lemma_filter_push(objects[h], pred);
        front.lemma_filter_push(after[h], pred);
    }
}

/// In the end the plugin holds all records that were gathered and are not deleted, in order, as
/// they were; only headers and magic effects are looked at more closely.
pub proof fn law_gathered_records_stay(
    objects: Seq<ObjectView>,
    masters: Seq<Seq<ObjectView>>,
    defined: Set<Seq<char>>,
    effects: Set<EffectId>,
)
    ensures
        ({
            let copies = second_pass(objects, masters, defined, effects).work.imports.map_values(
                |i: ImportView| i.object,
            );
            plain(finished(objects, masters, defined, effects)) == plain_undeleted(
                decoupled(objects, masters) + copies,
            )
        }),
{
    let all = gathered(objects, masters, defined, effects);
    lemma_plain_undeleted(all);
    lemma_plain_doubles(undeleted(all));
    lemma_plain_masters(without_doubles(undeleted(all)));
    let imports = second_pass(objects, masters, defined, effects).work.imports;
    assert(copies_of(imports) =~= imports.map_values(|i: ImportView| i.object));
}

proof fn lemma_effect_stays(objects: Seq<ObjectView>, i: int)
    requires
        0 <= i < objects.len(),
        objects[i] is MagicEffect,
    ensures
        is_doubled(without_doubles(objects), objects[i]->MagicEffect_0),
    decreases objects.len(),
{
    let rest = objects.drop_last();
    let last = objects.last();
    assert(rest.push(last) =~= objects);
    law_doubled_effects_go_one_by_one(rest, last);
    let before = without_doubles(rest);
    let after = without_doubles(objects);
    let effect = objects[i]->MagicEffect_0;
    if i < rest.len() {
        assert(rest[i] == objects[i]);
        lemma_effect_stays(rest, i);
    }
    if is_doubled(before, effect) {
        let k = choose|k: int|
            0 <= k < before.len() && #[trigger] before[k] is MagicEffect && are_equal_effects(
                before[k]->MagicEffect_0,
                effect,
            );
        assert(after[k] == before[k]);
    } else {
        assert(after[after.len() - 1] == objects[i]);
        assert(are_equal_effects(after[after.len() - 1]->MagicEffect_0, effect));
    }
}

proof fn lemma_effects_once(objects: Seq<ObjectView>, i: int, j: int)
    requires
        0 <= i < j < without_doubles(objects).len(),
        without_doubles(objects)[i] is MagicEffect,
        without_doubles(objects)[j] is MagicEffect,
    ensures
        !are_equal_effects(
            without_doubles(objects)[i]->MagicEffect_0,
            without_doubles(objects)[j]->MagicEffect_0,
        ),
    decreases objects.len(),
{
    let rest = objects.drop_last();
    let last = objects.last();
    assert(rest.push(last) =~= objects);
    law_doubled_effects_go_one_by_one(rest, last);
    let before = without_doubles(rest);
    let after = without_doubles(objects);
    if j < before.len() {
        assert(after[i] == before[i] && after[j] == before[j]);
        lemma_effects_once(rest, i, j);
    } else {
        assert(after[j] == last);
        assert(after[i] == before[i]);
    }
}

/// In the end every magic effect that was gathered and is not deleted is there, or one that agrees
/// with it in every field that is stored; no two that are there agree so.
pub proof fn law_gathered_effects_stay_once(
    objects: Seq<ObjectView>,
    masters: Seq<Seq<ObjectView>>,
    defined: Set<Seq<char>>,
    effects: Set<EffectId>,
)
    ensures
        ({
            let copies = second_pass(objects, masters, defined, effects).work.imports.map_values(
                |i: ImportView| i.object,
            );
            let all = decoupled(objects, masters) + copies;
            let out = finished(objects, masters, defined, effects);
            &&& forall|i: int|
                0 <= i < all.len() && #[trigger] all[i] is MagicEffect && !all[i].deleted()
                    ==> is_doubled(out, all[i]->MagicEffect_0)
            &&& forall|i: int, j: int|
                0 <= i < j < out.len() && #[trigger] out[i] is MagicEffect && #[trigger] out[j] is
                    MagicEffect ==> !are_equal_effects(
                    out[i]->MagicEffect_0,
                    out[j]->MagicEffect_0,
                )
        }),
{
    let imports = second_pass(objects, masters, defined, effects).work.imports;
    let all = gathered(objects, masters, defined, effects);
    assert(copies_of(imports) =~= imports.map_values(|i: ImportView| i.object));
    let kept = undeleted(all);
    let single = without_doubles(kept);
    let out = finished(objects, masters, defined, effects);
    let stays = |o: ObjectView| !o.deleted();
    lemma_header_at(single);
    assert(out.len() == single.len());
    assert forall|k: int| 0 <= k < out.len() implies (#[trigger] out[k] is MagicEffect <==>
        single[k] is MagicEffect) && (out[k] is MagicEffect ==> out[k] == single[k]) by {}
    assert forall|i: int|
        0 <= i < all.len() && #[trigger] all[i] is MagicEffect && !all[i].deleted() implies
        is_doubled(out, all[i]->MagicEffect_0) by {
        all.lemma_filter_contains(stays, i);
        let k = choose|k: int| 0 <= k < kept.len() && kept[k] == all[i];
        lemma_effect_stays(kept, k);
        let effect = all[i]->MagicEffect_0;
        let l = choose|l: int|
            0 <= l < single.len() && #[trigger] single[l] is MagicEffect && are_equal_effects(
                single[l]->MagicEffect_0,
                effect,
            );
        assert(out[l] is MagicEffect <==> single[l] is MagicEffect);
        assert(out[l] == single[l]);
    }
    assert forall|i: int, j: int|
        0 <= i < j < out.len() && #[trigger] out[i] is MagicEffect && #[trigger] out[j] is
            MagicEffect implies !are_equal_effects(
        out[i]->MagicEffect_0,
        out[j]->MagicEffect_0,
    ) by {
        lemma_effects_once(kept, i, j);
    }
}

/// In the end the first header, if there is one, names no masters.
pub proof fn law_first_header_in_the_end_names_no_masters(
    objects: Seq<ObjectView>,
    masters: Seq<Seq<ObjectView>>,
    defined: Set<Seq<char>>,
    effects: Set<EffectId>,
    i: int,
)
    requires
        ({
            let out = finished(objects, masters, defined, effects);
            &&& 0 <= i < out.len()
            &&& out[i] is Header
            &&& forall|j: int| 0 <= j < i ==> !(#[trigger] out[j] is Header)
        }),
    ensures
        finished(objects, masters, defined, effects)[i]->Header_0.masters.len() == 0,
{
    let single = without_doubles(undeleted(gathered(objects, masters, defined, effects)));
    let out = finished(objects, masters, defined, effects);
    lemma_header_at(single);
    let h = header_at(single);
    if h < single.len() {
        assert(out[h] is Header);
        if i != h {
            assert(out[i] == single[i]);
        }
    }
}

} // verus!
