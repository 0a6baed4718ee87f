//! What holds of a plugin that was cut loose from its masters.

use vstd::prelude::*;

use crate::cleanup::{
    defined_effects, header_at, homed_object, is_same_effect, lemma_header_at, undeleted,
    without_doubles, without_masters,
};
use crate::cleanup_laws::{
    law_header_names_no_masters, law_one_of_the_doubles_stays, law_only_deleted_records_go,
    stands_for,
};
use crate::closure::{
    completed, copies_of, lay_all, lay_master, lemma_source_of, lemma_step_decreases, missing,
    settle, source_of, start, step, FoundationView, ImportView, WorkView,
};
use crate::closure_laws::{is_looked_at, is_met, law_copies_come_from_masters, law_needs_are_met};
use crate::rebuild::decoupled;
use crate::rebuild_laws::{is_other, law_other_records_stay, others};
use crate::record_views::ObjectView;
use crate::records::EffectId;
use crate::references::{
    defined_ids, defines, is_scanned, lowered, references, required_ids, stays_home,
};
use crate::release::{finished, first_pass, gathered, prepared, second_pass};
use crate::text::lower;

verus! {

/// The records of the plugin in the end, from those that it had.
pub open spec fn released(objects: Seq<ObjectView>, masters: Seq<Seq<ObjectView>>) -> Seq<
    ObjectView,
> {
    let first = first_pass(objects, masters);
    finished(prepared(objects, masters), masters, first.work.defined, first.effects)
}

/// A record of the plugin that may be copied goes by `id` and is deleted.
pub open spec fn is_buried(objects: Seq<ObjectView>, id: Seq<char>) -> bool {
    exists|i: int|
        0 <= i < objects.len() && (#[trigger] objects[i]).deleted() && !stays_home(objects[i])
            && lower(objects[i].id()) == id
}

/// All that is defined was so from the start, or by a copy.
spec fn is_backed(defined: Set<Seq<char>>, w: WorkView) -> bool {
    forall|id: Seq<char>| #[trigger]
        w.defined.contains(id) ==> defined.contains(id) || defines(copies_of(w.imports), id)
}

proof fn lemma_copies_push(imports: Seq<ImportView>, import: ImportView, id: Seq<char>)
    ensures
        defines(copies_of(imports), id) ==> defines(copies_of(imports.push(import)), id),
        !stays_home(import.object) && lower(import.object.id()) == id ==> defines(
            copies_of(imports.push(import)),
            id,
        ),
{
    let before = copies_of(imports);
    let after = copies_of(imports.push(import));
    if defines(before, id) {
        let i = choose|i: int|
            0 <= i < before.len() && !stays_home(#[trigger] before[i]) && lower(before[i].id())
                == id;
        assert(after[i] == before[i]);
    }
    assert(after[before.len() as int] == import.object);
}

proof fn lemma_settle_backed(
    masters: Seq<Seq<ObjectView>>,
    defined: Set<Seq<char>>,
    w: WorkView,
    pass: Seq<char>,
)
    requires
        is_backed(defined, w),
    ensures
        is_backed(defined, settle(masters, w, pass)),
    decreases missing(masters, w.defined).len(), w.pending.len(),
{
    if w.pending.len() > 0 {
        lemma_step_decreases(masters, w, pass);
        let next = step(masters, w, pass);
        let first = w.pending[0].id;
        lemma_source_of(masters, first);
        assert forall|id: Seq<char>| #[trigger] next.defined.contains(id) implies defined.contains(
            id,
        ) || defines(copies_of(next.imports), id) by {
            if next.imports.len() > w.imports.len() {
                lemma_copies_push(w.imports, next.imports.last(), id);
                assert(next.imports =~= w.imports.push(next.imports.last()));
            }
            if w.defined.contains(id) {
                assert(defined.contains(id) || defines(copies_of(w.imports), id));
            }
        }
        lemma_settle_backed(masters, defined, next, pass);
    }
}

proof fn lemma_lay_backed(
    defined: Set<Seq<char>>,
    f: FoundationView,
    objects: Seq<ObjectView>,
    master: int,
    pass: Seq<char>,
)
    requires
        is_backed(defined, f.work),
    ensures
        is_backed(defined, lay_master(f, objects, master, pass).work),
    decreases objects.len(),
{
    if objects.len() > 0 {
        let before = lay_master(f, objects.drop_last(), master, pass);
        let after = lay_master(f, objects, master, pass);
        lemma_lay_backed(defined, f, objects.drop_last(), master, pass);
        assert forall|id: Seq<char>| #[trigger] after.work.defined.contains(id) implies
            defined.contains(id) || defines(copies_of(after.work.imports), id) by {
            if after.work.imports.len() > before.work.imports.len() {
                let import = after.work.imports.last();
                assert(after.work.imports =~= before.work.imports.push(import));
                lemma_copies_push(before.work.imports, import, id);
            }
            if before.work.defined.contains(id) {
                assert(defined.contains(id) || defines(copies_of(before.work.imports), id));
            }
        }
    }
}

proof fn lemma_lay_all_backed(
    defined: Set<Seq<char>>,
    f: FoundationView,
    masters: Seq<Seq<ObjectView>>,
    pass: Seq<char>,
)
    requires
        is_backed(defined, f.work),
    ensures
        is_backed(defined, lay_all(f, masters, pass).work),
    decreases masters.len(),
{
    if masters.len() > 0 {
        lemma_lay_all_backed(defined, f, masters.drop_last(), pass);
        lemma_lay_backed(
            defined,
            lay_all(f, masters.drop_last(), pass),
            masters.last(),
            masters.len() - 1,
            pass,
        );
    }
}

/// What a pass defines beyond what was defined before, it copies.
pub proof fn law_only_copies_are_defined(
    objects: Seq<ObjectView>,
    masters: Seq<Seq<ObjectView>>,
    with_dialogue: bool,
    defined: Set<Seq<char>>,
    effects: Set<EffectId>,
    pass: Seq<char>,
    id: Seq<char>,
)
    requires
        completed(
            objects,
            masters,
            with_dialogue,
            defined,
            effects,
            pass,
        ).work.defined.contains(id),
    ensures
        defined.contains(id) || defines(
            copies_of(
                completed(objects, masters, with_dialogue, defined, effects, pass).work.imports,
            ),
            id,
        ),
{
    let begun = start(objects, with_dialogue, defined, pass);
    let settled = settle(masters, begun, pass);
    let based = lay_all(FoundationView { work: settled, effects }, masters, pass);
    lemma_settle_backed(masters, defined, begun, pass);
    lemma_lay_all_backed(defined, FoundationView { work: settled, effects }, masters, pass);
    lemma_settle_backed(masters, defined, based.work, pass);
}

/// No record that is deleted is left.
pub proof fn law_nothing_deleted_is_left(
    objects: Seq<ObjectView>,
    masters: Seq<Seq<ObjectView>>,
    defined: Set<Seq<char>>,
    effects: Set<EffectId>,
    i: int,
)
    requires
        0 <= i < finished(objects, masters, defined, effects).len(),
    ensures
        !finished(objects, masters, defined, effects)[i].deleted(),
{
    let all = gathered(objects, masters, defined, effects);
    let cleaned = without_doubles(undeleted(all));
    law_only_deleted_records_go(all);
    law_one_of_the_doubles_stays(undeleted(all));
    law_header_names_no_masters(cleaned);
    lemma_header_at(cleaned);
    assert(cleaned.contains(cleaned[i]));
    assert(undeleted(all).contains(cleaned[i]));
    if i != header_at(cleaned) {
        assert(without_masters(cleaned)[i] == cleaned[i]);
    }
}

/// The header names no masters.
pub proof fn law_no_masters_are_left(
    objects: Seq<ObjectView>,
    masters: Seq<Seq<ObjectView>>,
    defined: Set<Seq<char>>,
    effects: Set<EffectId>,
)
    ensures
        ({
            let out = finished(objects, masters, defined, effects);
            header_at(out) < out.len() ==> (out[header_at(out)] matches ObjectView::Header(header)
                && header.masters == Seq::<Seq<char>>::empty())
        }),
{
    let all = gathered(objects, masters, defined, effects);
    law_header_names_no_masters(without_doubles(undeleted(all)));
}

/// A record that is left was among those that were gathered, or is the header.
proof fn lemma_left_was_gathered(
    objects: Seq<ObjectView>,
    masters: Seq<Seq<ObjectView>>,
    defined: Set<Seq<char>>,
    effects: Set<EffectId>,
    o: ObjectView,
)
    requires
        finished(objects, masters, defined, effects).contains(o),
    ensures
        o is Header || gathered(objects, masters, defined, effects).contains(o) && !o.deleted(),
{
    let all = gathered(objects, masters, defined, effects);
    let cleaned = without_doubles(undeleted(all));
    let out = without_masters(cleaned);
    let i = choose|i: int| 0 <= i < out.len() && out[i] == o;
    law_only_deleted_records_go(all);
    law_one_of_the_doubles_stays(undeleted(all));
    law_header_names_no_masters(cleaned);
    lemma_header_at(cleaned);
    if i != header_at(cleaned) {
        assert(cleaned[i] == o);
        assert(cleaned.contains(o));
        assert(undeleted(all).contains(o));
    }
}

/// All that the plugin needs in the end is defined, or no master offers it.
pub proof fn law_needs_are_met_in_the_end(
    objects: Seq<ObjectView>,
    masters: Seq<Seq<ObjectView>>,
    defined: Set<Seq<char>>,
    effects: Set<EffectId>,
    o: ObjectView,
    id: Seq<char>,
)
    requires
        finished(objects, masters, defined, effects).contains(o),
        required_ids(o).contains(id),
    ensures
        is_met(masters, second_pass(objects, masters, defined, effects).work.defined, id),
{
    let after = second_pass(objects, masters, defined, effects).work;
    let written = decoupled(objects, masters);
    lemma_left_was_gathered(objects, masters, defined, effects, o);
    law_needs_are_met(written, masters, true, defined, effects, "post-dialogue"@);
    if o is Header {
        assert(lowered(references(o)).len() == 0);
    } else {
        let all = written + copies_of(after.imports);
        let k = choose|k: int| 0 <= k < all.len() && all[k] == o;
        if k < written.len() {
            assert(written[k] == o);
            assert(is_scanned(o, true));
        } else {
            assert(copies_of(after.imports)[k - written.len()] == o);
        }
        assert(is_looked_at(written, true, after.imports, o));
    }
}

/// A record that defines `id` and is not deleted stays, or one like it does.
proof fn lemma_definer_stays(all: Seq<ObjectView>, k: int, id: Seq<char>)
    requires
        0 <= k < all.len(),
        !all[k].deleted(),
        !stays_home(all[k]),
        lower(all[k].id()) == id,
    ensures
        defines(without_masters(without_doubles(undeleted(all))), id),
{
    let o = all[k];
    let kept = undeleted(all);
    let cleaned = without_doubles(kept);
    let out = without_masters(cleaned);
    assert(all.contains(o));
    law_only_deleted_records_go(all);
    law_one_of_the_doubles_stays(kept);
    law_header_names_no_masters(cleaned);
    lemma_header_at(cleaned);
    assert(kept.contains(o));
    assert(stands_for(cleaned, o));
    let j = if cleaned.contains(o) {
        choose|j: int| 0 <= j < cleaned.len() && cleaned[j] == o
    } else {
        let effect = o->MagicEffect_0;
        choose|j: int|
            0 <= j < cleaned.len() && (#[trigger] cleaned[j] matches ObjectView::MagicEffect(other)
                && is_same_effect(other, effect))
    };
    assert(!stays_home(cleaned[j]) && lower(cleaned[j].id()) == id);
    assert(j != header_at(cleaned));
    assert(out[j] == cleaned[j]);
}

/// A record that may be copied is still there once the dialogue was written anew.
proof fn lemma_definer_is_rewritten(
    objects: Seq<ObjectView>,
    masters: Seq<Seq<ObjectView>>,
    k: int,
) -> (j: int)
    requires
        0 <= k < objects.len(),
        !stays_home(objects[k]),
    ensures
        0 <= j < decoupled(objects, masters).len(),
        decoupled(objects, masters)[j] == objects[k],
{
    let out = decoupled(objects, masters);
    let o = objects[k];
    let keep = |o: ObjectView| is_other(o);
    law_other_records_stay(objects, masters);
    objects.lemma_filter_contains(keep, k);
    assert(others(out).contains(o));
    out.lemma_filter_contains_rev(keep, o);
    choose|j: int| 0 <= j < out.len() && out[j] == o
}

/// The released plugin stands alone: whatever a record of it needs, a record of it defines, unless
/// no master offers it either, or the plugin had deleted it.
pub proof fn law_released_plugin_stands_alone(
    objects: Seq<ObjectView>,
    masters: Seq<Seq<ObjectView>>,
    o: ObjectView,
    id: Seq<char>,
)
    requires
        released(objects, masters).contains(o),
        required_ids(o).contains(id),
    ensures
        defines(released(objects, masters), id) || source_of(masters, id) is None || is_buried(
            objects,
            id,
        ),
{
    let first = first_pass(objects, masters);
    let defined = first.work.defined;
    let effects = first.effects;
    let ready = prepared(objects, masters);
    let second = second_pass(ready, masters, defined, effects);
    let written = decoupled(ready, masters);
    let copies1 = copies_of(first.work.imports);
    let copies2 = copies_of(second.work.imports);
    let all = gathered(ready, masters, defined, effects);
    law_needs_are_met_in_the_end(ready, masters, defined, effects, o, id);
    if second.work.defined.contains(id) {
        law_only_copies_are_defined(
            written,
            masters,
            true,
            defined,
            effects,
            "post-dialogue"@,
            id,
        );
        if defines(copies2, id) {
            let i = choose|i: int|
                0 <= i < copies2.len() && !stays_home(#[trigger] copies2[i]) && lower(
                    copies2[i].id(),
                ) == id;
            law_copies_come_from_masters(
                written,
                masters,
                true,
                defined,
                effects,
                "post-dialogue"@,
                i,
            );
            assert(all[written.len() + i] == copies2[i]);
            lemma_definer_stays(all, written.len() + i, id);
        } else {
            law_only_copies_are_defined(
                objects,
                masters,
                false,
                defined_ids(objects),
                defined_effects(objects),
                "pre-dialogue"@,
                id,
            );
            let had = objects + copies1;
            let i = if defines(copies1, id) {
                let i = choose|i: int|
                    0 <= i < copies1.len() && !stays_home(#[trigger] copies1[i]) && lower(
                        copies1[i].id(),
                    ) == id;
                law_copies_come_from_masters(
                    objects,
                    masters,
                    false,
                    defined_ids(objects),
                    defined_effects(objects),
                    "pre-dialogue"@,
                    i,
                );
                assert(had[objects.len() + i] == copies1[i]);
                objects.len() + i
            } else {
                assert(defines(objects, id));
                let i = choose|i: int|
                    0 <= i < objects.len() && !stays_home(#[trigger] objects[i]) && lower(
                        objects[i].id(),
                    ) == id;
                assert(had[i] == objects[i]);
                i
            };
            assert(ready[i] == homed_object(had[i], defined));
            assert(!stays_home(ready[i]) && lower(ready[i].id()) == id);
            let j = lemma_definer_is_rewritten(ready, masters, i);
            assert(all[j] == ready[i]);
            if ready[i].deleted() {
                assert(i < objects.len());
                assert(objects[i].deleted());
            } else {
                lemma_definer_stays(all, j, id);
            }
        }
    }
}

} // verus!
