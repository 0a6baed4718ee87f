//! What holds of a plugin once its needs were copied from the masters.

use vstd::prelude::*;

use crate::closure::{
    completed, copies_of, enqueue, first_offer, foundation_cause, fresh_entries, is_foundation, lay,
    lay_all, lay_master, lemma_first_offer, lemma_source_of, lemma_step_decreases, missing, needing,
    offers, pending_for, settle, source_of, start, step, FoundationView, ImportView, WorkView,
};
use crate::ids::{lemma_sorted_lists, sorted};
use crate::pending::PendingView;
use crate::record_views::ObjectView;
use crate::records::EffectId;
use crate::references::{
    all_required_ids, is_required, is_scanned, lemma_required_finite, lemma_required_step,
    required_ids, stays_home,
};
use crate::text::lower;

verus! {

/// A need that asks for no copy: it is defined, or no master offers it.
pub open spec fn is_met(
    masters: Seq<Seq<ObjectView>>,
    defined: Set<Seq<char>>,
    id: Seq<char>,
) -> bool {
    defined.contains(id) || source_of(masters, id) is None
}

/// An entry for `id` waits.
pub open spec fn waits(pending: Seq<PendingView>, id: Seq<char>) -> bool {
    exists|k: int| 0 <= k < pending.len() && (#[trigger] pending[k]).id == id
}

/// The copy is that of a record of its master which is not deleted and may be copied.
pub open spec fn is_copy(masters: Seq<Seq<ObjectView>>, import: ImportView) -> bool {
    &&& 0 <= import.master < masters.len()
    &&& masters[import.master].contains(import.object)
    &&& !import.object.deleted()
    &&& !stays_home(import.object)
}

/// A record that is looked at for its needs: a scanned record of the plugin, or a copy.
pub open spec fn is_looked_at(
    objects: Seq<ObjectView>,
    with_dialogue: bool,
    imports: Seq<ImportView>,
    object: ObjectView,
) -> bool {
    ||| objects.contains(object) && is_scanned(object, with_dialogue)
    ||| copies_of(imports).contains(object)
}

/// A record that is looked at needs the id of the entry, and is its cause.
pub open spec fn is_caused(
    objects: Seq<ObjectView>,
    with_dialogue: bool,
    imports: Seq<ImportView>,
    entry: PendingView,
    pass: Seq<char>,
) -> bool {
    exists|o: ObjectView| #[trigger]
        is_looked_at(objects, with_dialogue, imports, o) && required_ids(o).contains(entry.id)
            && entry == pending_for(o, entry.id, pass)
}

/// Copies that go by their ids: all but the magic effects among the foundations.
pub open spec fn goes_by_id(import: ImportView) -> bool {
    !(import.foundation && import.object is MagicEffect)
}

/// The id of a copy, in lower case.
pub open spec fn copied_id(import: ImportView) -> Seq<char> {
    lower(import.object.id())
}

/// What holds at every moment of the work.
pub open spec fn is_sound(
    objects: Seq<ObjectView>,
    with_dialogue: bool,
    masters: Seq<Seq<ObjectView>>,
    defined: Set<Seq<char>>,
    pass: Seq<char>,
    w: WorkView,
) -> bool {
    &&& all_required_ids(objects, with_dialogue).subset_of(w.required)
    &&& forall|id: Seq<char>| #[trigger]
        w.required.contains(id) ==> is_met(masters, w.defined, id) || waits(w.pending, id)
    &&& forall|k: int|
        0 <= k < w.imports.len() ==> required_ids((#[trigger] w.imports[k]).object).subset_of(
            w.required,
        )
    &&& forall|k: int| 0 <= k < w.imports.len() ==> is_copy(masters, #[trigger] w.imports[k])
    &&& forall|k: int|
        0 <= k < w.pending.len() ==> is_caused(
            objects,
            with_dialogue,
            w.imports,
            #[trigger] w.pending[k],
            pass,
        )
    &&& forall|k: int|
        0 <= k < w.imports.len() && !(#[trigger] w.imports[k]).foundation ==> is_caused(
            objects,
            with_dialogue,
            w.imports.take(k),
            (PendingView { id: copied_id(w.imports[k]), cause: w.imports[k].cause }),
            pass,
        )
    &&& forall|k: int|
        0 <= k < w.imports.len() && !(#[trigger] w.imports[k]).foundation ==> is_first_source(
            masters,
            w.imports[k],
        )
    &&& forall|k: int|
        0 <= k < w.imports.len() && goes_by_id(#[trigger] w.imports[k]) ==> w.defined.contains(
            copied_id(w.imports[k]),
        ) && !defined.contains(copied_id(w.imports[k]))
    &&& forall|a: int, b: int|
        0 <= a < b < w.imports.len() && goes_by_id(#[trigger] w.imports[a]) && goes_by_id(
            #[trigger] w.imports[b],
        ) ==> copied_id(w.imports[a]) != copied_id(w.imports[b])
    &&& defined.subset_of(w.defined)
}

/// The copied record is what its id stands for: the first offer of the first master that has one.
pub open spec fn is_first_source(masters: Seq<Seq<ObjectView>>, import: ImportView) -> bool {
    source_of(masters, copied_id(import)) matches Some((m, j)) && m == import.master
        && masters[m][j] == import.object
}

/// What the entries for the needs of a record hold, and that they leave none out.
proof fn lemma_fresh_entries(o: ObjectView, known: Set<Seq<char>>, pass: Seq<char>)
    ensures
        forall|k: int|
            0 <= k < fresh_entries(o, known, pass).len() ==> {
                let entry = #[trigger] fresh_entries(o, known, pass)[k];
                entry == pending_for(o, entry.id, pass) && required_ids(o).contains(entry.id)
            },
        forall|id: Seq<char>| #[trigger]
            required_ids(o).contains(id) && !known.contains(id) ==> waits(
                fresh_entries(o, known, pass),
                id,
            ),
{
    let fresh = required_ids(o).difference(known);
    let listing = sorted(fresh);
    let entries = fresh_entries(o, known, pass);
    lemma_required_finite(o);
    vstd::set_lib::lemma_set_subset_finite(required_ids(o), fresh);
    lemma_sorted_lists(fresh);
    assert forall|k: int| 0 <= k < entries.len() implies ({
        let entry = #[trigger] entries[k];
        entry == pending_for(o, entry.id, pass) && required_ids(o).contains(entry.id)
    }) by {
        assert(listing.to_set().contains(listing[k]));
    }
    assert forall|id: Seq<char>| #[trigger]
        required_ids(o).contains(id) && !known.contains(id) implies waits(entries, id) by {
        assert(listing.to_set().contains(id));
        let k = choose|k: int| 0 <= k < listing.len() && listing[k] == id;
        assert(entries[k].id == id);
    }
}

/// More copies leave no cause behind.
proof fn lemma_caused_grows(
    objects: Seq<ObjectView>,
    with_dialogue: bool,
    imports: Seq<ImportView>,
    import: ImportView,
    entry: PendingView,
    pass: Seq<char>,
)
    requires
        is_caused(objects, with_dialogue, imports, entry, pass),
    ensures
        is_caused(objects, with_dialogue, imports.push(import), entry, pass),
{
    let o = choose|o: ObjectView| #[trigger]
        is_looked_at(objects, with_dialogue, imports, o) && required_ids(o).contains(entry.id)
            && entry == pending_for(o, entry.id, pass);
    let copies = copies_of(imports);
    let more = copies_of(imports.push(import));
    if copies.contains(o) {
        let k = choose|k: int| 0 <= k < copies.len() && copies[k] == o;
        assert(more[k] == o);
    }
    assert(is_looked_at(objects, with_dialogue, imports.push(import), o));
}

/// A copy keeps the work sound.
proof fn lemma_copy_sound(
    objects: Seq<ObjectView>,
    with_dialogue: bool,
    masters: Seq<Seq<ObjectView>>,
    defined: Set<Seq<char>>,
    pass: Seq<char>,
    w: WorkView,
    left: Seq<PendingView>,
    known: Set<Seq<char>>,
    import: ImportView,
)
    requires
        is_sound(objects, with_dialogue, masters, defined, pass, w),
        forall|k: int| 0 <= k < left.len() ==> w.pending.contains(#[trigger] left[k]),
        forall|k: int|
            0 <= k < w.pending.len() ==> known.contains((#[trigger] w.pending[k]).id) || waits(
                left,
                w.pending[k].id,
            ),
        w.defined.subset_of(known),
        is_copy(masters, import),
        goes_by_id(import) ==> known.contains(copied_id(import)) && !w.defined.contains(
            copied_id(import),
        ),
        !import.foundation ==> is_first_source(masters, import) && is_caused(
            objects,
            with_dialogue,
            w.imports,
            (PendingView { id: copied_id(import), cause: import.cause }),
            pass,
        ),
    ensures
        is_sound(
            objects,
            with_dialogue,
            masters,
            defined,
            pass,
            enqueue(
                WorkView {
                    defined: known,
                    required: w.required,
                    pending: left,
                    imports: w.imports.push(import),
                },
                import.object,
                pass,
            ),
        ),
{
    let o = import.object;
    let imports = w.imports.push(import);
    let entries = fresh_entries(o, w.required, pass);
    let next = enqueue(
        WorkView { defined: known, required: w.required, pending: left, imports },
        o,
        pass,
    );
    lemma_fresh_entries(o, w.required, pass);
    assert(next.pending == left + entries);
    assert forall|id: Seq<char>| waits(left, id) implies #[trigger] waits(next.pending, id) by {
        let k = choose|k: int| 0 <= k < left.len() && (#[trigger] left[k]).id == id;
        assert(next.pending[k].id == id);
    }
    assert forall|id: Seq<char>| waits(entries, id) implies #[trigger] waits(
        next.pending,
        id,
    ) by {
        let k = choose|k: int| 0 <= k < entries.len() && (#[trigger] entries[k]).id == id;
        assert(next.pending[left.len() + k].id == id);
    }
    assert forall|id: Seq<char>| #[trigger] next.required.contains(id) implies is_met(
        masters,
        next.defined,
        id,
    ) || waits(next.pending, id) by {
        if w.required.contains(id) {
            if !is_met(masters, w.defined, id) {
                assert(waits(w.pending, id));
                let k = choose|k: int| 0 <= k < w.pending.len() && (#[trigger] w.pending[k]).id
                    == id;
                assert(known.contains(w.pending[k].id) || waits(left, w.pending[k].id));
            }
        } else {
            assert(required_ids(o).contains(id));
            assert(waits(entries, id));
        }
    }
    assert forall|k: int| 0 <= k < imports.len() implies required_ids(
        (#[trigger] imports[k]).object,
    ).subset_of(next.required) by {
        if k < w.imports.len() {
            assert(imports[k] == w.imports[k]);
        }
    }
    assert forall|k: int| 0 <= k < imports.len() implies is_copy(
        masters,
        #[trigger] imports[k],
    ) by {
        if k < w.imports.len() {
            assert(imports[k] == w.imports[k]);
        }
    }
    assert(is_looked_at(objects, with_dialogue, imports, o)) by {
        assert(copies_of(imports)[imports.len() - 1] == o);
    }
    assert forall|k: int| 0 <= k < next.pending.len() implies is_caused(
        objects,
        with_dialogue,
        imports,
        #[trigger] next.pending[k],
        pass,
    ) by {
        if k < left.len() {
            assert(next.pending[k] == left[k]);
            let l = choose|l: int| 0 <= l < w.pending.len() && w.pending[l] == left[k];
            lemma_caused_grows(objects, with_dialogue, w.imports, import, w.pending[l], pass);
        } else {
            assert(next.pending[k] == entries[k - left.len()]);
        }
    }
    assert forall|k: int| 0 <= k < imports.len() && !(#[trigger] imports[k]).foundation implies {
        &&& is_caused(
            objects,
            with_dialogue,
            imports.take(k),
            (PendingView { id: copied_id(imports[k]), cause: imports[k].cause }),
            pass,
        )
        &&& is_first_source(masters, imports[k])
    } by {
        assert(imports.take(k) =~= w.imports.take(k));
        if k < w.imports.len() {
            assert(imports[k] == w.imports[k]);
        } else {
            assert(imports[k] == import);
            assert(imports.take(k) =~= w.imports);
        }
    }
    assert forall|k: int| 0 <= k < imports.len() && goes_by_id(#[trigger] imports[k]) implies {
        next.defined.contains(copied_id(imports[k])) && !defined.contains(copied_id(imports[k]))
    } by {
        if k < w.imports.len() {
            assert(imports[k] == w.imports[k]);
        } else {
            assert(imports[k] == import);
        }
    }
    assert forall|a: int, b: int|
        0 <= a < b < imports.len() && goes_by_id(#[trigger] imports[a]) && goes_by_id(
            #[trigger] imports[b],
        ) implies copied_id(imports[a]) != copied_id(imports[b]) by {
        assert(imports[a] == w.imports[a]);
        if b < w.imports.len() {
            assert(imports[b] == w.imports[b]);
        } else {
            assert(imports[b] == import);
        }
    }
}

/// A look keeps the work sound.
proof fn lemma_step_sound(
    objects: Seq<ObjectView>,
    with_dialogue: bool,
    masters: Seq<Seq<ObjectView>>,
    defined: Set<Seq<char>>,
    pass: Seq<char>,
    w: WorkView,
)
    requires
        is_sound(objects, with_dialogue, masters, defined, pass, w),
        w.pending.len() > 0,
    ensures
        is_sound(objects, with_dialogue, masters, defined, pass, step(masters, w, pass)),
{
    let first = w.pending[0];
    let left = w.pending.skip(1);
    let next = step(masters, w, pass);
    lemma_source_of(masters, first.id);
    assert forall|k: int| 0 <= k < w.pending.len() implies (#[trigger] w.pending[k]).id == first.id
        || waits(left, w.pending[k].id) by {
        if k > 0 {
            assert(left[k - 1] == w.pending[k]);
        }
    }
    assert forall|k: int| 0 <= k < left.len() implies w.pending.contains(#[trigger] left[k]) by {
        assert(w.pending[k + 1] == left[k]);
    }
    if is_met(masters, w.defined, first.id) {
        assert(next.pending == left);
        assert forall|id: Seq<char>| #[trigger] next.required.contains(id) implies is_met(
            masters,
            next.defined,
            id,
        ) || waits(next.pending, id) by {
            if waits(w.pending, id) {
                let k = choose|k: int| 0 <= k < w.pending.len() && (#[trigger] w.pending[k]).id
                    == id;
                assert(w.pending[k].id == first.id || waits(left, w.pending[k].id));
            }
        }
        assert forall|k: int| 0 <= k < next.pending.len() implies is_caused(
            objects,
            with_dialogue,
            next.imports,
            #[trigger] next.pending[k],
            pass,
        ) by {
            assert(w.pending[k + 1] == left[k]);
        }
    } else {
        let (m, j) = source_of(masters, first.id)->0;
        let import = ImportView {
            object: masters[m][j],
            master: m,
            foundation: false,
            cause: first.cause,
        };
        assert(masters[m].contains(masters[m][j]));
        assert(copied_id(import) == first.id);
        assert((PendingView { id: copied_id(import), cause: import.cause }) == first);
        lemma_copy_sound(
            objects,
            with_dialogue,
            masters,
            defined,
            pass,
            w,
            left,
            w.defined.insert(first.id),
            import,
        );
    }
}

/// Work stays sound until nothing waits.
pub proof fn lemma_settle_sound(
    objects: Seq<ObjectView>,
    with_dialogue: bool,
    masters: Seq<Seq<ObjectView>>,
    defined: Set<Seq<char>>,
    pass: Seq<char>,
    w: WorkView,
)
    requires
        is_sound(objects, with_dialogue, masters, defined, pass, w),
    ensures
        is_sound(objects, with_dialogue, masters, defined, pass, settle(masters, w, pass)),
        settle(masters, w, pass).pending.len() == 0,
        w.defined.subset_of(settle(masters, w, pass).defined),
    decreases missing(masters, w.defined).len(), w.pending.len(),
{
    if w.pending.len() > 0 {
        lemma_step_decreases(masters, w, pass);
        lemma_step_sound(objects, with_dialogue, masters, defined, pass, w);
        lemma_settle_sound(objects, with_dialogue, masters, defined, pass, step(masters, w, pass));
    }
}

/// Records need finitely many others.
pub proof fn lemma_all_required_finite(objects: Seq<ObjectView>, with_dialogue: bool)
    ensures
        all_required_ids(objects, with_dialogue).finite(),
    decreases objects.len(),
{
    if objects.len() == 0 {
        assert(all_required_ids(objects, with_dialogue) =~= Set::empty());
    } else {
        let n = objects.len() - 1;
        lemma_all_required_finite(objects.take(n), with_dialogue);
        lemma_required_step(objects, with_dialogue, n);
        lemma_required_finite(objects[n]);
        assert(objects.take(n + 1) =~= objects);
    }
}

proof fn lemma_needing(objects: Seq<ObjectView>, with_dialogue: bool, id: Seq<char>)
    requires
        is_required(objects, with_dialogue, id),
    ensures
        ({
            let o = needing(objects, with_dialogue, id);
            objects.contains(o) && is_scanned(o, with_dialogue) && required_ids(o).contains(id)
        }),
    decreases objects.len(),
{
    let k = choose|k: int|
        0 <= k < objects.len() && is_scanned(#[trigger] objects[k], with_dialogue) && required_ids(
            objects[k],
        ).contains(id);
    let rest = objects.drop_last();
    if is_required(rest, with_dialogue, id) {
        lemma_needing(rest, with_dialogue, id);
        let o = needing(rest, with_dialogue, id);
        let i = choose|i: int| 0 <= i < rest.len() && rest[i] == o;
        assert(objects[i] == o);
    } else {
        if k < rest.len() {
            assert(rest[k] == objects[k]);
        }
        assert(objects[k] == objects.last());
    }
}

/// Work begins sound.
pub proof fn lemma_start_sound(
    objects: Seq<ObjectView>,
    with_dialogue: bool,
    masters: Seq<Seq<ObjectView>>,
    defined: Set<Seq<char>>,
    pass: Seq<char>,
)
    ensures
        is_sound(
            objects,
            with_dialogue,
            masters,
            defined,
            pass,
            start(objects, with_dialogue, defined, pass),
        ),
{
    let w = start(objects, with_dialogue, defined, pass);
    let listing = sorted(w.required);
    lemma_all_required_finite(objects, with_dialogue);
    lemma_sorted_lists(w.required);
    assert forall|id: Seq<char>| #[trigger] w.required.contains(id) implies waits(
        w.pending,
        id,
    ) by {
        assert(listing.to_set().contains(id));
        let k = choose|k: int| 0 <= k < listing.len() && listing[k] == id;
        assert(w.pending[k].id == id);
    }
    assert forall|k: int| 0 <= k < w.pending.len() implies is_caused(
        objects,
        with_dialogue,
        w.imports,
        #[trigger] w.pending[k],
        pass,
    ) by {
        let id = listing[k];
        assert(listing.to_set().contains(id));
        lemma_needing(objects, with_dialogue, id);
        let o = needing(objects, with_dialogue, id);
        assert(is_looked_at(objects, with_dialogue, w.imports, o));
        assert(w.pending[k] == pending_for(o, id, pass));
    }
}

/// The magic effects among the foundations are new, and none is copied twice.
pub open spec fn are_effects_sound(effects: Set<EffectId>, f: FoundationView) -> bool {
    let imports = f.work.imports;
    &&& effects.subset_of(f.effects)
    &&& forall|k: int|
        0 <= k < imports.len() && !goes_by_id(#[trigger] imports[k]) ==> f.effects.contains(
            imports[k].object->MagicEffect_0.effect_id,
        ) && !effects.contains(imports[k].object->MagicEffect_0.effect_id)
    &&& forall|a: int, b: int|
        0 <= a < b < imports.len() && !goes_by_id(#[trigger] imports[a]) && !goes_by_id(
            #[trigger] imports[b],
        ) ==> imports[a].object->MagicEffect_0.effect_id
            != imports[b].object->MagicEffect_0.effect_id
}

/// A foundation that needs no copy.
pub open spec fn is_laid(f: FoundationView, object: ObjectView) -> bool {
    match object {
        ObjectView::MagicEffect(effect) => f.effects.contains(effect.effect_id),
        _ => f.work.defined.contains(lower(object.id())),
    }
}

/// What is defined stays defined.
pub open spec fn keeps(f: FoundationView, g: FoundationView) -> bool {
    f.work.defined.subset_of(g.work.defined) && f.effects.subset_of(g.effects)
}

proof fn lemma_lay_sound(
    objects: Seq<ObjectView>,
    with_dialogue: bool,
    masters: Seq<Seq<ObjectView>>,
    defined: Set<Seq<char>>,
    effects: Set<EffectId>,
    pass: Seq<char>,
    f: FoundationView,
    master: int,
    object: ObjectView,
)
    requires
        is_sound(objects, with_dialogue, masters, defined, pass, f.work),
        are_effects_sound(effects, f),
        0 <= master < masters.len(),
        masters[master].contains(object),
    ensures
        ({
            let g = lay(f, object, master, pass);
            &&& is_sound(objects, with_dialogue, masters, defined, pass, g.work)
            &&& are_effects_sound(effects, g)
            &&& keeps(f, g)
            &&& !object.deleted() && is_foundation(object) ==> is_laid(g, object)
        }),
{
    let g = lay(f, object, master, pass);
    if !object.deleted() && is_foundation(object) && !is_laid(f, object) {
        let import = ImportView {
            object,
            master,
            foundation: true,
            cause: foundation_cause(master, pass),
        };
        let known = match object {
            ObjectView::MagicEffect(_) => f.work.defined,
            _ => f.work.defined.insert(lower(object.id())),
        };
        assert forall|k: int| 0 <= k < f.work.pending.len() implies waits(
            f.work.pending,
            (#[trigger] f.work.pending[k]).id,
        ) by {}
        assert forall|k: int| 0 <= k < f.work.pending.len() implies f.work.pending.contains(
            #[trigger] f.work.pending[k],
        ) by {}
        lemma_copy_sound(
            objects,
            with_dialogue,
            masters,
            defined,
            pass,
            f.work,
            f.work.pending,
            known,
            import,
        );
        assert(g.work == enqueue(
            WorkView {
                defined: known,
                required: f.work.required,
                pending: f.work.pending,
                imports: f.work.imports.push(import),
            },
            object,
            pass,
        ));
        let old_imports = f.work.imports;
        let imports = g.work.imports;
        assert(imports == old_imports.push(import));
        assert forall|k: int| 0 <= k < imports.len() && !goes_by_id(#[trigger] imports[k]) implies
            g.effects.contains(imports[k].object->MagicEffect_0.effect_id) && !effects.contains(
            imports[k].object->MagicEffect_0.effect_id,
        ) by {
            if k < old_imports.len() {
                assert(imports[k] == old_imports[k]);
            }
        }
        assert forall|a: int, b: int|
            0 <= a < b < imports.len() && !goes_by_id(#[trigger] imports[a]) && !goes_by_id(
                #[trigger] imports[b],
            ) implies imports[a].object->MagicEffect_0.effect_id
            != imports[b].object->MagicEffect_0.effect_id by {
            assert(imports[a] == old_imports[a]);
            if b < old_imports.len() {
                assert(imports[b] == old_imports[b]);
            }
        }
    }
}

proof fn lemma_lay_master_sound(
    objects: Seq<ObjectView>,
    with_dialogue: bool,
    masters: Seq<Seq<ObjectView>>,
    defined: Set<Seq<char>>,
    effects: Set<EffectId>,
    pass: Seq<char>,
    f: FoundationView,
    master: int,
    n: int,
)
    requires
        is_sound(objects, with_dialogue, masters, defined, pass, f.work),
        are_effects_sound(effects, f),
        0 <= master < masters.len(),
        0 <= n <= masters[master].len(),
    ensures
        ({
            let g = lay_master(f, masters[master].take(n), master, pass);
            &&& is_sound(objects, with_dialogue, masters, defined, pass, g.work)
            &&& are_effects_sound(effects, g)
            &&& keeps(f, g)
            &&& forall|j: int|
                0 <= j < n && !(#[trigger] masters[master][j]).deleted() && is_foundation(
                    masters[master][j],
                ) ==> is_laid(g, masters[master][j])
        }),
    decreases n,
{
    let part = masters[master].take(n);
    if n > 0 {
        assert(part.drop_last() =~= masters[master].take(n - 1));
        assert(part.last() == masters[master][n - 1]);
        lemma_lay_master_sound(
            objects,
            with_dialogue,
            masters,
            defined,
            effects,
            pass,
            f,
            master,
            n - 1,
        );
        let g = lay_master(f, masters[master].take(n - 1), master, pass);
        lemma_lay_sound(
            objects,
            with_dialogue,
            masters,
            defined,
            effects,
            pass,
            g,
            master,
            masters[master][n - 1],
        );
    }
}

proof fn lemma_lay_all_sound(
    objects: Seq<ObjectView>,
    with_dialogue: bool,
    masters: Seq<Seq<ObjectView>>,
    defined: Set<Seq<char>>,
    effects: Set<EffectId>,
    pass: Seq<char>,
    f: FoundationView,
    n: int,
)
    requires
        is_sound(objects, with_dialogue, masters, defined, pass, f.work),
        are_effects_sound(effects, f),
        0 <= n <= masters.len(),
    ensures
        ({
            let g = lay_all(f, masters.take(n), pass);
            &&& is_sound(objects, with_dialogue, masters, defined, pass, g.work)
            &&& are_effects_sound(effects, g)
            &&& keeps(f, g)
            &&& forall|m: int, j: int|
                0 <= m < n && 0 <= j < masters[m].len() && !(#[trigger] masters[m][j]).deleted()
                    && is_foundation(masters[m][j]) ==> is_laid(g, masters[m][j])
        }),
    decreases n,
{
    let part = masters.take(n);
    if n > 0 {
        assert(part.drop_last() =~= masters.take(n - 1));
        assert(part.last() == masters[n - 1]);
        lemma_lay_all_sound(
            objects,
            with_dialogue,
            masters,
            defined,
            effects,
            pass,
            f,
            n - 1,
        );
        let g = lay_all(f, masters.take(n - 1), pass);
        let last = masters[n - 1];
        assert(last.take(last.len() as int) =~= last);
        lemma_lay_master_sound(
            objects,
            with_dialogue,
            masters,
            defined,
            effects,
            pass,
            g,
            n - 1,
            last.len() as int,
        );
        let h = lay_master(g, last, n - 1, pass);
        assert forall|m: int, j: int|
            0 <= m < n && 0 <= j < masters[m].len() && !(#[trigger] masters[m][j]).deleted()
                && is_foundation(masters[m][j]) implies is_laid(h, masters[m][j]) by {
            if m < n - 1 {
                assert(is_laid(g, masters[m][j]));
            }
        }
    }
}

/// Only copies for the foundations may be effects that go by their number; looking at what waits
/// adds none.
proof fn lemma_settle_effects(
    masters: Seq<Seq<ObjectView>>,
    effects: Set<EffectId>,
    f: FoundationView,
    pass: Seq<char>,
)
    requires
        are_effects_sound(effects, f),
    ensures
        are_effects_sound(effects, (FoundationView { work: settle(masters, f.work, pass), ..f })),
    decreases missing(masters, f.work.defined).len(), f.work.pending.len(),
{
    let w = f.work;
    if w.pending.len() > 0 {
        lemma_step_decreases(masters, w, pass);
        let g = FoundationView { work: step(masters, w, pass), ..f };
        let old_imports = w.imports;
        let imports = g.work.imports;
        assert(imports == old_imports || (imports.drop_last() == old_imports && imports.len()
            == old_imports.len() + 1 && goes_by_id(imports.last()))) by {
            if imports != old_imports {
                assert(imports.drop_last() =~= old_imports);
            }
        }
        assert forall|k: int| 0 <= k < imports.len() && !goes_by_id(
            #[trigger] imports[k],
        ) implies k < old_imports.len() && imports[k] == old_imports[k] by {
            if imports != old_imports && k < old_imports.len() {
                assert(imports.drop_last()[k] == imports[k]);
            }
        }
        assert(are_effects_sound(effects, g));
        lemma_settle_effects(masters, effects, g, pass);
    }
}

/// What holds after the whole pass.
pub open spec fn is_complete(
    objects: Seq<ObjectView>,
    with_dialogue: bool,
    masters: Seq<Seq<ObjectView>>,
    defined: Set<Seq<char>>,
    effects: Set<EffectId>,
    pass: Seq<char>,
    f: FoundationView,
) -> bool {
    &&& is_sound(objects, with_dialogue, masters, defined, pass, f.work)
    &&& are_effects_sound(effects, f)
    &&& f.work.pending.len() == 0
    &&& forall|m: int, j: int|
        0 <= m < masters.len() && 0 <= j < masters[m].len() && !(
        #[trigger] masters[m][j]).deleted() && is_foundation(masters[m][j]) ==> is_laid(
            f,
            masters[m][j],
        )
}

proof fn lemma_completed(
    objects: Seq<ObjectView>,
    masters: Seq<Seq<ObjectView>>,
    with_dialogue: bool,
    defined: Set<Seq<char>>,
    effects: Set<EffectId>,
    pass: Seq<char>,
)
    ensures
        is_complete(
            objects,
            with_dialogue,
            masters,
            defined,
            effects,
            pass,
            completed(objects, masters, with_dialogue, defined, effects, pass),
        ),
{
    let begun = start(objects, with_dialogue, defined, pass);
    lemma_start_sound(objects, with_dialogue, masters, defined, pass);
    lemma_settle_sound(objects, with_dialogue, masters, defined, pass, begun);
    let settled = settle(masters, begun, pass);
    let f = FoundationView { work: begun, effects };
    assert(are_effects_sound(effects, f));
    lemma_settle_effects(masters, effects, f, pass);
    let g = FoundationView { work: settled, effects };
    assert(masters.take(masters.len() as int) =~= masters);
    lemma_lay_all_sound(
        objects,
        with_dialogue,
        masters,
        defined,
        effects,
        pass,
        g,
        masters.len() as int,
    );
    let based = lay_all(g, masters, pass);
    lemma_settle_sound(objects, with_dialogue, masters, defined, pass, based.work);
    lemma_settle_effects(masters, effects, based, pass);
    let done = completed(objects, masters, with_dialogue, defined, effects, pass);
    assert forall|m: int, j: int|
        0 <= m < masters.len() && 0 <= j < masters[m].len() && !(
        #[trigger] masters[m][j]).deleted() && is_foundation(masters[m][j]) implies is_laid(
        done,
        masters[m][j],
    ) by {
        assert(is_laid(based, masters[m][j]));
    }
}

/// The foundations stand for the same thing: magic effects go by their numbers, other records by
/// their ids.
pub open spec fn is_same_foundation(a: ObjectView, b: ObjectView) -> bool {
    match (a, b) {
        (ObjectView::MagicEffect(x), ObjectView::MagicEffect(y)) => x.effect_id == y.effect_id,
        (ObjectView::MagicEffect(_), _) => false,
        (_, ObjectView::MagicEffect(_)) => false,
        _ => lower(a.id()) == lower(b.id()),
    }
}

/// The record at `j` of master `m` is a foundation that is not deleted.
pub open spec fn is_foundation_at(masters: Seq<Seq<ObjectView>>, m: int, j: int) -> bool {
    !masters[m][j].deleted() && is_foundation(masters[m][j])
}

/// No master before `m`, and no record of it before `j`, has a foundation like that at `j`.
pub open spec fn is_first_foundation_at(masters: Seq<Seq<ObjectView>>, m: int, j: int) -> bool {
    forall|n: int, l: int|
        0 <= n <= m && 0 <= l < masters[n].len() && (n < m || l < j) && #[trigger] is_foundation_at(
            masters,
            n,
            l,
        ) ==> !is_same_foundation(masters[n][l], masters[m][j])
}

/// The copied foundation is the first of its kind among those of the masters.
pub open spec fn is_first_foundation(masters: Seq<Seq<ObjectView>>, import: ImportView) -> bool {
    let m = import.master;
    0 <= m < masters.len() && exists|j: int|
        0 <= j < masters[m].len() && masters[m][j] == import.object && is_foundation_at(
            masters,
            m,
            j,
        ) && #[trigger] is_first_foundation_at(masters, m, j)
}

/// Every copied foundation is the first of its kind.
spec fn are_foundations_first(masters: Seq<Seq<ObjectView>>, imports: Seq<ImportView>) -> bool {
    forall|k: int|
        0 <= k < imports.len() && (#[trigger] imports[k]).foundation ==> is_first_foundation(
            masters,
            imports[k],
        )
}

/// The foundations before `j` of master `m`, and those of the masters before it, are laid.
spec fn is_laid_up_to(
    masters: Seq<Seq<ObjectView>>,
    f: FoundationView,
    m: int,
    j: int,
) -> bool {
    forall|n: int, l: int|
        0 <= n <= m && 0 <= l < masters[n].len() && (n < m || l < j) && #[trigger] is_foundation_at(
            masters,
            n,
            l,
        ) ==> is_laid(f, masters[n][l])
}

proof fn lemma_lay_first(
    masters: Seq<Seq<ObjectView>>,
    f: FoundationView,
    m: int,
    j: int,
    pass: Seq<char>,
)
    requires
        0 <= m < masters.len(),
        0 <= j < masters[m].len(),
        are_foundations_first(masters, f.work.imports),
        is_laid_up_to(masters, f, m, j),
    ensures
        are_foundations_first(masters, lay(f, masters[m][j], m, pass).work.imports),
        is_laid_up_to(masters, lay(f, masters[m][j], m, pass), m, j + 1),
{
    let object = masters[m][j];
    let g = lay(f, object, m, pass);
    let before = f.work.imports;
    let imports = g.work.imports;
    assert(keeps(f, g));
    assert forall|n: int, l: int|
        0 <= n <= m && 0 <= l < masters[n].len() && (n < m || l < j + 1)
            && #[trigger] is_foundation_at(masters, n, l) implies is_laid(g, masters[n][l]) by {
        if n < m || l < j {
            assert(is_laid(f, masters[n][l]));
        }
    }
    if imports != before {
        assert(!is_laid(f, object));
        assert(is_first_foundation_at(masters, m, j)) by {
            assert forall|n: int, l: int|
                0 <= n <= m && 0 <= l < masters[n].len() && (n < m || l < j)
                    && #[trigger] is_foundation_at(masters, n, l) implies !is_same_foundation(
                masters[n][l],
                object,
            ) by {
                assert(is_laid(f, masters[n][l]));
            }
        }
        assert forall|k: int| 0 <= k < imports.len() && (#[trigger] imports[k]).foundation implies
            is_first_foundation(masters, imports[k]) by {
            if k < before.len() {
                assert(imports[k] == before[k]);
            } else {
                assert(imports[k].object == object && imports[k].master == m);
            }
        }
    }
}

proof fn lemma_lay_master_first(
    masters: Seq<Seq<ObjectView>>,
    f: FoundationView,
    m: int,
    j: int,
    pass: Seq<char>,
)
    requires
        0 <= m < masters.len(),
        0 <= j <= masters[m].len(),
        are_foundations_first(masters, f.work.imports),
        is_laid_up_to(masters, f, m, 0),
    ensures
        are_foundations_first(
            masters,
            lay_master(f, masters[m].take(j), m, pass).work.imports,
        ),
        is_laid_up_to(masters, lay_master(f, masters[m].take(j), m, pass), m, j),
    decreases j,
{
    if j > 0 {
        lemma_lay_master_first(masters, f, m, j - 1, pass);
        assert(masters[m].take(j).drop_last() =~= masters[m].take(j - 1));
        assert(masters[m].take(j).last() == masters[m][j - 1]);
        lemma_lay_first(masters, lay_master(f, masters[m].take(j - 1), m, pass), m, j - 1, pass);
    }
}

proof fn lemma_lay_all_first(
    masters: Seq<Seq<ObjectView>>,
    f: FoundationView,
    n: int,
    pass: Seq<char>,
)
    requires
        0 <= n <= masters.len(),
        are_foundations_first(masters, f.work.imports),
    ensures
        are_foundations_first(masters, lay_all(f, masters.take(n), pass).work.imports),
        is_laid_up_to(
            masters,
            lay_all(f, masters.take(n), pass),
            n - 1,
            masters[n - 1].len() as int,
        ),
    decreases n,
{
    if n > 0 {
        let last = masters[n - 1];
        let g = lay_all(f, masters.take(n - 1), pass);
        lemma_lay_all_first(masters, f, n - 1, pass);
        assert(masters.take(n).drop_last() =~= masters.take(n - 1));
        assert(masters.take(n).last() == last);
        assert(last.take(last.len() as int) =~= last);
        assert(is_laid_up_to(masters, g, n - 1, 0)) by {
            assert forall|a: int, l: int|
                0 <= a <= n - 1 && 0 <= l < masters[a].len() && (a < n - 1 || l < 0)
                    && #[trigger] is_foundation_at(masters, a, l) implies is_laid(
                g,
                masters[a][l],
            ) by {}
        }
        lemma_lay_master_first(masters, g, n - 1, last.len() as int, pass);
    }
}

proof fn lemma_settle_first(masters: Seq<Seq<ObjectView>>, w: WorkView, pass: Seq<char>)
    requires
        are_foundations_first(masters, w.imports),
    ensures
        are_foundations_first(masters, settle(masters, w, pass).imports),
    decreases missing(masters, w.defined).len(), w.pending.len(),
{
    if w.pending.len() > 0 {
        lemma_step_decreases(masters, w, pass);
        let next = step(masters, w, pass);
        assert forall|k: int|
            0 <= k < next.imports.len() && (#[trigger] next.imports[k]).foundation implies
            is_first_foundation(masters, next.imports[k]) by {
            assert(k < w.imports.len());
            assert(next.imports[k] == w.imports[k]);
        }
        lemma_settle_first(masters, next, pass);
    }
}

/// After the pass every need of a scanned record, and of every copy, is met: the id is defined,
/// or no master offers it. In particular what the copies need was copied in turn.
pub proof fn law_needs_are_met(
    objects: Seq<ObjectView>,
    masters: Seq<Seq<ObjectView>>,
    with_dialogue: bool,
    defined: Set<Seq<char>>,
    effects: Set<EffectId>,
    pass: Seq<char>,
)
    ensures
        ({
            let after = completed(objects, masters, with_dialogue, defined, effects, pass).work;
            forall|o: ObjectView, id: Seq<char>| #[trigger]
                is_looked_at(objects, with_dialogue, after.imports, o) && #[trigger] required_ids(
                    o,
                ).contains(id) ==> is_met(masters, after.defined, id)
        }),
{
    lemma_completed(objects, masters, with_dialogue, defined, effects, pass);
    let after = completed(objects, masters, with_dialogue, defined, effects, pass).work;
    assert forall|o: ObjectView, id: Seq<char>| #[trigger]
        is_looked_at(objects, with_dialogue, after.imports, o) && #[trigger] required_ids(
            o,
        ).contains(id) implies is_met(masters, after.defined, id) by {
        if objects.contains(o) && is_scanned(o, with_dialogue) {
            let k = choose|k: int| 0 <= k < objects.len() && objects[k] == o;
            assert(is_scanned(objects[k], with_dialogue));
            assert(all_required_ids(objects, with_dialogue).contains(id));
        } else {
            let copies = copies_of(after.imports);
            let k = choose|k: int| 0 <= k < copies.len() && copies[k] == o;
            assert(after.imports[k].object == o);
            assert(required_ids(after.imports[k].object).subset_of(after.required));
        }
        assert(after.required.contains(id));
        assert(!waits(after.pending, id));
    }
}

proof fn lemma_completed_first(
    objects: Seq<ObjectView>,
    masters: Seq<Seq<ObjectView>>,
    with_dialogue: bool,
    defined: Set<Seq<char>>,
    effects: Set<EffectId>,
    pass: Seq<char>,
)
    ensures
        are_foundations_first(
            masters,
            completed(objects, masters, with_dialogue, defined, effects, pass).work.imports,
        ),
{
    let begun = start(objects, with_dialogue, defined, pass);
    let settled = settle(masters, begun, pass);
    let f = FoundationView { work: settled, effects };
    lemma_settle_first(masters, begun, pass);
    assert(masters.take(masters.len() as int) =~= masters);
    lemma_lay_all_first(masters, f, masters.len() as int, pass);
    lemma_settle_first(masters, lay_all(f, masters, pass).work, pass);
}

/// Every copy is that of a record of a master which is not deleted and is of a kind that may be
/// copied. Of the records that an id could stand for, the first of the first master is taken, and
/// of the foundations that stand for the same thing too.
pub proof fn law_copies_come_from_masters(
    objects: Seq<ObjectView>,
    masters: Seq<Seq<ObjectView>>,
    with_dialogue: bool,
    defined: Set<Seq<char>>,
    effects: Set<EffectId>,
    pass: Seq<char>,
    k: int,
)
    requires
        0 <= k < completed(
            objects,
            masters,
            with_dialogue,
            defined,
            effects,
            pass,
        ).work.imports.len(),
    ensures
        ({
            let import = completed(
                objects,
                masters,
                with_dialogue,
                defined,
                effects,
                pass,
            ).work.imports[k];
            &&& is_copy(masters, import)
            &&& import.foundation ==> is_first_foundation(masters, import)
            &&& !import.foundation ==> {
                &&& is_first_source(masters, import)
                &&& forall|m: int, j: int|
                    0 <= m < import.master && 0 <= j < masters[m].len() ==> !offers(
                        #[trigger] masters[m][j],
                        copied_id(import),
                    )
            }
        }),
{
    lemma_completed(objects, masters, with_dialogue, defined, effects, pass);
    lemma_completed_first(objects, masters, with_dialogue, defined, effects, pass);
    let after = completed(objects, masters, with_dialogue, defined, effects, pass).work;
    let import = after.imports[k];
    if !import.foundation {
        lemma_source_of(masters, copied_id(import));
        assert forall|m: int, j: int|
            0 <= m < import.master && 0 <= j < masters[m].len() implies !offers(
            #[trigger] masters[m][j],
            copied_id(import),
        ) by {
            lemma_first_offer(masters[m], copied_id(import));
            assert(first_offer(masters[m], copied_id(import)) is None);
        }
    }
}

/// Nothing is copied without need: a copy that is no foundation is needed by a scanned record or
/// by a copy before it, and its report names such a record and field.
pub proof fn law_copies_are_needed(
    objects: Seq<ObjectView>,
    masters: Seq<Seq<ObjectView>>,
    with_dialogue: bool,
    defined: Set<Seq<char>>,
    effects: Set<EffectId>,
    pass: Seq<char>,
    k: int,
)
    requires
        ({
            let imports = completed(
                objects,
                masters,
                with_dialogue,
                defined,
                effects,
                pass,
            ).work.imports;
            0 <= k < imports.len() && !imports[k].foundation
        }),
    ensures
        ({
            let imports = completed(
                objects,
                masters,
                with_dialogue,
                defined,
                effects,
                pass,
            ).work.imports;
            is_caused(
                objects,
                with_dialogue,
                imports.take(k),
                (PendingView { id: copied_id(imports[k]), cause: imports[k].cause }),
                pass,
            )
        }),
{
    lemma_completed(objects, masters, with_dialogue, defined, effects, pass);
}

/// Nothing that is defined is copied, and nothing is copied twice. Ids decide, but for the magic
/// effects among the foundations, which go by their numbers.
pub proof fn law_copies_are_new(
    objects: Seq<ObjectView>,
    masters: Seq<Seq<ObjectView>>,
    with_dialogue: bool,
    defined: Set<Seq<char>>,
    effects: Set<EffectId>,
    pass: Seq<char>,
)
    ensures
        ({
            let after = completed(objects, masters, with_dialogue, defined, effects, pass);
            let imports = after.work.imports;
            &&& defined.subset_of(after.work.defined)
            &&& forall|k: int|
                0 <= k < imports.len() && goes_by_id(#[trigger] imports[k]) ==> !defined.contains(
                    copied_id(imports[k]),
                ) && after.work.defined.contains(copied_id(imports[k]))
            &&& forall|a: int, b: int|
                0 <= a < b < imports.len() && goes_by_id(#[trigger] imports[a]) && goes_by_id(
                    #[trigger] imports[b],
                ) ==> copied_id(imports[a]) != copied_id(imports[b])
            &&& are_effects_sound(effects, after)
        }),
{
    lemma_completed(objects, masters, with_dialogue, defined, effects, pass);
}

/// After the pass every game setting, magic effect, race and class of the masters that is not
/// deleted is defined.
pub proof fn law_foundations_are_laid(
    objects: Seq<ObjectView>,
    masters: Seq<Seq<ObjectView>>,
    with_dialogue: bool,
    defined: Set<Seq<char>>,
    effects: Set<EffectId>,
    pass: Seq<char>,
    m: int,
    j: int,
)
    requires
        0 <= m < masters.len(),
        0 <= j < masters[m].len(),
        !masters[m][j].deleted(),
        is_foundation(masters[m][j]),
    ensures
        is_laid(
            completed(objects, masters, with_dialogue, defined, effects, pass),
            masters[m][j],
        ),
{
    lemma_completed(objects, masters, with_dialogue, defined, effects, pass);
}

/// Looking at what is met copies nothing.
proof fn lemma_settle_met(masters: Seq<Seq<ObjectView>>, w: WorkView, pass: Seq<char>)
    requires
        forall|k: int|
            0 <= k < w.pending.len() ==> is_met(masters, w.defined, (#[trigger] w.pending[k]).id),
    ensures
        settle(masters, w, pass) == (WorkView { pending: Seq::empty(), ..w }),
    decreases missing(masters, w.defined).len(), w.pending.len(),
{
    if w.pending.len() == 0 {
        assert(w.pending =~= Seq::empty());
    } else {
        lemma_step_decreases(masters, w, pass);
        let next = step(masters, w, pass);
        assert(is_met(masters, w.defined, w.pending[0].id));
        assert(next == WorkView { pending: w.pending.skip(1), ..w });
        assert forall|k: int| 0 <= k < next.pending.len() implies is_met(
            masters,
            next.defined,
            (#[trigger] next.pending[k]).id,
        ) by {
            assert(next.pending[k] == w.pending[k + 1]);
        }
        lemma_settle_met(masters, next, pass);
    }
}

proof fn lemma_lay_laid(
    f: FoundationView,
    masters: Seq<Seq<ObjectView>>,
    master: int,
    n: int,
    pass: Seq<char>,
)
    requires
        0 <= master < masters.len(),
        0 <= n <= masters[master].len(),
        forall|j: int|
            0 <= j < masters[master].len() && !(#[trigger] masters[master][j]).deleted()
                && is_foundation(masters[master][j]) ==> is_laid(f, masters[master][j]),
    ensures
        lay_master(f, masters[master].take(n), master, pass) == f,
    decreases n,
{
    if n > 0 {
        let part = masters[master].take(n);
        assert(part.drop_last() =~= masters[master].take(n - 1));
        assert(part.last() == masters[master][n - 1]);
        lemma_lay_laid(f, masters, master, n - 1, pass);
    }
}

proof fn lemma_lay_all_laid(
    f: FoundationView,
    masters: Seq<Seq<ObjectView>>,
    n: int,
    pass: Seq<char>,
)
    requires
        0 <= n <= masters.len(),
        forall|m: int, j: int|
            0 <= m < masters.len() && 0 <= j < masters[m].len() && !(
            #[trigger] masters[m][j]).deleted() && is_foundation(masters[m][j]) ==> is_laid(
                f,
                masters[m][j],
            ),
    ensures
        lay_all(f, masters.take(n), pass) == f,
    decreases n,
{
    if n > 0 {
        let part = masters.take(n);
        assert(part.drop_last() =~= masters.take(n - 1));
        assert(part.last() == masters[n - 1]);
        lemma_lay_all_laid(f, masters, n - 1, pass);
        let last = masters[n - 1];
        assert(last.take(last.len() as int) =~= last);
        lemma_lay_laid(f, masters, n - 1, last.len() as int, pass);
    }
}

/// A second pass over the completed plugin copies nothing and defines nothing.
pub proof fn law_second_pass_copies_nothing(
    objects: Seq<ObjectView>,
    masters: Seq<Seq<ObjectView>>,
    with_dialogue: bool,
    defined: Set<Seq<char>>,
    effects: Set<EffectId>,
    pass: Seq<char>,
    second_pass: Seq<char>,
)
    ensures
        ({
            let once = completed(objects, masters, with_dialogue, defined, effects, pass);
            let twice = completed(
                objects + copies_of(once.work.imports),
                masters,
                with_dialogue,
                once.work.defined,
                once.effects,
                second_pass,
            );
            &&& twice.work.imports == Seq::<ImportView>::empty()
            &&& twice.work.defined == once.work.defined
            &&& twice.effects == once.effects
        }),
{
    lemma_completed(objects, masters, with_dialogue, defined, effects, pass);
    law_needs_are_met(objects, masters, with_dialogue, defined, effects, pass);
    let once = completed(objects, masters, with_dialogue, defined, effects, pass);
    let copies = copies_of(once.work.imports);
    let all = objects + copies;
    let begun = start(all, with_dialogue, once.work.defined, second_pass);
    let listing = sorted(begun.required);
    lemma_all_required_finite(all, with_dialogue);
    lemma_sorted_lists(begun.required);
    assert forall|k: int| 0 <= k < begun.pending.len() implies is_met(
        masters,
        begun.defined,
        (#[trigger] begun.pending[k]).id,
    ) by {
        let id = listing[k];
        assert(begun.pending[k].id == id);
        assert(listing.to_set().contains(id));
        assert(is_required(all, with_dialogue, id));
        let i = choose|i: int|
            0 <= i < all.len() && is_scanned(#[trigger] all[i], with_dialogue) && required_ids(
                all[i],
            ).contains(id);
        let o = all[i];
        if i < objects.len() {
            assert(objects[i] == o);
            assert(objects.contains(o));
        } else {
            assert(copies[i - objects.len()] == o);
            assert(copies.contains(o));
        }
        assert(is_looked_at(objects, with_dialogue, once.work.imports, o));
    }
    lemma_settle_met(masters, begun, second_pass);
    let settled = settle(masters, begun, second_pass);
    let f = FoundationView { work: settled, effects: once.effects };
    assert forall|m: int, j: int|
        0 <= m < masters.len() && 0 <= j < masters[m].len() && !(
        #[trigger] masters[m][j]).deleted() && is_foundation(masters[m][j]) implies is_laid(
        f,
        masters[m][j],
    ) by {
        assert(is_laid(once, masters[m][j]));
    }
    assert(masters.take(masters.len() as int) =~= masters);
    lemma_lay_all_laid(f, masters, masters.len() as int, second_pass);
}

} // verus!
