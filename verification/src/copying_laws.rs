//! Which records are copied, by kind and by need, and in which order the foundations come.

use vstd::prelude::*;

use crate::closure::{
    completed, copies_of, first_offer, foundation_cause, lay, lay_all, lay_master,
    lemma_first_offer, lemma_source_of, lemma_step_decreases, missing, offers, settle, source_of,
    start, step, FoundationView, ImportView, WorkView,
};
use crate::closure_laws::{
    is_looked_at, is_met, is_sound, law_copies_come_from_masters, law_foundations_are_laid,
    law_needs_are_met, lemma_settle_sound, lemma_start_sound, waits,
};
use crate::record_views::ObjectView;
use crate::records::EffectId;
use crate::references::{
    all_required_ids, defined_ids, defines, is_required, is_scanned, required_ids, stays_home,
};
use crate::text::lower;
use crate::trace_laws::{
    is_first_need, law_copies_are_put_down_to_the_first_need, looked_at, scanned,
};

verus! {

/// A record that may be copied under its id: any but headers, skills, start scripts, the three
/// kinds of landscape records, the two of dialogue, and cells.
pub open spec fn is_portable(object: ObjectView) -> bool {
    match object {
        ObjectView::Header(_) => false,
        ObjectView::Skill(_) => false,
        ObjectView::StartScript(_) => false,
        ObjectView::LandscapeTexture(_) => false,
        ObjectView::Landscape(_) => false,
        ObjectView::PathGrid(_) => false,
        ObjectView::Dialogue(_) => false,
        ObjectView::DialogueInfo(_) => false,
        ObjectView::Cell(_) => false,
        _ => true,
    }
}

/// Records define their ids, in lower case, deleted or not, but for those kinds that are never
/// copied.
pub proof fn law_portable_records_define_their_ids(objects: Seq<ObjectView>, id: Seq<char>)
    ensures
        defined_ids(objects).contains(id) <==> exists|i: int|
            0 <= i < objects.len() && is_portable(#[trigger] objects[i]) && lower(objects[i].id())
                == id,
{
    if defined_ids(objects).contains(id) {
        let i = choose|i: int|
            0 <= i < objects.len() && !stays_home(#[trigger] objects[i]) && lower(objects[i].id())
                == id;
        assert(is_portable(objects[i]));
    }
    assert forall|i: int|
        0 <= i < objects.len() && is_portable(#[trigger] objects[i]) && lower(objects[i].id())
            == id implies defined_ids(objects).contains(id) by {
        assert(!stays_home(objects[i]));
        assert(defines(objects, id));
    }
}

/// What records need is what each of them needs that is not deleted; lines of dialogue count only
/// where they are asked for.
pub proof fn law_needs_of_records_add_up(
    objects: Seq<ObjectView>,
    with_dialogue: bool,
    id: Seq<char>,
)
    ensures
        all_required_ids(objects, with_dialogue).contains(id) <==> exists|i: int|
            0 <= i < objects.len() && !(#[trigger] objects[i]).deleted() && (with_dialogue || !(
            objects[i] is DialogueInfo)) && required_ids(objects[i]).contains(id),
{
    if all_required_ids(objects, with_dialogue).contains(id) {
        let i = choose|i: int|
            0 <= i < objects.len() && is_scanned(#[trigger] objects[i], with_dialogue)
                && required_ids(objects[i]).contains(id);
        assert(!objects[i].deleted());
    }
    assert forall|i: int|
        0 <= i < objects.len() && !(#[trigger] objects[i]).deleted() && (with_dialogue || !(
        objects[i] is DialogueInfo)) && required_ids(objects[i]).contains(id) implies is_required(
        objects,
        with_dialogue,
        id,
    ) by {
        assert(is_scanned(objects[i], with_dialogue));
    }
}

/// A master has a record, not deleted and of a kind that may be copied, with the id.
pub open spec fn is_offered(masters: Seq<Seq<ObjectView>>, m: int, j: int, id: Seq<char>) -> bool {
    &&& 0 <= m < masters.len()
    &&& 0 <= j < masters[m].len()
    &&& !masters[m][j].deleted()
    &&& is_portable(masters[m][j])
    &&& lower(masters[m][j].id()) == id
}

proof fn lemma_offered(masters: Seq<Seq<ObjectView>>, m: int, j: int, id: Seq<char>)
    requires
        is_offered(masters, m, j, id),
    ensures
        offers(masters[m][j], id),
        source_of(masters, id) is Some,
{
    lemma_source_of(masters, id);
    lemma_first_offer(masters[m], id);
    if source_of(masters, id) is None {
        assert(first_offer(masters[m], id) is None);
    }
}

/// After the pass, whatever the records of the plugin or the copies need is defined, unless no
/// master has it.
pub proof fn law_what_the_masters_offer_is_defined(
    objects: Seq<ObjectView>,
    masters: Seq<Seq<ObjectView>>,
    with_dialogue: bool,
    defined: Set<Seq<char>>,
    effects: Set<EffectId>,
    pass: Seq<char>,
    p: int,
    id: Seq<char>,
    m: int,
    j: int,
)
    requires
        ({
            let after = completed(objects, masters, with_dialogue, defined, effects, pass).work;
            let all = looked_at(objects, with_dialogue, after.imports);
            0 <= p < all.len() && required_ids(all[p]).contains(id)
        }),
        is_offered(masters, m, j, id),
    ensures
        completed(objects, masters, with_dialogue, defined, effects, pass).work.defined.contains(
            id,
        ),
{
    let after = completed(objects, masters, with_dialogue, defined, effects, pass).work;
    let all = looked_at(objects, with_dialogue, after.imports);
    law_needs_are_met(objects, masters, with_dialogue, defined, effects, pass);
    lemma_looked_at(objects, with_dialogue, after.imports, p);
    assert(is_met(masters, after.defined, id));
    lemma_offered(masters, m, j, id);
}

proof fn lemma_looked_at(
    objects: Seq<ObjectView>,
    with_dialogue: bool,
    imports: Seq<ImportView>,
    p: int,
)
    requires
        0 <= p < looked_at(objects, with_dialogue, imports).len(),
    ensures
        is_looked_at(
            objects,
            with_dialogue,
            imports,
            looked_at(objects, with_dialogue, imports)[p],
        ),
{
    let n = scanned(objects, with_dialogue).len();
    let pred = |o: ObjectView| !o.deleted() && (with_dialogue || !(o is DialogueInfo));
    let o = looked_at(objects, with_dialogue, imports)[p];
    if p < n {
        assert(scanned(objects, with_dialogue)[p] == o);
        objects.lemma_filter_contains_rev(pred, o);
        objects.lemma_filter_pred(pred, p);
    } else {
        assert(copies_of(imports)[p - n] == o);
    }
}

/// A copy that is no foundation is the first record with its id that the masters have to offer,
/// in the order of the masters and of their records.
pub proof fn law_needed_copies_are_first_offers(
    objects: Seq<ObjectView>,
    masters: Seq<Seq<ObjectView>>,
    with_dialogue: bool,
    defined: Set<Seq<char>>,
    effects: Set<EffectId>,
    pass: Seq<char>,
    k: int,
)
    requires
        ({
            let imports = completed(
                objects,
                masters,
                with_dialogue,
                defined,
                effects,
                pass,
            ).work.imports;
            0 <= k < imports.len() && !imports[k].foundation
        }),
    ensures
        ({
            let import = completed(
                objects,
                masters,
                with_dialogue,
                defined,
                effects,
                pass,
            ).work.imports[k];
            let id = lower(import.object.id());
            exists|j: int| #[trigger]
                is_offered(masters, import.master, j, id) && masters[import.master][j]
                    == import.object && forall|m: int, i: int|
                    (m < import.master || (m == import.master && i < j)) ==> !(
                    #[trigger] is_offered(masters, m, i, id))
        }),
{
    let import = completed(
        objects,
        masters,
        with_dialogue,
        defined,
        effects,
        pass,
    ).work.imports[k];
    let id = lower(import.object.id());
    law_copies_come_from_masters(objects, masters, with_dialogue, defined, effects, pass, k);
    lemma_source_of(masters, id);
    let (m, j) = source_of(masters, id)->0;
    lemma_first_offer(masters[m], id);
    assert(is_offered(masters, m, j, id));
    assert forall|n: int, i: int| (n < m || (n == m && i < j)) implies !(
    #[trigger] is_offered(masters, n, i, id)) by {
        if is_offered(masters, n, i, id) {
            lemma_first_offer(masters[n], id);
            assert(offers(masters[n][i], id));
            assert(n < m ==> first_offer(masters[n], id) is None);
        }
    }
}

/// A foundation is a game setting, a magic effect, a race or a class; a copy of any other kind has
/// an id that a record of the plugin needs, or a copy before it.
pub proof fn law_only_four_kinds_are_foundations(
    objects: Seq<ObjectView>,
    masters: Seq<Seq<ObjectView>>,
    with_dialogue: bool,
    defined: Set<Seq<char>>,
    effects: Set<EffectId>,
    pass: Seq<char>,
    k: int,
)
    requires
        0 <= k < completed(
            objects,
            masters,
            with_dialogue,
            defined,
            effects,
            pass,
        ).work.imports.len(),
    ensures
        ({
            let imports = completed(
                objects,
                masters,
                with_dialogue,
                defined,
                effects,
                pass,
            ).work.imports;
            let object = imports[k].object;
            let before = looked_at(objects, with_dialogue, imports.take(k));
            &&& imports[k].foundation ==> object is GameSetting || object is MagicEffect
                || object is Race || object is Class
            &&& !imports[k].foundation ==> exists|p: int|
                0 <= p < before.len() && #[trigger] required_ids(before[p]).contains(
                    lower(object.id()),
                )
            &&& !(object is GameSetting) && !(object is MagicEffect) && !(object is Race) && !(
            object is Class) ==> exists|p: int|
                0 <= p < before.len() && #[trigger] required_ids(before[p]).contains(
                    lower(object.id()),
                )
        }),
{
    let imports = completed(objects, masters, with_dialogue, defined, effects, pass).work.imports;
    let before = looked_at(objects, with_dialogue, imports.take(k));
    let id = lower(imports[k].object.id());
    law_copies_come_from_masters(objects, masters, with_dialogue, defined, effects, pass, k);
    if !imports[k].foundation {
        law_copies_are_put_down_to_the_first_need(
            objects,
            masters,
            with_dialogue,
            defined,
            effects,
            pass,
            k,
        );
        let p = choose|p: int| #[trigger] is_first_need(before, id, p);
        assert(is_first_need(before, id, p));
        assert(required_ids(before[p]).contains(id));
    }
}

/// Every game setting, race and class of the masters that is not deleted is defined after the pass,
/// by its id, and every magic effect by its number.
pub proof fn law_the_four_kinds_are_all_laid(
    objects: Seq<ObjectView>,
    masters: Seq<Seq<ObjectView>>,
    with_dialogue: bool,
    defined: Set<Seq<char>>,
    effects: Set<EffectId>,
    pass: Seq<char>,
    m: int,
    j: int,
)
    requires
        0 <= m < masters.len(),
        0 <= j < masters[m].len(),
        !masters[m][j].deleted(),
    ensures
        ({
            let after = completed(objects, masters, with_dialogue, defined, effects, pass);
            match masters[m][j] {
                ObjectView::GameSetting(r) => after.work.defined.contains(lower(r.id)),
                ObjectView::Race(r) => after.work.defined.contains(lower(r.id)),
                ObjectView::Class(r) => after.work.defined.contains(lower(r.id)),
                ObjectView::MagicEffect(r) => after.effects.contains(r.effect_id),
                _ => true,
            }
        }),
{
    let o = masters[m][j];
    if o is GameSetting || o is Race || o is Class || o is MagicEffect {
        law_foundations_are_laid(
            objects,
            masters,
            with_dialogue,
            defined,
            effects,
            pass,
            m,
            j,
        );
    }
}

/// The ids and the magic effects that are defined are those that were, and those of the copies: a
/// magic effect that is a foundation counts by its number, any other copy by its id.
pub open spec fn is_recorded(
    defined: Set<Seq<char>>,
    effects: Set<EffectId>,
    f: FoundationView,
) -> bool {
    let imports = f.work.imports;
    &&& forall|id: Seq<char>| #[trigger]
        f.work.defined.contains(id) <==> defined.contains(id) || exists|k: int|
            0 <= k < imports.len() && !((#[trigger] imports[k]).foundation
                && imports[k].object is MagicEffect) && lower(imports[k].object.id()) == id
    &&& forall|e: EffectId| #[trigger]
        f.effects.contains(e) <==> effects.contains(e) || exists|k: int|
            0 <= k < imports.len() && (#[trigger] imports[k]).foundation
                && imports[k].object is MagicEffect && imports[k].object->MagicEffect_0.effect_id
                == e
}

proof fn lemma_recorded_push(
    defined: Set<Seq<char>>,
    effects: Set<EffectId>,
    f: FoundationView,
    g: FoundationView,
    import: ImportView,
)
    requires
        is_recorded(defined, effects, f),
        g.work.imports == f.work.imports.push(import),
        import.foundation && import.object is MagicEffect ==> g.work.defined == f.work.defined
            && g.effects == f.effects.insert(import.object->MagicEffect_0.effect_id),
        !(import.foundation && import.object is MagicEffect) ==> g.work.defined
            == f.work.defined.insert(lower(import.object.id())) && g.effects == f.effects,
    ensures
        is_recorded(defined, effects, g),
{
    let imports = f.work.imports;
    let more = g.work.imports;
    let n = imports.len();
    assert(more[n as int] == import);
    assert forall|id: Seq<char>| #[trigger]
        g.work.defined.contains(id) <==> defined.contains(id) || exists|k: int|
            0 <= k < more.len() && !((#[trigger] more[k]).foundation
                && more[k].object is MagicEffect) && lower(more[k].object.id()) == id by {
        if f.work.defined.contains(id) && !defined.contains(id) {
            let k = choose|k: int|
                0 <= k < imports.len() && !((#[trigger] imports[k]).foundation
                    && imports[k].object is MagicEffect) && lower(imports[k].object.id()) == id;
            assert(more[k] == imports[k]);
        }
        assert forall|k: int|
            0 <= k < more.len() && !((#[trigger] more[k]).foundation
                && more[k].object is MagicEffect) && lower(
                more[k].object.id(),
            ) == id implies g.work.defined.contains(id) by {
            if k < n {
                assert(imports[k] == more[k]);
                assert(f.work.defined.contains(id));
            }
        }
        if g.work.defined.contains(id) && !f.work.defined.contains(id) {
            assert(!(more[n as int].foundation && more[n as int].object is MagicEffect));
        }
        if defined.contains(id) {
            assert(f.work.defined.contains(id));
        }
    }
    assert forall|e: EffectId| #[trigger]
        g.effects.contains(e) <==> effects.contains(e) || exists|k: int|
            0 <= k < more.len() && (#[trigger] more[k]).foundation && more[k].object is MagicEffect
                && more[k].object->MagicEffect_0.effect_id == e by {
        if f.effects.contains(e) && !effects.contains(e) {
            let k = choose|k: int|
                0 <= k < imports.len() && (#[trigger] imports[k]).foundation
                    && imports[k].object is MagicEffect
                    && imports[k].object->MagicEffect_0.effect_id == e;
            assert(more[k] == imports[k]);
        }
        assert forall|k: int|
            0 <= k < more.len() && (#[trigger] more[k]).foundation && more[k].object is MagicEffect
                && more[k].object->MagicEffect_0.effect_id == e implies g.effects.contains(e) by {
            if k < n {
                assert(imports[k] == more[k]);
                assert(f.effects.contains(e));
            }
        }
        if g.effects.contains(e) && !f.effects.contains(e) {
            assert(more[n as int].foundation && more[n as int].object is MagicEffect);
        }
        if effects.contains(e) {
            assert(f.effects.contains(e));
        }
    }
}

/// The imports begin with those given, and what follows was not defined before.
spec fn is_continued(
    earlier: Seq<ImportView>,
    defined: Set<Seq<char>>,
    imports: Seq<ImportView>,
    foundation: bool,
) -> bool {
    &&& earlier.len() <= imports.len()
    &&& imports.take(earlier.len() as int) == earlier
    &&& forall|k: int|
        earlier.len() <= k < imports.len() ==> (#[trigger] imports[k]).foundation == foundation
    &&& forall|k: int|
        earlier.len() <= k < imports.len() && !((#[trigger] imports[k]).foundation
            && imports[k].object is MagicEffect) ==> !defined.contains(
            lower(imports[k].object.id()),
        )
}

proof fn lemma_settle_recorded(
    masters: Seq<Seq<ObjectView>>,
    defined: Set<Seq<char>>,
    effects: Set<EffectId>,
    f: FoundationView,
    pass: Seq<char>,
)
    requires
        is_recorded(defined, effects, f),
    ensures
        is_recorded(
            defined,
            effects,
            (FoundationView { work: settle(masters, f.work, pass), ..f }),
        ),
        is_continued(
            f.work.imports,
            f.work.defined,
            settle(masters, f.work, pass).imports,
            false,
        ),
        f.work.defined.subset_of(settle(masters, f.work, pass).defined),
    decreases missing(masters, f.work.defined).len(), f.work.pending.len(),
{
    let w = f.work;
    assert(w.imports.take(w.imports.len() as int) =~= w.imports);
    if w.pending.len() > 0 {
        lemma_step_decreases(masters, w, pass);
        let first = w.pending[0];
        let next = step(masters, w, pass);
        let g = FoundationView { work: next, ..f };
        lemma_source_of(masters, first.id);
        if w.defined.contains(first.id) || source_of(masters, first.id) is None {
            assert(is_recorded(defined, effects, g));
        } else {
            lemma_recorded_push(defined, effects, f, g, next.imports.last());
        }
        lemma_settle_recorded(masters, defined, effects, g, pass);
        let imports = settle(masters, next, pass).imports;
        let n = w.imports.len() as int;
        assert(imports.take(n) =~= next.imports.take(n));
        assert(next.imports.take(n) =~= w.imports);
        assert forall|k: int| n <= k < imports.len() implies !(
        #[trigger] imports[k]).foundation && !w.defined.contains(lower(imports[k].object.id())) by {
            if k < next.imports.len() {
                assert(imports.take(next.imports.len() as int)[k] == next.imports[k]);
            }
        }
    }
}

/// The position in the masters comes first.
pub open spec fn is_earlier(m: int, i: int, n: int, j: int) -> bool {
    m < n || (m == n && i < j)
}

/// The two copies stand in the masters in this order.
pub open spec fn is_in_order(
    masters: Seq<Seq<ObjectView>>,
    first: ImportView,
    second: ImportView,
) -> bool {
    exists|i: int, j: int|
        0 <= i < masters[first.master].len() && 0 <= j < masters[second.master].len()
            && #[trigger] masters[first.master][i] == first.object
            && #[trigger] masters[second.master][j] == second.object && is_earlier(
            first.master,
            i,
            second.master,
            j,
        )
}

/// The foundations, from the `a`th copy on, stand in the masters before record `j` of master `m`,
/// and in order.
spec fn is_laid_in_order(
    masters: Seq<Seq<ObjectView>>,
    imports: Seq<ImportView>,
    a: int,
    m: int,
    j: int,
) -> bool {
    &&& forall|k: int|
        a <= k < imports.len() ==> 0 <= (#[trigger] imports[k]).master < masters.len()
            && is_placed_before(masters, imports[k], m, j)
    &&& forall|k: int, l: int|
        a <= k < l < imports.len() ==> is_in_order(
            masters,
            #[trigger] imports[k],
            #[trigger] imports[l],
        )
}

spec fn is_placed_before(
    masters: Seq<Seq<ObjectView>>,
    import: ImportView,
    m: int,
    j: int,
) -> bool {
    exists|i: int|
        0 <= i < masters[import.master].len() && #[trigger] masters[import.master][i]
            == import.object && is_earlier(import.master, i, m, j)
}

/// The causes of foundations name the master.
spec fn are_causes_of_masters(imports: Seq<ImportView>, a: int, pass: Seq<char>) -> bool {
    forall|k: int|
        a <= k < imports.len() ==> (#[trigger] imports[k]).cause == foundation_cause(
            imports[k].master,
            pass,
        )
}

/// What holds while foundations are laid: `settled` is the work before.
spec fn is_laying(
    masters: Seq<Seq<ObjectView>>,
    defined: Set<Seq<char>>,
    effects: Set<EffectId>,
    pass: Seq<char>,
    settled: WorkView,
    f: FoundationView,
    m: int,
    j: int,
) -> bool {
    &&& is_recorded(defined, effects, f)
    &&& is_continued(settled.imports, settled.defined, f.work.imports, true)
    &&& settled.defined.subset_of(f.work.defined)
    &&& is_laid_in_order(masters, f.work.imports, settled.imports.len() as int, m, j)
    &&& are_causes_of_masters(f.work.imports, settled.imports.len() as int, pass)
}

proof fn lemma_lay_laying(
    masters: Seq<Seq<ObjectView>>,
    defined: Set<Seq<char>>,
    effects: Set<EffectId>,
    pass: Seq<char>,
    settled: WorkView,
    f: FoundationView,
    m: int,
    j: int,
)
    requires
        0 <= m < masters.len(),
        0 <= j < masters[m].len(),
        is_laying(masters, defined, effects, pass, settled, f, m, j),
    ensures
        is_laying(
            masters,
            defined,
            effects,
            pass,
            settled,
            lay(f, masters[m][j], m, pass),
            m,
            j + 1,
        ),
{
    let object = masters[m][j];
    let g = lay(f, object, m, pass);
    let before = f.work.imports;
    let imports = g.work.imports;
    let a = settled.imports.len() as int;
    assert forall|import: ImportView| #[trigger]
        is_placed_before(masters, import, m, j) implies is_placed_before(
        masters,
        import,
        m,
        j + 1,
    ) by {
        let i = choose|i: int|
            0 <= i < masters[import.master].len() && #[trigger] masters[import.master][i]
                == import.object && is_earlier(import.master, i, m, j);
        assert(is_earlier(import.master, i, m, j + 1));
    }
    if g != f {
        let import = imports.last();
        assert(imports == before.push(import));
        assert(import.object == object && import.master == m && import.foundation);
        lemma_recorded_push(defined, effects, f, g, import);
        assert(imports.take(a) =~= before.take(a));
        assert forall|k: int| a <= k < imports.len() implies (
        #[trigger] imports[k]).foundation && 0 <= imports[k].master < masters.len()
            && is_placed_before(masters, imports[k], m, j + 1) && (!(imports[k].foundation
            && imports[k].object is MagicEffect) ==> !settled.defined.contains(
            lower(imports[k].object.id()),
        )) && imports[k].cause == foundation_cause(imports[k].master, pass) by {
            if k < before.len() {
                assert(imports[k] == before[k]);
                assert(is_placed_before(masters, before[k], m, j));
            } else {
                assert(masters[m][j] == object);
                assert(is_earlier(m, j, m, j + 1));
            }
        }
        assert forall|k: int, l: int| a <= k < l < imports.len() implies is_in_order(
            masters,
            #[trigger] imports[k],
            #[trigger] imports[l],
        ) by {
            assert(imports[k] == before[k]);
            if l < before.len() {
                assert(imports[l] == before[l]);
                assert(is_in_order(masters, before[k], before[l]));
            } else {
                assert(is_placed_before(masters, before[k], m, j));
                let i = choose|i: int|
                    0 <= i < masters[before[k].master].len()
                        && #[trigger] masters[before[k].master][i] == before[k].object
                        && is_earlier(before[k].master, i, m, j);
                assert(masters[imports[k].master][i] == imports[k].object);
                assert(masters[imports[l].master][j] == imports[l].object);
            }
        }
    } else {
        assert forall|k: int| a <= k < imports.len() implies 0 <= (
        #[trigger] imports[k]).master < masters.len() && is_placed_before(
            masters,
            imports[k],
            m,
            j + 1,
        ) by {
            assert(is_placed_before(masters, imports[k], m, j));
        }
    }
}

proof fn lemma_lay_master_laying(
    masters: Seq<Seq<ObjectView>>,
    defined: Set<Seq<char>>,
    effects: Set<EffectId>,
    pass: Seq<char>,
    settled: WorkView,
    f: FoundationView,
    m: int,
    j: int,
)
    requires
        0 <= m < masters.len(),
        0 <= j <= masters[m].len(),
        is_laying(masters, defined, effects, pass, settled, f, m, 0),
    ensures
        is_laying(
            masters,
            defined,
            effects,
            pass,
            settled,
            lay_master(f, masters[m].take(j), m, pass),
            m,
            j,
        ),
    decreases j,
{
    if j > 0 {
        lemma_lay_master_laying(masters, defined, effects, pass, settled, f, m, j - 1);
        assert(masters[m].take(j).drop_last() =~= masters[m].take(j - 1));
        assert(masters[m].take(j).last() == masters[m][j - 1]);
        lemma_lay_laying(
            masters,
            defined,
            effects,
            pass,
            settled,
            lay_master(f, masters[m].take(j - 1), m, pass),
            m,
            j - 1,
        );
    }
}

proof fn lemma_lay_all_laying(
    masters: Seq<Seq<ObjectView>>,
    defined: Set<Seq<char>>,
    effects: Set<EffectId>,
    pass: Seq<char>,
    settled: WorkView,
    f: FoundationView,
    m: int,
)
    requires
        0 <= m <= masters.len(),
        is_laying(masters, defined, effects, pass, settled, f, 0, 0),
    ensures
        is_laying(
            masters,
            defined,
            effects,
            pass,
            settled,
            lay_all(f, masters.take(m), pass),
            m,
            0,
        ),
    decreases m,
{
    if m > 0 {
        let last = masters[m - 1];
        lemma_lay_all_laying(masters, defined, effects, pass, settled, f, m - 1);
        assert(masters.take(m).drop_last() =~= masters.take(m - 1));
        assert(masters.take(m).last() == last);
        assert(last.take(last.len() as int) =~= last);
        let n = last.len() as int;
        lemma_lay_master_laying(
            masters,
            defined,
            effects,
            pass,
            settled,
            lay_all(f, masters.take(m - 1), pass),
            m - 1,
            n,
        );
        let imports = lay_all(f, masters.take(m), pass).work.imports;
        assert forall|k: int| settled.imports.len() <= k < imports.len() implies 0 <= (
        #[trigger] imports[k]).master < masters.len() && is_placed_before(
            masters,
            imports[k],
            m,
            0,
        ) by {
            assert(is_placed_before(masters, imports[k], m - 1, n));
            let i = choose|i: int|
                0 <= i < masters[imports[k].master].len()
                    && #[trigger] masters[imports[k].master][i] == imports[k].object && is_earlier(
                    imports[k].master,
                    i,
                    m - 1,
                    n,
                );
            assert(is_earlier(imports[k].master, i, m, 0));
        }
    }
}

/// The copies from `a` up to `b` are the foundations. What comes before was needed without them;
/// what comes behind was not.
pub open spec fn is_divided(
    objects: Seq<ObjectView>,
    masters: Seq<Seq<ObjectView>>,
    with_dialogue: bool,
    imports: Seq<ImportView>,
    pass: Seq<char>,
    a: int,
    b: int,
) -> bool {
    let needing = looked_at(objects, with_dialogue, imports.take(a));
    &&& 0 <= a <= b <= imports.len()
    &&& forall|k: int|
        0 <= k < imports.len() ==> ((#[trigger] imports[k]).foundation <==> a <= k < b)
    &&& forall|k: int, p: int|
        a <= k < imports.len() && !((#[trigger] imports[k]).foundation
            && imports[k].object is MagicEffect) && 0 <= p < needing.len() ==> !(
        #[trigger] required_ids(needing[p])).contains(lower(imports[k].object.id()))
    &&& forall|k: int, l: int|
        a <= k < l < b ==> is_in_order(masters, #[trigger] imports[k], #[trigger] imports[l])
    &&& forall|k: int|
        a <= k < b ==> {
            let cause = (#[trigger] imports[k]).cause;
            &&& cause.pass == pass
            &&& cause.source_type == "FOUNDATION"@
            &&& cause.field == "foundation"@
            &&& imports[k].master == 0 ==> cause.source_id == "Bloodmoon.esm"@
            &&& imports[k].master == 1 ==> cause.source_id == "Tribunal.esm"@
            &&& imports[k].master == 2 ==> cause.source_id == "Morrowind.esm"@
        }
}

/// Foundations are copied in one run, in the order of the masters and of their records, once
/// nothing that the plugin needs is missing any more; only what they need in turn follows. The
/// cause of each names the master that it comes from.
#[verifier::rlimit(40)]
pub proof fn law_foundations_come_behind_the_needs_of_the_plugin(
    objects: Seq<ObjectView>,
    masters: Seq<Seq<ObjectView>>,
    with_dialogue: bool,
    defined: Set<Seq<char>>,
    effects: Set<EffectId>,
    pass: Seq<char>,
)
    ensures
        exists|a: int, b: int| #[trigger]
            is_divided(
                objects,
                masters,
                with_dialogue,
                completed(objects, masters, with_dialogue, defined, effects, pass).work.imports,
                pass,
                a,
                b,
            ),
        is_recorded(
            defined,
            effects,
            completed(objects, masters, with_dialogue, defined, effects, pass),
        ),
{
    let begun = start(objects, with_dialogue, defined, pass);
    let f0 = FoundationView { work: begun, effects };
    assert(is_recorded(defined, effects, f0));
    lemma_settle_recorded(masters, defined, effects, f0, pass);
    let settled = settle(masters, begun, pass);
    lemma_start_sound(objects, with_dialogue, masters, defined, pass);
    lemma_settle_sound(objects, with_dialogue, masters, defined, pass, begun);
    let f1 = FoundationView { work: settled, effects };
    let a = settled.imports.len() as int;
    assert(settled.imports.take(a) =~= settled.imports);
    assert(is_laying(masters, defined, effects, pass, settled, f1, 0, 0));
    assert(masters.take(masters.len() as int) =~= masters);
    lemma_lay_all_laying(
        masters,
        defined,
        effects,
        pass,
        settled,
        f1,
        masters.len() as int,
    );
    let f2 = lay_all(f1, masters, pass);
    let b = f2.work.imports.len() as int;
    lemma_settle_recorded(masters, defined, effects, f2, pass);
    let done = completed(objects, masters, with_dialogue, defined, effects, pass);
    let imports = done.work.imports;
    let needing = looked_at(objects, with_dialogue, imports.take(a));
    assert forall|k: int| 0 <= k < b implies #[trigger] imports[k] == f2.work.imports[k] by {
        assert(imports.take(b)[k] == imports[k]);
    }
    assert forall|k: int| 0 <= k < a implies #[trigger] imports[k] == settled.imports[k] by {
        assert(f2.work.imports.take(a)[k] == f2.work.imports[k]);
    }
    assert(imports.take(a) =~= settled.imports);
    assert forall|k: int| 0 <= k < imports.len() implies ((#[trigger] imports[k]).foundation <==> a
        <= k < b) by {
        if k < b {
            assert(imports[k] == f2.work.imports[k]);
        }
        if k < a {
            assert(imports[k] == settled.imports[k]);
            assert(!settled.imports[k].foundation);
        }
    }
    assert forall|k: int, p: int|
        a <= k < imports.len() && !((#[trigger] imports[k]).foundation
            && imports[k].object is MagicEffect) && 0 <= p < needing.len() implies !(
    #[trigger] required_ids(needing[p])).contains(lower(imports[k].object.id())) by {
        let id = lower(imports[k].object.id());
        if required_ids(needing[p]).contains(id) {
            lemma_needed_is_met(
                objects,
                masters,
                with_dialogue,
                defined,
                pass,
                settled,
                p,
                id,
            );
            law_copies_come_from_masters(
                objects,
                masters,
                with_dialogue,
                defined,
                effects,
                pass,
                k,
            );
            let m = imports[k].master;
            let j = choose|j: int| 0 <= j < masters[m].len() && masters[m][j] == imports[k].object;
            assert(is_offered(masters, m, j, id));
            lemma_offered(masters, m, j, id);
            assert(settled.defined.contains(id));
            if k < b {
                assert(imports[k] == f2.work.imports[k]);
            } else {
                assert(f2.work.defined.contains(id));
            }
        }
    }
    assert forall|k: int, l: int| a <= k < l < b implies is_in_order(
        masters,
        #[trigger] imports[k],
        #[trigger] imports[l],
    ) by {
        assert(is_in_order(masters, f2.work.imports[k], f2.work.imports[l]));
    }
    assert forall|k: int| a <= k < b implies (#[trigger] imports[k]).cause == foundation_cause(
        imports[k].master,
        pass,
    ) by {
        assert(imports[k] == f2.work.imports[k]);
    }
    assert(is_divided(objects, masters, with_dialogue, imports, pass, a, b));
}

proof fn lemma_needed_is_met(
    objects: Seq<ObjectView>,
    masters: Seq<Seq<ObjectView>>,
    with_dialogue: bool,
    defined: Set<Seq<char>>,
    pass: Seq<char>,
    w: WorkView,
    p: int,
    id: Seq<char>,
)
    requires
        is_sound(objects, with_dialogue, masters, defined, pass, w),
        w.pending.len() == 0,
        0 <= p < looked_at(objects, with_dialogue, w.imports).len(),
        required_ids(looked_at(objects, with_dialogue, w.imports)[p]).contains(id),
    ensures
        is_met(masters, w.defined, id),
{
    let o = looked_at(objects, with_dialogue, w.imports)[p];
    let n = scanned(objects, with_dialogue).len();
    lemma_looked_at(objects, with_dialogue, w.imports, p);
    if p < n {
        let pred = |o: ObjectView| !o.deleted() && (with_dialogue || !(o is DialogueInfo));
        assert(scanned(objects, with_dialogue)[p] == o);
        objects.lemma_filter_contains_rev(pred, o);
        objects.lemma_filter_pred(pred, p);
        let k = choose|k: int| 0 <= k < objects.len() && objects[k] == o;
        assert(is_scanned(objects[k], with_dialogue));
        assert(all_required_ids(objects, with_dialogue).contains(id));
    } else {
        assert(w.imports[p - n].object == o);
        assert(required_ids(w.imports[p - n].object).subset_of(w.required));
    }
    assert(w.required.contains(id));
    assert(!waits(w.pending, id));
}

} // verus!
