//! In which order records are copied, and to which need each copy is put down.

use vstd::prelude::*;

use crate::causes::{field_of, reported_id};
use crate::closure::{
    completed, enqueue, fresh_entries, lay, lay_all, lay_master, lemma_source_of,
    lemma_step_decreases, missing, needing, pending_for, settle, source_of, start, step,
    FoundationView, ImportView, WorkView,
};
use crate::ids::{lemma_sorted_lists, sorted};
use crate::closure_laws::lemma_all_required_finite;
use crate::pending::CauseView;
use crate::record_views::ObjectView;
use crate::records::EffectId;
use crate::references::{is_required, is_scanned, lemma_required_finite, required_ids};
use crate::text::{id_less, lower};

verus! {

/// The records of the plugin whose needs count: those not deleted, but for the lines of dialogue
/// where these are left for later.
pub open spec fn scanned(objects: Seq<ObjectView>, with_dialogue: bool) -> Seq<ObjectView> {
    objects.filter(|o: ObjectView| !o.deleted() && (with_dialogue || !(o is DialogueInfo)))
}

/// All records whose needs count, in the order in which they are looked at: those of the plugin,
/// then the copies.
pub open spec fn looked_at(
    objects: Seq<ObjectView>,
    with_dialogue: bool,
    imports: Seq<ImportView>,
) -> Seq<ObjectView> {
    scanned(objects, with_dialogue) + imports.map_values(|i: ImportView| i.object)
}

/// The record at `p` is the first that needs `id`.
pub open spec fn is_first_need(all: Seq<ObjectView>, id: Seq<char>, p: int) -> bool {
    &&& 0 <= p < all.len()
    &&& required_ids(all[p]).contains(id)
    &&& forall|q: int| 0 <= q < p ==> !required_ids(#[trigger] all[q]).contains(id)
}

/// The cause is that of the first record that needs `id`: its kind, its id and the field.
pub open spec fn is_attributed(
    all: Seq<ObjectView>,
    id: Seq<char>,
    cause: CauseView,
    pass: Seq<char>,
) -> bool {
    exists|p: int| #[trigger]
        is_first_need(all, id, p) && cause.pass == pass && cause.source_type == all[p].tag()
            && cause.source_id == reported_id(all[p]) && cause.field == field_of(all[p], id)
}

/// What the records of the plugin need, `n` of them, goes by the order of the ids, whichever of
/// them needs it. Behind that comes what the copies need, copy by copy, that of one copy by the
/// order of the ids.
pub open spec fn is_before(all: Seq<ObjectView>, n: nat, x: Seq<char>, y: Seq<char>) -> bool {
    exists|p: int, q: int| #[trigger]
        is_first_need(all, x, p) && #[trigger] is_first_need(all, y, q) && (if p < n && q < n {
            id_less(x, y)
        } else {
            p < q || (p == q && id_less(x, y))
        })
}

spec fn is_traced(
    objects: Seq<ObjectView>,
    with_dialogue: bool,
    pass: Seq<char>,
    w: WorkView,
) -> bool {
    let n = scanned(objects, with_dialogue).len();
    let all = looked_at(objects, with_dialogue, w.imports);
    &&& forall|p: int, id: Seq<char>|
        0 <= p < all.len() && #[trigger] required_ids(all[p]).contains(id) ==> w.required.contains(
            id,
        )
    &&& forall|k: int|
        0 <= k < w.pending.len() ==> is_attributed(
            all,
            (#[trigger] w.pending[k]).id,
            w.pending[k].cause,
            pass,
        )
    &&& forall|a: int, b: int|
        0 <= a < b < w.pending.len() ==> is_before(
            all,
            n,
            (#[trigger] w.pending[a]).id,
            (#[trigger] w.pending[b]).id,
        )
    &&& forall|k: int|
        0 <= k < w.imports.len() && !(#[trigger] w.imports[k]).foundation ==> is_attributed(
            all.take(n + k),
            lower(w.imports[k].object.id()),
            w.imports[k].cause,
            pass,
        )
    &&& forall|a: int, b: int|
        0 <= a < w.imports.len() && 0 <= b < w.pending.len() && !(
        #[trigger] w.imports[a]).foundation ==> is_before(
            all,
            n,
            lower(w.imports[a].object.id()),
            (#[trigger] w.pending[b]).id,
        )
    &&& forall|a: int, b: int|
        0 <= a < b < w.imports.len() && !(#[trigger] w.imports[a]).foundation && !(
        #[trigger] w.imports[b]).foundation ==> is_before(
            all,
            n,
            lower(w.imports[a].object.id()),
            lower(w.imports[b].object.id()),
        )
}

proof fn lemma_first_need_grows(all: Seq<ObjectView>, o: ObjectView, id: Seq<char>, p: int)
    requires
        is_first_need(all, id, p),
    ensures
        is_first_need(all.push(o), id, p),
{
    let more = all.push(o);
    assert(more[p] == all[p]);
    assert forall|q: int| 0 <= q < p implies !required_ids(#[trigger] more[q]).contains(id) by {
        assert(more[q] == all[q]);
    }
}

proof fn lemma_attributed_grows(
    all: Seq<ObjectView>,
    o: ObjectView,
    id: Seq<char>,
    cause: CauseView,
    pass: Seq<char>,
)
    requires
        is_attributed(all, id, cause, pass),
    ensures
        is_attributed(all.push(o), id, cause, pass),
{
    let p = choose|p: int| #[trigger]
        is_first_need(all, id, p) && cause.pass == pass && cause.source_type == all[p].tag()
            && cause.source_id == reported_id(all[p]) && cause.field == field_of(all[p], id);
    lemma_first_need_grows(all, o, id, p);
    assert(all.push(o)[p] == all[p]);
}

proof fn lemma_before_grows(
    all: Seq<ObjectView>,
    o: ObjectView,
    n: nat,
    x: Seq<char>,
    y: Seq<char>,
)
    requires
        is_before(all, n, x, y),
    ensures
        is_before(all.push(o), n, x, y),
{
    let (p, q) = choose|p: int, q: int| #[trigger]
        is_first_need(all, x, p) && #[trigger] is_first_need(all, y, q) && (if p < n && q < n {
            id_less(x, y)
        } else {
            p < q || (p == q && id_less(x, y))
        });
    lemma_first_need_grows(all, o, x, p);
    lemma_first_need_grows(all, o, y, q);
}

proof fn lemma_fresh_sorted(o: ObjectView, known: Set<Seq<char>>, pass: Seq<char>)
    ensures
        ({
            let entries = fresh_entries(o, known, pass);
            &&& forall|k: int|
                0 <= k < entries.len() ==> {
                    let entry = #[trigger] entries[k];
                    entry == pending_for(o, entry.id, pass) && required_ids(o).contains(entry.id)
                        && !known.contains(entry.id)
                }
            &&& forall|a: int, b: int|
                0 <= a < b < entries.len() ==> id_less(
                    (#[trigger] entries[a]).id,
                    (#[trigger] entries[b]).id,
                )
        }),
{
    let fresh = required_ids(o).difference(known);
    let listing = sorted(fresh);
    let entries = fresh_entries(o, known, pass);
    lemma_required_finite(o);
    vstd::set_lib::lemma_set_subset_finite(required_ids(o), fresh);
    lemma_sorted_lists(fresh);
    assert forall|k: int| 0 <= k < entries.len() implies {
        let entry = #[trigger] entries[k];
        entry == pending_for(o, entry.id, pass) && required_ids(o).contains(entry.id)
            && !known.contains(entry.id)
    } by {
        assert(listing.to_set().contains(listing[k]));
    }
    assert forall|a: int, b: int| 0 <= a < b < entries.len() implies id_less(
        (#[trigger] entries[a]).id,
        (#[trigger] entries[b]).id,
    ) by {
        assert(id_less(listing[a], listing[b]));
    }
}

/// A copy keeps the trace; `d` entries are done with.
#[verifier::rlimit(50)]
proof fn lemma_copy_traced(
    objects: Seq<ObjectView>,
    with_dialogue: bool,
    pass: Seq<char>,
    w: WorkView,
    d: int,
    known: Set<Seq<char>>,
    import: ImportView,
)
    requires
        is_traced(objects, with_dialogue, pass, w),
        0 <= d <= w.pending.len(),
        !import.foundation ==> d == 1 && lower(import.object.id()) == w.pending[0].id
            && import.cause == w.pending[0].cause,
    ensures
        is_traced(
            objects,
            with_dialogue,
            pass,
            enqueue(
                WorkView {
                    defined: known,
                    required: w.required,
                    pending: w.pending.skip(d),
                    imports: w.imports.push(import),
                },
                import.object,
                pass,
            ),
        ),
{
    let n = scanned(objects, with_dialogue).len();
    let all = looked_at(objects, with_dialogue, w.imports);
    let o = import.object;
    let c = all.len();
    let left = w.pending.skip(d);
    let next = enqueue(
        WorkView {
            defined: known,
            required: w.required,
            pending: left,
            imports: w.imports.push(import),
        },
        o,
        pass,
    );
    let more = looked_at(objects, with_dialogue, next.imports);
    let entries = fresh_entries(o, w.required, pass);
    assert(more =~= all.push(o));
    lemma_fresh_sorted(o, w.required, pass);
    assert forall|p: int, id: Seq<char>|
        0 <= p < more.len() && #[trigger] required_ids(more[p]).contains(
            id,
        ) implies next.required.contains(id) by {
        if p < c {
            assert(more[p] == all[p]);
        } else {
            assert(more[p] == o);
        }
    }
    assert forall|k: int| 0 <= k < entries.len() implies is_first_need(
        more,
        (#[trigger] entries[k]).id,
        c as int,
    ) by {
        let id = entries[k].id;
        assert(more[c as int] == o);
        assert forall|q: int| 0 <= q < c implies !required_ids(#[trigger] more[q]).contains(id) by {
            assert(more[q] == all[q]);
        }
    }
    assert forall|k: int| 0 <= k < next.pending.len() implies is_attributed(
        more,
        (#[trigger] next.pending[k]).id,
        next.pending[k].cause,
        pass,
    ) by {
        if k < left.len() {
            assert(next.pending[k] == w.pending[k + d]);
            lemma_attributed_grows(all, o, w.pending[k + d].id, w.pending[k + d].cause, pass);
        } else {
            assert(next.pending[k] == entries[k - left.len()]);
            assert(is_first_need(more, entries[k - left.len()].id, c as int));
        }
    }
    assert forall|x: Seq<char>, p: int, k: int|
        0 <= k < entries.len() && #[trigger] is_first_need(all, x, p) implies is_before(
        more,
        n,
        x,
        (#[trigger] entries[k]).id,
    ) by {
        lemma_first_need_grows(all, o, x, p);
        assert(is_first_need(more, entries[k].id, c as int));
    }
    assert forall|a: int, b: int| 0 <= a < b < next.pending.len() implies is_before(
        more,
        n,
        (#[trigger] next.pending[a]).id,
        (#[trigger] next.pending[b]).id,
    ) by {
        if b < left.len() {
            assert(next.pending[a] == w.pending[a + d]);
            assert(next.pending[b] == w.pending[b + d]);
            lemma_before_grows(all, o, n, w.pending[a + d].id, w.pending[b + d].id);
        } else {
            let y = entries[b - left.len()];
            assert(next.pending[b] == y);
            if a < left.len() {
                let x = w.pending[a + d];
                assert(next.pending[a] == x);
                assert(is_attributed(all, x.id, x.cause, pass));
                let p = choose|p: int| #[trigger] is_first_need(all, x.id, p);
                assert(is_first_need(all, x.id, p));
                assert(is_before(more, n, x.id, y.id));
            } else {
                let x = entries[a - left.len()];
                assert(next.pending[a] == x);
                assert(is_first_need(more, x.id, c as int));
                assert(is_first_need(more, y.id, c as int));
                assert(id_less(x.id, y.id));
            }
        }
    }
    let imports = next.imports;
    let own = lower(o.id());
    if !import.foundation {
        assert(is_attributed(all, own, import.cause, pass));
    }
    assert forall|k: int| 0 <= k < imports.len() && !(#[trigger] imports[k]).foundation implies
        is_attributed(more.take(n + k), lower(imports[k].object.id()), imports[k].cause, pass) by {
        assert(more.take(n + k) =~= all.take(n + k));
        if k < w.imports.len() {
            assert(imports[k] == w.imports[k]);
        } else {
            assert(all.take(n + k) =~= all);
        }
    }
    assert forall|a: int, b: int|
        0 <= a < imports.len() && 0 <= b < next.pending.len() && !(
        #[trigger] imports[a]).foundation implies is_before(
        more,
        n,
        lower(imports[a].object.id()),
        (#[trigger] next.pending[b]).id,
    ) by {
        let x = lower(imports[a].object.id());
        if a < w.imports.len() {
            assert(imports[a] == w.imports[a]);
        }
        if b < left.len() {
            assert(next.pending[b] == w.pending[b + d]);
            if a == w.imports.len() {
                assert(x == w.pending[0].id);
            }
            assert(is_before(all, n, x, w.pending[b + d].id));
            lemma_before_grows(all, o, n, x, w.pending[b + d].id);
        } else {
            let y = entries[b - left.len()];
            assert(next.pending[b] == y);
            if a < w.imports.len() {
                let part = all.take(n + a);
                assert(is_attributed(part, x, w.imports[a].cause, pass));
                let p = choose|p: int| #[trigger] is_first_need(part, x, p);
                lemma_first_need_part(all, n + a, x, p);
            } else {
                let p = choose|p: int| #[trigger] is_first_need(all, x, p);
                assert(is_first_need(all, x, p));
            }
            assert(is_before(more, n, x, y.id));
        }
    }
    assert forall|a: int, b: int|
        0 <= a < b < imports.len() && !(#[trigger] imports[a]).foundation && !(
        #[trigger] imports[b]).foundation implies is_before(
        more,
        n,
        lower(imports[a].object.id()),
        lower(imports[b].object.id()),
    ) by {
        assert(imports[a] == w.imports[a]);
        if b < w.imports.len() {
            assert(imports[b] == w.imports[b]);
            assert(is_before(
                all,
                n,
                lower(w.imports[a].object.id()),
                lower(w.imports[b].object.id()),
            ));
        } else {
            assert(is_before(all, n, lower(w.imports[a].object.id()), w.pending[0].id));
        }
        lemma_before_grows(
            all,
            o,
            n,
            lower(imports[a].object.id()),
            lower(imports[b].object.id()),
        );
    }
}

proof fn lemma_first_need_part(all: Seq<ObjectView>, n: int, id: Seq<char>, p: int)
    requires
        0 <= n <= all.len(),
        is_first_need(all.take(n), id, p),
    ensures
        is_first_need(all, id, p),
{
    assert(all[p] == all.take(n)[p]);
    assert forall|q: int| 0 <= q < p implies !required_ids(#[trigger] all[q]).contains(id) by {
        assert(all[q] == all.take(n)[q]);
    }
}

proof fn lemma_settle_traced(
    objects: Seq<ObjectView>,
    masters: Seq<Seq<ObjectView>>,
    with_dialogue: bool,
    pass: Seq<char>,
    w: WorkView,
)
    requires
        is_traced(objects, with_dialogue, pass, w),
    ensures
        is_traced(objects, with_dialogue, pass, settle(masters, w, pass)),
    decreases missing(masters, w.defined).len(), w.pending.len(),
{
    if w.pending.len() > 0 {
        lemma_step_decreases(masters, w, pass);
        let first = w.pending[0];
        let next = step(masters, w, pass);
        lemma_source_of(masters, first.id);
        if w.defined.contains(first.id) || source_of(masters, first.id) is None {
            assert(next == WorkView { pending: w.pending.skip(1), ..w });
            assert forall|k: int| 0 <= k < next.pending.len() implies #[trigger] next.pending[k]
                == w.pending[k + 1] by {}
            assert(is_traced(objects, with_dialogue, pass, next));
        } else {
            let (m, j) = source_of(masters, first.id)->0;
            let import = ImportView {
                object: masters[m][j],
                master: m,
                foundation: false,
                cause: first.cause,
            };
            lemma_copy_traced(
                objects,
                with_dialogue,
                pass,
                w,
                1,
                w.defined.insert(first.id),
                import,
            );
        }
        lemma_settle_traced(objects, masters, with_dialogue, pass, next);
    }
}

proof fn lemma_lay_traced(
    objects: Seq<ObjectView>,
    with_dialogue: bool,
    pass: Seq<char>,
    f: FoundationView,
    object: ObjectView,
    master: int,
)
    requires
        is_traced(objects, with_dialogue, pass, f.work),
    ensures
        is_traced(objects, with_dialogue, pass, lay(f, object, master, pass).work),
{
    let g = lay(f, object, master, pass);
    if g.work.imports != f.work.imports {
        assert(f.work.pending.skip(0) =~= f.work.pending);
        lemma_copy_traced(
            objects,
            with_dialogue,
            pass,
            f.work,
            0,
            g.work.defined,
            g.work.imports.last(),
        );
    } else if g.work != f.work {
        assert(g.work.imports.len() == f.work.imports.len() + 1);
    }
}

proof fn lemma_lay_master_traced(
    objects: Seq<ObjectView>,
    with_dialogue: bool,
    pass: Seq<char>,
    f: FoundationView,
    records: Seq<ObjectView>,
    master: int,
)
    requires
        is_traced(objects, with_dialogue, pass, f.work),
    ensures
        is_traced(objects, with_dialogue, pass, lay_master(f, records, master, pass).work),
    decreases records.len(),
{
    if records.len() > 0 {
        lemma_lay_master_traced(objects, with_dialogue, pass, f, records.drop_last(), master);
        lemma_lay_traced(
            objects,
            with_dialogue,
            pass,
            lay_master(f, records.drop_last(), master, pass),
            records.last(),
            master,
        );
    }
}

proof fn lemma_lay_all_traced(
    objects: Seq<ObjectView>,
    with_dialogue: bool,
    pass: Seq<char>,
    f: FoundationView,
    masters: Seq<Seq<ObjectView>>,
)
    requires
        is_traced(objects, with_dialogue, pass, f.work),
    ensures
        is_traced(objects, with_dialogue, pass, lay_all(f, masters, pass).work),
    decreases masters.len(),
{
    if masters.len() > 0 {
        lemma_lay_all_traced(objects, with_dialogue, pass, f, masters.drop_last());
        lemma_lay_master_traced(
            objects,
            with_dialogue,
            pass,
            lay_all(f, masters.drop_last(), pass),
            masters.last(),
            masters.len() - 1,
        );
    }
}

proof fn lemma_scanned_step(objects: Seq<ObjectView>, with_dialogue: bool)
    requires
        objects.len() > 0,
    ensures
        scanned(objects, with_dialogue) == (if is_scanned(objects.last(), with_dialogue) {
            scanned(objects.drop_last(), with_dialogue).push(objects.last())
        } else {
            scanned(objects.drop_last(), with_dialogue)
        }),
{
    reveal(Seq::filter);
}

/// The record that a need of the plugin is put down to is the first that is looked at.
proof fn lemma_needing_first(objects: Seq<ObjectView>, with_dialogue: bool, id: Seq<char>) -> (p:
    int)
    requires
        is_required(objects, with_dialogue, id),
    ensures
        is_first_need(scanned(objects, with_dialogue), id, p),
        scanned(objects, with_dialogue)[p] == needing(objects, with_dialogue, id),
    decreases objects.len(),
{
    let k = choose|k: int|
        0 <= k < objects.len() && is_scanned(#[trigger] objects[k], with_dialogue) && required_ids(
            objects[k],
        ).contains(id);
    let rest = objects.drop_last();
    let all = scanned(objects, with_dialogue);
    let part = scanned(rest, with_dialogue);
    lemma_scanned_step(objects, with_dialogue);
    if is_required(rest, with_dialogue, id) {
        let p = lemma_needing_first(rest, with_dialogue, id);
        if is_scanned(objects.last(), with_dialogue) {
            lemma_first_need_grows(part, objects.last(), id, p);
        }
        p
    } else {
        if k < rest.len() {
            assert(rest[k] == objects[k]);
        }
        assert(objects[k] == objects.last());
        let p = part.len() as int;
        assert(all == part.push(objects.last()));
        assert forall|q: int| 0 <= q < p implies !required_ids(#[trigger] all[q]).contains(id) by {
            assert(all[q] == part[q]);
            lemma_scanned_in(rest, with_dialogue, q);
        }
        p
    }
}

proof fn lemma_scanned_in(objects: Seq<ObjectView>, with_dialogue: bool, q: int)
    requires
        0 <= q < scanned(objects, with_dialogue).len(),
    ensures
        forall|id: Seq<char>| #[trigger]
            required_ids(scanned(objects, with_dialogue)[q]).contains(id) ==> is_required(
                objects,
                with_dialogue,
                id,
            ),
{
    let pred = |o: ObjectView| !o.deleted() && (with_dialogue || !(o is DialogueInfo));
    let o = scanned(objects, with_dialogue)[q];
    objects.lemma_filter_contains_rev(pred, o);
    objects.lemma_filter_pred(pred, q);
    let k = choose|k: int| 0 <= k < objects.len() && objects[k] == o;
    assert(is_scanned(objects[k], with_dialogue));
}

proof fn lemma_start_traced(
    objects: Seq<ObjectView>,
    with_dialogue: bool,
    defined: Set<Seq<char>>,
    pass: Seq<char>,
)
    ensures
        is_traced(objects, with_dialogue, pass, start(objects, with_dialogue, defined, pass)),
{
    let w = start(objects, with_dialogue, defined, pass);
    let n = scanned(objects, with_dialogue).len();
    let all = looked_at(objects, with_dialogue, w.imports);
    let listing = sorted(w.required);
    assert(all =~= scanned(objects, with_dialogue));
    lemma_all_required_finite(objects, with_dialogue);
    lemma_sorted_lists(w.required);
    assert forall|p: int, id: Seq<char>|
        0 <= p < all.len() && #[trigger] required_ids(all[p]).contains(
            id,
        ) implies w.required.contains(id) by {
        lemma_scanned_in(objects, with_dialogue, p);
    }
    assert forall|k: int| 0 <= k < w.pending.len() implies is_attributed(
        all,
        (#[trigger] w.pending[k]).id,
        w.pending[k].cause,
        pass,
    ) by {
        let id = listing[k];
        assert(listing.to_set().contains(id));
        let p = lemma_needing_first(objects, with_dialogue, id);
        assert(is_first_need(all, id, p));
    }
    assert forall|a: int, b: int| 0 <= a < b < w.pending.len() implies is_before(
        all,
        n,
        (#[trigger] w.pending[a]).id,
        (#[trigger] w.pending[b]).id,
    ) by {
        assert(is_attributed(all, w.pending[a].id, w.pending[a].cause, pass));
        assert(is_attributed(all, w.pending[b].id, w.pending[b].cause, pass));
        let p = choose|p: int| #[trigger] is_first_need(all, w.pending[a].id, p);
        let q = choose|q: int| #[trigger] is_first_need(all, w.pending[b].id, q);
        assert(is_first_need(all, w.pending[a].id, p) && is_first_need(all, w.pending[b].id, q));
        assert(id_less(listing[a], listing[b]));
    }
}

proof fn lemma_completed_traced(
    objects: Seq<ObjectView>,
    masters: Seq<Seq<ObjectView>>,
    with_dialogue: bool,
    defined: Set<Seq<char>>,
    effects: Set<EffectId>,
    pass: Seq<char>,
)
    ensures
        is_traced(
            objects,
            with_dialogue,
            pass,
            completed(objects, masters, with_dialogue, defined, effects, pass).work,
        ),
{
    let begun = start(objects, with_dialogue, defined, pass);
    lemma_start_traced(objects, with_dialogue, defined, pass);
    lemma_settle_traced(objects, masters, with_dialogue, pass, begun);
    let f = FoundationView { work: settle(masters, begun, pass), effects };
    lemma_lay_all_traced(objects, with_dialogue, pass, f, masters);
    lemma_settle_traced(objects, masters, with_dialogue, pass, lay_all(f, masters, pass).work);
}

/// A copy that is no foundation is put down to the first record that needs it, of all those looked
/// at before it: the records of the plugin, then the copies. The cause gives that record's kind and
/// id, and the field.
pub proof fn law_copies_are_put_down_to_the_first_need(
    objects: Seq<ObjectView>,
    masters: Seq<Seq<ObjectView>>,
    with_dialogue: bool,
    defined: Set<Seq<char>>,
    effects: Set<EffectId>,
    pass: Seq<char>,
    k: int,
)
    requires
        ({
            let imports = completed(
                objects,
                masters,
                with_dialogue,
                defined,
                effects,
                pass,
            ).work.imports;
            0 <= k < imports.len() && !imports[k].foundation
        }),
    ensures
        ({
            let imports = completed(
                objects,
                masters,
                with_dialogue,
                defined,
                effects,
                pass,
            ).work.imports;
            is_attributed(
                looked_at(objects, with_dialogue, imports.take(k)),
                lower(imports[k].object.id()),
                imports[k].cause,
                pass,
            )
        }),
{
    lemma_completed_traced(objects, masters, with_dialogue, defined, effects, pass);
    let imports = completed(objects, masters, with_dialogue, defined, effects, pass).work.imports;
    let n = scanned(objects, with_dialogue).len();
    assert(looked_at(objects, with_dialogue, imports).take(n + k) =~= looked_at(
        objects,
        with_dialogue,
        imports.take(k),
    ));
}

/// Copies that are no foundations come in the order of the needs: first what the plugin needs, by
/// id; behind that what each copy needs, copy by copy, that of one copy by id.
pub proof fn law_copies_follow_the_needs(
    objects: Seq<ObjectView>,
    masters: Seq<Seq<ObjectView>>,
    with_dialogue: bool,
    defined: Set<Seq<char>>,
    effects: Set<EffectId>,
    pass: Seq<char>,
    a: int,
    b: int,
)
    requires
        ({
            let imports = completed(
                objects,
                masters,
                with_dialogue,
                defined,
                effects,
                pass,
            ).work.imports;
            0 <= a < b < imports.len() && !imports[a].foundation && !imports[b].foundation
        }),
    ensures
        ({
            let imports = completed(
                objects,
                masters,
                with_dialogue,
                defined,
                effects,
                pass,
            ).work.imports;
            is_before(
                looked_at(objects, with_dialogue, imports),
                scanned(objects, with_dialogue).len(),
                lower(imports[a].object.id()),
                lower(imports[b].object.id()),
            )
        }),
{
    lemma_completed_traced(objects, masters, with_dialogue, defined, effects, pass);
}

} // verus!
