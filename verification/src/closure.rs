//! What it takes to make a plugin stand on its own: the records that must be copied from its
//! masters, in the order in which they are copied.

use vstd::prelude::*;

use crate::causes::{field_of, reported_id};
use crate::ids::sorted;
use crate::pending::{CauseView, PendingView};
use crate::record_views::ObjectView;
use crate::records::EffectId;
use crate::references::{all_required_ids, is_required, required_ids, stays_home};
use crate::text::lower;

verus! {

/// `object` can be copied under the id `id`.
pub open spec fn offers(object: ObjectView, id: Seq<char>) -> bool {
    !stays_home(object) && !object.deleted() && lower(object.id()) == id
}

/// The first record of a master that can be copied under `id`.
pub open spec fn first_offer(objects: Seq<ObjectView>, id: Seq<char>) -> Option<int>
    decreases objects.len(),
{
    if objects.len() == 0 {
        None
    } else {
        match first_offer(objects.drop_last(), id) {
            Some(j) => Some(j),
            None => if offers(objects.last(), id) {
                Some(objects.len() - 1)
            } else {
                None
            },
        }
    }
}

/// The master and the position of the record that an id stands for: the first offer of the first
/// master that has one.
pub open spec fn source_of(masters: Seq<Seq<ObjectView>>, id: Seq<char>) -> Option<(int, int)>
    decreases masters.len(),
{
    if masters.len() == 0 {
        None
    } else {
        match source_of(masters.drop_last(), id) {
            Some(source) => Some(source),
            None => match first_offer(masters.last(), id) {
                Some(j) => Some((masters.len() - 1, j)),
                None => None,
            },
        }
    }
}

/// A record copied from a master.
pub struct ImportView {
    pub object: ObjectView,
    pub master: int,
    /// It was copied because of its kind, not because a record needs it.
    pub foundation: bool,
    pub cause: CauseView,
}

/// The state of the work: the ids that are defined, the ids that are known to be needed, those of
/// them that wait to be looked at, and the records copied so far.
pub struct WorkView {
    pub defined: Set<Seq<char>>,
    pub required: Set<Seq<char>>,
    pub pending: Seq<PendingView>,
    pub imports: Seq<ImportView>,
}

/// The entry that waits because `object` needs `id`.
pub open spec fn pending_for(object: ObjectView, id: Seq<char>, pass: Seq<char>) -> PendingView {
    PendingView {
        id,
        cause: CauseView {
            pass,
            source_type: object.tag(),
            source_id: reported_id(object),
            field: field_of(object, id),
        },
    }
}

/// The entries for the needs of `object` that are not known yet, in the order of the ids.
pub open spec fn fresh_entries(
    object: ObjectView,
    known: Set<Seq<char>>,
    pass: Seq<char>,
) -> Seq<PendingView> {
    sorted(required_ids(object).difference(known)).map_values(
        |id: Seq<char>| pending_for(object, id, pass),
    )
}

/// The needs of `object` become known; those that are new wait.
pub open spec fn enqueue(w: WorkView, object: ObjectView, pass: Seq<char>) -> WorkView {
    WorkView {
        required: w.required + required_ids(object),
        pending: w.pending + fresh_entries(object, w.required, pass),
        ..w
    }
}

/// Looks at the first waiting id. One that is defined, or that no master offers, needs nothing.
/// Any other is copied: it is then defined, and what the copy needs becomes known.
pub open spec fn step(masters: Seq<Seq<ObjectView>>, w: WorkView, pass: Seq<char>) -> WorkView {
    let first = w.pending[0];
    let rest = WorkView { pending: w.pending.skip(1), ..w };
    if w.defined.contains(first.id) {
        rest
    } else {
        match source_of(masters, first.id) {
            None => rest,
            Some((m, j)) => enqueue(
                WorkView {
                    defined: w.defined.insert(first.id),
                    imports: w.imports.push(
                        ImportView {
                            object: masters[m][j],
                            master: m,
                            foundation: false,
                            cause: first.cause,
                        },
                    ),
                    ..rest
                },
                masters[m][j],
                pass,
            ),
        }
    }
}

/// The ids of all records of the masters.
pub open spec fn master_ids(masters: Seq<Seq<ObjectView>>) -> Set<Seq<char>> {
    masters.flatten().map_values(|o: ObjectView| lower(o.id())).to_set()
}

/// The ids of the masters that are not defined.
pub open spec fn missing(masters: Seq<Seq<ObjectView>>, defined: Set<Seq<char>>) -> Set<Seq<char>> {
    master_ids(masters).difference(defined)
}

/// The work done until nothing waits.
pub open spec fn settle(masters: Seq<Seq<ObjectView>>, w: WorkView, pass: Seq<char>) -> WorkView
    decreases missing(masters, w.defined).len(), w.pending.len(),
{
    if w.pending.len() == 0 {
        w
    } else {
        proof {
            lemma_step_decreases(masters, w, pass);
        }
        settle(masters, step(masters, w, pass), pass)
    }
}

/// A found offer is an offer, and nothing before it is one.
pub proof fn lemma_first_offer(objects: Seq<ObjectView>, id: Seq<char>)
    ensures
        match first_offer(objects, id) {
            Some(j) => {
                &&& 0 <= j < objects.len()
                &&& offers(objects[j], id)
                &&& forall|k: int| 0 <= k < j ==> !offers(#[trigger] objects[k], id)
            },
            None => forall|k: int| 0 <= k < objects.len() ==> !offers(#[trigger] objects[k], id),
        },
    decreases objects.len(),
{
    if objects.len() > 0 {
        let rest = objects.drop_last();
        lemma_first_offer(rest, id);
        assert forall|k: int| 0 <= k < rest.len() implies objects[k] == #[trigger] rest[k] by {}
        match first_offer(rest, id) {
            Some(j) => {
                assert(objects[j] == rest[j]);
                assert forall|k: int| 0 <= k < j implies !offers(#[trigger] objects[k], id) by {
                    assert(objects[k] == rest[k]);
                }
            },
            None => {
                assert forall|k: int| 0 <= k < rest.len() implies !offers(
                    #[trigger] objects[k],
                    id,
                ) by {
                    assert(objects[k] == rest[k]);
                }
            },
        }
    }
}

/// A found source is the first offer of the first master that has one.
pub proof fn lemma_source_of(masters: Seq<Seq<ObjectView>>, id: Seq<char>)
    ensures
        match source_of(masters, id) {
            Some((m, j)) => {
                &&& 0 <= m < masters.len()
                &&& first_offer(masters[m], id) == Some(j)
                &&& 0 <= j < masters[m].len()
                &&& offers(masters[m][j], id)
                &&& forall|k: int| 0 <= k < m ==> first_offer(#[trigger] masters[k], id) is None
            },
            None => forall|k: int|
                0 <= k < masters.len() ==> first_offer(#[trigger] masters[k], id) is None,
        },
    decreases masters.len(),
{
    if masters.len() > 0 {
        let rest = masters.drop_last();
        lemma_source_of(rest, id);
        lemma_first_offer(masters.last(), id);
        match source_of(rest, id) {
            Some((m, j)) => {
                assert(masters[m] == rest[m]);
                assert forall|k: int| 0 <= k < m implies first_offer(
                    #[trigger] masters[k],
                    id,
                ) is None by {
                    assert(masters[k] == rest[k]);
                }
            },
            None => {
                assert forall|k: int| 0 <= k < rest.len() implies first_offer(
                    #[trigger] masters[k],
                    id,
                ) is None by {
                    assert(masters[k] == rest[k]);
                }
            },
        }
    }
}

/// The ids of the masters hold that of each of their records.
pub proof fn lemma_master_ids(masters: Seq<Seq<ObjectView>>, m: int, j: int)
    requires
        0 <= m < masters.len(),
        0 <= j < masters[m].len(),
    ensures
        master_ids(masters).contains(lower(masters[m][j].id())),
        master_ids(masters).finite(),
{
    lemma_in_flatten(masters, m, j);
    let all = masters.flatten();
    let k = choose|k: int| 0 <= k < all.len() && all[k] == masters[m][j];
    let ids = all.map_values(|o: ObjectView| lower(o.id()));
    assert(ids[k] == lower(masters[m][j].id()));
    vstd::seq_lib::seq_to_set_is_finite(ids);
}

proof fn lemma_in_flatten(masters: Seq<Seq<ObjectView>>, m: int, j: int)
    requires
        0 <= m < masters.len(),
        0 <= j < masters[m].len(),
    ensures
        masters.flatten().contains(masters[m][j]),
    decreases masters.len(),
{
    let rest = masters.drop_first();
    let all = masters.flatten();
    assert(all == masters.first() + rest.flatten());
    if m == 0 {
        assert(all[j] == masters[0][j]);
    } else {
        assert(rest[m - 1] == masters[m]);
        lemma_in_flatten(rest, m - 1, j);
        let k = choose|k: int| 0 <= k < rest.flatten().len() && rest.flatten()[k] == masters[m][j];
        assert(all[masters.first().len() + k] == masters[m][j]);
    }
}

/// Each look leaves fewer ids undefined, or as many and one entry less.
pub proof fn lemma_step_decreases(masters: Seq<Seq<ObjectView>>, w: WorkView, pass: Seq<char>)
    requires
        w.pending.len() > 0,
    ensures
        ({
            let next = step(masters, w, pass);
            let before = missing(masters, w.defined).len();
            let after = missing(masters, next.defined).len();
            after < before || (after == before && next.pending.len() < w.pending.len())
        }),
{
    let first = w.pending[0];
    if !w.defined.contains(first.id) {
        lemma_source_of(masters, first.id);
        match source_of(masters, first.id) {
            None => {},
            Some((m, j)) => {
                lemma_master_ids(masters, m, j);
                let before = missing(masters, w.defined);
                assert(before.contains(first.id));
                assert(before.finite()) by {
                    assert(before.subset_of(master_ids(masters)));
                    vstd::set_lib::lemma_set_subset_finite(master_ids(masters), before);
                }
                assert(missing(masters, w.defined.insert(first.id)) =~= before.remove(first.id));
            },
        }
    }
}

/// The first scanned record that needs `id`.
pub open spec fn needing(objects: Seq<ObjectView>, with_dialogue: bool, id: Seq<char>) -> ObjectView
    decreases objects.len(),
{
    if objects.len() > 0 && is_required(objects.drop_last(), with_dialogue, id) {
        needing(objects.drop_last(), with_dialogue, id)
    } else {
        objects.last()
    }
}

/// The work before it begins: all that the scanned records need waits, in the order of the ids.
pub open spec fn start(
    objects: Seq<ObjectView>,
    with_dialogue: bool,
    defined: Set<Seq<char>>,
    pass: Seq<char>,
) -> WorkView {
    let required = all_required_ids(objects, with_dialogue);
    WorkView {
        defined,
        required,
        pending: sorted(required).map_values(
            |id: Seq<char>| pending_for(needing(objects, with_dialogue, id), id, pass),
        ),
        imports: Seq::empty(),
    }
}

/// Kinds of records that are copied whether or not a record needs them.
pub open spec fn is_foundation(object: ObjectView) -> bool {
    object is GameSetting || object is MagicEffect || object is Race || object is Class
}

/// The file name of a master.
pub open spec fn master_name(master: int) -> Seq<char> {
    if master == 0 {
        "Bloodmoon.esm"@
    } else if master == 1 {
        "Tribunal.esm"@
    } else if master == 2 {
        "Morrowind.esm"@
    } else {
        "master"@
    }
}

/// The cause of a copy made because of the kind of the record.
pub open spec fn foundation_cause(master: int, pass: Seq<char>) -> CauseView {
    CauseView {
        pass,
        source_type: "FOUNDATION"@,
        source_id: master_name(master),
        field: "foundation"@,
    }
}

/// The work together with the magic effects that are defined.
pub struct FoundationView {
    pub work: WorkView,
    pub effects: Set<EffectId>,
}

/// The work after `object` was copied as a foundation.
pub open spec fn laid(w: WorkView, object: ObjectView, master: int, pass: Seq<char>) -> WorkView {
    enqueue(
        WorkView {
            imports: w.imports.push(
                ImportView {
                    object,
                    master,
                    foundation: true,
                    cause: foundation_cause(master, pass),
                },
            ),
            ..w
        },
        object,
        pass,
    )
}

/// Copies `object` if it is a foundation that is not defined: a magic effect goes by its number,
/// any other record by its id.
pub open spec fn lay(
    f: FoundationView,
    object: ObjectView,
    master: int,
    pass: Seq<char>,
) -> FoundationView {
    if object.deleted() || !is_foundation(object) {
        f
    } else {
        match object {
            ObjectView::MagicEffect(effect) => if f.effects.contains(effect.effect_id) {
                f
            } else {
                FoundationView {
                    work: laid(f.work, object, master, pass),
                    effects: f.effects.insert(effect.effect_id),
                }
            },
            _ => if f.work.defined.contains(lower(object.id())) {
                f
            } else {
                FoundationView {
                    work: laid(
                        WorkView {
                            defined: f.work.defined.insert(lower(object.id())),
                            ..f.work
                        },
                        object,
                        master,
                        pass,
                    ),
                    ..f
                }
            },
        }
    }
}

/// Copies the foundations of a master, in the order of its records.
pub open spec fn lay_master(
    f: FoundationView,
    objects: Seq<ObjectView>,
    master: int,
    pass: Seq<char>,
) -> FoundationView
    decreases objects.len(),
{
    if objects.len() == 0 {
        f
    } else {
        lay(lay_master(f, objects.drop_last(), master, pass), objects.last(), master, pass)
    }
}

/// Copies the foundations of all masters, in their order.
pub open spec fn lay_all(
    f: FoundationView,
    masters: Seq<Seq<ObjectView>>,
    pass: Seq<char>,
) -> FoundationView
    decreases masters.len(),
{
    if masters.len() == 0 {
        f
    } else {
        lay_master(lay_all(f, masters.drop_last(), pass), masters.last(), masters.len() - 1, pass)
    }
}

/// The whole pass: what the scanned records need, then the foundations, then what those need.
pub open spec fn completed(
    objects: Seq<ObjectView>,
    masters: Seq<Seq<ObjectView>>,
    with_dialogue: bool,
    defined: Set<Seq<char>>,
    effects: Set<EffectId>,
    pass: Seq<char>,
) -> FoundationView {
    let settled = settle(masters, start(objects, with_dialogue, defined, pass), pass);
    let based = lay_all(FoundationView { work: settled, effects }, masters, pass);
    FoundationView { work: settle(masters, based.work, pass), ..based }
}

/// The copied records.
pub open spec fn copies_of(imports: Seq<ImportView>) -> Seq<ObjectView> {
    imports.map_values(|i: ImportView| i.object)
}

/// The work with earlier copies put before its own.
pub open spec fn after_copies(earlier: Seq<ImportView>, w: WorkView) -> WorkView {
    WorkView { imports: earlier + w.imports, ..w }
}

proof fn lemma_step_after(
    masters: Seq<Seq<ObjectView>>,
    earlier: Seq<ImportView>,
    w: WorkView,
    pass: Seq<char>,
)
    requires
        w.pending.len() > 0,
    ensures
        step(masters, after_copies(earlier, w), pass) == after_copies(
            earlier,
            step(masters, w, pass),
        ),
{
    let left = step(masters, after_copies(earlier, w), pass);
    let right = after_copies(earlier, step(masters, w, pass));
    assert(left.imports =~= right.imports);
}

/// Earlier copies do not change what is done.
pub proof fn lemma_settle_after(
    masters: Seq<Seq<ObjectView>>,
    earlier: Seq<ImportView>,
    w: WorkView,
    pass: Seq<char>,
)
    ensures
        settle(masters, after_copies(earlier, w), pass) == after_copies(
            earlier,
            settle(masters, w, pass),
        ),
    decreases missing(masters, w.defined).len(), w.pending.len(),
{
    if w.pending.len() > 0 {
        lemma_step_decreases(masters, w, pass);
        lemma_step_after(masters, earlier, w, pass);
        lemma_settle_after(masters, earlier, step(masters, w, pass), pass);
    }
}

/// The foundations with earlier copies put before their own.
pub open spec fn based_after(earlier: Seq<ImportView>, f: FoundationView) -> FoundationView {
    FoundationView { work: after_copies(earlier, f.work), ..f }
}

proof fn lemma_lay_after(
    earlier: Seq<ImportView>,
    f: FoundationView,
    object: ObjectView,
    master: int,
    pass: Seq<char>,
)
    ensures
        lay(based_after(earlier, f), object, master, pass) == based_after(
            earlier,
            lay(f, object, master, pass),
        ),
{
    let left = lay(based_after(earlier, f), object, master, pass);
    let right = based_after(earlier, lay(f, object, master, pass));
    assert(left.work.imports =~= right.work.imports);
}

proof fn lemma_lay_master_after(
    earlier: Seq<ImportView>,
    f: FoundationView,
    objects: Seq<ObjectView>,
    master: int,
    pass: Seq<char>,
)
    ensures
        lay_master(based_after(earlier, f), objects, master, pass) == based_after(
            earlier,
            lay_master(f, objects, master, pass),
        ),
    decreases objects.len(),
{
    if objects.len() > 0 {
        lemma_lay_master_after(earlier, f, objects.drop_last(), master, pass);
        lemma_lay_after(
            earlier,
            lay_master(f, objects.drop_last(), master, pass),
            objects.last(),
            master,
            pass,
        );
    }
}

/// Earlier copies do not change which foundations are copied.
pub proof fn lemma_lay_all_after(
    earlier: Seq<ImportView>,
    f: FoundationView,
    masters: Seq<Seq<ObjectView>>,
    pass: Seq<char>,
)
    ensures
        lay_all(based_after(earlier, f), masters, pass) == based_after(
            earlier,
            lay_all(f, masters, pass),
        ),
    decreases masters.len(),
{
    if masters.len() > 0 {
        let rest = masters.drop_last();
        lemma_lay_all_after(earlier, f, rest, pass);
        lemma_lay_master_after(
            earlier,
            lay_all(f, rest, pass),
            masters.last(),
            masters.len() - 1,
            pass,
        );
    }
}

/// The copies of two lists of imports, one behind the other.
pub proof fn lemma_copies_add(a: Seq<ImportView>, b: Seq<ImportView>)
    ensures
        copies_of(a + b) == copies_of(a) + copies_of(b),
{
    assert(copies_of(a + b) =~= copies_of(a) + copies_of(b));
}

} // verus!
