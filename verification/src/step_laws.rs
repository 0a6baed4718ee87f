//! The work of copying, one step at a time.

use vstd::prelude::*;

use crate::causes::{field_of, reported_id};
use crate::closure::{
    first_offer, fresh_entries, lay_all, lemma_first_offer, lemma_source_of, lemma_step_decreases,
    master_name, offers, settle, source_of, FoundationView, ImportView, WorkView,
};
use crate::copying_laws::{is_offered, is_portable};
use crate::ids::{lemma_sorted_lists, sorted};
use crate::pending::{waiting, CauseView, PendingDependency, PendingView};
use crate::record_views::ObjectView;
use crate::records::Plugin;
use crate::references::{is_scanned, lemma_required_finite, required_ids, stays_home};
use crate::text::{id_less, lower};
use crate::vanilla_index::masters_of;

verus! {

/// Just the records of nine kinds are never copied.
pub proof fn law_nine_kinds_stay_home(object: ObjectView)
    ensures
        stays_home(object) <==> !is_portable(object),
{
}

/// The needs of a record count unless it is deleted, or is a line of dialogue while those are left
/// for later.
pub proof fn law_needs_of_deleted_records_do_not_count(object: ObjectView, with_dialogue: bool)
    ensures
        is_scanned(object, with_dialogue) <==> !object.deleted() && (with_dialogue || !(
        object is DialogueInfo)),
{
}

/// The masters are known by their places.
pub proof fn law_masters_are_known_by_their_places(master: int)
    ensures
        master_name(0) == "Bloodmoon.esm"@,
        master_name(1) == "Tribunal.esm"@,
        master_name(2) == "Morrowind.esm"@,
        master != 0 && master != 1 && master != 2 ==> master_name(master) == "master"@,
{
}

/// Each base plugin is a master, in order, with all its records.
pub proof fn law_base_plugins_are_the_masters(plugins: Seq<Plugin>)
    ensures
        masters_of(plugins).len() == plugins.len(),
        forall|k: int| 0 <= k < plugins.len() ==> #[trigger] masters_of(plugins)[k] == plugins[k]@,
{
}

/// An id stands for the first record with it, in the order of the masters and of their records,
/// that is not deleted and of a kind that may be copied; for none if there is no such record.
pub proof fn law_ids_stand_for_first_offers(masters: Seq<Seq<ObjectView>>, id: Seq<char>)
    ensures
        match source_of(masters, id) {
            Some((m, j)) => {
                &&& is_offered(masters, m, j, id)
                &&& forall|n: int, i: int|
                    n < m || (n == m && i < j) ==> !#[trigger] is_offered(masters, n, i, id)
            },
            None => forall|n: int, i: int| !#[trigger] is_offered(masters, n, i, id),
        },
{
    lemma_source_of(masters, id);
    match source_of(masters, id) {
        Some((m, j)) => {
            lemma_first_offer(masters[m], id);
            assert forall|n: int, i: int| n < m || (n == m && i < j) implies !#[trigger] is_offered(
                masters,
                n,
                i,
                id,
            ) by {
                if is_offered(masters, n, i, id) {
                    lemma_first_offer(masters[n], id);
                    assert(offers(masters[n][i], id));
                    assert(n < m ==> first_offer(masters[n], id) is None);
                }
            }
        },
        None => {
            assert forall|n: int, i: int| !#[trigger] is_offered(masters, n, i, id) by {
                if is_offered(masters, n, i, id) {
                    lemma_first_offer(masters[n], id);
                    assert(offers(masters[n][i], id));
                    assert(first_offer(masters[n], id) is None);
                }
            }
        },
    }
}

/// The needs of a record that are not known wait, each once and in the order of the ids, with the
/// record as their cause.
pub proof fn law_new_needs_wait_in_order(
    object: ObjectView,
    known: Set<Seq<char>>,
    pass: Seq<char>,
)
    ensures
        ({
            let entries = fresh_entries(object, known, pass);
            &&& forall|a: int, b: int|
                0 <= a < b < entries.len() ==> id_less(
                    (#[trigger] entries[a]).id,
                    (#[trigger] entries[b]).id,
                )
            &&& forall|id: Seq<char>|
                (exists|k: int| 0 <= k < entries.len() && (#[trigger] entries[k]).id == id) <==> (
                #[trigger] required_ids(object).contains(id) && !known.contains(id))
            &&& forall|k: int|
                0 <= k < entries.len() ==> {
                    let cause = (#[trigger] entries[k]).cause;
                    &&& cause.pass == pass
                    &&& cause.source_type == object.tag()
                    &&& cause.source_id == reported_id(object)
                    &&& cause.field == field_of(object, entries[k].id)
                }
        }),
{
    let fresh = required_ids(object).difference(known);
    let listing = sorted(fresh);
    let entries = fresh_entries(object, known, pass);
    lemma_required_finite(object);
    vstd::set_lib::lemma_set_subset_finite(required_ids(object), fresh);
    lemma_sorted_lists(fresh);
    assert forall|a: int, b: int| 0 <= a < b < entries.len() implies id_less(
        (#[trigger] entries[a]).id,
        (#[trigger] entries[b]).id,
    ) by {
        assert(id_less(listing[a], listing[b]));
    }
    assert forall|id: Seq<char>|
        (exists|k: int| 0 <= k < entries.len() && (#[trigger] entries[k]).id == id) <==> (
        #[trigger] required_ids(object).contains(id) && !known.contains(id)) by {
        if exists|k: int| 0 <= k < entries.len() && (#[trigger] entries[k]).id == id {
            let k = choose|k: int| 0 <= k < entries.len() && (#[trigger] entries[k]).id == id;
            assert(listing.to_set().contains(listing[k]));
        }
        if required_ids(object).contains(id) && !known.contains(id) {
            assert(listing.to_set().contains(id));
            let k = choose|k: int| 0 <= k < listing.len() && listing[k] == id;
            assert(entries[k].id == id);
        }
    }
}

/// What the work is after a record was copied and its needs wait behind the others.
pub open spec fn after_copy(
    w: WorkView,
    import: ImportView,
    defined: Set<Seq<char>>,
    pending: Seq<PendingView>,
    pass: Seq<char>,
) -> WorkView {
    WorkView {
        defined,
        required: w.required + required_ids(import.object),
        pending: pending + fresh_entries(import.object, w.required, pass),
        imports: w.imports.push(import),
    }
}

/// Work is done when nothing waits. While something does, the first entry is looked at: it is
/// dropped where its id is defined or stands for no record of the masters; otherwise that record is
/// copied for the entry's cause, its id is defined, and its new needs wait behind the others.
pub proof fn law_what_waits_is_looked_at_in_turn(
    masters: Seq<Seq<ObjectView>>,
    w: WorkView,
    pass: Seq<char>,
)
    ensures
        w.pending.len() == 0 ==> settle(masters, w, pass) == w,
        w.pending.len() > 0 ==> {
            let first = w.pending[0];
            let left = w.pending.skip(1);
            match source_of(masters, first.id) {
                Some((m, j)) => if w.defined.contains(first.id) {
                    settle(masters, w, pass) == settle(
                        masters,
                        WorkView { pending: left, ..w },
                        pass,
                    )
                } else {
                    settle(masters, w, pass) == settle(
                        masters,
                        after_copy(
                            w,
                            ImportView {
                                object: masters[m][j],
                                master: m,
                                foundation: false,
                                cause: first.cause,
                            },
                            w.defined.insert(first.id),
                            left,
                            pass,
                        ),
                        pass,
                    )
                },
                None => settle(masters, w, pass) == settle(
                    masters,
                    WorkView { pending: left, ..w },
                    pass,
                ),
            }
        },
{
    if w.pending.len() > 0 {
        lemma_step_decreases(masters, w, pass);
    }
}

/// The foundations of the masters are laid record by record, master by master. A game setting, race
/// or class that is not deleted is copied if its id is not defined, a magic effect if its number is
/// not; its new needs wait behind the others. No other record changes anything.
pub proof fn law_foundations_are_laid_record_by_record(
    f: FoundationView,
    masters: Seq<Seq<ObjectView>>,
    records: Seq<ObjectView>,
    object: ObjectView,
    pass: Seq<char>,
)
    ensures
        lay_all(f, Seq::empty(), pass) == f,
        lay_all(f, masters.push(Seq::empty()), pass) == lay_all(f, masters, pass),
        ({
            let before = lay_all(f, masters.push(records), pass);
            let after = lay_all(f, masters.push(records.push(object)), pass);
            let m = masters.len() as int;
            let import = ImportView {
                object,
                master: m,
                foundation: true,
                cause: CauseView {
                    pass,
                    source_type: "FOUNDATION"@,
                    source_id: master_name(m),
                    field: "foundation"@,
                },
            };
            let w = before.work;
            match object {
                ObjectView::MagicEffect(r) => if r.deleted || before.effects.contains(r.effect_id) {
                    after == before
                } else {
                    after == (FoundationView {
                        work: after_copy(w, import, w.defined, w.pending, pass),
                        effects: before.effects.insert(r.effect_id),
                    })
                },
                _ => if (object is GameSetting || object is Race || object is Class)
                    && !object.deleted() && !w.defined.contains(lower(object.id())) {
                    after == (FoundationView {
                        work: after_copy(
                            w,
                            import,
                            w.defined.insert(lower(object.id())),
                            w.pending,
                            pass,
                        ),
                        effects: before.effects,
                    })
                } else {
                    after == before
                },
            }
        }),
{
    assert(masters.push(Seq::empty()).drop_last() =~= masters);
    assert(masters.push(records).drop_last() =~= masters);
    assert(masters.push(records.push(object)).drop_last() =~= masters);
    assert(records.push(object).drop_last() =~= records);
}

/// What waits is seen entry by entry, each with its id and its cause.
pub proof fn law_waiting_entries_are_seen_whole(entries: Seq<PendingDependency>)
    ensures
        waiting(entries).len() == entries.len(),
        forall|k: int|
            0 <= k < entries.len() ==> {
                let seen = #[trigger] waiting(entries)[k];
                &&& seen.id == entries[k].id@
                &&& seen.cause.pass == entries[k].cause.pass@
                &&& seen.cause.source_type == entries[k].cause.source_type@
                &&& seen.cause.source_id == entries[k].cause.source_id@
                &&& seen.cause.field == entries[k].cause.field@
            },
{
}

} // verus!
