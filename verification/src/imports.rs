//! Copies from the masters what a plugin needs.

use std::collections::{HashSet, VecDeque};
use vstd::hash_set::StringHashSet;
use vstd::prelude::*;

use crate::causes::{dependency_field, source_id};
use crate::closure::{
    after_copies, based_after, completed, copies_of, foundation_cause, fresh_entries, is_foundation,
    lay, lay_all, lay_master, lemma_copies_add, lemma_lay_all_after, lemma_settle_after,
    lemma_source_of, lemma_step_decreases, master_name, missing, needing, pending_for, settle,
    start, step, FoundationView, ImportView, WorkView,
};
use crate::ids::{lemma_sorted_is, lemma_sorted_lists, lists, sorted, strictly_sorted};
use crate::notices::{collect_notices, notices_of, Notice, NoticeView};
use crate::pending::{
    distinct_ids, sort_pending, waiting, waiting_ids, CauseView, DependencyCause, PendingDependency,
    PendingView,
};
use crate::record_views::ObjectView;
use crate::records::{EffectId, Plugin, TES3Object};
use crate::references::{
    all_required_ids, collect_required_ids_from_object, is_required, lemma_required_finite,
    lemma_required_step, required_ids, scans,
};
use crate::text::{id_less, lemma_id_less_asymmetric};
use crate::vanilla_index::{masters_of, VanillaIndex};

verus! {

/// The report of a copied record.
#[derive(Debug)]
pub struct ImportedRecord {
    /// The tag of the record.
    pub tag: String,
    pub id: String,
    /// The master it comes from.
    pub master: usize,
    /// It was copied because of its kind, not because a record needs it.
    pub foundation: bool,
    pub cause: DependencyCause,
    pub notices: Vec<Notice>,
}

/// What an [`ImportedRecord`] holds.
pub struct ReportView {
    pub tag: Seq<char>,
    pub id: Seq<char>,
    pub master: int,
    pub foundation: bool,
    pub cause: CauseView,
    pub notices: Seq<NoticeView>,
}

impl DeepView for ImportedRecord {
    type V = ReportView;

    open spec fn deep_view(&self) -> ReportView {
        ReportView {
            tag: self.tag@,
            id: self.id@,
            master: self.master as int,
            foundation: self.foundation,
            cause: self.cause.deep_view(),
            notices: self.notices.deep_view(),
        }
    }
}

/// The report of a copy.
pub open spec fn report_of(import: ImportView) -> ReportView {
    ReportView {
        tag: import.object.tag(),
        id: import.object.id(),
        master: import.master,
        foundation: import.foundation,
        cause: import.cause,
        notices: notices_of(import.object),
    }
}

/// The reports of copies.
pub open spec fn reports_of(imports: Seq<ImportView>) -> Seq<ReportView> {
    imports.map_values(|i: ImportView| report_of(i))
}

/// Leaving out what is known keeps a listing sorted.
proof fn lemma_filter_sorted(s: Seq<Seq<char>>, known: Set<Seq<char>>)
    requires
        strictly_sorted(s),
    ensures
        lists(
            s.filter(|id: Seq<char>| !known.contains(id)),
            s.to_set().difference(known),
        ),
    decreases s.len(),
{
    let fresh = |id: Seq<char>| !known.contains(id);
    reveal(Seq::filter);
    if s.len() == 0 {
        assert(s.filter(fresh).to_set() =~= s.to_set().difference(known));
    } else {
        let rest = s.drop_last();
        let last = s.last();
        lemma_filter_sorted(rest, known);
        let kept = rest.filter(fresh);
        assert(s =~= rest.push(last));
        rest.lemma_push_to_set_commute(last);
        assert(s.to_set() == rest.to_set().insert(last));
        if fresh(last) {
            let more = kept.push(last);
            assert forall|i: int, j: int| 0 <= i < j < more.len() implies id_less(
                #[trigger] more[i],
                #[trigger] more[j],
            ) by {
                if j == kept.len() {
                    assert(kept.to_set().contains(kept[i]));
                    assert(rest.to_set().contains(kept[i]));
                    let k = choose|k: int| 0 <= k < rest.len() && rest[k] == kept[i];
                    assert(s[k] == kept[i]);
                } else {
                    assert(more[i] == kept[i] && more[j] == kept[j]);
                }
            }
            kept.lemma_push_to_set_commute(last);
            assert(more.to_set() =~= s.to_set().difference(known));
        } else {
            assert(kept.to_set() =~= s.to_set().difference(known));
        }
    }
}

/// Makes the needs of `object` known; those that are new wait behind the others, in the order of
/// the ids.
pub fn enqueue_dependencies(
    object: &TES3Object,
    required: &mut StringHashSet,
    pending: &mut VecDeque<PendingDependency>,
    pass: &'static str,
)
    ensures
        final(required)@ == old(required)@ + required_ids(object.deep_view()),
        waiting(final(pending)@) == waiting(old(pending)@) + fresh_entries(
            object.deep_view(),
            old(required)@,
            pass@,
        ),
{
    let dependencies = collect_required_ids_from_object(object);
    let ghost o = object.deep_view();
    let ghost known = required@;
    let ghost before = waiting(pending@);
    let ghost listing = dependencies.listing();
    let ghost fresh = |id: Seq<char>| !known.contains(id);
    let ghost entry = |id: Seq<char>| pending_for(o, id, pass@);
    let mut i: usize = 0;
    proof {
        reveal(Seq::filter);
        assert(listing.take(0).to_set() =~= Set::empty());
        assert(known + listing.take(0).to_set() =~= known);
        assert(before + listing.take(0).filter(fresh).map_values(entry) =~= before);
    }
    while i < dependencies.len()
        invariant
            i <= listing.len(),
            listing == dependencies.listing(),
            dependencies.wf(),
            dependencies@ == required_ids(o),
            o == object.deep_view(),
            fresh == (|id: Seq<char>| !known.contains(id)),
            entry == (|id: Seq<char>| pending_for(o, id, pass@)),
            required@ == known + listing.take(i as int).to_set(),
            waiting(pending@) == before + listing.take(i as int).filter(fresh).map_values(entry),
        decreases listing.len() - i,
    {
        let id = dependencies.at(i);
        let ghost x = listing[i as int];
        let ghost part = listing.take(i as int);
        let ghost queue = pending@;
        proof {
            assert(listing.take(i + 1) =~= part.push(x));
            part.lemma_push_to_set_commute(x);
            part.lemma_filter_push(x, fresh);
            assert(dependencies@.contains(x)) by {
                assert(listing.to_set().contains(x));
            }
            assert(x.len() > 0) by {
                if x.len() == 0 {
                    assert(x =~= Seq::empty());
                }
            }
            assert(!part.to_set().contains(x)) by {
                if part.to_set().contains(x) {
                    let k = choose|k: int| 0 <= k < part.len() && part[k] == x;
                    assert(listing[k] == x);
                    lemma_id_less_asymmetric(listing[k], listing[i as int]);
                }
            }
        }
        if !id.as_str().is_empty() && required.insert(id.clone()) {
            pending.push_back(
                PendingDependency {
                    cause: DependencyCause {
                        pass,
                        source_type: object.tag_str().to_owned(),
                        source_id: source_id(object),
                        field: dependency_field(object, id.as_str()),
                    },
                    id: id.clone(),
                },
            );
            proof {
                assert(waiting(pending@) =~= waiting(queue).push(entry(x)));
                assert(part.push(x).filter(fresh).map_values(entry) =~= part.filter(
                    fresh,
                ).map_values(entry).push(entry(x)));
                assert(waiting(pending@) =~= before + listing.take(i + 1).filter(fresh).map_values(
                    entry,
                ));
            }
        }
        assert(required@ =~= known + listing.take(i + 1).to_set());
        i += 1;
    }
    proof {
        assert(listing.take(i as int) =~= listing);
        lemma_filter_sorted(listing, known);
        lemma_sorted_is(listing.filter(fresh), required_ids(o).difference(known));
    }
}

/// The state of the work as the program holds it.
pub open spec fn work(
    defined: Set<Seq<char>>,
    required: Set<Seq<char>>,
    pending: Seq<PendingDependency>,
    imports: Seq<ImportView>,
) -> WorkView {
    WorkView { defined, required, pending: waiting(pending), imports }
}

/// Copies the record that `object` is, and reports the copy.
fn copy_record(
    plugin: &mut Plugin,
    reports: &mut Vec<ImportedRecord>,
    object: &TES3Object,
    master: usize,
    foundation: bool,
    cause: DependencyCause,
    Ghost(before): Ghost<Seq<ObjectView>>,
    Ghost(imports): Ghost<Seq<ImportView>>,
)
    requires
        old(plugin)@ == before + copies_of(imports),
        old(reports).deep_view() == reports_of(imports),
    ensures
        ({
            let more = imports.push(
                ImportView {
                    object: object.deep_view(),
                    master: master as int,
                    foundation,
                    cause: cause.deep_view(),
                },
            );
            &&& final(plugin)@ == before + copies_of(more)
            &&& final(reports).deep_view() == reports_of(more)
        }),
{
    let ghost import = ImportView {
        object: object.deep_view(),
        master: master as int,
        foundation,
        cause: cause.deep_view(),
    };
    let ghost listed = reports.deep_view();
    reports.push(
        ImportedRecord {
            tag: object.tag_str().to_owned(),
            id: object.editor_id().to_owned(),
            master,
            foundation,
            cause,
            notices: collect_notices(object),
        },
    );
    plugin.objects.push(object.clone());
    proof {
        let more = imports.push(import);
        assert(copies_of(more) =~= copies_of(imports).push(import.object));
        assert(reports_of(more) =~= reports_of(imports).push(report_of(import)));
        assert(plugin@ =~= old(plugin)@.push(import.object));
        assert(plugin@ =~= before + copies_of(more));
        assert(reports.deep_view() =~= listed.push(report_of(import)));
    }
}

/// Copies what waits, and what the copies need in turn, until nothing waits.
pub fn resolve_required_ids(
    plugin: &mut Plugin,
    vanilla_index: &VanillaIndex<'_>,
    defined_ids: &mut StringHashSet,
    required: &mut StringHashSet,
    pending: &mut VecDeque<PendingDependency>,
    pass: &'static str,
) -> (res: Vec<ImportedRecord>)
    requires
        vanilla_index.wf(),
    ensures
        ({
            let after = settle(
                vanilla_index.masters(),
                work(old(defined_ids)@, old(required)@, old(pending)@, Seq::empty()),
                pass@,
            );
            &&& final(plugin)@ == old(plugin)@ + copies_of(after.imports)
            &&& final(defined_ids)@ == after.defined
            &&& final(required)@ == after.required
            &&& final(pending)@ == Seq::<PendingDependency>::empty()
            &&& after.pending == Seq::<PendingView>::empty()
            &&& res.deep_view() == reports_of(after.imports)
        }),
{
    let mut reports: Vec<ImportedRecord> = Vec::new();
    let ghost masters = vanilla_index.masters();
    let ghost before = plugin@;
    let ghost begun = work(defined_ids@, required@, pending@, Seq::empty());
    let ghost mut imports: Seq<ImportView> = Seq::empty();
    proof {
        assert(before + copies_of(imports) =~= before);
        assert(reports.deep_view() =~= reports_of(imports));
    }
    while pending.len() > 0
        invariant
            vanilla_index.wf(),
            masters == vanilla_index.masters(),
            plugin@ == before + copies_of(imports),
            reports.deep_view() == reports_of(imports),
            settle(masters, work(defined_ids@, required@, pending@, imports), pass@) == settle(
                masters,
                begun,
                pass@,
            ),
        decreases missing(masters, defined_ids@).len(), pending@.len(),
    {
        let ghost now = work(defined_ids@, required@, pending@, imports);
        proof {
            lemma_step_decreases(masters, now, pass@);
        }
        match pending.pop_front() {
            None => {},
            Some(entry) => {
                let ghost first = now.pending[0];
                assert(first == entry.deep_view());
                assert(waiting(pending@) =~= now.pending.skip(1));
                if defined_ids.contains(entry.id.as_str()) {
                    assert(work(defined_ids@, required@, pending@, imports) == step(
                        masters,
                        now,
                        pass@,
                    ));
                    continue ;
                }
                let id = entry.id;
                let cause = entry.cause;
                proof {
                    lemma_source_of(masters, first.id);
                }
                match vanilla_index.resolve(id.as_str()) {
                    None => {
                        assert(work(defined_ids@, required@, pending@, imports) == step(
                            masters,
                            now,
                            pass@,
                        ));
                    },
                    Some((master, object)) => {
                        let object_id = object.editor_id().to_ascii_lowercase();
                        assert(object_id@ == first.id);
                        if !defined_ids.insert(object_id) {
                            continue ;
                        }
                        copy_record(
                            plugin,
                            &mut reports,
                            object,
                            master,
                            false,
                            cause,
                            Ghost(before),
                            Ghost(imports),
                        );
                        proof {
                            imports = imports.push(
                                ImportView {
                                    object: object.deep_view(),
                                    master: master as int,
                                    foundation: false,
                                    cause: first.cause,
                                },
                            );
                        }
                        enqueue_dependencies(object, required, pending, pass);
                        assert(work(defined_ids@, required@, pending@, imports) == step(
                            masters,
                            now,
                            pass@,
                        ));
                    },
                }
            },
        }
    }
    proof {
        assert(pending@ =~= Seq::empty());
        assert(waiting(pending@) =~= Seq::empty());
    }
    reports
}

/// The file name of a master.
pub fn vanilla_plugin_name(master: usize) -> (res: &'static str)
    ensures
        res@ == master_name(master as int),
{
    if master == 0 {
        "Bloodmoon.esm"
    } else if master == 1 {
        "Tribunal.esm"
    } else if master == 2 {
        "Morrowind.esm"
    } else {
        "master"
    }
}

/// Whether a record is copied for its kind.
fn founds(object: &TES3Object) -> (res: bool)
    ensures
        res == is_foundation(object.deep_view()),
{
    match object {
        TES3Object::GameSetting(_) => true,
        TES3Object::MagicEffect(_) => true,
        TES3Object::Race(_) => true,
        TES3Object::Class(_) => true,
        _ => false,
    }
}

/// Copies the foundations of the masters that are not defined yet; what they need waits.
pub fn import_vanilla_foundations(
    plugin: &mut Plugin,
    base_plugins: &[Plugin],
    defined_ids: &mut StringHashSet,
    defined_effects: &mut HashSet<EffectId>,
    required: &mut StringHashSet,
    pending: &mut VecDeque<PendingDependency>,
    pass: &'static str,
) -> (res: Vec<ImportedRecord>)
    ensures
        ({
            let after = lay_all(
                FoundationView {
                    work: work(old(defined_ids)@, old(required)@, old(pending)@, Seq::empty()),
                    effects: old(defined_effects)@,
                },
                masters_of(base_plugins@),
                pass@,
            );
            &&& final(plugin)@ == old(plugin)@ + copies_of(after.work.imports)
            &&& final(defined_ids)@ == after.work.defined
            &&& final(defined_effects)@ == after.effects
            &&& final(required)@ == after.work.required
            &&& waiting(final(pending)@) == after.work.pending
            &&& res.deep_view() == reports_of(after.work.imports)
        }),
{
    let mut reports: Vec<ImportedRecord> = Vec::new();
    let ghost masters = masters_of(base_plugins@);
    let ghost before = plugin@;
    let ghost begun = FoundationView {
        work: work(defined_ids@, required@, pending@, Seq::empty()),
        effects: defined_effects@,
    };
    let ghost mut imports: Seq<ImportView> = Seq::empty();
    let mut m: usize = 0;
    proof {
        assert(before + copies_of(imports) =~= before);
        assert(reports.deep_view() =~= reports_of(imports));
    }
    while m < base_plugins.len()
        invariant
            m <= base_plugins@.len(),
            masters == masters_of(base_plugins@),
            plugin@ == before + copies_of(imports),
            reports.deep_view() == reports_of(imports),
            (FoundationView {
                work: work(defined_ids@, required@, pending@, imports),
                effects: defined_effects@,
            }) == lay_all(begun, masters.take(m as int), pass@),
        decreases base_plugins@.len() - m,
    {
        let base_plugin: &Plugin = &base_plugins[m];
        let ghost objects = base_plugin@;
        let ghost reached = lay_all(begun, masters.take(m as int), pass@);
        let mut i: usize = 0;
        proof {
            assert(masters.take(m + 1).drop_last() =~= masters.take(m as int));
            assert(masters.take(m + 1).last() == objects);
        }
        while i < base_plugin.objects.len()
            invariant
                i <= base_plugin.objects@.len(),
                m < base_plugins@.len(),
                objects == base_plugin@,
                plugin@ == before + copies_of(imports),
                reports.deep_view() == reports_of(imports),
                (FoundationView {
                    work: work(defined_ids@, required@, pending@, imports),
                    effects: defined_effects@,
                }) == lay_master(reached, objects.take(i as int), m as int, pass@),
            decreases base_plugin.objects@.len() - i,
        {
            let object: &TES3Object = &base_plugin.objects[i];
            let ghost now = FoundationView {
                work: work(defined_ids@, required@, pending@, imports),
                effects: defined_effects@,
            };
            let ghost o = object.deep_view();
            proof {
                assert(o == objects[i as int]);
                assert(objects.take(i + 1).drop_last() =~= objects.take(i as int));
                assert(objects.take(i + 1).last() == o);
            }
            if !object.deleted() && founds(object) {
                let new: bool = match object {
                    TES3Object::MagicEffect(effect) => defined_effects.insert(effect.effect_id),
                    _ => defined_ids.insert(object.editor_id().to_ascii_lowercase()),
                };
                if new {
                    let cause = DependencyCause {
                        pass,
                        source_type: "FOUNDATION".to_owned(),
                        source_id: vanilla_plugin_name(m).to_owned(),
                        field: "foundation",
                    };
                    assert(cause.deep_view() == foundation_cause(m as int, pass@));
                    copy_record(
                        plugin,
                        &mut reports,
                        object,
                        m,
                        true,
                        cause,
                        Ghost(before),
                        Ghost(imports),
                    );
                    proof {
                        imports = imports.push(
                            ImportView {
                                object: o,
                                master: m as int,
                                foundation: true,
                                cause: foundation_cause(m as int, pass@),
                            },
                        );
                    }
                    enqueue_dependencies(object, required, pending, pass);
                } else {
                    assert(defined_ids@ =~= now.work.defined);
                    assert(defined_effects@ =~= now.effects);
                }
            }
            assert((FoundationView {
                work: work(defined_ids@, required@, pending@, imports),
                effects: defined_effects@,
            }) == lay(now, o, m as int, pass@));
            i += 1;
        }
        assert(objects.take(i as int) =~= objects);
        m += 1;
    }
    assert(masters.take(m as int) =~= masters);
    reports
}

/// Lists what the scanned records of a plugin need, in the order of the ids.
fn collect_pending(
    plugin: &Plugin,
    include_dialogue_dependencies: bool,
    pass: &'static str,
) -> (res: (StringHashSet, VecDeque<PendingDependency>))
    ensures
        forall|defined: Set<Seq<char>>| #[trigger]
            start(plugin@, include_dialogue_dependencies, defined, pass@) == work(
                defined,
                res.0@,
                res.1@,
                Seq::empty(),
            ),
{
    let mut required = StringHashSet::new();
    let mut pending: VecDeque<PendingDependency> = VecDeque::new();
    let ghost all = plugin@;
    let ghost wd = include_dialogue_dependencies;
    let mut i: usize = 0;
    proof {
        assert(all_required_ids(all.take(0), wd) =~= Set::empty());
        assert(waiting_ids(pending@).to_set() =~= Set::empty());
    }
    while i < plugin.objects.len()
        invariant
            i <= plugin.objects@.len(),
            all == plugin@,
            wd == include_dialogue_dependencies,
            required@ == all_required_ids(all.take(i as int), wd),
            distinct_ids(pending@),
            waiting_ids(pending@).to_set() == required@,
            forall|k: int|
                0 <= k < pending@.len() ==> (#[trigger] pending@[k]).deep_view() == pending_for(
                    needing(all.take(i as int), wd, pending@[k].id@),
                    pending@[k].id@,
                    pass@,
                ),
        decreases plugin.objects@.len() - i,
    {
        let object: &TES3Object = &plugin.objects[i];
        let ghost o = object.deep_view();
        let ghost old_part = all.take(i as int);
        let ghost new_part = all.take(i + 1);
        let ghost known = required@;
        let ghost queue = pending@;
        proof {
            assert(o == all[i as int]);
            assert(new_part.drop_last() =~= old_part);
            assert(new_part.last() == o);
            lemma_required_step(all, wd, i as int);
            assert forall|k: int| 0 <= k < queue.len() implies needing(
                new_part,
                wd,
                (#[trigger] queue[k]).id@,
            ) == needing(old_part, wd, queue[k].id@) by {
                assert(waiting_ids(queue)[k] == queue[k].id@);
                assert(waiting_ids(queue).to_set().contains(queue[k].id@));
                assert(is_required(old_part, wd, queue[k].id@));
            }
        }
        if scans(object, include_dialogue_dependencies) {
            enqueue_dependencies(object, &mut required, &mut pending, pass);
            proof {
                let fresh = required_ids(o).difference(known);
                lemma_enqueued(queue, pending@, o, known, pass@);
                assert forall|k: int| 0 <= k < pending@.len() implies (
                #[trigger] pending@[k]).deep_view() == pending_for(
                    needing(new_part, wd, pending@[k].id@),
                    pending@[k].id@,
                    pass@,
                ) by {
                    if k < queue.len() {
                        assert(pending@[k].deep_view() == queue[k].deep_view());
                        assert(pending@[k].id@ == queue[k].id@);
                    } else {
                        assert(fresh.contains(pending@[k].id@));
                        assert(!is_required(old_part, wd, pending@[k].id@));
                        assert(needing(new_part, wd, pending@[k].id@) == o);
                    }
                }
            }
        }
        i += 1;
    }
    assert(all.take(i as int) =~= all);
    let ghost unsorted = pending@;
    let pending = sort_pending(pending);
    proof {
        let entry = |id: Seq<char>| pending_for(needing(all, wd, id), id, pass@);
        let ids = sorted(all_required_ids(all, wd));
        assert(waiting_ids(pending@) == ids);
        assert forall|k: int| 0 <= k < pending@.len() implies #[trigger] waiting(pending@)[k]
            == ids.map_values(entry)[k] by {
            let p = pending@[k];
            assert(pending@.contains(p));
            assert(unsorted.contains(p));
            let l = choose|l: int| 0 <= l < unsorted.len() && unsorted[l] == pending@[k];
            assert(unsorted[l].deep_view() == entry(unsorted[l].id@));
            assert(waiting_ids(pending@)[k] == pending@[k].id@);
        }
        assert(waiting(pending@) =~= ids.map_values(entry));
    }
    (required, pending)
}

/// What queueing the needs of `o` adds: entries whose ids are new, and all of those.
proof fn lemma_enqueued(
    queue: Seq<PendingDependency>,
    longer: Seq<PendingDependency>,
    o: ObjectView,
    known: Set<Seq<char>>,
    pass: Seq<char>,
)
    requires
        distinct_ids(queue),
        waiting_ids(queue).to_set() == known,
        waiting(longer) == waiting(queue) + fresh_entries(o, known, pass),
    ensures
        longer.len() >= queue.len(),
        distinct_ids(longer),
        waiting_ids(longer).to_set() == known + required_ids(o),
        forall|k: int|
            0 <= k < queue.len() ==> (#[trigger] longer[k]).deep_view() == queue[k].deep_view(),
        forall|k: int|
            queue.len() <= k < longer.len() ==> (#[trigger] longer[k]).deep_view() == pending_for(
                o,
                longer[k].id@,
                pass,
            ) && required_ids(o).difference(known).contains(longer[k].id@),
{
    let fresh = required_ids(o).difference(known);
    let listing = sorted(fresh);
    let entries = fresh_entries(o, known, pass);
    let n = queue.len() as int;
    lemma_required_finite(o);
    assert(fresh.finite()) by {
        vstd::set_lib::lemma_set_subset_finite(required_ids(o), fresh);
    }
    lemma_sorted_lists(fresh);
    assert(waiting(longer).len() == longer.len());
    assert(entries.len() == listing.len());
    assert forall|k: int| 0 <= k < n implies (#[trigger] longer[k]).deep_view()
        == queue[k].deep_view() by {
        assert(waiting(longer)[k] == waiting(queue)[k]);
    }
    assert forall|k: int| n <= k < longer.len() implies (#[trigger] longer[k]).deep_view()
        == pending_for(o, longer[k].id@, pass) && fresh.contains(longer[k].id@)
        && longer[k].id@ == listing[k - n] by {
        assert(waiting(longer)[k] == entries[k - n]);
        assert(entries[k - n] == pending_for(o, listing[k - n], pass));
        assert(listing.to_set().contains(listing[k - n]));
    }
    assert forall|k: int| 0 <= k < n implies known.contains((#[trigger] longer[k]).id@) by {
        assert(longer[k].deep_view() == queue[k].deep_view());
        assert(waiting_ids(queue)[k] == queue[k].id@);
    }
    assert forall|i: int, j: int| 0 <= i < j < longer.len() implies (#[trigger] longer[i]).id@ != (
    #[trigger] longer[j]).id@ by {
        if j < n {
            assert(longer[i].deep_view() == queue[i].deep_view());
            assert(longer[j].deep_view() == queue[j].deep_view());
            assert(queue[i].id@ != queue[j].id@);
        } else if i >= n {
            assert(longer[i].id@ == listing[i - n] && longer[j].id@ == listing[j - n]);
            lemma_id_less_asymmetric(listing[i - n], listing[j - n]);
        }
    }
    assert forall|id: Seq<char>| #[trigger]
        waiting_ids(longer).to_set().contains(id) <==> (known + required_ids(o)).contains(id) by {
        if waiting_ids(longer).to_set().contains(id) {
            let k = choose|k: int| 0 <= k < longer.len() && waiting_ids(longer)[k] == id;
            assert(longer[k].id@ == id);
        }
        if known.contains(id) {
            let k = choose|k: int| 0 <= k < queue.len() && waiting_ids(queue)[k] == id;
            assert(longer[k].deep_view() == queue[k].deep_view());
            assert(waiting_ids(longer)[k] == id);
        } else if required_ids(o).contains(id) {
            assert(listing.to_set().contains(id));
            let k = choose|k: int| 0 <= k < listing.len() && listing[k] == id;
            assert(longer[n + k].id@ == listing[k]);
            assert(waiting_ids(longer)[n + k] == id);
        }
    }
    assert(waiting_ids(longer).to_set() =~= known + required_ids(o));
}

/// Copies from the masters what the records of a plugin need, lines of dialogue among them.
pub fn add_vanilla_refs(
    plugin: &mut Plugin,
    base_plugins: &[Plugin],
    defined_ids: &mut StringHashSet,
    defined_effects: &mut HashSet<EffectId>,
    pass: &'static str,
) -> (res: Vec<ImportedRecord>)
    ensures
        ({
            let after = completed(
                old(plugin)@,
                masters_of(base_plugins@),
                true,
                old(defined_ids)@,
                old(defined_effects)@,
                pass@,
            );
            &&& final(plugin)@ == old(plugin)@ + copies_of(after.work.imports)
            &&& final(defined_ids)@ == after.work.defined
            &&& final(defined_effects)@ == after.effects
            &&& res.deep_view() == reports_of(after.work.imports)
        }),
{
    add_vanilla_refs_with_dialogue(
        plugin,
        base_plugins,
        defined_ids,
        defined_effects,
        true,
        pass,
    )
}

/// Copies from the masters what the records of a plugin need, leaving out what only lines of
/// dialogue need.
pub fn add_vanilla_refs_without_dialogue(
    plugin: &mut Plugin,
    base_plugins: &[Plugin],
    defined_ids: &mut StringHashSet,
    defined_effects: &mut HashSet<EffectId>,
    pass: &'static str,
) -> (res: Vec<ImportedRecord>)
    ensures
        ({
            let after = completed(
                old(plugin)@,
                masters_of(base_plugins@),
                false,
                old(defined_ids)@,
                old(defined_effects)@,
                pass@,
            );
            &&& final(plugin)@ == old(plugin)@ + copies_of(after.work.imports)
            &&& final(defined_ids)@ == after.work.defined
            &&& final(defined_effects)@ == after.effects
            &&& res.deep_view() == reports_of(after.work.imports)
        }),
{
    add_vanilla_refs_with_dialogue(
        plugin,
        base_plugins,
        defined_ids,
        defined_effects,
        false,
        pass,
    )
}

/// Copies from the masters what the records of a plugin need, then the foundations, then what
/// those need.
pub fn add_vanilla_refs_with_dialogue(
    plugin: &mut Plugin,
    base_plugins: &[Plugin],
    defined_ids: &mut StringHashSet,
    defined_effects: &mut HashSet<EffectId>,
    include_dialogue_dependencies: bool,
    pass: &'static str,
) -> (res: Vec<ImportedRecord>)
    ensures
        ({
            let after = completed(
                old(plugin)@,
                masters_of(base_plugins@),
                include_dialogue_dependencies,
                old(defined_ids)@,
                old(defined_effects)@,
                pass@,
            );
            &&& final(plugin)@ == old(plugin)@ + copies_of(after.work.imports)
            &&& final(defined_ids)@ == after.work.defined
            &&& final(defined_effects)@ == after.effects
            &&& res.deep_view() == reports_of(after.work.imports)
        }),
{
    let vanilla_index = VanillaIndex::new(base_plugins);
    let ghost masters = masters_of(base_plugins@);
    let ghost before = plugin@;
    let (mut required, mut pending) = collect_pending(
        plugin,
        include_dialogue_dependencies,
        pass,
    );
    let ghost begun = start(before, include_dialogue_dependencies, defined_ids@, pass@);
    // A copied record can need further ones, so the work goes on until nothing waits.
    let mut reports = resolve_required_ids(
        plugin,
        &vanilla_index,
        defined_ids,
        &mut required,
        &mut pending,
        pass,
    );
    let ghost settled = settle(masters, begun, pass@);
    let ghost effects = defined_effects@;
    let ghost blank = FoundationView {
        work: WorkView { imports: Seq::empty(), ..settled },
        effects,
    };
    assert(waiting(pending@) =~= settled.pending);
    // The foundations are copied wholesale; what they need is resolved like anything else.
    let mut based_reports = import_vanilla_foundations(
        plugin,
        base_plugins,
        defined_ids,
        defined_effects,
        &mut required,
        &mut pending,
        pass,
    );
    let ghost laid_down = lay_all(blank, masters, pass@);
    let mut last_reports = resolve_required_ids(
        plugin,
        &vanilla_index,
        defined_ids,
        &mut required,
        &mut pending,
        pass,
    );
    let ghost rest = settle(
        masters,
        WorkView { imports: Seq::empty(), ..laid_down.work },
        pass@,
    );
    let ghost first_listed = reports.deep_view();
    let ghost based_listed = based_reports.deep_view();
    let ghost last_listed = last_reports.deep_view();
    let ghost r0 = reports@;
    let ghost r1 = based_reports@;
    let ghost r2 = last_reports@;
    reports.append(&mut based_reports);
    reports.append(&mut last_reports);
    proof {
        let one = settled.imports;
        let two = laid_down.work.imports;
        let three = rest.imports;
        assert(blank.work.imports =~= Seq::empty());
        assert(one + blank.work.imports =~= one);
        assert(based_after(one, blank) == FoundationView { work: settled, effects });
        lemma_lay_all_after(one, blank, masters, pass@);
        let based = lay_all(FoundationView { work: settled, effects }, masters, pass@);
        let open = WorkView { imports: Seq::empty(), ..laid_down.work };
        assert((one + two) + open.imports =~= one + two);
        assert(after_copies(one + two, open) == based.work);
        lemma_settle_after(masters, one + two, open, pass@);
        let done = settle(masters, based.work, pass@);
        assert(done == after_copies(one + two, rest));
        lemma_copies_add(one + two, three);
        lemma_copies_add(one, two);
        assert(before + copies_of(one) + copies_of(two) + copies_of(three) =~= before + copies_of(
            (one + two) + three,
        ));
        assert(reports@ =~= r0 + r1 + r2);
        assert(reports.deep_view() =~= first_listed + based_listed + last_listed);
        assert(reports_of((one + two) + three) =~= reports_of(one) + reports_of(two) + reports_of(
            three,
        ));
    }
    reports
}

} // verus!
