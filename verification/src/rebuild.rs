//! Writes the dialogue of a plugin anew, so that it needs no master.

use vstd::hash_set::StringHashSet;
use vstd::prelude::*;

use crate::audit::{reason_names, AuditView, DialogueAudit, MaterializedView};
use crate::dialogue_group::{DialogueGroup, GroupView};
use crate::dialogue_records::{
    collect_dialogue_ids, collect_effective_dialogue_records, dialogue_ids, effective_records,
    groups_of, ids_of, DialogueIds, DialogueRecords,
};
use crate::id_map::lemma_keys_listed;
use crate::ids::{lemma_sorted_is, lemma_take_to_set, sorted};
use crate::line_counts::{law_no_more_lines_than_records, record_count};
use crate::live_infos::{account, collect_live_dialogue_infos, live_infos, LivenessView};
use crate::live_topics::{are_scripts_splittable, collect_live_dialogue_topics, live_topics};
use crate::population::{actors_of, collect_dialogue_population};
use crate::record_views::{DialogueInfoView, ObjectView};
use crate::records::{DialogueInfo, Plugin, TES3Object};
use crate::text::lower;
use crate::topic_reasons::{reasons_of, DialogueTopicReason, DialogueTopicReasons};
use crate::vanilla_index::masters_of;

verus! {

/// The line is not deleted and among those that are kept.
pub open spec fn survives(info: DialogueInfoView, live: Set<Seq<char>>) -> bool {
    !info.deleted && live.contains(lower(info.id))
}

/// The lines that survive.
pub open spec fn survivors(infos: Seq<DialogueInfoView>, live: Set<Seq<char>>) -> Seq<
    DialogueInfoView,
> {
    infos.filter(|i: DialogueInfoView| survives(i, live))
}

/// The id of the line at `i`, or nothing where there is none.
pub open spec fn id_at(infos: Seq<DialogueInfoView>, i: int) -> Seq<char> {
    if 0 <= i < infos.len() {
        infos[i].id
    } else {
        Seq::empty()
    }
}

/// The lines, each of which names the one before and the one behind it.
pub open spec fn linked(infos: Seq<DialogueInfoView>) -> Seq<DialogueInfoView> {
    Seq::new(
        infos.len(),
        |i: int|
            DialogueInfoView {
                prev_id: id_at(infos, i - 1),
                next_id: id_at(infos, i + 1),
                ..infos[i]
            },
    )
}

/// The lines as records.
pub open spec fn as_records(infos: Seq<DialogueInfoView>) -> Seq<ObjectView> {
    infos.map_values(|i: DialogueInfoView| ObjectView::DialogueInfo(i))
}

/// The lines of a topic that survive, as they are written.
pub open spec fn written_lines(group: GroupView, live: Set<Seq<char>>) -> Seq<ObjectView> {
    as_records(linked(survivors(group.infos, live)))
}

/// The places of the lines that survive.
fn find_survivors(infos: &Vec<DialogueInfo>, live_ids: &StringHashSet) -> (res: Vec<usize>)
    ensures
        res@.len() == survivors(infos.deep_view(), live_ids@).len(),
        forall|k: int|
            0 <= k < res@.len() ==> #[trigger] res@[k] < infos@.len()
                && infos@[res@[k] as int].deep_view() == survivors(infos.deep_view(), live_ids@)[k],
{
    let ghost all = infos.deep_view();
    let ghost live = live_ids@;
    let ghost stays = |i: DialogueInfoView| survives(i, live);
    let mut res: Vec<usize> = Vec::new();
    let mut i: usize = 0;
    assert(all.take(0).filter(stays) =~= Seq::empty()) by {
        reveal(Seq::filter);
    }
    while i < infos.len()
        invariant
            i <= infos.len(),
            all == infos.deep_view(),
            live == live_ids@,
            stays == (|i: DialogueInfoView| survives(i, live)),
            res@.len() == all.take(i as int).filter(stays).len(),
            forall|k: int|
                0 <= k < res@.len() ==> #[trigger] res@[k] < infos@.len()
                    && infos@[res@[k] as int].deep_view() == all.take(i as int).filter(stays)[k],
        decreases infos.len() - i,
    {
        let info: &DialogueInfo = &infos[i];
        proof {
            assert(all[i as int] == info.deep_view());
            assert(all.take(i + 1) =~= all.take(i as int).push(all[i as int]));
            all.take(i as int).lemma_filter_push(all[i as int], stays);
        }
        let id = info.id.as_str().to_ascii_lowercase();
        if !info.deleted && live_ids.contains(id.as_str()) {
            res.push(i);
        }
        i += 1;
    }
    assert(all.take(i as int) =~= all);
    res
}

/// Appends the lines of a topic that survive, each linked to the one before and the one behind it.
pub fn append_live_dialogue_infos(
    rebuilt: &mut Vec<TES3Object>,
    group: &DialogueGroup,
    live_ids: &StringHashSet,
)
    ensures
        final(rebuilt).deep_view() == old(rebuilt).deep_view() + written_lines(
            group.deep_view(),
            live_ids@,
        ),
{
    let ghost kept = survivors(group.deep_view().infos, live_ids@);
    let ghost written = written_lines(group.deep_view(), live_ids@);
    let ghost before = rebuilt.deep_view();
    let survivors = find_survivors(&group.infos, live_ids);
    let mut i: usize = 0;
    assert(rebuilt.deep_view() =~= before + written.take(0));
    while i < survivors.len()
        invariant
            i <= survivors.len(),
            survivors@.len() == kept.len(),
            written == as_records(linked(kept)),
            forall|k: int|
                0 <= k < survivors@.len() ==> #[trigger] survivors@[k] < group.infos@.len()
                    && group.infos@[survivors@[k] as int].deep_view() == kept[k],
            rebuilt.deep_view() == before + written.take(i as int),
        decreases survivors.len() - i,
    {
        assert(survivors@[i as int] < group.infos@.len());
        let mut info: DialogueInfo = group.infos[survivors[i]].clone();
        let ghost reached = rebuilt.deep_view();
        info.prev_id = if i > 0 {
            assert(survivors@[i - 1] < group.infos@.len());
            assert(group.infos@[survivors@[i - 1] as int].deep_view() == kept[i - 1]);
            group.infos[survivors[i - 1]].id.clone()
        } else {
            String::new()
        };
        info.next_id = if i + 1 < survivors.len() {
            assert(survivors@[i + 1] < group.infos@.len());
            assert(group.infos@[survivors@[i + 1] as int].deep_view() == kept[i + 1]);
            group.infos[survivors[i + 1]].id.clone()
        } else {
            String::new()
        };
        assert(info.prev_id@ =~= id_at(kept, i - 1));
        assert(info.next_id@ =~= id_at(kept, i + 1));
        assert(info.deep_view() == linked(kept)[i as int]);
        rebuilt.push(TES3Object::DialogueInfo(info));
        assert(rebuilt.deep_view() =~= reached.push(written[i as int]));
        assert(rebuilt.deep_view() =~= before + written.take(i + 1));
        i += 1;
    }
    assert(written.take(i as int) =~= written);
}

/// What the dialogue is written from: the topics in force, the lines that are kept, and why topics
/// are kept.
pub struct PlanView {
    pub records: Map<Seq<char>, GroupView>,
    pub live: Map<Seq<char>, Set<Seq<char>>>,
    pub reasons: Map<Seq<char>, Set<DialogueTopicReason>>,
}

/// The lines of `topic` that survive, as they are written.
pub open spec fn lines_of(plan: PlanView, topic: Seq<char>) -> Seq<ObjectView> {
    if plan.live.contains_key(topic) {
        written_lines(plan.records[topic], plan.live[topic])
    } else {
        Seq::empty()
    }
}

/// The records that are written so far, and the topics among them.
pub struct RebuildView {
    pub objects: Seq<ObjectView>,
    pub emitted: Set<Seq<char>>,
}

/// Writes one record of the plugin. The head of a topic is written once, with the lines of the
/// topic behind it; lines are written nowhere else; any other record is written as it is.
pub open spec fn rewrite_object(plan: PlanView, s: RebuildView, object: ObjectView) -> RebuildView {
    match object {
        ObjectView::Dialogue(dialogue) => {
            let topic = lower(dialogue.id);
            if s.emitted.contains(topic) || !plan.records.contains_key(topic) {
                s
            } else {
                RebuildView {
                    objects: s.objects.push(object) + lines_of(plan, topic),
                    emitted: s.emitted.insert(topic),
                }
            }
        },
        ObjectView::DialogueInfo(_) => s,
        _ => RebuildView { objects: s.objects.push(object), ..s },
    }
}

/// Writes the records of the plugin, one after the other.
pub open spec fn rewritten(plan: PlanView, objects: Seq<ObjectView>) -> RebuildView
    decreases objects.len(),
{
    if objects.len() == 0 {
        RebuildView { objects: Seq::empty(), emitted: Set::empty() }
    } else {
        rewrite_object(plan, rewritten(plan, objects.drop_last()), objects.last())
    }
}

/// The topic has yet to be written: it is not there, is in force with a head that has an id, and
/// has lines that are kept.
pub open spec fn is_missing(plan: PlanView, emitted: Set<Seq<char>>, topic: Seq<char>) -> bool {
    &&& !emitted.contains(topic)
    &&& plan.records.contains_key(topic)
    &&& plan.live.contains_key(topic)
    &&& plan.records[topic].dialogue.id.len() > 0
}

/// The missing ones of the topics with their lines.
pub open spec fn supplied(
    plan: PlanView,
    emitted: Set<Seq<char>>,
    topics: Seq<Seq<char>>,
) -> Seq<ObjectView>
    decreases topics.len(),
{
    if topics.len() == 0 {
        Seq::empty()
    } else {
        let before = supplied(plan, emitted, topics.drop_last());
        let topic = topics.last();
        if is_missing(plan, emitted, topic) {
            before.push(ObjectView::Dialogue(plan.records[topic].dialogue)) + lines_of(plan, topic)
        } else {
            before
        }
    }
}

/// The records of the plugin with its dialogue written anew, and the topics that are kept and were
/// not there behind them, in order.
pub open spec fn rebuilt_objects(plan: PlanView, objects: Seq<ObjectView>) -> Seq<ObjectView> {
    let written = rewritten(plan, objects);
    written.objects + supplied(plan, written.emitted, sorted(plan.reasons.dom()))
}

/// The account of the topics that were not there.
pub open spec fn supplied_topics(
    plan: PlanView,
    emitted: Set<Seq<char>>,
    topics: Set<Seq<char>>,
) -> Map<Seq<char>, MaterializedView> {
    Map::new(
        |t: Seq<char>| topics.contains(t) && is_missing(plan, emitted, t),
        |t: Seq<char>|
            MaterializedView {
                live_infos: plan.live[t].len(),
                reasons: sorted(reason_names(plan.reasons[t])),
            },
    )
}

/// The topics with all that decides about their lines, for a plugin with masters.
pub open spec fn case_of(objects: Seq<ObjectView>, masters: Seq<Seq<ObjectView>>) -> LivenessView {
    let records = effective_records(objects, masters);
    let owned = dialogue_ids(objects);
    LivenessView {
        records,
        owned,
        reasons: live_topics(objects, records, owned),
        actors: actors_of(objects),
    }
}

/// What the dialogue of a plugin with masters is written from.
pub open spec fn plan_of(case: LivenessView) -> PlanView {
    PlanView { records: case.records, live: live_infos(case), reasons: case.reasons }
}

/// The records of a plugin whose dialogue needs no master.
pub open spec fn decoupled(objects: Seq<ObjectView>, masters: Seq<Seq<ObjectView>>) -> Seq<
    ObjectView,
> {
    rebuilt_objects(plan_of(case_of(objects, masters)), objects)
}

/// The account of how the dialogue of a plugin was written anew.
pub open spec fn decoupled_account(
    objects: Seq<ObjectView>,
    masters: Seq<Seq<ObjectView>>,
) -> AuditView {
    let case = case_of(objects, masters);
    let plan = plan_of(case);
    AuditView {
        topics: supplied_topics(plan, rewritten(plan, objects).emitted, plan.reasons.dom()),
        ..account(case)
    }
}

/// Writes the records of the plugin with their dialogue anew; says which topics were written.
fn rewrite_dialogue(
    objects: Vec<TES3Object>,
    records: &DialogueRecords,
    live: &DialogueIds,
    Ghost(plan): Ghost<PlanView>,
) -> (res: (Vec<TES3Object>, StringHashSet))
    requires
        records.wf(),
        live.wf(),
        plan.records == groups_of(records@),
        plan.live == ids_of(live@),
    ensures
        rewritten(plan, objects.deep_view()) == (RebuildView {
            objects: res.0.deep_view(),
            emitted: res.1@,
        }),
{
    let ghost all = objects.deep_view();
    let mut rebuilt: Vec<TES3Object> = Vec::new();
    let mut emitted = StringHashSet::new();
    assert(rebuilt.deep_view() =~= Seq::empty());
    assert(all.take(0).len() == 0);
    for object in rest: objects.into_iter()
        invariant
            rest.seq() == objects@,
            all == objects.deep_view(),
            records.wf(),
            live.wf(),
            plan.records == groups_of(records@),
            plan.live == ids_of(live@),
            rewritten(plan, all.take(rest.index())) == (RebuildView {
                objects: rebuilt.deep_view(),
                emitted: emitted@,
            }),
    {
        let ghost i = rest.index();
        let ghost before = rebuilt.deep_view();
        let ghost reached = RebuildView { objects: before, emitted: emitted@ };
        proof {
            assert(all[i] == object.deep_view());
            assert(all.take(i + 1).drop_last() =~= all.take(i));
            assert(all.take(i + 1).last() == all[i]);
        }
        match object {
            TES3Object::Dialogue(dialogue) => {
                let topic = dialogue.id.as_str().to_ascii_lowercase();
                if !emitted.contains(topic.as_str()) {
                    if let Some(group) = records.get(topic.as_str()) {
                        rebuilt.push(TES3Object::Dialogue(dialogue));
                        assert(rebuilt.deep_view() =~= before.push(all[i]));
                        if let Some(live_ids) = live.get(topic.as_str()) {
                            append_live_dialogue_infos(&mut rebuilt, group, live_ids);
                        }
                        assert(rebuilt.deep_view() =~= before.push(all[i]) + lines_of(
                            plan,
                            topic@,
                        ));
                        emitted.insert(topic);
                    }
                }
            },
            TES3Object::DialogueInfo(_) => {},
            object => {
                rebuilt.push(object);
                assert(rebuilt.deep_view() =~= before.push(all[i]));
            },
        }
        assert(rewrite_object(plan, reached, all[i]) == (RebuildView {
            objects: rebuilt.deep_view(),
            emitted: emitted@,
        }));
    }
    assert(all.take(all.len() as int) =~= all);
    (rebuilt, emitted)
}

/// Appends the topics that are kept and were not there, and notes them.
fn supply_topics(
    rebuilt: &mut Vec<TES3Object>,
    emitted: &StringHashSet,
    records: &DialogueRecords,
    live: &DialogueIds,
    reasons: &DialogueTopicReasons,
    audit: &mut DialogueAudit,
    Ghost(plan): Ghost<PlanView>,
)
    requires
        records.wf(),
        live.wf(),
        reasons.wf(),
        plan.records == groups_of(records@),
        plan.live == ids_of(live@),
        plan.reasons == reasons_of(reasons@),
        old(audit).wf(),
        old(audit)@.topics == Map::<Seq<char>, MaterializedView>::empty(),
    ensures
        final(rebuilt).deep_view() == old(rebuilt).deep_view() + supplied(
            plan,
            emitted@,
            sorted(plan.reasons.dom()),
        ),
        final(audit).wf(),
        final(audit)@ == (AuditView {
            topics: supplied_topics(plan, emitted@, plan.reasons.dom()),
            ..old(audit)@
        }),
{
    let ghost keys = reasons.keys();
    let ghost before = rebuilt.deep_view();
    let ghost start = audit@;
    let mut i: usize = 0;
    proof {
        lemma_keys_listed(*reasons);
        assert(plan.reasons.dom() =~= reasons@.dom());
        lemma_sorted_is(keys, plan.reasons.dom());
        assert(before + supplied(plan, emitted@, keys.take(0)) =~= before);
        assert(keys.take(0).to_set() =~= Set::empty());
        assert(supplied_topics(plan, emitted@, keys.take(0).to_set()) =~= Map::empty());
    }
    while i < reasons.len()
        invariant
            i <= keys.len(),
            keys == reasons.keys(),
            records.wf(),
            live.wf(),
            reasons.wf(),
            plan.records == groups_of(records@),
            plan.live == ids_of(live@),
            plan.reasons == reasons_of(reasons@),
            audit.wf(),
            rebuilt.deep_view() == before + supplied(plan, emitted@, keys.take(i as int)),
            audit@ == (AuditView {
                topics: supplied_topics(plan, emitted@, keys.take(i as int).to_set()),
                ..start
            }),
        decreases keys.len() - i,
    {
        let topic = reasons.key_at(i);
        let ghost reached = rebuilt.deep_view();
        let ghost noted = audit@.topics;
        let ghost so_far = supplied(plan, emitted@, keys.take(i as int));
        proof {
            assert(keys.take(i + 1).drop_last() =~= keys.take(i as int));
            assert(keys.take(i + 1).last() == topic@);
            lemma_supplied_topics_step(plan, emitted@, keys, i as int);
            assert(plan.reasons[topic@] == reasons@[topic@]@);
        }
        if !emitted.contains(topic.as_str()) {
            if let Some(group) = records.get(topic.as_str()) {
                assert(plan.records[topic@] == group.deep_view());
                if let Some(live_ids) = live.get(topic.as_str()) {
                    assert(plan.live[topic@] == live_ids@);
                    if !group.dialogue.id.as_str().is_empty() {
                        assert(is_missing(plan, emitted@, topic@));
                        let why = reasons.get(topic.as_str());
                        audit.add_materialized_topic(topic.as_str(), live_ids.len(), why);
                        rebuilt.push(TES3Object::Dialogue(group.dialogue.clone()));
                        assert(rebuilt.deep_view() =~= reached.push(
                            ObjectView::Dialogue(plan.records[topic@].dialogue),
                        ));
                        append_live_dialogue_infos(rebuilt, group, live_ids);
                        assert(rebuilt.deep_view() =~= before + (so_far.push(
                            ObjectView::Dialogue(plan.records[topic@].dialogue),
                        ) + lines_of(plan, topic@)));
                    }
                }
            }
        }
        i += 1;
    }
    proof {
        assert(keys.take(i as int) =~= keys);
        assert(keys.to_set() =~= plan.reasons.dom());
    }
}

proof fn lemma_supplied_topics_step(
    plan: PlanView,
    emitted: Set<Seq<char>>,
    topics: Seq<Seq<char>>,
    i: int,
)
    requires
        0 <= i < topics.len(),
    ensures
        supplied_topics(plan, emitted, topics.take(i + 1).to_set()) == if is_missing(
            plan,
            emitted,
            topics[i],
        ) {
            supplied_topics(plan, emitted, topics.take(i).to_set()).insert(
                topics[i],
                MaterializedView {
                    live_infos: plan.live[topics[i]].len(),
                    reasons: sorted(reason_names(plan.reasons[topics[i]])),
                },
            )
        } else {
            supplied_topics(plan, emitted, topics.take(i).to_set())
        },
{
    lemma_take_to_set(topics, i);
    let longer = supplied_topics(plan, emitted, topics.take(i + 1).to_set());
    let shorter = supplied_topics(plan, emitted, topics.take(i).to_set());
    if is_missing(plan, emitted, topics[i]) {
        assert(longer =~= shorter.insert(
            topics[i],
            MaterializedView {
                live_infos: plan.live[topics[i]].len(),
                reasons: sorted(reason_names(plan.reasons[topics[i]])),
            },
        ));
    } else {
        assert(longer =~= shorter);
    }
}

/// Writes the dialogue of a plugin anew, so that it needs no master: of the topics in force the
/// plugin gets those that are kept, with the lines that are kept. Gives the account.
pub fn decouple_dialogue_infos(plugin: &mut Plugin, base_plugins: &[Plugin]) -> (res: DialogueAudit)
    requires
        are_scripts_splittable(old(plugin)@),
        record_count(old(plugin)@, masters_of(base_plugins@)) <= usize::MAX,
    ensures
        final(plugin)@ == decoupled(old(plugin)@, masters_of(base_plugins@)),
        res.wf(),
        res@ == decoupled_account(old(plugin)@, masters_of(base_plugins@)),
{
    let ghost all = plugin@;
    let ghost masters = masters_of(base_plugins@);
    let ghost case = case_of(all, masters);
    let ghost plan = plan_of(case);
    let records = collect_effective_dialogue_records(plugin, base_plugins);
    let starwind_ids = collect_dialogue_ids(plugin);
    let population = collect_dialogue_population(plugin);
    let topics = collect_live_dialogue_topics(plugin, &records, &starwind_ids);
    proof {
        law_no_more_lines_than_records(all, masters, case);
    }
    let (live, mut audit) = collect_live_dialogue_infos(
        &records,
        &starwind_ids,
        &topics,
        &population,
    );
    let mut objects: Vec<TES3Object> = Vec::new();
    std::mem::swap(&mut plugin.objects, &mut objects);
    let (mut rebuilt, emitted) = rewrite_dialogue(objects, &records, &live, Ghost(plan));
    supply_topics(&mut rebuilt, &emitted, &records, &live, &topics, &mut audit, Ghost(plan));
    plugin.objects = rebuilt;
    audit
}

} // verus!
