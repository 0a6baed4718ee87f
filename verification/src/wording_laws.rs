//! What lines say decides nothing about the dialogue that is written.

use vstd::prelude::*;

use crate::dialogue_group::{lemma_position, merged, position, GroupView};
use crate::dialogue_records::{
    effective_records, group_or_empty, list_objects, master_records, merge_object, merge_objects,
    IdsView, MergeView,
};
use crate::ids::sorted;
use crate::live_infos::{
    has_live, is_live, live_ids, live_infos, standing_of, topic_live_ids, LivenessView,
    StandingView,
};
use crate::live_topics::{adds, engine_topics, named_topics, scripted_topics, some_adds};
use crate::population::{actor_of, actors_of, can_speak, some_can_speak};
use crate::rebuild::{
    as_records, case_of, decoupled, lines_of, linked, plan_of, rewritten, supplied, survives,
    survivors, PlanView, RebuildView,
};
use crate::record_views::{DialogueInfoView, ObjectView};
use crate::references::required_ids;
use crate::text::lower;

verus! {

/// The line without its text, its sound, and the place and the conditions that it asks for.
pub open spec fn muted_line(info: DialogueInfoView) -> DialogueInfoView {
    DialogueInfoView {
        text: Seq::empty(),
        sound_path: Seq::empty(),
        speaker_cell: Seq::empty(),
        filters: Seq::empty(),
        ..info
    }
}

/// The record, muted if it is a line.
pub open spec fn muted(object: ObjectView) -> ObjectView {
    match object {
        ObjectView::DialogueInfo(info) => ObjectView::DialogueInfo(muted_line(info)),
        _ => object,
    }
}

/// The records with all lines muted.
pub open spec fn all_muted(objects: Seq<ObjectView>) -> Seq<ObjectView> {
    objects.map_values(|o: ObjectView| muted(o))
}

/// The lines, muted.
spec fn muted_lines(infos: Seq<DialogueInfoView>) -> Seq<DialogueInfoView> {
    infos.map_values(|i: DialogueInfoView| muted_line(i))
}

spec fn muted_group(group: GroupView) -> GroupView {
    GroupView { infos: muted_lines(group.infos), ..group }
}

spec fn muted_records(records: Map<Seq<char>, GroupView>) -> Map<Seq<char>, GroupView> {
    records.map_values(|g: GroupView| muted_group(g))
}

proof fn lemma_position_muted(infos: Seq<DialogueInfoView>, id: Seq<char>)
    ensures
        position(muted_lines(infos), id) == position(infos, id),
    decreases infos.len(),
{
    if infos.len() > 0 {
        assert(muted_lines(infos).drop_last() =~= muted_lines(infos.drop_last()));
        lemma_position_muted(infos.drop_last(), id);
    }
}

proof fn lemma_merged_muted(infos: Seq<DialogueInfoView>, info: DialogueInfoView)
    ensures
        merged(muted_lines(infos), muted_line(info)) == muted_lines(merged(infos, info)),
{
    lemma_position_muted(infos, info.id);
    lemma_position_muted(infos, info.prev_id);
    lemma_position(infos, info.id);
    lemma_position(infos, info.prev_id);
    assert(merged(muted_lines(infos), muted_line(info)) =~= muted_lines(merged(infos, info)));
}

spec fn muted_merge(s: MergeView) -> MergeView {
    MergeView { records: muted_records(s.records), ..s }
}

proof fn lemma_merge_object_muted(s: MergeView, object: ObjectView)
    ensures
        merge_object(muted_merge(s), muted(object)) == muted_merge(merge_object(s, object)),
{
    let left = merge_object(muted_merge(s), muted(object));
    let right = muted_merge(merge_object(s, object));
    match object {
        ObjectView::Dialogue(dialogue) => {
            let topic = lower(dialogue.id);
            assert(group_or_empty(muted_records(s.records), topic).infos =~= muted_lines(
                group_or_empty(s.records, topic).infos,
            ));
            assert(left.records =~= right.records);
        },
        ObjectView::DialogueInfo(info) => {
            if s.topic is Some && info.id.len() > 0 {
                let topic = s.topic->0;
                let group = group_or_empty(s.records, topic);
                let other = group_or_empty(muted_records(s.records), topic);
                assert(other.infos =~= muted_lines(group.infos));
                lemma_merged_muted(group.infos, info);
                assert(left.records =~= right.records);
            }
        },
        _ => {},
    }
}

proof fn lemma_merge_muted(objects: Seq<ObjectView>, s: MergeView)
    ensures
        merge_objects(all_muted(objects), muted_merge(s)) == muted_merge(merge_objects(objects, s)),
    decreases objects.len(),
{
    if objects.len() > 0 {
        assert(all_muted(objects).drop_last() =~= all_muted(objects.drop_last()));
        lemma_merge_muted(objects.drop_last(), s);
        lemma_merge_object_muted(merge_objects(objects.drop_last(), s), objects.last());
    }
}

/// The masters with all lines muted.
pub open spec fn masters_muted(masters: Seq<Seq<ObjectView>>) -> Seq<Seq<ObjectView>> {
    masters.map_values(|m: Seq<ObjectView>| all_muted(m))
}

proof fn lemma_masters_muted(masters: Seq<Seq<ObjectView>>)
    ensures
        master_records(masters_muted(masters)) == muted_records(master_records(masters)),
    decreases masters.len(),
{
    if masters.len() == 0 {
        assert(muted_records(master_records(masters)) =~= Map::empty());
    } else {
        let rest = masters.skip(1);
        assert(masters_muted(masters).skip(1) =~= masters_muted(rest));
        lemma_masters_muted(rest);
        lemma_merge_muted(masters[0], MergeView { records: master_records(rest), topic: None });
    }
}

proof fn lemma_effective_muted(objects: Seq<ObjectView>, masters: Seq<Seq<ObjectView>>)
    ensures
        effective_records(all_muted(objects), masters_muted(masters)) == muted_records(
            effective_records(objects, masters),
        ),
{
    lemma_masters_muted(masters);
    lemma_merge_muted(objects, MergeView { records: master_records(masters), topic: None });
}

proof fn lemma_list_muted(objects: Seq<ObjectView>, s: IdsView)
    ensures
        list_objects(all_muted(objects), s) == list_objects(objects, s),
    decreases objects.len(),
{
    if objects.len() > 0 {
        assert(all_muted(objects).drop_last() =~= all_muted(objects.drop_last()));
        lemma_list_muted(objects.drop_last(), s);
        assert(all_muted(objects).last() == muted(objects.last()));
    }
}

proof fn lemma_actors_muted(objects: Seq<ObjectView>)
    ensures
        actors_of(all_muted(objects)) == actors_of(objects),
    decreases objects.len(),
{
    if objects.len() > 0 {
        assert(all_muted(objects).drop_last() =~= all_muted(objects.drop_last()));
        lemma_actors_muted(objects.drop_last());
        assert(all_muted(objects).last() == muted(objects.last()));
        assert(actor_of(muted(objects.last())) == actor_of(objects.last()));
    }
}

proof fn lemma_scripted_muted(objects: Seq<ObjectView>, topics: Seq<Seq<char>>)
    ensures
        scripted_topics(all_muted(objects), topics) == scripted_topics(objects, topics),
{
    let other = all_muted(objects);
    assert forall|i: int, t: Seq<char>| 0 <= i < objects.len() implies #[trigger] adds(
        other[i],
        topics,
        t,
    ) == adds(objects[i], topics, t) by {}
    assert forall|t: Seq<char>| #[trigger]
        some_adds(other, topics, t) == some_adds(objects, topics, t) by {
        if some_adds(objects, topics, t) {
            let i = choose|i: int| 0 <= i < objects.len() && adds(#[trigger] objects[i], topics, t);
            assert(adds(other[i], topics, t));
        }
        if some_adds(other, topics, t) {
            let i = choose|i: int| 0 <= i < other.len() && adds(#[trigger] other[i], topics, t);
            assert(adds(objects[i], topics, t));
        }
    }
    assert(scripted_topics(other, topics) =~= scripted_topics(objects, topics));
}

proof fn lemma_case_muted(objects: Seq<ObjectView>, masters: Seq<Seq<ObjectView>>)
    ensures
        case_of(all_muted(objects), masters_muted(masters)) == (LivenessView {
            records: muted_records(case_of(objects, masters).records),
            ..case_of(objects, masters)
        }),
{
    let records = effective_records(objects, masters);
    let other = muted_records(records);
    lemma_effective_muted(objects, masters);
    lemma_list_muted(objects, IdsView { ids: Map::empty(), topic: None });
    lemma_actors_muted(objects);
    assert(other.dom() =~= records.dom());
    assert(engine_topics(other) =~= engine_topics(records));
    lemma_scripted_muted(objects, named_topics(records));
}

proof fn lemma_live_muted(standing: StandingView, info: DialogueInfoView)
    ensures
        is_live(standing, muted_line(info)) == is_live(standing, info),
{
    let actors = standing.actors;
    assert forall|i: int| 0 <= i < actors.len() implies can_speak(
        muted_line(info),
        #[trigger] actors[i],
    ) == can_speak(info, actors[i]) by {}
    assert(some_can_speak(muted_line(info), actors) == some_can_speak(info, actors));
}

proof fn lemma_live_ids_muted(standing: StandingView, infos: Seq<DialogueInfoView>)
    ensures
        live_ids(standing, muted_lines(infos)) == live_ids(standing, infos),
{
    let other = muted_lines(infos);
    assert forall|i: int| 0 <= i < infos.len() implies is_live(standing, #[trigger] other[i])
        == is_live(standing, infos[i]) && other[i].id == infos[i].id by {
        lemma_live_muted(standing, infos[i]);
    }
    assert forall|id: Seq<char>| #[trigger]
        has_live(standing, other, id) == has_live(standing, infos, id) by {
        if has_live(standing, infos, id) {
            let i = choose|i: int|
                0 <= i < infos.len() && is_live(standing, #[trigger] infos[i]) && lower(infos[i].id)
                    == id;
            assert(is_live(standing, other[i]));
        }
        if has_live(standing, other, id) {
            let i = choose|i: int|
                0 <= i < other.len() && is_live(standing, #[trigger] other[i]) && lower(other[i].id)
                    == id;
            assert(is_live(standing, infos[i]));
        }
    }
    assert(live_ids(standing, other) =~= live_ids(standing, infos));
}

proof fn lemma_live_infos_muted(case: LivenessView)
    ensures
        live_infos((LivenessView { records: muted_records(case.records), ..case })) == live_infos(
            case,
        ),
{
    let other = LivenessView { records: muted_records(case.records), ..case };
    assert forall|t: Seq<char>| #[trigger] case.records.contains_key(t) implies topic_live_ids(
        other,
        t,
    ) == topic_live_ids(case, t) by {
        assert(other.records[t] == muted_group(case.records[t]));
        assert(standing_of(other, t) == standing_of(case, t));
        lemma_live_ids_muted(standing_of(case, t), case.records[t].infos);
    }
    assert(live_infos(other) =~= live_infos(case));
}

proof fn lemma_survivors_muted(infos: Seq<DialogueInfoView>, live: Set<Seq<char>>)
    ensures
        survivors(muted_lines(infos), live) == muted_lines(survivors(infos, live)),
    decreases infos.len(),
{
    reveal(Seq::filter);
    if infos.len() == 0 {
        assert(survivors(muted_lines(infos), live) =~= muted_lines(survivors(infos, live)));
    } else {
        let rest = infos.drop_last();
        assert(muted_lines(infos).drop_last() =~= muted_lines(rest));
        assert(muted_lines(infos).last() == muted_line(infos.last()));
        lemma_survivors_muted(rest, live);
        assert(survives(muted_line(infos.last()), live) == survives(infos.last(), live));
        if survives(infos.last(), live) {
            assert(muted_lines(survivors(rest, live).push(infos.last())) =~= muted_lines(
                survivors(rest, live),
            ).push(muted_line(infos.last())));
        }
    }
}

spec fn muted_plan(plan: PlanView) -> PlanView {
    PlanView { records: muted_records(plan.records), ..plan }
}

proof fn lemma_lines_muted(plan: PlanView, topic: Seq<char>)
    requires
        plan.records.contains_key(topic),
    ensures
        lines_of(muted_plan(plan), topic) == all_muted(lines_of(plan, topic)),
{
    let other = muted_plan(plan);
    if plan.live.contains_key(topic) {
        let infos = plan.records[topic].infos;
        let kept = survivors(infos, plan.live[topic]);
        assert(other.records[topic].infos == muted_lines(infos));
        lemma_survivors_muted(infos, plan.live[topic]);
        assert(linked(muted_lines(kept)) =~= muted_lines(linked(kept)));
        assert(as_records(muted_lines(linked(kept))) =~= all_muted(as_records(linked(kept))));
    }
    assert(lines_of(other, topic) =~= all_muted(lines_of(plan, topic)));
}

proof fn lemma_rewritten_muted(plan: PlanView, objects: Seq<ObjectView>)
    ensures
        rewritten(muted_plan(plan), all_muted(objects)) == (RebuildView {
            objects: all_muted(rewritten(plan, objects).objects),
            emitted: rewritten(plan, objects).emitted,
        }),
    decreases objects.len(),
{
    if objects.len() == 0 {
        assert(all_muted(rewritten(plan, objects).objects) =~= Seq::empty());
    } else {
        let rest = objects.drop_last();
        let last = objects.last();
        let before = rewritten(plan, rest);
        assert(all_muted(objects).drop_last() =~= all_muted(rest));
        assert(all_muted(objects).last() == muted(last));
        lemma_rewritten_muted(plan, rest);
        match last {
            ObjectView::Dialogue(dialogue) => {
                let topic = lower(dialogue.id);
                assert(muted_plan(plan).records.contains_key(topic) == plan.records.contains_key(
                    topic,
                ));
                if plan.records.contains_key(topic) {
                    lemma_lines_muted(plan, topic);
                    assert(all_muted(before.objects.push(last) + lines_of(plan, topic))
                        =~= all_muted(before.objects).push(last) + all_muted(
                        lines_of(plan, topic),
                    ));
                }
            },
            ObjectView::DialogueInfo(_) => {},
            _ => {
                assert(all_muted(before.objects.push(last)) =~= all_muted(before.objects).push(
                    last,
                ));
            },
        }
    }
}

proof fn lemma_supplied_muted(plan: PlanView, emitted: Set<Seq<char>>, topics: Seq<Seq<char>>)
    ensures
        supplied(muted_plan(plan), emitted, topics) == all_muted(supplied(plan, emitted, topics)),
    decreases topics.len(),
{
    if topics.len() == 0 {
        assert(all_muted(supplied(plan, emitted, topics)) =~= Seq::empty());
    } else {
        let before = supplied(plan, emitted, topics.drop_last());
        let topic = topics.last();
        lemma_supplied_muted(plan, emitted, topics.drop_last());
        if plan.records.contains_key(topic) {
            let head = ObjectView::Dialogue(plan.records[topic].dialogue);
            lemma_lines_muted(plan, topic);
            assert(muted_plan(plan).records[topic] == muted_group(plan.records[topic]));
            assert(all_muted(before.push(head) + lines_of(plan, topic)) =~= all_muted(before).push(
                head,
            ) + all_muted(lines_of(plan, topic)));
        }
    }
}

/// What lines say and play, and the places and conditions that they ask for, decide nothing: with
/// all lines muted, the same topics and lines are written in the same order.
pub proof fn law_wording_decides_nothing(objects: Seq<ObjectView>, masters: Seq<Seq<ObjectView>>)
    ensures
        decoupled(all_muted(objects), masters_muted(masters)) == all_muted(
            decoupled(objects, masters),
        ),
{
    let case = case_of(objects, masters);
    let plan = plan_of(case);
    let written = rewritten(plan, objects);
    let topics = sorted(plan.reasons.dom());
    lemma_case_muted(objects, masters);
    lemma_live_infos_muted(case);
    lemma_rewritten_muted(plan, objects);
    lemma_supplied_muted(plan, written.emitted, topics);
    assert(all_muted(written.objects + supplied(plan, written.emitted, topics)) =~= all_muted(
        written.objects,
    ) + all_muted(supplied(plan, written.emitted, topics)));
}

/// What a line says and plays, and the place and the conditions that it asks for, are no needs.
pub proof fn law_wording_needs_nothing(object: ObjectView)
    ensures
        required_ids(muted(object)) == required_ids(object),
{
}

} // verus!
