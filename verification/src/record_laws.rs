//! What holds of the topics in force.

use vstd::prelude::*;
use vstd::set_lib::lemma_set_subset_finite;

use crate::dialogue_group::{merged, GroupView};
use crate::dialogue_records::{
    dialogue_ids, effective_records, list_object, list_objects, master_records, merge_object,
    merge_objects, IdsView, MergeView,
};
use crate::group_laws::{are_distinct, law_ids_stay_distinct, lemma_merged_origin};
use crate::ids::lemma_sorted_lists;
use crate::line_counts::lemma_effective_finite;
use crate::live_topics::{adds, live_topics, named_topics, scripted_topics};
use crate::record_views::{DialogueInfoView, ObjectView};
use crate::scripts::{first_same, is_mentioned, lines, mentioned, operand};
use crate::text::lower;

verus! {

/// Every line has an id.
pub open spec fn are_named(infos: Seq<DialogueInfoView>) -> bool {
    forall|i: int| 0 <= i < infos.len() ==> (#[trigger] infos[i]).id.len() > 0
}

/// The topic goes by the id of its head; its lines have ids, and no two have the same.
pub open spec fn is_tidy_group(topic: Seq<char>, group: GroupView) -> bool {
    &&& lower(group.dialogue.id) == topic
    &&& are_distinct(group.infos)
    &&& are_named(group.infos)
}

/// Every topic is tidy.
pub open spec fn is_tidy(records: Map<Seq<char>, GroupView>) -> bool {
    forall|t: Seq<char>| #[trigger] records.contains_key(t) ==> is_tidy_group(t, records[t])
}

proof fn lemma_merge_tidy(objects: Seq<ObjectView>, s: MergeView)
    requires
        is_tidy(s.records),
        s.topic matches Some(t) ==> s.records.contains_key(t),
    ensures
        is_tidy(merge_objects(objects, s).records),
        merge_objects(objects, s).topic matches Some(t) ==> merge_objects(
            objects,
            s,
        ).records.contains_key(t),
        forall|t: Seq<char>| #[trigger]
            s.records.contains_key(t) ==> merge_objects(objects, s).records.contains_key(t),
        forall|i: int|
            0 <= i < objects.len() ==> (#[trigger] objects[i] matches ObjectView::Dialogue(d)
                ==> merge_objects(objects, s).records.contains_key(lower(d.id))),
    decreases objects.len(),
{
    if objects.len() > 0 {
        let rest = objects.drop_last();
        let last = objects.last();
        lemma_merge_tidy(rest, s);
        let before = merge_objects(rest, s);
        let after = merge_objects(objects, s);
        assert(after == merge_object(before, last));
        if let ObjectView::DialogueInfo(info) = last {
            if before.topic is Some && info.id.len() > 0 {
                let group = before.records[before.topic->0];
                law_ids_stay_distinct(group.infos, info);
                lemma_merged_named(group.infos, info);
            }
        }
        assert forall|t: Seq<char>| #[trigger] after.records.contains_key(t) implies is_tidy_group(
            t,
            after.records[t],
        ) by {
            if before.records.contains_key(t) {
                assert(is_tidy_group(t, before.records[t]));
            }
        }
        assert forall|i: int| 0 <= i < objects.len() implies (
        #[trigger] objects[i] matches ObjectView::Dialogue(d) ==> after.records.contains_key(
            lower(d.id),
        )) by {
            if i < rest.len() {
                assert(rest[i] == objects[i]);
            }
        }
    }
}

proof fn lemma_merged_named(infos: Seq<DialogueInfoView>, info: DialogueInfoView)
    requires
        are_named(infos),
        info.id.len() > 0,
    ensures
        are_named(merged(infos, info)),
{
    let out = merged(infos, info);
    assert forall|i: int| 0 <= i < out.len() implies (#[trigger] out[i]).id.len() > 0 by {
        lemma_merged_origin(infos, info, i);
    }
}

proof fn lemma_masters_tidy(masters: Seq<Seq<ObjectView>>)
    ensures
        is_tidy(master_records(masters)),
    decreases masters.len(),
{
    if masters.len() > 0 {
        lemma_masters_tidy(masters.skip(1));
        lemma_merge_tidy(
            masters[0],
            MergeView { records: master_records(masters.skip(1)), topic: None },
        );
    }
}

/// Every topic in force goes by the id of its head, all its lines have ids, and no two of them the
/// same; and the topics of the plugin are among those in force.
pub proof fn law_topics_are_tidy(objects: Seq<ObjectView>, masters: Seq<Seq<ObjectView>>)
    ensures
        is_tidy(effective_records(objects, masters)),
        forall|i: int|
            0 <= i < objects.len() ==> (#[trigger] objects[i] matches ObjectView::Dialogue(d)
                ==> effective_records(objects, masters).contains_key(lower(d.id))),
{
    lemma_masters_tidy(masters);
    lemma_merge_tidy(objects, MergeView { records: master_records(masters), topic: None });
}

proof fn lemma_list_finite(objects: Seq<ObjectView>, s: IdsView)
    requires
        s.ids.dom().finite(),
    ensures
        list_objects(objects, s).ids.dom().finite(),
    decreases objects.len(),
{
    if objects.len() > 0 {
        lemma_list_finite(objects.drop_last(), s);
        let before = list_objects(objects.drop_last(), s);
        let after = list_objects(objects, s);
        assert(after == list_object(before, objects.last()));
        match objects.last() {
            ObjectView::Dialogue(d) => {
                assert(after.ids.dom() =~= before.ids.dom().insert(lower(d.id)));
            },
            ObjectView::DialogueInfo(info) => {
                if before.topic is Some && info.id.len() > 0 && !info.deleted {
                    assert(after.ids.dom() =~= before.ids.dom().insert(before.topic->0));
                }
            },
            _ => {},
        }
    }
}

proof fn lemma_first_same_listed(topics: Seq<Seq<char>>, id: Seq<char>)
    ensures
        first_same(topics, id) matches Some(t) ==> topics.contains(t),
    decreases topics.len(),
{
    if topics.len() > 0 {
        let rest = topics.skip(1);
        lemma_first_same_listed(rest, id);
        if let Some(t) = first_same(rest, id) {
            let k = choose|k: int| 0 <= k < rest.len() && rest[k] == t;
            assert(topics[k + 1] == t);
        }
        assert(topics.contains(topics[0]));
    }
}

/// A script adds only topics that are listed.
pub proof fn law_scripts_add_listed_topics(
    objects: Seq<ObjectView>,
    topics: Seq<Seq<char>>,
    topic: Seq<char>,
)
    requires
        scripted_topics(objects, topics).contains(topic),
    ensures
        topics.contains(topic),
{
    let i = choose|i: int| 0 <= i < objects.len() && adds(#[trigger] objects[i], topics, topic);
    let script = lines(objects[i]->Script_0.text);
    assert(is_mentioned(script, topics, topic));
    let k = choose|k: int|
        0 <= k < script.len() && mentioned(#[trigger] script[k], topics) == Some(topic);
    let id = operand(script[k])->0;
    lemma_first_same_listed(topics, id);
}

/// Finitely many topics are kept.
pub proof fn lemma_kept_finite(objects: Seq<ObjectView>, masters: Seq<Seq<ObjectView>>)
    ensures
        ({
            let records = effective_records(objects, masters);
            let owned = dialogue_ids(objects);
            &&& records.dom().finite()
            &&& live_topics(objects, records, owned).dom().finite()
        }),
{
    let records = effective_records(objects, masters);
    let owned = dialogue_ids(objects);
    let kept = live_topics(objects, records, owned);
    lemma_effective_finite(objects, masters);
    lemma_list_finite(objects, IdsView { ids: Map::empty(), topic: None });
    let all = owned.dom().union(records.dom());
    let named = records.dom().remove(Seq::empty());
    lemma_sorted_lists(named);
    assert forall|t: Seq<char>| #[trigger] kept.dom().contains(t) implies all.contains(t) by {
        if scripted_topics(objects, named_topics(records)).contains(t) {
            law_scripts_add_listed_topics(objects, named_topics(records), t);
            assert(named_topics(records).to_set().contains(t));
        }
    }
    lemma_set_subset_finite(all, kept.dom());
}

} // verus!
