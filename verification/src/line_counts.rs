//! How many lines of dialogue there can be: no more than there are records.

use vstd::prelude::*;

use crate::dialogue_group::{lemma_position, GroupView};
use crate::dialogue_records::{
    effective_records, group_or_empty, master_records, merge_object, merge_objects, MergeView,
};
use crate::ids::{
    lemma_insert_sorted, lemma_position_exists, lemma_sorted_is, lemma_sorted_lists, sorted,
    strictly_sorted,
};
use crate::live_infos::{
    count_lines, count_topics, standing_of, total, LivenessView, StandingView, Tally,
};
use crate::record_views::{DialogueInfoView, ObjectView};
use crate::records::Plugin;
use crate::text::{id_less, lemma_id_less_asymmetric, lower};
use crate::vanilla_index::masters_of;

verus! {

/// The number of lines of the topics.
pub open spec fn lines_in(records: Map<Seq<char>, GroupView>, topics: Seq<Seq<char>>) -> nat
    decreases topics.len(),
{
    if topics.len() == 0 {
        0
    } else {
        lines_in(records, topics.drop_last()) + records[topics.last()].infos.len()
    }
}

/// The number of all lines.
pub open spec fn all_lines(records: Map<Seq<char>, GroupView>) -> nat {
    lines_in(records, sorted(records.dom()))
}

/// The number of records of the masters.
pub open spec fn master_count(masters: Seq<Seq<ObjectView>>) -> nat
    decreases masters.len(),
{
    if masters.len() == 0 {
        0
    } else {
        masters[0].len() + master_count(masters.skip(1))
    }
}

/// The number of records of a plugin and its masters.
pub open spec fn record_count(objects: Seq<ObjectView>, masters: Seq<Seq<ObjectView>>) -> nat {
    objects.len() + master_count(masters)
}

proof fn lemma_lines_elsewhere(
    records: Map<Seq<char>, GroupView>,
    topics: Seq<Seq<char>>,
    topic: Seq<char>,
    group: GroupView,
)
    requires
        !topics.contains(topic),
    ensures
        lines_in(records.insert(topic, group), topics) == lines_in(records, topics),
    decreases topics.len(),
{
    if topics.len() > 0 {
        assert(topics.contains(topics.last()));
        assert forall|k: int| 0 <= k < topics.drop_last().len() implies topics.drop_last()[k]
            != topic by {
            assert(topics.contains(topics[k]));
        }
        lemma_lines_elsewhere(records, topics.drop_last(), topic, group);
    }
}

proof fn lemma_lines_update(
    records: Map<Seq<char>, GroupView>,
    topics: Seq<Seq<char>>,
    topic: Seq<char>,
    group: GroupView,
)
    requires
        strictly_sorted(topics),
        topics.contains(topic),
    ensures
        lines_in(records.insert(topic, group), topics) + records[topic].infos.len() == lines_in(
            records,
            topics,
        ) + group.infos.len(),
    decreases topics.len(),
{
    let shorter = topics.drop_last();
    assert forall|i: int, j: int| 0 <= i < j < shorter.len() implies id_less(
        #[trigger] shorter[i],
        #[trigger] shorter[j],
    ) by {
        assert(id_less(topics[i], topics[j]));
    }
    if topics.last() == topic {
        assert forall|k: int| 0 <= k < shorter.len() implies shorter[k] != topic by {
            lemma_id_less_asymmetric(topics[k], topics.last());
            assert(id_less(topics[k], topics[topics.len() - 1]));
        }
        lemma_lines_elsewhere(records, shorter, topic, group);
    } else {
        let k = choose|k: int| 0 <= k < topics.len() && topics[k] == topic;
        assert(shorter[k] == topic);
        lemma_lines_update(records, shorter, topic, group);
    }
}

proof fn lemma_lines_insert(
    records: Map<Seq<char>, GroupView>,
    topics: Seq<Seq<char>>,
    position: int,
    topic: Seq<char>,
)
    requires
        0 <= position <= topics.len(),
    ensures
        lines_in(records, topics.insert(position, topic)) == lines_in(records, topics)
            + records[topic].infos.len(),
    decreases topics.len(),
{
    let longer = topics.insert(position, topic);
    if position == topics.len() {
        assert(longer.drop_last() =~= topics);
    } else {
        lemma_lines_insert(records, topics.drop_last(), position, topic);
        assert(longer.drop_last() =~= topics.drop_last().insert(position, topic));
        assert(longer.last() == topics.last());
    }
}

/// Putting a topic in changes the number of lines by what the topic gains.
proof fn lemma_all_lines_insert(
    records: Map<Seq<char>, GroupView>,
    topic: Seq<char>,
    group: GroupView,
)
    requires
        records.dom().finite(),
    ensures
        records.insert(topic, group).dom().finite(),
        all_lines(records.insert(topic, group)) + group_or_empty(records, topic).infos.len()
            == all_lines(records) + group.infos.len(),
{
    let after = records.insert(topic, group);
    let topics = sorted(records.dom());
    lemma_sorted_lists(records.dom());
    if records.contains_key(topic) {
        assert(after.dom() =~= records.dom());
        assert(topics.to_set().contains(topic));
        lemma_lines_update(records, topics, topic, group);
    } else {
        assert(!topics.contains(topic)) by {
            assert(topics.to_set().contains(topic) == topics.contains(topic));
        }
        let position = lemma_position_exists(topics, topic);
        lemma_insert_sorted(topics, position, topic);
        assert(after.dom() =~= records.dom().insert(topic));
        lemma_sorted_is(topics.insert(position, topic), after.dom());
        lemma_lines_insert(after, topics, position, topic);
        lemma_lines_elsewhere(records, topics, topic, group);
    }
}

proof fn lemma_merge_object_lines(s: MergeView, object: ObjectView)
    requires
        s.records.dom().finite(),
    ensures
        merge_object(s, object).records.dom().finite(),
        all_lines(merge_object(s, object).records) <= all_lines(s.records) + 1,
{
    match object {
        ObjectView::Dialogue(dialogue) => {
            let topic = lower(dialogue.id);
            let group = merge_object(s, object).records[topic];
            lemma_all_lines_insert(s.records, topic, group);
        },
        ObjectView::DialogueInfo(info) => {
            if s.topic is Some && info.id.len() > 0 {
                let topic = s.topic->0;
                let group = merge_object(s, object).records[topic];
                lemma_position(
                    group_or_empty(s.records, topic).infos,
                    info.id,
                );
                lemma_position(
                    group_or_empty(s.records, topic).infos,
                    info.prev_id,
                );
                lemma_all_lines_insert(s.records, topic, group);
            }
        },
        _ => {},
    }
}

proof fn lemma_merge_lines(objects: Seq<ObjectView>, s: MergeView)
    requires
        s.records.dom().finite(),
    ensures
        merge_objects(objects, s).records.dom().finite(),
        all_lines(merge_objects(objects, s).records) <= all_lines(s.records) + objects.len(),
    decreases objects.len(),
{
    if objects.len() > 0 {
        lemma_merge_lines(objects.drop_last(), s);
        lemma_merge_object_lines(merge_objects(objects.drop_last(), s), objects.last());
    }
}

proof fn lemma_master_lines(masters: Seq<Seq<ObjectView>>)
    ensures
        master_records(masters).dom().finite(),
        all_lines(master_records(masters)) <= master_count(masters),
    decreases masters.len(),
{
    if masters.len() == 0 {
        assert(Seq::<Seq<char>>::empty().to_set() =~= Map::<Seq<char>, GroupView>::empty().dom());
        lemma_sorted_is(Seq::empty(), Map::<Seq<char>, GroupView>::empty().dom());
    } else {
        lemma_master_lines(masters.skip(1));
        lemma_merge_lines(
            masters[0],
            MergeView { records: master_records(masters.skip(1)), topic: None },
        );
    }
}

proof fn lemma_count_below(standing: StandingView, infos: Seq<DialogueInfoView>)
    ensures
        count_lines(standing, Tally::Effective, infos) <= infos.len(),
    decreases infos.len(),
{
    if infos.len() > 0 {
        lemma_count_below(standing, infos.drop_last());
    }
}

proof fn lemma_topics_below(case: LivenessView, topics: Seq<Seq<char>>)
    ensures
        count_topics(case, Tally::Effective, topics) <= lines_in(case.records, topics),
    decreases topics.len(),
{
    if topics.len() > 0 {
        lemma_topics_below(case, topics.drop_last());
        lemma_count_below(
            standing_of(case, topics.last()),
            case.records[topics.last()].infos,
        );
    }
}

/// Finitely many topics are in force.
pub proof fn lemma_effective_finite(objects: Seq<ObjectView>, masters: Seq<Seq<ObjectView>>)
    ensures
        effective_records(objects, masters).dom().finite(),
{
    lemma_master_lines(masters);
    lemma_merge_lines(objects, MergeView { records: master_records(masters), topic: None });
}

/// A plugin with its masters has no more lines of dialogue in force than it has records.
pub proof fn law_no_more_lines_than_records(
    objects: Seq<ObjectView>,
    masters: Seq<Seq<ObjectView>>,
    case: LivenessView,
)
    requires
        case.records == effective_records(objects, masters),
    ensures
        case.records.dom().finite(),
        total(case, Tally::Effective) <= record_count(objects, masters),
{
    lemma_master_lines(masters);
    lemma_merge_lines(objects, MergeView { records: master_records(masters), topic: None });
    lemma_topics_below(case, sorted(case.records.dom()));
}

/// Whether the records of a plugin and its masters can be counted.
pub fn can_count_records(plugin: &Plugin, base_plugins: &[Plugin]) -> (res: bool)
    ensures
        res == (record_count(plugin@, masters_of(base_plugins@)) <= usize::MAX),
{
    let ghost masters = masters_of(base_plugins@);
    let mut count: usize = plugin.objects.len();
    let mut m: usize = 0;
    assert(masters.skip(0) =~= masters);
    while m < base_plugins.len()
        invariant
            m <= base_plugins.len(),
            masters == masters_of(base_plugins@),
            record_count(plugin@, masters) == count + master_count(masters.skip(m as int)),
        decreases base_plugins.len() - m,
    {
        proof {
            assert(masters.skip(m as int)[0] == base_plugins@[m as int]@);
            assert(masters.skip(m as int).skip(1) =~= masters.skip(m + 1));
        }
        match count.checked_add(base_plugins[m].objects.len()) {
            Some(sum) => {
                count = sum;
            },
            None => {
                return false;
            },
        }
        m += 1;
    }
    true
}

/// The records that there are to count are those of the plugin and of each of the masters.
pub proof fn law_records_are_counted_once(
    objects: Seq<ObjectView>,
    masters: Seq<Seq<ObjectView>>,
    more: Seq<ObjectView>,
)
    ensures
        record_count(objects, Seq::empty()) == objects.len(),
        record_count(objects, seq![more] + masters) == record_count(objects, masters) + more.len(),
{
    assert((seq![more] + masters).skip(1) =~= masters);
}

} // verus!
