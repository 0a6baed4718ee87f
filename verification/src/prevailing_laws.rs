//! The lines of the plugin prevail over those of the masters.

use vstd::prelude::*;

use crate::dialogue_group::merged;
use crate::dialogue_records::{
    effective_records, group_or_empty, master_records, merge_objects, MergeView,
};
use crate::group_laws::{law_merged_line_is_there, law_other_lines_stay, others};
use crate::live_infos::{is_live, standing_of};
use crate::rebuild::case_of;
use crate::record_laws::{is_tidy_group, law_topics_are_tidy};
use crate::record_views::{DialogueInfoView, ObjectView};
use crate::text::{lower, same};

verus! {

/// The topic that a line at `k` belongs to: that of the head before it, if only lines stand
/// between them.
pub open spec fn open_topic(objects: Seq<ObjectView>, k: int) -> Option<Seq<char>>
    decreases k,
{
    if k <= 0 {
        None
    } else {
        match objects[k - 1] {
            ObjectView::Dialogue(dialogue) => Some(lower(dialogue.id)),
            ObjectView::DialogueInfo(_) => open_topic(objects, k - 1),
            _ => None,
        }
    }
}

/// The record at `j` is a line of `topic` with the id `id`.
pub open spec fn is_line_at(
    objects: Seq<ObjectView>,
    j: int,
    topic: Seq<char>,
    id: Seq<char>,
) -> bool {
    &&& objects[j] matches ObjectView::DialogueInfo(info) && same(info.id, id)
    &&& open_topic(objects, j) == Some(topic)
}

/// The record at `k` is the last line of `topic` with its id.
pub open spec fn is_last_line(objects: Seq<ObjectView>, k: int, topic: Seq<char>) -> bool {
    &&& 0 <= k < objects.len()
    &&& objects[k] is DialogueInfo
    &&& objects[k].id().len() > 0
    &&& open_topic(objects, k) == Some(topic)
    &&& forall|j: int|
        k < j < objects.len() ==> !#[trigger] is_line_at(objects, j, topic, objects[k].id())
}

proof fn lemma_open_topic(objects: Seq<ObjectView>, s: MergeView, k: int)
    requires
        0 <= k <= objects.len(),
        s.topic is None,
    ensures
        merge_objects(objects.take(k), s).topic == open_topic(objects, k),
    decreases k,
{
    if k > 0 {
        lemma_open_topic(objects, s, k - 1);
        assert(objects.take(k).drop_last() =~= objects.take(k - 1));
        assert(objects.take(k).last() == objects[k - 1]);
    }
}

proof fn lemma_merged_keeps(
    infos: Seq<DialogueInfoView>,
    info: DialogueInfoView,
    line: DialogueInfoView,
)
    requires
        infos.contains(line),
        !same(line.id, info.id),
    ensures
        merged(infos, info).contains(line),
{
    let keep = |i: DialogueInfoView| !same(i.id, info.id);
    let k = choose|k: int| 0 <= k < infos.len() && infos[k] == line;
    infos.lemma_filter_contains(keep, k);
    law_other_lines_stay(infos, info);
    assert(others(merged(infos, info), info.id).contains(line));
    merged(infos, info).lemma_filter_contains_rev(keep, line);
}

proof fn lemma_line_stays(
    objects: Seq<ObjectView>,
    s: MergeView,
    k: int,
    topic: Seq<char>,
    n: int,
)
    requires
        is_last_line(objects, k, topic),
        s.topic is None,
        k < n <= objects.len(),
    ensures
        ({
            let after = merge_objects(objects.take(n), s);
            &&& after.records.contains_key(topic)
            &&& after.records[topic].infos.contains(objects[k]->DialogueInfo_0)
        }),
    decreases n,
{
    let line = objects[k]->DialogueInfo_0;
    let before = merge_objects(objects.take(n - 1), s);
    let after = merge_objects(objects.take(n), s);
    assert(objects.take(n).drop_last() =~= objects.take(n - 1));
    assert(objects.take(n).last() == objects[n - 1]);
    lemma_open_topic(objects, s, n - 1);
    if n == k + 1 {
        let infos = group_or_empty(before.records, topic).infos;
        law_merged_line_is_there(infos, line);
        assert(after.records[topic].infos == merged(infos, line));
    } else {
        lemma_line_stays(objects, s, k, topic, n - 1);
        assert(!is_line_at(objects, n - 1, topic, objects[k].id()));
        if let ObjectView::DialogueInfo(info) = objects[n - 1] {
            if before.topic == Some(topic) {
                lemma_merged_keeps(before.records[topic].infos, info, line);
            }
        }
    }
}

/// Of the lines of a topic with one id, the last one of the plugin is in force.
pub proof fn law_line_of_the_plugin_prevails(
    objects: Seq<ObjectView>,
    masters: Seq<Seq<ObjectView>>,
    k: int,
    topic: Seq<char>,
)
    requires
        is_last_line(objects, k, topic),
    ensures
        effective_records(objects, masters).contains_key(topic),
        effective_records(objects, masters)[topic].infos.contains(objects[k]->DialogueInfo_0),
{
    let start = MergeView { records: master_records(masters), topic: None };
    lemma_line_stays(objects, start, k, topic, objects.len() as int);
    assert(objects.take(objects.len() as int) =~= objects);
}

/// A line that the plugin deletes is kept in no form, whatever the masters say of it.
pub proof fn law_deleted_line_is_suppressed(
    objects: Seq<ObjectView>,
    masters: Seq<Seq<ObjectView>>,
    k: int,
    topic: Seq<char>,
    i: int,
)
    requires
        is_last_line(objects, k, topic),
        objects[k].deleted(),
        0 <= i < case_of(objects, masters).records[topic].infos.len(),
        same(case_of(objects, masters).records[topic].infos[i].id, objects[k].id()),
    ensures
        !is_live(
            standing_of(case_of(objects, masters), topic),
            case_of(objects, masters).records[topic].infos[i],
        ),
{
    let records = effective_records(objects, masters);
    let infos = records[topic].infos;
    let line = objects[k]->DialogueInfo_0;
    law_line_of_the_plugin_prevails(objects, masters, k, topic);
    law_topics_are_tidy(objects, masters);
    assert(is_tidy_group(topic, records[topic]));
    let j = choose|j: int| 0 <= j < infos.len() && infos[j] == line;
    if i < j {
        assert(!same(infos[i].id, infos[j].id));
    } else if j < i {
        assert(!same(infos[j].id, infos[i].id));
    }
}

} // verus!
