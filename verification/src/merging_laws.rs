//! Where a merged line goes, what each record changes in the topics, and whose head is in force.

use vstd::prelude::*;

use crate::dialogue_group::{lemma_position, merged, position, GroupView};
use crate::dialogue_records::{
    dialogue_ids, effective_records, list_objects, loaded, master_records, merge_objects, IdsView,
    MergeView,
};
use crate::prevailing_laws::open_topic;
use crate::record_views::{DialogueInfoView, ObjectView};
use crate::text::{lower, same};

verus! {

/// The line at `k` is the first with the id, in any case.
pub open spec fn is_first_with(infos: Seq<DialogueInfoView>, id: Seq<char>, k: int) -> bool {
    &&& 0 <= k < infos.len()
    &&& lower(infos[k].id) == lower(id)
    &&& forall|j: int| 0 <= j < k ==> lower((#[trigger] infos[j]).id) != lower(id)
}

/// No line has the id, in any case.
pub open spec fn has_none_with(infos: Seq<DialogueInfoView>, id: Seq<char>) -> bool {
    forall|j: int| 0 <= j < infos.len() ==> lower((#[trigger] infos[j]).id) != lower(id)
}

proof fn lemma_position_is(infos: Seq<DialogueInfoView>, id: Seq<char>)
    ensures
        forall|k: int| #[trigger]
            is_first_with(infos, id, k) ==> position(infos, id) == Some(k),
        has_none_with(infos, id) ==> position(infos, id) is None,
{
    lemma_position(infos, id);
    assert forall|k: int| #[trigger] is_first_with(infos, id, k) implies position(infos, id)
        == Some(k) by {
        assert(same(infos[k].id, id));
        let i = position(infos, id)->0;
        if i < k {
            assert(lower(infos[i].id) != lower(id));
        }
    }
    if has_none_with(infos, id) && position(infos, id) is Some {
        let i = position(infos, id)->0;
        assert(lower(infos[i].id) != lower(id));
    }
}

/// A line that is new goes behind the first line that it names as the one before it: to the front
/// where it names none, to the end where there is no such line. All others keep their order.
pub proof fn law_new_line_goes_behind_the_one_it_names(
    infos: Seq<DialogueInfoView>,
    info: DialogueInfoView,
    k: int,
)
    requires
        has_none_with(infos, info.id),
    ensures
        info.prev_id.len() == 0 ==> merged(infos, info) == seq![info] + infos,
        info.prev_id.len() > 0 && has_none_with(infos, info.prev_id) ==> merged(infos, info)
            == infos.push(info),
        info.prev_id.len() > 0 && is_first_with(infos, info.prev_id, k) ==> merged(infos, info)
            == infos.take(k + 1).push(info) + infos.skip(k + 1),
{
    lemma_position_is(infos, info.id);
    lemma_position_is(infos, info.prev_id);
    let out = merged(infos, info);
    if info.prev_id.len() == 0 {
        assert(out =~= seq![info] + infos);
    } else if has_none_with(infos, info.prev_id) {
        assert(out =~= infos.push(info));
    } else if is_first_with(infos, info.prev_id, k) {
        assert(out =~= infos.take(k + 1).push(info) + infos.skip(k + 1));
    }
}

/// A line that is there is replaced. It keeps its place where it names the same line before it as
/// it did, or names itself; otherwise it goes behind the first line that it names, to the front
/// where it names none, to the end where there is no such line. All others keep their order.
pub proof fn law_known_line_is_replaced(
    infos: Seq<DialogueInfoView>,
    info: DialogueInfoView,
    i: int,
    k: int,
)
    requires
        is_first_with(infos, info.id, i),
    ensures
        lower(infos[i].prev_id) == lower(info.prev_id) ==> merged(infos, info) == infos.update(
            i,
            info,
        ),
        lower(infos[i].prev_id) != lower(info.prev_id) ==> {
            &&& info.prev_id.len() == 0 ==> merged(infos, info) == seq![info] + infos.take(i)
                + infos.skip(i + 1)
            &&& info.prev_id.len() > 0 && has_none_with(infos, info.prev_id) ==> merged(infos, info)
                == (infos.take(i) + infos.skip(i + 1)).push(info)
            &&& info.prev_id.len() > 0 && is_first_with(infos, info.prev_id, k) ==> {
                &&& k == i ==> merged(infos, info) == infos.update(i, info)
                &&& k < i ==> merged(infos, info) == infos.take(k + 1).push(info)
                    + infos.subrange(k + 1, i) + infos.skip(i + 1)
                &&& k > i ==> merged(infos, info) == infos.take(i) + infos.subrange(
                    i + 1,
                    k + 1,
                ).push(info) + infos.skip(k + 1)
            }
        },
{
    lemma_position_is(infos, info.id);
    lemma_position_is(infos, info.prev_id);
    let out = merged(infos, info);
    if lower(infos[i].prev_id) != lower(info.prev_id) {
        if info.prev_id.len() == 0 {
            assert(out =~= seq![info] + infos.take(i) + infos.skip(i + 1));
        } else if has_none_with(infos, info.prev_id) {
            assert(out =~= (infos.take(i) + infos.skip(i + 1)).push(info));
        } else if is_first_with(infos, info.prev_id, k) {
            if k == i {
                assert(out =~= infos.update(i, info));
            } else if k < i {
                assert(out =~= infos.take(k + 1).push(info) + infos.subrange(k + 1, i)
                    + infos.skip(i + 1));
            } else {
                assert(out =~= infos.take(i) + infos.subrange(i + 1, k + 1).push(info)
                    + infos.skip(k + 1));
            }
        }
    }
}

proof fn lemma_open(objects: Seq<ObjectView>, records: Map<Seq<char>, GroupView>, n: int)
    requires
        0 <= n <= objects.len(),
    ensures
        ({
            let s = merge_objects(objects.take(n), MergeView { records, topic: None });
            &&& s.topic == open_topic(objects, n)
            &&& s.topic matches Some(t) ==> s.records.contains_key(t)
        }),
    decreases n,
{
    if n > 0 {
        lemma_open(objects, records, n - 1);
        assert(objects.take(n).drop_last() =~= objects.take(n - 1));
        assert(objects.take(n).last() == objects[n - 1]);
    }
}

/// The lines of a topic, if it is there.
pub open spec fn lines_under(
    records: Map<Seq<char>, GroupView>,
    topic: Seq<char>,
) -> Seq<DialogueInfoView> {
    if records.contains_key(topic) {
        records[topic].infos
    } else {
        Seq::empty()
    }
}

/// What one more record changes in the topics. The head of a topic becomes its head and gives it
/// its kind; its lines stay. A line with an id is merged into the topic of the head before it, if
/// only lines stand between them. Nothing else changes anything.
pub proof fn law_records_change_topics_one_by_one(
    objects: Seq<ObjectView>,
    object: ObjectView,
    records: Map<Seq<char>, GroupView>,
)
    ensures
        loaded(Seq::empty(), records) == records,
        ({
            let before = loaded(objects, records);
            let after = loaded(objects.push(object), records);
            match object {
                ObjectView::Dialogue(d) => after == before.insert(
                    lower(d.id),
                    (GroupView {
                        dialogue: d,
                        dialogue_type: d.dialogue_type,
                        infos: lines_under(before, lower(d.id)),
                    }),
                ),
                ObjectView::DialogueInfo(info) => match open_topic(objects, objects.len() as int) {
                    Some(t) => if info.id.len() > 0 {
                        &&& before.contains_key(t)
                        &&& after == before.insert(
                            t,
                            (GroupView {
                                dialogue: before[t].dialogue,
                                dialogue_type: before[t].dialogue_type,
                                infos: merged(before[t].infos, info),
                            }),
                        )
                    } else {
                        after == before
                    },
                    None => after == before,
                },
                _ => after == before,
            }
        }),
{
    assert(objects.push(object).drop_last() =~= objects);
    assert(objects.take(objects.len() as int) =~= objects);
    lemma_open(objects, records, objects.len() as int);
}

/// The topics in force are those of the masters, each loaded over those behind it, with the plugin
/// loaded over them all.
pub proof fn law_each_master_is_loaded_over_those_behind_it(
    objects: Seq<ObjectView>,
    masters: Seq<Seq<ObjectView>>,
)
    ensures
        masters.len() == 0 ==> effective_records(objects, masters) == loaded(
            objects,
            Map::<Seq<char>, GroupView>::empty(),
        ),
        masters.len() > 0 ==> effective_records(objects, masters) == loaded(
            objects,
            effective_records(masters[0], masters.skip(1)),
        ),
{
}

/// What one more record adds to the list of what the plugin has. The head of a topic lists the
/// topic. A line with an id that is not deleted is listed in the topic of the head before it, if
/// only lines stand between them. Nothing else is listed.
pub proof fn law_records_are_listed_one_by_one(objects: Seq<ObjectView>, object: ObjectView)
    ensures
        dialogue_ids(Seq::empty()) == Map::<Seq<char>, Set<Seq<char>>>::empty(),
        ({
            let before = dialogue_ids(objects);
            let after = dialogue_ids(objects.push(object));
            match object {
                ObjectView::Dialogue(d) => after == (if before.contains_key(lower(d.id)) {
                    before
                } else {
                    before.insert(lower(d.id), Set::empty())
                }),
                ObjectView::DialogueInfo(info) => match open_topic(objects, objects.len() as int) {
                    Some(t) => if info.id.len() > 0 && !info.deleted {
                        &&& before.contains_key(t)
                        &&& after == before.insert(t, before[t].insert(lower(info.id)))
                    } else {
                        after == before
                    },
                    None => after == before,
                },
                _ => after == before,
            }
        }),
{
    assert(objects.push(object).drop_last() =~= objects);
    assert(objects.take(objects.len() as int) =~= objects);
    lemma_list_open(objects, objects.len() as int);
    let before = dialogue_ids(objects);
    let after = dialogue_ids(objects.push(object));
    if let ObjectView::Dialogue(d) = object {
        if before.contains_key(lower(d.id)) {
            assert(after =~= before);
        }
    }
}

proof fn lemma_list_open(objects: Seq<ObjectView>, n: int)
    requires
        0 <= n <= objects.len(),
    ensures
        ({
            let s = list_objects(objects.take(n), IdsView { ids: Map::empty(), topic: None });
            &&& s.topic == open_topic(objects, n)
            &&& s.topic matches Some(t) ==> s.ids.contains_key(t)
        }),
    decreases n,
{
    if n > 0 {
        lemma_list_open(objects, n - 1);
        assert(objects.take(n).drop_last() =~= objects.take(n - 1));
        assert(objects.take(n).last() == objects[n - 1]);
    }
}

/// The record is a head of the topic.
pub open spec fn opens(object: ObjectView, topic: Seq<char>) -> bool {
    match object {
        ObjectView::Dialogue(d) => lower(d.id) == topic,
        _ => false,
    }
}

/// The record at `h` is the last head of the topic among the records.
pub open spec fn is_last_head(objects: Seq<ObjectView>, topic: Seq<char>, h: int) -> bool {
    &&& 0 <= h < objects.len()
    &&& opens(objects[h], topic)
    &&& forall|j: int| h < j < objects.len() ==> !opens(#[trigger] objects[j], topic)
}

/// The records hold no head of the topic.
pub open spec fn is_unopened(objects: Seq<ObjectView>, topic: Seq<char>) -> bool {
    forall|j: int| 0 <= j < objects.len() ==> !opens(#[trigger] objects[j], topic)
}

/// Loading records over topics makes the last head of each topic its head; a topic of which they
/// hold no head stays, with the head that it has, or is not there.
pub proof fn law_last_head_is_in_force(
    objects: Seq<ObjectView>,
    records: Map<Seq<char>, GroupView>,
    topic: Seq<char>,
    h: int,
)
    ensures
        is_last_head(objects, topic, h) ==> {
            let after = loaded(objects, records);
            &&& after.contains_key(topic)
            &&& ObjectView::Dialogue(after[topic].dialogue) == objects[h]
            &&& after[topic].dialogue_type == after[topic].dialogue.dialogue_type
        },
        is_unopened(objects, topic) ==> {
            let after = loaded(objects, records);
            &&& after.contains_key(topic) == records.contains_key(topic)
            &&& after.contains_key(topic) ==> after[topic].dialogue == records[topic].dialogue
            &&& after.contains_key(topic) ==> after[topic].dialogue_type
                == records[topic].dialogue_type
        },
    decreases objects.len(),
{
    if objects.len() > 0 {
        let rest = objects.drop_last();
        let last = objects.last();
        law_last_head_is_in_force(rest, records, topic, h);
        assert(rest.push(last) =~= objects);
        law_records_change_topics_one_by_one(rest, last, records);
        if is_last_head(objects, topic, h) && h < rest.len() {
            assert(!opens(objects[objects.len() - 1], topic));
            assert(rest[h] == objects[h]);
            assert forall|j: int| h < j < rest.len() implies !opens(#[trigger] rest[j], topic) by {
                assert(rest[j] == objects[j]);
            }
        }
        if is_unopened(objects, topic) {
            assert(!opens(objects[objects.len() - 1], topic));
            assert forall|j: int| 0 <= j < rest.len() implies !opens(#[trigger] rest[j], topic) by {
                assert(rest[j] == objects[j]);
            }
        }
    }
}

proof fn lemma_last_head(objects: Seq<ObjectView>, topic: Seq<char>) -> (h: int)
    requires
        !is_unopened(objects, topic),
    ensures
        is_last_head(objects, topic, h),
    decreases objects.len(),
{
    let n = objects.len() - 1;
    if opens(objects[n], topic) {
        n
    } else {
        let rest = objects.drop_last();
        let k = choose|k: int| 0 <= k < objects.len() && opens(#[trigger] objects[k], topic);
        assert(rest[k] == objects[k]);
        let h = lemma_last_head(rest, topic);
        assert(objects[h] == rest[h]);
        assert forall|j: int| h < j < objects.len() implies !opens(
            #[trigger] objects[j],
            topic,
        ) by {
            if j < n {
                assert(rest[j] == objects[j]);
            }
        }
        h
    }
}

/// The record is the last head of the topic in the first of the masters that holds one: that which
/// is loaded last.
pub open spec fn is_head_of_masters(
    masters: Seq<Seq<ObjectView>>,
    topic: Seq<char>,
    object: ObjectView,
) -> bool {
    exists|m: int, h: int|
        0 <= m < masters.len() && #[trigger] is_last_head(masters[m], topic, h) && masters[m][h]
            == object && forall|n: int| 0 <= n < m ==> is_unopened(#[trigger] masters[n], topic)
}

/// The topics of the masters are those of which they hold a head, and the head of each is that
/// which is loaded last.
pub proof fn law_masters_open_their_topics(masters: Seq<Seq<ObjectView>>, topic: Seq<char>)
    ensures
        master_records(masters).contains_key(topic) <==> exists|m: int|
            0 <= m < masters.len() && !is_unopened(#[trigger] masters[m], topic),
        master_records(masters).contains_key(topic) ==> is_head_of_masters(
            masters,
            topic,
            ObjectView::Dialogue(master_records(masters)[topic].dialogue),
        ) && master_records(masters)[topic].dialogue_type == master_records(
            masters,
        )[topic].dialogue.dialogue_type,
    decreases masters.len(),
{
    if masters.len() > 0 {
        let rest = masters.skip(1);
        law_masters_open_their_topics(rest, topic);
        let behind = master_records(rest);
        let all = master_records(masters);
        assert(all == loaded(masters[0], behind));
        law_last_head_is_in_force(masters[0], behind, topic, 0);
        if is_unopened(masters[0], topic) {
            if behind.contains_key(topic) {
                let object = ObjectView::Dialogue(behind[topic].dialogue);
                let (m, h) = choose|m: int, h: int|
                    0 <= m < rest.len() && #[trigger] is_last_head(rest[m], topic, h) && rest[m][h]
                        == object && forall|n: int|
                        0 <= n < m ==> is_unopened(#[trigger] rest[n], topic);
                assert(masters[m + 1] == rest[m]);
                assert(is_last_head(masters[m + 1], topic, h));
                assert forall|n: int| 0 <= n < m + 1 implies is_unopened(
                    #[trigger] masters[n],
                    topic,
                ) by {
                    if n > 0 {
                        assert(rest[n - 1] == masters[n]);
                    }
                }
                assert(is_head_of_masters(masters, topic, object));
                assert(!is_unopened(masters[m + 1], topic)) by {
                    assert(opens(masters[m + 1][h], topic));
                }
            }
            assert forall|m: int|
                0 <= m < masters.len() && !is_unopened(
                    #[trigger] masters[m],
                    topic,
                ) implies all.contains_key(topic) by {
                assert(rest[m - 1] == masters[m]);
            }
        } else {
            let h = lemma_last_head(masters[0], topic);
            law_last_head_is_in_force(masters[0], behind, topic, h);
            assert(is_last_head(masters[0], topic, h));
            assert(is_head_of_masters(
                masters,
                topic,
                ObjectView::Dialogue(all[topic].dialogue),
            ));
        }
    }
}

/// A topic is in force just if the plugin or a master holds a head of it. Its head is the last one
/// of the plugin; where that has none, the head of the masters that is loaded last, in all its
/// fields. The topic is of the kind that its head says.
pub proof fn law_head_of_the_plugin_prevails(
    objects: Seq<ObjectView>,
    masters: Seq<Seq<ObjectView>>,
    topic: Seq<char>,
    h: int,
)
    ensures
        ({
            let records = effective_records(objects, masters);
            &&& records.contains_key(topic) <==> !is_unopened(objects, topic) || exists|m: int|
                0 <= m < masters.len() && !is_unopened(#[trigger] masters[m], topic)
            &&& is_last_head(objects, topic, h) ==> ObjectView::Dialogue(records[topic].dialogue)
                == objects[h]
            &&& records.contains_key(topic) && is_unopened(objects, topic) ==> is_head_of_masters(
                masters,
                topic,
                ObjectView::Dialogue(records[topic].dialogue),
            )
            &&& records.contains_key(topic) ==> records[topic].dialogue_type
                == records[topic].dialogue.dialogue_type
        }),
{
    law_masters_open_their_topics(masters, topic);
    law_last_head_is_in_force(objects, master_records(masters), topic, h);
    if !is_unopened(objects, topic) {
        let l = lemma_last_head(objects, topic);
        law_last_head_is_in_force(objects, master_records(masters), topic, l);
    }
}

} // verus!
