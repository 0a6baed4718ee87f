//! The dialogue that was written anew, head by head and line by line.

use vstd::prelude::*;

use crate::audit::reason_names;
use crate::dialogue_laws::{is_head_of, is_relinked, law_topics_hold_their_lines};
use crate::dialogue_group::GroupView;
use crate::dialogue_records::{dialogue_ids, effective_records};
use crate::ids::{lemma_sorted_lists, sorted};
use crate::keeping_laws::{is_kept, law_kept_lines_are_listed};
use crate::live_infos::{
    account, has_live, is_live, live_infos, standing_of, topic_live_ids, LivenessView,
};
use crate::live_topics::live_topics;
use crate::merging_laws::{is_head_of_masters, is_unopened, law_head_of_the_plugin_prevails, opens};
use crate::population::actors_of;
use crate::rebuild::{
    case_of, decoupled, decoupled_account, is_missing, lines_of, plan_of, rewritten, supplied,
    survives, survivors, written_lines, PlanView,
};
use crate::record_laws::{is_tidy_group, law_topics_are_tidy, lemma_kept_finite};
use crate::record_views::{DialogueInfoView, ObjectView};
use crate::text::{id_less, lemma_lower_len, lower, same};
use crate::topic_reasons::{reason_name, DialogueTopicReason};

verus! {

/// All that decides about the lines of a plugin with masters.
pub open spec fn situation(
    objects: Seq<ObjectView>,
    masters: Seq<Seq<ObjectView>>,
) -> LivenessView {
    LivenessView {
        records: effective_records(objects, masters),
        owned: dialogue_ids(objects),
        reasons: live_topics(objects, effective_records(objects, masters), dialogue_ids(objects)),
        actors: actors_of(objects),
    }
}

/// The records that are no lines of dialogue.
pub open spec fn without_lines(objects: Seq<ObjectView>) -> Seq<ObjectView> {
    objects.filter(|o: ObjectView| !(o is DialogueInfo))
}

/// The records that are no lines of dialogue, but for the heads of topics that an earlier record is
/// the head of.
pub open spec fn backbone(objects: Seq<ObjectView>) -> Seq<ObjectView>
    decreases objects.len(),
{
    if objects.len() == 0 {
        Seq::empty()
    } else {
        let before = backbone(objects.drop_last());
        match objects.last() {
            ObjectView::DialogueInfo(_) => before,
            ObjectView::Dialogue(d) => if is_unopened(objects.drop_last(), lower(d.id)) {
                before.push(objects.last())
            } else {
                before
            },
            _ => before.push(objects.last()),
        }
    }
}

/// The topic must be supplied: the plugin has no head of it, it has an id and is in force, and a
/// line of it is kept.
pub open spec fn is_wanted(
    objects: Seq<ObjectView>,
    masters: Seq<Seq<ObjectView>>,
    topic: Seq<char>,
) -> bool {
    let case = situation(objects, masters);
    &&& is_unopened(objects, topic)
    &&& topic.len() > 0
    &&& case.records.contains_key(topic)
    &&& exists|k: int|
        0 <= k < case.records[topic].infos.len() && is_kept(
            case,
            topic,
            #[trigger] case.records[topic].infos[k],
        )
}

/// The topics are those that must be supplied, in the order of their ids.
pub open spec fn are_wanted_topics(
    objects: Seq<ObjectView>,
    masters: Seq<Seq<ObjectView>>,
    topics: Seq<Seq<char>>,
) -> bool {
    &&& forall|i: int, j: int|
        0 <= i < j < topics.len() ==> id_less(#[trigger] topics[i], #[trigger] topics[j])
    &&& forall|t: Seq<char>| #[trigger] topics.contains(t) <==> is_wanted(objects, masters, t)
}

proof fn lemma_without_lines_add(a: Seq<ObjectView>, b: Seq<ObjectView>)
    ensures
        without_lines(a + b) == without_lines(a) + without_lines(b),
{
    Seq::filter_distributes_over_add(a, b, |o: ObjectView| !(o is DialogueInfo));
}

proof fn lemma_without_lines_one(o: ObjectView)
    ensures
        without_lines(seq![o]) == (if o is DialogueInfo {
            Seq::empty()
        } else {
            seq![o]
        }),
{
    let pred = |o: ObjectView| !(o is DialogueInfo);
    Seq::<ObjectView>::empty().lemma_filter_push(o, pred);
    assert(Seq::<ObjectView>::empty().push(o) =~= seq![o]);
    assert(Seq::<ObjectView>::empty().filter(pred) =~= Seq::empty()) by {
        reveal(Seq::filter);
    }
}

proof fn lemma_lines_are_lines(plan: PlanView, topic: Seq<char>)
    ensures
        without_lines(lines_of(plan, topic)) == Seq::<ObjectView>::empty(),
{
    let lines = lines_of(plan, topic);
    let pred = |o: ObjectView| !(o is DialogueInfo);
    assert forall|i: int| 0 <= i < lines.len() implies !pred(#[trigger] lines[i]) by {}
    lines.lemma_all_neg_filter_empty(pred);
    assert(without_lines(lines) =~= Seq::empty());
}

proof fn lemma_rewritten_backbone(plan: PlanView, objects: Seq<ObjectView>)
    requires
        forall|i: int, t: Seq<char>|
            0 <= i < objects.len() && #[trigger] opens(objects[i], t) ==> plan.records.contains_key(
                t,
            ),
    ensures
        without_lines(rewritten(plan, objects).objects) == backbone(objects),
        forall|t: Seq<char>| #[trigger]
            rewritten(plan, objects).emitted.contains(t) <==> !is_unopened(objects, t),
    decreases objects.len(),
{
    let pred = |o: ObjectView| !(o is DialogueInfo);
    if objects.len() == 0 {
        assert(without_lines(Seq::empty()) =~= Seq::<ObjectView>::empty()) by {
            reveal(Seq::filter);
        }
    } else {
        let rest = objects.drop_last();
        let last = objects.last();
        let before = rewritten(plan, rest);
        let after = rewritten(plan, objects);
        assert forall|i: int, t: Seq<char>|
            0 <= i < rest.len() && #[trigger] opens(rest[i], t) implies plan.records.contains_key(
            t,
        ) by {
            assert(opens(objects[i], t));
        }
        lemma_rewritten_backbone(plan, rest);
        assert(objects[objects.len() - 1] == last);
        assert forall|t: Seq<char>| #[trigger] is_unopened(objects, t) <==> is_unopened(rest, t)
            && !opens(last, t) by {
            if is_unopened(objects, t) {
                assert(!opens(objects[objects.len() - 1], t));
                assert forall|j: int| 0 <= j < rest.len() implies !opens(#[trigger] rest[j], t) by {
                    assert(!opens(objects[j], t));
                }
            }
            if is_unopened(rest, t) && !opens(last, t) {
                assert forall|j: int| 0 <= j < objects.len() implies !opens(
                    #[trigger] objects[j],
                    t,
                ) by {
                    if j < rest.len() {
                        assert(!opens(rest[j], t));
                    }
                }
            }
        }
        match last {
            ObjectView::Dialogue(d) => {
                let topic = lower(d.id);
                assert(opens(objects[objects.len() - 1], topic));
                if !before.emitted.contains(topic) {
                    let lines = lines_of(plan, topic);
                    assert(after.objects =~= before.objects + seq![last] + lines);
                    lemma_without_lines_add(before.objects + seq![last], lines);
                    lemma_without_lines_add(before.objects, seq![last]);
                    lemma_without_lines_one(last);
                    lemma_lines_are_lines(plan, topic);
                    assert(without_lines(after.objects) =~= backbone(objects));
                }
            },
            ObjectView::DialogueInfo(_) => {},
            _ => {
                before.objects.lemma_filter_push(last, pred);
            },
        }
    }
}

proof fn lemma_supplied_backbone(plan: PlanView, emitted: Set<Seq<char>>, topics: Seq<Seq<char>>)
    ensures
        without_lines(supplied(plan, emitted, topics)) == topics.filter(
            |t: Seq<char>| is_missing(plan, emitted, t),
        ).map_values(|t: Seq<char>| ObjectView::Dialogue(plan.records[t].dialogue)),
    decreases topics.len(),
{
    let wanted = |t: Seq<char>| is_missing(plan, emitted, t);
    let head = |t: Seq<char>| ObjectView::Dialogue(plan.records[t].dialogue);
    reveal(Seq::filter);
    if topics.len() == 0 {
        assert(without_lines(supplied(plan, emitted, topics)) =~= topics.filter(wanted).map_values(
            head,
        ));
    } else {
        let rest = topics.drop_last();
        let topic = topics.last();
        let before = supplied(plan, emitted, rest);
        lemma_supplied_backbone(plan, emitted, rest);
        if is_missing(plan, emitted, topic) {
            let lines = lines_of(plan, topic);
            let first = head(topic);
            assert(supplied(plan, emitted, topics) =~= before + seq![first] + lines);
            lemma_without_lines_add(before + seq![first], lines);
            lemma_without_lines_add(before, seq![first]);
            lemma_without_lines_one(first);
            lemma_lines_are_lines(plan, topic);
            assert(topics.filter(wanted) =~= rest.filter(wanted).push(topic));
            assert(without_lines(supplied(plan, emitted, topics)) =~= topics.filter(
                wanted,
            ).map_values(head));
        }
    }
}

proof fn lemma_filter_sorted(topics: Seq<Seq<char>>, wanted: spec_fn(Seq<char>) -> bool)
    requires
        forall|i: int, j: int|
            0 <= i < j < topics.len() ==> id_less(#[trigger] topics[i], #[trigger] topics[j]),
    ensures
        ({
            let few = topics.filter(wanted);
            &&& forall|i: int, j: int|
                0 <= i < j < few.len() ==> id_less(#[trigger] few[i], #[trigger] few[j])
            &&& forall|i: int| 0 <= i < few.len() ==> topics.contains(#[trigger] few[i])
        }),
    decreases topics.len(),
{
    reveal(Seq::filter);
    if topics.len() > 0 {
        let rest = topics.drop_last();
        assert forall|i: int, j: int| 0 <= i < j < rest.len() implies id_less(
            #[trigger] rest[i],
            #[trigger] rest[j],
        ) by {
            assert(id_less(topics[i], topics[j]));
        }
        lemma_filter_sorted(rest, wanted);
        let few = topics.filter(wanted);
        let fewer = rest.filter(wanted);
        assert forall|i: int| 0 <= i < few.len() implies topics.contains(#[trigger] few[i]) by {
            if i < fewer.len() {
                assert(few[i] == fewer[i]);
                let k = choose|k: int| 0 <= k < rest.len() && rest[k] == fewer[i];
                assert(topics[k] == few[i]);
            } else {
                assert(topics[topics.len() - 1] == few[i]);
            }
        }
        assert forall|i: int, j: int| 0 <= i < j < few.len() implies id_less(
            #[trigger] few[i],
            #[trigger] few[j],
        ) by {
            assert(few[i] == fewer[i]);
            if j < fewer.len() {
                assert(few[j] == fewer[j]);
            } else {
                let k = choose|k: int| 0 <= k < rest.len() && rest[k] == fewer[i];
                assert(topics[k] == few[i]);
                assert(topics[topics.len() - 1] == few[j]);
            }
        }
    }
}

/// A topic is missing just if it must be supplied.
proof fn lemma_missing(
    objects: Seq<ObjectView>,
    masters: Seq<Seq<ObjectView>>,
    emitted: Set<Seq<char>>,
    topic: Seq<char>,
)
    requires
        emitted.contains(topic) <==> !is_unopened(objects, topic),
    ensures
        ({
            let plan = plan_of(case_of(objects, masters));
            &&& is_missing(plan, emitted, topic) <==> is_wanted(objects, masters, topic)
            &&& is_wanted(objects, masters, topic) ==> plan.reasons.contains_key(topic)
        }),
{
    let case = situation(objects, masters);
    assert(case == case_of(objects, masters));
    law_kept_lines_are_listed(case, topic, Seq::empty());
    law_topics_are_tidy(objects, masters);
    if case.records.contains_key(topic) {
        assert(is_tidy_group(topic, case.records[topic]));
        lemma_lower_len(case.records[topic].dialogue.id);
    }
}

/// But for the lines, the dialogue that was written anew holds the records of the plugin in their
/// order, of the heads of a topic the first; and behind them the heads in force of the topics that
/// must be supplied, in the order of their ids.
pub proof fn law_records_stand_in_order(objects: Seq<ObjectView>, masters: Seq<Seq<ObjectView>>)
    ensures
        exists|topics: Seq<Seq<char>>| #[trigger]
            are_wanted_topics(objects, masters, topics) && without_lines(
                decoupled(objects, masters),
            ) == backbone(objects) + topics.map_values(
                |t: Seq<char>|
                    ObjectView::Dialogue(effective_records(objects, masters)[t].dialogue),
            ),
{
    let plan = plan_of(case_of(objects, masters));
    let written = rewritten(plan, objects);
    let all = sorted(plan.reasons.dom());
    let wanted = |t: Seq<char>| is_missing(plan, written.emitted, t);
    let topics = all.filter(wanted);
    law_topics_are_tidy(objects, masters);
    assert forall|i: int, t: Seq<char>|
        0 <= i < objects.len() && #[trigger] opens(objects[i], t) implies plan.records.contains_key(
        t,
    ) by {
        assert(objects[i] matches ObjectView::Dialogue(d) ==> effective_records(
            objects,
            masters,
        ).contains_key(lower(d.id)));
    }
    lemma_rewritten_backbone(plan, objects);
    lemma_kept_finite(objects, masters);
    lemma_sorted_lists(plan.reasons.dom());
    lemma_supplied_backbone(plan, written.emitted, all);
    lemma_without_lines_add(written.objects, supplied(plan, written.emitted, all));
    lemma_filter_sorted(all, wanted);
    assert forall|t: Seq<char>| #[trigger] topics.contains(t) <==> is_wanted(
        objects,
        masters,
        t,
    ) by {
        lemma_missing(objects, masters, written.emitted, t);
        if topics.contains(t) {
            let k = choose|k: int| 0 <= k < topics.len() && topics[k] == t;
            all.lemma_filter_pred(wanted, k);
        }
        if is_wanted(objects, masters, t) {
            assert(all.to_set().contains(t));
            let k = choose|k: int| 0 <= k < all.len() && all[k] == t;
            all.lemma_filter_contains(wanted, k);
        }
    }
    assert(are_wanted_topics(objects, masters, topics));
    assert(topics.map_values(
        |t: Seq<char>| ObjectView::Dialogue(effective_records(objects, masters)[t].dialogue),
    ) =~= topics.map_values(|t: Seq<char>| ObjectView::Dialogue(plan.records[t].dialogue)));
}

/// The record at `i` is the first head of the topic among the records.
pub open spec fn is_first_opening(objects: Seq<ObjectView>, topic: Seq<char>, i: int) -> bool {
    &&& 0 <= i < objects.len()
    &&& opens(objects[i], topic)
    &&& forall|j: int| 0 <= j < i ==> !opens(#[trigger] objects[j], topic)
}

proof fn lemma_backbone_head(objects: Seq<ObjectView>, topic: Seq<char>, k: int) -> (i: int)
    requires
        0 <= k < backbone(objects).len(),
        opens(backbone(objects)[k], topic),
    ensures
        is_first_opening(objects, topic, i),
        objects[i] == backbone(objects)[k],
    decreases objects.len(),
{
    let rest = objects.drop_last();
    if k < backbone(rest).len() {
        assert(backbone(rest)[k] == backbone(objects)[k]);
        let i = lemma_backbone_head(rest, topic, k);
        assert(objects[i] == rest[i]);
        assert forall|j: int| 0 <= j < i implies !opens(#[trigger] objects[j], topic) by {
            assert(objects[j] == rest[j]);
        }
        i
    } else {
        let i = objects.len() - 1;
        assert(objects[i] == backbone(objects)[k]);
        assert forall|j: int| 0 <= j < i implies !opens(#[trigger] objects[j], topic) by {
            assert(objects[j] == rest[j]);
        }
        i
    }
}

/// Every head in the dialogue that was written anew is, in all its fields, one that was there: the
/// first head of its topic in the plugin or, where the plugin has none, that head of the masters
/// which is loaded last. In particular it is of the same kind and has the same handle.
pub proof fn law_heads_are_those_that_were_there(
    objects: Seq<ObjectView>,
    masters: Seq<Seq<ObjectView>>,
    h: int,
    topic: Seq<char>,
)
    requires
        0 <= h < decoupled(objects, masters).len(),
        opens(decoupled(objects, masters)[h], topic),
    ensures
        is_unopened(objects, topic) ==> is_head_of_masters(
            masters,
            topic,
            decoupled(objects, masters)[h],
        ),
        !is_unopened(objects, topic) ==> exists|i: int| #[trigger]
            is_first_opening(objects, topic, i) && objects[i] == decoupled(objects, masters)[h],
{
    let out = decoupled(objects, masters);
    let records = effective_records(objects, masters);
    let pred = |o: ObjectView| !(o is DialogueInfo);
    law_records_stand_in_order(objects, masters);
    let topics = choose|topics: Seq<Seq<char>>| #[trigger]
        are_wanted_topics(objects, masters, topics) && without_lines(out) == backbone(objects)
            + topics.map_values(|t: Seq<char>| ObjectView::Dialogue(records[t].dialogue));
    out.lemma_filter_contains(pred, h);
    let few = without_lines(out);
    let k = choose|k: int| 0 <= k < few.len() && few[k] == out[h];
    if k < backbone(objects).len() {
        assert(backbone(objects)[k] == out[h]);
        let i = lemma_backbone_head(objects, topic, k);
        assert(is_first_opening(objects, topic, i));
        assert(!is_unopened(objects, topic)) by {
            assert(opens(objects[i], topic));
        }
    } else {
        let t = topics[k - backbone(objects).len()];
        assert(topics.contains(t));
        assert(is_wanted(objects, masters, t));
        assert(out[h] == ObjectView::Dialogue(records[t].dialogue));
        law_topics_are_tidy(objects, masters);
        assert(is_tidy_group(t, records[t]));
        assert(t == topic);
        law_head_of_the_plugin_prevails(objects, masters, topic, 0);
    }
}

proof fn lemma_filter_same(
    infos: Seq<DialogueInfoView>,
    a: spec_fn(DialogueInfoView) -> bool,
    b: spec_fn(DialogueInfoView) -> bool,
)
    requires
        forall|k: int| 0 <= k < infos.len() ==> a(#[trigger] infos[k]) == b(infos[k]),
    ensures
        infos.filter(a) == infos.filter(b),
    decreases infos.len(),
{
    reveal(Seq::filter);
    if infos.len() > 0 {
        let rest = infos.drop_last();
        assert forall|k: int| 0 <= k < rest.len() implies a(#[trigger] rest[k]) == b(rest[k]) by {
            assert(rest[k] == infos[k]);
        }
        lemma_filter_same(rest, a, b);
        assert(a(infos[infos.len() - 1]) == b(infos[infos.len() - 1]));
    }
}

/// Of the lines of a topic those are written that are not deleted and whose ids are listed, in
/// lower case; in order, unchanged but that each names the one before and the one behind it, the
/// first and the last no line there.
pub proof fn law_listed_lines_are_written(group: GroupView, live: Set<Seq<char>>)
    ensures
        ({
            let kept = group.infos.filter(
                |i: DialogueInfoView| !i.deleted && live.contains(lower(i.id)),
            );
            let lines = written_lines(group, live);
            &&& lines.len() == kept.len()
            &&& forall|j: int|
                0 <= j < kept.len() ==> {
                    &&& is_relinked(#[trigger] lines[j], kept[j])
                    &&& lines[j]->DialogueInfo_0.prev_id == (if j > 0 {
                        kept[j - 1].id
                    } else {
                        Seq::empty()
                    })
                    &&& lines[j]->DialogueInfo_0.next_id == (if j + 1 < kept.len() {
                        kept[j + 1].id
                    } else {
                        Seq::empty()
                    })
                }
        }),
{
    let a = |i: DialogueInfoView| !i.deleted && live.contains(lower(i.id));
    let b = |i: DialogueInfoView| survives(i, live);
    lemma_filter_same(group.infos, a, b);
}

/// The lines of a topic that are kept, in the order in which they are in force.
pub open spec fn kept_lines(case: LivenessView, topic: Seq<char>) -> Seq<DialogueInfoView> {
    case.records[topic].infos.filter(|i: DialogueInfoView| is_kept(case, topic, i))
}

proof fn lemma_kept_lines(objects: Seq<ObjectView>, masters: Seq<Seq<ObjectView>>, topic: Seq<char>)
    requires
        effective_records(objects, masters).contains_key(topic),
    ensures
        ({
            let case = situation(objects, masters);
            survivors(case.records[topic].infos, topic_live_ids(case, topic)) == kept_lines(
                case,
                topic,
            )
        }),
{
    let case = situation(objects, masters);
    let infos = case.records[topic].infos;
    let live = topic_live_ids(case, topic);
    let standing = standing_of(case, topic);
    law_topics_are_tidy(objects, masters);
    assert(is_tidy_group(topic, case.records[topic]));
    let a = |i: DialogueInfoView| survives(i, live);
    let b = |i: DialogueInfoView| is_kept(case, topic, i);
    assert forall|k: int| 0 <= k < infos.len() implies a(#[trigger] infos[k]) == b(infos[k]) by {
        if b(infos[k]) {
            assert(is_live(standing, infos[k]));
            assert(has_live(standing, infos, lower(infos[k].id)));
        }
        if a(infos[k]) {
            assert(has_live(standing, infos, lower(infos[k].id)));
            let j = choose|j: int|
                0 <= j < infos.len() && is_live(standing, #[trigger] infos[j]) && lower(infos[j].id)
                    == lower(infos[k].id);
            if j < k {
                assert(!same(infos[j].id, infos[k].id));
            } else if k < j {
                assert(!same(infos[k].id, infos[j].id));
            }
        }
    }
    lemma_filter_same(infos, a, b);
}

/// Behind the head of a topic stand just the lines of it that are kept, in the order in which they
/// are in force, unchanged but for the lines that they name before and behind them.
pub proof fn law_kept_lines_stand_behind_their_head(
    objects: Seq<ObjectView>,
    masters: Seq<Seq<ObjectView>>,
    h: int,
    topic: Seq<char>,
)
    requires
        0 <= h < decoupled(objects, masters).len(),
        opens(decoupled(objects, masters)[h], topic),
    ensures
        ({
            let out = decoupled(objects, masters);
            let kept = kept_lines(situation(objects, masters), topic);
            let end = h + 1 + kept.len();
            &&& end <= out.len()
            &&& forall|j: int|
                0 <= j < kept.len() ==> is_relinked(out[h + 1 + j], #[trigger] kept[j])
            &&& end < out.len() ==> !(out[end] is DialogueInfo)
        }),
{
    let out = decoupled(objects, masters);
    let case = situation(objects, masters);
    assert(is_head_of(out[h], topic));
    law_topics_hold_their_lines(objects, masters, h, topic);
    lemma_kept_lines(objects, masters, topic);
    let kept = kept_lines(case, topic);
    let lines = written_lines(case.records[topic], topic_live_ids(case, topic));
    assert(lines.len() == kept.len());
    assert forall|j: int| 0 <= j < kept.len() implies is_relinked(
        out[h + 1 + j],
        #[trigger] kept[j],
    ) by {
        assert(out[h + 1 + j] == lines[j]);
    }
}

proof fn lemma_kept_count(infos: Seq<DialogueInfoView>, ids: Set<Seq<char>>)
    requires
        forall|i: int, j: int|
            0 <= i < j < infos.len() ==> !same((#[trigger] infos[i]).id, (#[trigger] infos[j]).id),
        forall|id: Seq<char>| #[trigger]
            ids.contains(id) <==> exists|k: int|
                0 <= k < infos.len() && lower((#[trigger] infos[k]).id) == id,
    ensures
        ids.len() == infos.len(),
{
    let names = infos.map_values(|i: DialogueInfoView| lower(i.id));
    assert(names.no_duplicates()) by {
        assert forall|i: int, j: int|
            0 <= i < names.len() && 0 <= j < names.len() && i != j implies names[i] != names[j] by {
            if i < j {
                assert(!same(infos[i].id, infos[j].id));
            } else {
                assert(!same(infos[j].id, infos[i].id));
            }
        }
    }
    names.unique_seq_to_set();
    assert(names.to_set() =~= ids) by {
        assert forall|id: Seq<char>| #[trigger] names.to_set().contains(id) <==> ids.contains(
            id,
        ) by {
            if names.contains(id) {
                let k = choose|k: int| 0 <= k < names.len() && names[k] == id;
                assert(lower(infos[k].id) == id);
            }
            if ids.contains(id) {
                let k = choose|k: int|
                    0 <= k < infos.len() && lower((#[trigger] infos[k]).id) == id;
                assert(names[k] == id);
            }
        }
    }
}

proof fn lemma_kept_distinct(infos: Seq<DialogueInfoView>, kept: spec_fn(DialogueInfoView) -> bool)
    requires
        forall|i: int, j: int|
            0 <= i < j < infos.len() ==> !same((#[trigger] infos[i]).id, (#[trigger] infos[j]).id),
    ensures
        ({
            let few = infos.filter(kept);
            &&& forall|i: int, j: int|
                0 <= i < j < few.len() ==> !same((#[trigger] few[i]).id, (#[trigger] few[j]).id)
            &&& forall|i: int| 0 <= i < few.len() ==> infos.contains(#[trigger] few[i])
        }),
    decreases infos.len(),
{
    reveal(Seq::filter);
    if infos.len() > 0 {
        let rest = infos.drop_last();
        assert forall|i: int, j: int| 0 <= i < j < rest.len() implies !same(
            (#[trigger] rest[i]).id,
            (#[trigger] rest[j]).id,
        ) by {
            assert(!same(infos[i].id, infos[j].id));
        }
        lemma_kept_distinct(rest, kept);
        let few = infos.filter(kept);
        let fewer = rest.filter(kept);
        assert forall|i: int| 0 <= i < few.len() implies infos.contains(#[trigger] few[i]) by {
            if i < fewer.len() {
                assert(few[i] == fewer[i]);
                let k = choose|k: int| 0 <= k < rest.len() && rest[k] == fewer[i];
                assert(infos[k] == few[i]);
            } else {
                assert(infos[infos.len() - 1] == few[i]);
            }
        }
        assert forall|i: int, j: int| 0 <= i < j < few.len() implies !same(
            (#[trigger] few[i]).id,
            (#[trigger] few[j]).id,
        ) by {
            assert(few[i] == fewer[i]);
            if j < fewer.len() {
                assert(few[j] == fewer[j]);
            } else {
                let k = choose|k: int| 0 <= k < rest.len() && rest[k] == fewer[i];
                assert(infos[k] == few[i]);
                assert(infos[infos.len() - 1] == few[j]);
            }
        }
    }
}

proof fn lemma_reason_names(reasons: Set<DialogueTopicReason>)
    ensures
        reason_names(reasons).finite(),
        reason_names(reasons).contains("StarwindTopic"@) <==> reasons.contains(
            DialogueTopicReason::Starwind,
        ),
        reason_names(reasons).contains("EngineTopic"@) <==> reasons.contains(
            DialogueTopicReason::Engine,
        ),
        reason_names(reasons).contains("ScriptTopic"@) <==> reasons.contains(
            DialogueTopicReason::Script,
        ),
        forall|name: Seq<char>| #[trigger]
            reason_names(reasons).contains(name) ==> name == "StarwindTopic"@ || name
                == "EngineTopic"@ || name == "ScriptTopic"@,
{
    let names = reason_names(reasons);
    reveal_strlit("StarwindTopic");
    reveal_strlit("EngineTopic");
    reveal_strlit("ScriptTopic");
    assert("StarwindTopic"@.len() == 13);
    assert("EngineTopic"@.len() == 11);
    assert("ScriptTopic"@.len() == 11);
    assert("EngineTopic"@[0] == 'E');
    assert("ScriptTopic"@[0] == 'S');
    let all = set!["StarwindTopic"@, "EngineTopic"@, "ScriptTopic"@];
    assert forall|name: Seq<char>| #[trigger] names.contains(name) implies all.contains(name) by {
        let r = choose|r: DialogueTopicReason| reasons.contains(r) && reason_name(r) == name;
        assert(name == reason_name(r));
    }
    vstd::set_lib::lemma_set_subset_finite(all, names);
    assert forall|r: DialogueTopicReason| #[trigger] reasons.contains(r) implies names.contains(
        reason_name(r),
    ) by {}
}

/// The account lists just the topics that were supplied. For each it gives the number of lines that
/// are kept, and the names of the reasons to keep it, in order. All other numbers are those of the
/// lines.
pub proof fn law_supplied_topics_are_accounted_for(
    objects: Seq<ObjectView>,
    masters: Seq<Seq<ObjectView>>,
    topic: Seq<char>,
)
    ensures
        ({
            let case = situation(objects, masters);
            let audit = decoupled_account(objects, masters);
            let lines = account(case);
            &&& audit.effective == lines.effective
            &&& audit.owned == lines.owned
            &&& audit.retained == lines.retained
            &&& audit.pruned == lines.pruned
            &&& audit.kept == lines.kept
            &&& audit.topics.contains_key(topic) <==> is_wanted(objects, masters, topic)
            &&& audit.topics.contains_key(topic) ==> {
                let names = audit.topics[topic].reasons;
                let reasons = case.reasons[topic];
                &&& audit.topics[topic].live_infos == kept_lines(case, topic).len()
                &&& forall|i: int, j: int|
                    0 <= i < j < names.len() ==> id_less(#[trigger] names[i], #[trigger] names[j])
                &&& names.contains("StarwindTopic"@) <==> reasons.contains(
                    DialogueTopicReason::Starwind,
                )
                &&& names.contains("EngineTopic"@) <==> reasons.contains(
                    DialogueTopicReason::Engine,
                )
                &&& names.contains("ScriptTopic"@) <==> reasons.contains(
                    DialogueTopicReason::Script,
                )
                &&& forall|i: int|
                    0 <= i < names.len() ==> #[trigger] names[i] == "StarwindTopic"@ || names[i]
                        == "EngineTopic"@ || names[i] == "ScriptTopic"@
            }
        }),
{
    let case = situation(objects, masters);
    let plan = plan_of(case);
    let written = rewritten(plan, objects);
    let audit = decoupled_account(objects, masters);
    assert(case == case_of(objects, masters));
    law_topics_are_tidy(objects, masters);
    assert forall|i: int, t: Seq<char>|
        0 <= i < objects.len() && #[trigger] opens(objects[i], t) implies plan.records.contains_key(
        t,
    ) by {
        assert(objects[i] matches ObjectView::Dialogue(d) ==> effective_records(
            objects,
            masters,
        ).contains_key(lower(d.id)));
    }
    lemma_rewritten_backbone(plan, objects);
    lemma_missing(objects, masters, written.emitted, topic);
    if is_wanted(objects, masters, topic) {
        let names = audit.topics[topic].reasons;
        let reasons = case.reasons[topic];
        lemma_reason_names(reasons);
        lemma_sorted_lists(reason_names(reasons));
        assert forall|name: Seq<char>| #[trigger] names.contains(name) <==> reason_names(
            reasons,
        ).contains(name) by {
            assert(names.to_set().contains(name) <==> reason_names(reasons).contains(name));
        }
        assert forall|i: int| 0 <= i < names.len() implies #[trigger] names[i] == "StarwindTopic"@
            || names[i] == "EngineTopic"@ || names[i] == "ScriptTopic"@ by {
            assert(names.contains(names[i]));
        }
        let infos = case.records[topic].infos;
        let kept = |i: DialogueInfoView| is_kept(case, topic, i);
        let few = kept_lines(case, topic);
        assert(is_tidy_group(topic, case.records[topic]));
        lemma_kept_distinct(infos, kept);
        assert forall|id: Seq<char>| #[trigger]
            plan.live[topic].contains(id) <==> exists|k: int|
                0 <= k < few.len() && lower((#[trigger] few[k]).id) == id by {
            law_kept_lines_are_listed(case, topic, id);
            if plan.live[topic].contains(id) {
                let k = choose|k: int|
                    0 <= k < infos.len() && is_kept(case, topic, #[trigger] infos[k]) && lower(
                        infos[k].id,
                    ) == id;
                infos.lemma_filter_contains(kept, k);
                let j = choose|j: int| 0 <= j < few.len() && few[j] == infos[k];
                assert(lower(few[j].id) == id);
            }
            if exists|k: int| 0 <= k < few.len() && lower((#[trigger] few[k]).id) == id {
                let k = choose|k: int| 0 <= k < few.len() && lower((#[trigger] few[k]).id) == id;
                infos.lemma_filter_pred(kept, k);
                assert(infos.contains(few[k]));
                let j = choose|j: int| 0 <= j < infos.len() && infos[j] == few[k];
                assert(is_kept(case, topic, infos[j]));
            }
        }
        lemma_kept_count(few, plan.live[topic]);
    }
}

} // verus!
