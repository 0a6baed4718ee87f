//! Which topics and lines the dialogue that was written anew holds.

use vstd::prelude::*;

use crate::ids::{lemma_sorted_lists, sorted, strictly_sorted};
use crate::live_infos::{has_live, is_live, live_infos, standing_of, topic_live_ids, LivenessView};
use crate::prevailing_laws::open_topic;
use crate::rebuild::{
    case_of, decoupled, is_missing, lines_of, plan_of, rewritten, supplied, survives, survivors,
    written_lines, PlanView,
};
use crate::rebuild_laws::{is_chained, is_chained_at, law_lines_are_chained};
use crate::record_laws::{is_tidy, is_tidy_group, law_topics_are_tidy, lemma_kept_finite};
use crate::record_views::{DialogueInfoView, ObjectView};
use crate::text::{id_less, lemma_id_less_asymmetric, lemma_lower_len, lower, same};

verus! {

/// The record is the line `info`, but for the lines that it names before and behind it.
pub open spec fn is_relinked(object: ObjectView, info: DialogueInfoView) -> bool {
    object matches ObjectView::DialogueInfo(line) && line == (DialogueInfoView {
        prev_id: line.prev_id,
        next_id: line.next_id,
        ..info
    })
}

/// The record is a line of `topic` that survives.
pub open spec fn is_line_of(plan: PlanView, topic: Seq<char>, object: ObjectView) -> bool {
    plan.live.contains_key(topic) && exists|k: int|
        0 <= k < plan.records[topic].infos.len() && survives(
            #[trigger] plan.records[topic].infos[k],
            plan.live[topic],
        ) && is_relinked(object, plan.records[topic].infos[k])
}

proof fn lemma_line_origin(plan: PlanView, topic: Seq<char>, i: int)
    requires
        0 <= i < lines_of(plan, topic).len(),
    ensures
        is_line_of(plan, topic, lines_of(plan, topic)[i]),
{
    let infos = plan.records[topic].infos;
    let live = plan.live[topic];
    let stays = |i: DialogueInfoView| survives(i, live);
    let kept = survivors(infos, live);
    infos.lemma_filter_pred(stays, i);
    assert(kept.contains(kept[i]));
    infos.lemma_filter_contains_rev(stays, kept[i]);
    let k = choose|k: int| 0 <= k < infos.len() && infos[k] == kept[i];
    assert(survives(infos[k], live));
    assert(is_relinked(lines_of(plan, topic)[i], infos[k]));
}

/// The lines stand behind the record at `h`, and no other line follows them.
pub open spec fn is_run_at(objects: Seq<ObjectView>, h: int, lines: Seq<ObjectView>) -> bool {
    let end = h + 1 + lines.len();
    &&& end <= objects.len()
    &&& forall|j: int| 0 <= j < lines.len() ==> objects[h + 1 + j] == #[trigger] lines[j]
    &&& end < objects.len() ==> !(objects[end] is DialogueInfo)
}

/// Every head is that of a topic in force, and behind it stand the lines of the topic that
/// survive, and no others.
spec fn are_topics_whole(plan: PlanView, objects: Seq<ObjectView>) -> bool {
    forall|h: int, t: Seq<char>|
        0 <= h < objects.len() && #[trigger] is_head_of(objects[h], t)
            ==> plan.records.contains_key(t) && is_run_at(objects, h, lines_of(plan, t))
}

proof fn lemma_run_more(
    objects: Seq<ObjectView>,
    more: Seq<ObjectView>,
    h: int,
    lines: Seq<ObjectView>,
)
    requires
        0 <= h < objects.len(),
        is_run_at(objects, h, lines),
        more.len() > 0 ==> !(more[0] is DialogueInfo),
    ensures
        is_run_at(objects + more, h, lines),
{
    let longer = objects + more;
    let end = h + 1 + lines.len();
    assert forall|j: int| 0 <= j < lines.len() implies longer[h + 1 + j] == #[trigger] lines[j] by {
        assert(longer[h + 1 + j] == objects[h + 1 + j]);
    }
    if end < objects.len() {
        assert(longer[end] == objects[end]);
    } else if end < longer.len() {
        assert(longer[end] == more[0]);
    }
}

proof fn lemma_whole_push(plan: PlanView, objects: Seq<ObjectView>, o: ObjectView)
    requires
        are_topics_whole(plan, objects),
        !(o is Dialogue),
        !(o is DialogueInfo),
    ensures
        are_topics_whole(plan, objects.push(o)),
{
    let longer = objects.push(o);
    assert(longer =~= objects + seq![o]);
    assert forall|h: int, t: Seq<char>|
        0 <= h < longer.len() && #[trigger] is_head_of(longer[h], t) implies
        plan.records.contains_key(t) && is_run_at(longer, h, lines_of(plan, t)) by {
        assert(is_head_of(objects[h], t));
        lemma_run_more(objects, seq![o], h, lines_of(plan, t));
    }
}

proof fn lemma_whole_topic(
    plan: PlanView,
    objects: Seq<ObjectView>,
    head: ObjectView,
    topic: Seq<char>,
)
    requires
        are_topics_whole(plan, objects),
        is_head_of(head, topic),
        plan.records.contains_key(topic),
    ensures
        are_topics_whole(plan, objects.push(head) + lines_of(plan, topic)),
{
    let lines = lines_of(plan, topic);
    let more = seq![head] + lines;
    let longer = objects.push(head) + lines;
    assert(longer =~= objects + more);
    assert forall|h: int, t: Seq<char>|
        0 <= h < longer.len() && #[trigger] is_head_of(longer[h], t) implies
        plan.records.contains_key(t) && is_run_at(longer, h, lines_of(plan, t)) by {
        if h < objects.len() {
            assert(is_head_of(objects[h], t));
            lemma_run_more(objects, more, h, lines_of(plan, t));
        } else if h > objects.len() {
            assert(longer[h] == lines[h - objects.len() - 1]);
        }
    }
}

proof fn lemma_rewritten_whole(plan: PlanView, objects: Seq<ObjectView>)
    ensures
        are_topics_whole(plan, rewritten(plan, objects).objects),
    decreases objects.len(),
{
    if objects.len() > 0 {
        let before = rewritten(plan, objects.drop_last());
        let last = objects.last();
        lemma_rewritten_whole(plan, objects.drop_last());
        match last {
            ObjectView::Dialogue(dialogue) => {
                if plan.records.contains_key(lower(dialogue.id)) {
                    lemma_whole_topic(plan, before.objects, last, lower(dialogue.id));
                }
            },
            ObjectView::DialogueInfo(_) => {},
            _ => {
                lemma_whole_push(plan, before.objects, last);
            },
        }
    }
}

proof fn lemma_supplied_whole(
    base: Seq<ObjectView>,
    plan: PlanView,
    emitted: Set<Seq<char>>,
    topics: Seq<Seq<char>>,
)
    requires
        are_topics_whole(plan, base),
        is_tidy(plan.records),
    ensures
        are_topics_whole(plan, base + supplied(plan, emitted, topics)),
        forall|t: Seq<char>| #[trigger]
            topics.contains(t) && is_missing(plan, emitted, t) ==> has_head(
                base + supplied(plan, emitted, topics),
                t,
            ),
    decreases topics.len(),
{
    if topics.len() == 0 {
        assert(base + supplied(plan, emitted, topics) =~= base);
    } else {
        let rest = topics.drop_last();
        let before = supplied(plan, emitted, rest);
        let topic = topics.last();
        let head = ObjectView::Dialogue(plan.records[topic].dialogue);
        let lines = lines_of(plan, topic);
        let out = base + supplied(plan, emitted, topics);
        lemma_supplied_whole(base, plan, emitted, rest);
        if is_missing(plan, emitted, topic) {
            assert(is_tidy_group(topic, plan.records[topic]));
            lemma_whole_topic(plan, base + before, head, topic);
            assert(out =~= (base + before).push(head) + lines);
            assert(out =~= (base + before) + (seq![head] + lines));
            assert(out[(base + before).len() as int] == head);
            assert(is_head_of(out[(base + before).len() as int], topic));
        }
        assert forall|t: Seq<char>| #[trigger]
            topics.contains(t) && is_missing(plan, emitted, t) implies has_head(out, t) by {
            if t != topic {
                let k = choose|k: int| 0 <= k < topics.len() && topics[k] == t;
                assert(rest[k] == t);
                assert(rest.contains(t));
                if is_missing(plan, emitted, topic) {
                    lemma_has_head_more(base + before, seq![head] + lines, t);
                }
            }
        }
    }
}

/// What holds of the heads in the dialogue that was written anew: their topics are whole, and
/// those of the plugin and the missing ones are among them.
proof fn lemma_decoupled_whole(objects: Seq<ObjectView>, masters: Seq<Seq<ObjectView>>)
    ensures
        ({
            let plan = plan_of(case_of(objects, masters));
            let out = decoupled(objects, masters);
            let emitted = rewritten(plan, objects).emitted;
            &&& are_topics_whole(plan, out)
            &&& forall|t: Seq<char>| #[trigger] has_head(objects, t) ==> emitted.contains(t)
            &&& forall|t: Seq<char>| #[trigger] emitted.contains(t) ==> has_head(out, t)
            &&& forall|t: Seq<char>| #[trigger]
                plan.reasons.contains_key(t) && is_missing(plan, emitted, t) ==> has_head(out, t)
        }),
{
    let plan = plan_of(case_of(objects, masters));
    let written = rewritten(plan, objects);
    let topics = sorted(plan.reasons.dom());
    let more = supplied(plan, written.emitted, topics);
    law_topics_are_tidy(objects, masters);
    lemma_kept_finite(objects, masters);
    lemma_sorted_lists(plan.reasons.dom());
    lemma_rewritten_whole(plan, objects);
    lemma_supplied_whole(written.objects, plan, written.emitted, topics);
    lemma_rewritten_heads_stay(plan, objects);
    assert forall|t: Seq<char>| #[trigger] written.emitted.contains(t) implies has_head(
        written.objects + more,
        t,
    ) by {
        lemma_has_head_more(written.objects, more, t);
    }
    assert forall|t: Seq<char>| #[trigger]
        plan.reasons.contains_key(t) && is_missing(plan, written.emitted, t) implies has_head(
        written.objects + more,
        t,
    ) by {
        assert(topics.to_set().contains(t));
        assert(topics.contains(t));
    }
}

/// Behind the head of a topic stand those of its lines in force that are kept, in their order and
/// linked to each other, and no others.
pub proof fn law_topics_hold_their_lines(
    objects: Seq<ObjectView>,
    masters: Seq<Seq<ObjectView>>,
    h: int,
    topic: Seq<char>,
)
    requires
        0 <= h < decoupled(objects, masters).len(),
        is_head_of(decoupled(objects, masters)[h], topic),
    ensures
        ({
            let case = case_of(objects, masters);
            &&& case.records.contains_key(topic)
            &&& is_run_at(
                decoupled(objects, masters),
                h,
                written_lines(case.records[topic], topic_live_ids(case, topic)),
            )
        }),
{
    let case = case_of(objects, masters);
    let plan = plan_of(case);
    lemma_decoupled_whole(objects, masters);
    if !plan.live.contains_key(topic) {
        let infos = case.records[topic].infos;
        let live = topic_live_ids(case, topic);
        infos.lemma_all_neg_filter_empty(|i: DialogueInfoView| survives(i, live));
        assert(written_lines(case.records[topic], live) =~= lines_of(plan, topic));
    }
}

/// The head before a line, with only lines between them.
proof fn lemma_head_before(objects: Seq<ObjectView>, i: int) -> (h: int)
    requires
        is_chained(objects),
        0 <= i < objects.len(),
        objects[i] is DialogueInfo,
    ensures
        0 <= h < i,
        objects[h] is Dialogue,
        forall|j: int| h < j <= i ==> #[trigger] objects[j] is DialogueInfo,
        open_topic(objects, i) == Some(lower(objects[h]->Dialogue_0.id)),
    decreases i,
{
    assert(is_chained_at(objects, i));
    if objects[i - 1] is Dialogue {
        i - 1
    } else {
        lemma_head_before(objects, i - 1)
    }
}

/// Lines behind a head belong to its topic.
proof fn lemma_behind_head(objects: Seq<ObjectView>, h: int, i: int)
    requires
        0 <= h < i < objects.len(),
        objects[h] is Dialogue,
        forall|j: int| h < j < i ==> #[trigger] objects[j] is DialogueInfo,
    ensures
        open_topic(objects, i) == Some(lower(objects[h]->Dialogue_0.id)),
    decreases i,
{
    if i > h + 1 {
        assert(objects[i - 1] is DialogueInfo);
        lemma_behind_head(objects, h, i - 1);
    }
}

/// The record is a line in force of `topic` that is kept there.
pub open spec fn is_live_line(
    objects: Seq<ObjectView>,
    masters: Seq<Seq<ObjectView>>,
    topic: Seq<char>,
    object: ObjectView,
) -> bool {
    let case = case_of(objects, masters);
    case.records.contains_key(topic) && exists|k: int|
        0 <= k < case.records[topic].infos.len() && is_live(
            standing_of(case, topic),
            #[trigger] case.records[topic].infos[k],
        ) && is_relinked(object, case.records[topic].infos[k])
}

/// Only lines that are kept are written, each in its own topic: none that is deleted, and none
/// that nobody may speak unless it is the plugin's own.
pub proof fn law_written_lines_are_live(
    objects: Seq<ObjectView>,
    masters: Seq<Seq<ObjectView>>,
    i: int,
)
    requires
        0 <= i < decoupled(objects, masters).len(),
        decoupled(objects, masters)[i] is DialogueInfo,
    ensures
        !decoupled(objects, masters)[i].deleted(),
        open_topic(decoupled(objects, masters), i) matches Some(topic) && is_live_line(
            objects,
            masters,
            topic,
            decoupled(objects, masters)[i],
        ),
{
    let case = case_of(objects, masters);
    let plan = plan_of(case);
    let out = decoupled(objects, masters);
    law_lines_are_chained(objects, masters);
    let h = lemma_head_before(out, i);
    let topic = lower(out[h]->Dialogue_0.id);
    assert(is_head_of(out[h], topic));
    law_topics_hold_their_lines(objects, masters, h, topic);
    lemma_decoupled_whole(objects, masters);
    let lines = lines_of(plan, topic);
    assert(is_run_at(out, h, lines));
    assert(i - h - 1 < lines.len()) by {
        let end = h + 1 + lines.len();
        if end <= i {
            assert(out[end] is DialogueInfo);
        }
    }
    lemma_line_origin(plan, topic, i - h - 1);
    assert(out[i] == lines[i - h - 1]);
    let infos = plan.records[topic].infos;
    let k = choose|k: int|
        0 <= k < infos.len() && survives(#[trigger] infos[k], plan.live[topic]) && is_relinked(
            out[i],
            infos[k],
        );
    let standing = standing_of(case, topic);
    assert(has_live(standing, infos, lower(infos[k].id)));
    let j = choose|j: int|
        0 <= j < infos.len() && is_live(standing, #[trigger] infos[j]) && lower(infos[j].id)
            == lower(infos[k].id);
    law_topics_are_tidy(objects, masters);
    assert(is_tidy_group(topic, case.records[topic]));
    if j < k {
        assert(!same(infos[j].id, infos[k].id));
    } else if k < j {
        assert(!same(infos[k].id, infos[j].id));
    }
    assert(is_live(standing, case.records[topic].infos[k]));
}

/// The line stands in the run of lines behind the head of `topic`.
pub open spec fn is_written(
    objects: Seq<ObjectView>,
    topic: Seq<char>,
    info: DialogueInfoView,
) -> bool {
    exists|i: int|
        0 <= i < objects.len() && is_relinked(#[trigger] objects[i], info) && open_topic(objects, i)
            == Some(topic)
}

/// Every line that is kept is written in its topic, if the topic has an id or the plugin has its
/// head.
pub proof fn law_live_lines_are_written(
    objects: Seq<ObjectView>,
    masters: Seq<Seq<ObjectView>>,
    topic: Seq<char>,
    k: int,
)
    requires
        ({
            let case = case_of(objects, masters);
            &&& case.records.contains_key(topic)
            &&& topic.len() > 0 || has_head(objects, topic)
            &&& 0 <= k < case.records[topic].infos.len()
            &&& is_live(standing_of(case, topic), case.records[topic].infos[k])
        }),
    ensures
        is_written(
            decoupled(objects, masters),
            topic,
            case_of(objects, masters).records[topic].infos[k],
        ),
{
    let case = case_of(objects, masters);
    let plan = plan_of(case);
    let out = decoupled(objects, masters);
    let infos = case.records[topic].infos;
    let info = infos[k];
    let live = topic_live_ids(case, topic);
    let emitted = rewritten(plan, objects).emitted;
    assert(has_live(standing_of(case, topic), infos, lower(info.id)));
    assert(live.contains(lower(info.id)));
    assert(plan.live.contains_key(topic));
    law_topics_are_tidy(objects, masters);
    assert(is_tidy_group(topic, case.records[topic]));
    lemma_lower_len(case.records[topic].dialogue.id);
    lemma_decoupled_whole(objects, masters);
    if !emitted.contains(topic) {
        assert(is_missing(plan, emitted, topic));
        assert(plan.reasons.contains_key(topic));
    }
    assert(has_head(out, topic));
    let h = choose|h: int| 0 <= h < out.len() && #[trigger] is_head_of(out[h], topic);
    let lines = lines_of(plan, topic);
    assert(is_run_at(out, h, lines));
    let stays = |i: DialogueInfoView| survives(i, live);
    let kept = survivors(infos, live);
    infos.lemma_filter_contains(stays, k);
    let j = choose|j: int| 0 <= j < kept.len() && kept[j] == info;
    assert(out[h + 1 + j] == lines[j]);
    assert(is_relinked(out[h + 1 + j], info));
    assert forall|l: int| h < l < h + 1 + j implies #[trigger] out[l] is DialogueInfo by {
        assert(out[h + 1 + (l - h - 1)] == lines[l - h - 1]);
    }
    lemma_behind_head(out, h, h + 1 + j);
}

/// The record is the head of `topic`.
pub open spec fn is_head_of(object: ObjectView, topic: Seq<char>) -> bool {
    object matches ObjectView::Dialogue(dialogue) && lower(dialogue.id) == topic
}

/// No topic has two heads among the records.
pub open spec fn are_heads_distinct(objects: Seq<ObjectView>) -> bool {
    forall|i: int, j: int, t: Seq<char>|
        0 <= i < j < objects.len() && #[trigger] is_head_of(objects[i], t)
            ==> !#[trigger] is_head_of(objects[j], t)
}

/// Every head among the records is that of a topic of the set.
pub open spec fn are_heads_among(objects: Seq<ObjectView>, topics: Set<Seq<char>>) -> bool {
    forall|i: int, t: Seq<char>|
        0 <= i < objects.len() && #[trigger] is_head_of(objects[i], t) ==> topics.contains(t)
}

proof fn lemma_heads_push(
    objects: Seq<ObjectView>,
    topics: Set<Seq<char>>,
    head: ObjectView,
    topic: Seq<char>,
    lines: Seq<ObjectView>,
)
    requires
        are_heads_distinct(objects),
        are_heads_among(objects, topics),
        is_head_of(head, topic),
        !topics.contains(topic),
        forall|i: int| 0 <= i < lines.len() ==> #[trigger] lines[i] is DialogueInfo,
    ensures
        are_heads_distinct(objects.push(head) + lines),
        are_heads_among(objects.push(head) + lines, topics.insert(topic)),
{
    let longer = objects.push(head) + lines;
    assert forall|i: int|
        0 <= i < longer.len() implies #[trigger] longer[i] == if i < objects.len() {
        objects[i]
    } else if i == objects.len() {
        head
    } else {
        lines[i - objects.len() - 1]
    } by {}
    assert forall|i: int, t: Seq<char>|
        0 <= i < longer.len() && #[trigger] is_head_of(longer[i], t) implies
        topics.insert(topic).contains(t) by {
        if i < objects.len() {
            assert(is_head_of(objects[i], t));
        } else if i > objects.len() {
            assert(lines[i - objects.len() - 1] is DialogueInfo);
        }
    }
    assert forall|i: int, j: int, t: Seq<char>|
        0 <= i < j < longer.len() && #[trigger] is_head_of(longer[i], t) implies
        !#[trigger] is_head_of(longer[j], t) by {
        if i < objects.len() {
            assert(is_head_of(objects[i], t));
        } else if i > objects.len() {
            assert(lines[i - objects.len() - 1] is DialogueInfo);
        }
        if j < objects.len() {
            assert(is_head_of(longer[j], t) == is_head_of(objects[j], t));
        } else if j > objects.len() {
            assert(lines[j - objects.len() - 1] is DialogueInfo);
        }
    }
}

proof fn lemma_rewritten_heads(plan: PlanView, objects: Seq<ObjectView>)
    ensures
        are_heads_distinct(rewritten(plan, objects).objects),
        are_heads_among(rewritten(plan, objects).objects, rewritten(plan, objects).emitted),
    decreases objects.len(),
{
    if objects.len() > 0 {
        let before = rewritten(plan, objects.drop_last());
        let last = objects.last();
        lemma_rewritten_heads(plan, objects.drop_last());
        match last {
            ObjectView::Dialogue(dialogue) => {
                let topic = lower(dialogue.id);
                if !before.emitted.contains(topic) {
                    assert forall|i: int| 0 <= i < lines_of(plan, topic).len() implies
                        #[trigger] lines_of(plan, topic)[i] is DialogueInfo by {}
                    lemma_heads_push(
                        before.objects,
                        before.emitted,
                        last,
                        topic,
                        lines_of(plan, topic),
                    );
                }
            },
            ObjectView::DialogueInfo(_) => {},
            _ => {
                let after = before.objects.push(last);
                assert forall|i: int, t: Seq<char>|
                    0 <= i < after.len() && #[trigger] is_head_of(after[i], t) implies
                    before.emitted.contains(t) by {
                    assert(is_head_of(before.objects[i], t));
                }
                assert forall|i: int, j: int, t: Seq<char>|
                    0 <= i < j < after.len() && #[trigger] is_head_of(after[i], t) implies
                    !#[trigger] is_head_of(after[j], t) by {
                    assert(is_head_of(before.objects[i], t));
                    if j < before.objects.len() {
                        assert(is_head_of(after[j], t) == is_head_of(before.objects[j], t));
                    }
                }
            },
        }
    }
}

proof fn lemma_supplied_heads(
    base: Seq<ObjectView>,
    plan: PlanView,
    emitted: Set<Seq<char>>,
    topics: Seq<Seq<char>>,
)
    requires
        are_heads_distinct(base),
        are_heads_among(base, emitted),
        is_tidy(plan.records),
        strictly_sorted(topics),
    ensures
        are_heads_distinct(base + supplied(plan, emitted, topics)),
        are_heads_among(base + supplied(plan, emitted, topics), emitted.union(topics.to_set())),
    decreases topics.len(),
{
    let all = emitted.union(topics.to_set());
    if topics.len() == 0 {
        assert(base + supplied(plan, emitted, topics) =~= base);
        assert forall|i: int, t: Seq<char>|
            0 <= i < base.len() && #[trigger] is_head_of(base[i], t) implies
            all.contains(t) by {}
    } else {
        let rest = topics.drop_last();
        let before = supplied(plan, emitted, rest);
        let topic = topics.last();
        let fewer = emitted.union(rest.to_set());
        let head = ObjectView::Dialogue(plan.records[topic].dialogue);
        assert forall|i: int, j: int| 0 <= i < j < rest.len() implies id_less(
            #[trigger] rest[i],
            #[trigger] rest[j],
        ) by {
            assert(id_less(topics[i], topics[j]));
        }
        lemma_supplied_heads(base, plan, emitted, rest);
        assert(topics =~= rest.push(topic));
        assert forall|t: Seq<char>| fewer.contains(t) || t == topic <==> #[trigger] all.contains(
            t,
        ) by {
            if rest.contains(t) {
                let k = choose|k: int| 0 <= k < rest.len() && rest[k] == t;
                assert(topics[k] == t);
            }
            if topics.contains(t) {
                let k = choose|k: int| 0 <= k < topics.len() && topics[k] == t;
                if k < rest.len() {
                    assert(rest[k] == t);
                }
            }
            assert(topics[topics.len() - 1] == topic);
        }
        assert(all =~= fewer.insert(topic));
        if is_missing(plan, emitted, topic) {
            assert(!rest.contains(topic)) by {
                if rest.contains(topic) {
                    let k = choose|k: int| 0 <= k < rest.len() && rest[k] == topic;
                    assert(id_less(topics[k], topics[topics.len() - 1]));
                    lemma_id_less_asymmetric(topic, topic);
                }
            }
            assert(is_tidy_group(topic, plan.records[topic]));
            assert(is_head_of(head, topic));
            lemma_heads_push(base + before, fewer, head, topic, lines_of(plan, topic));
            assert(base + (before.push(head) + lines_of(plan, topic)) =~= (base + before).push(head)
                + lines_of(plan, topic));
        } else {
            let out = base + before;
            assert forall|i: int, t: Seq<char>|
                0 <= i < out.len() && #[trigger] is_head_of(out[i], t) implies
                all.contains(t) by {
                assert(fewer.contains(t));
            }
        }
    }
}

/// No topic is written twice.
pub proof fn law_topics_are_written_once(objects: Seq<ObjectView>, masters: Seq<Seq<ObjectView>>)
    ensures
        are_heads_distinct(decoupled(objects, masters)),
{
    let plan = plan_of(case_of(objects, masters));
    let written = rewritten(plan, objects);
    law_topics_are_tidy(objects, masters);
    lemma_kept_finite(objects, masters);
    lemma_sorted_lists(plan.reasons.dom());
    lemma_rewritten_heads(plan, objects);
    lemma_supplied_heads(written.objects, plan, written.emitted, sorted(plan.reasons.dom()));
}

/// The head of `topic` is among the records.
pub open spec fn has_head(objects: Seq<ObjectView>, topic: Seq<char>) -> bool {
    exists|i: int| 0 <= i < objects.len() && #[trigger] is_head_of(objects[i], topic)
}

proof fn lemma_has_head_more(a: Seq<ObjectView>, b: Seq<ObjectView>, topic: Seq<char>)
    ensures
        has_head(a, topic) ==> has_head(a + b, topic),
{
    if has_head(a, topic) {
        let i = choose|i: int| 0 <= i < a.len() && #[trigger] is_head_of(a[i], topic);
        assert((a + b)[i] == a[i]);
        assert(is_head_of((a + b)[i], topic));
    }
}

proof fn lemma_rewritten_heads_stay(plan: PlanView, objects: Seq<ObjectView>)
    requires
        forall|i: int|
            0 <= i < objects.len() ==> (#[trigger] objects[i] matches ObjectView::Dialogue(d)
                ==> plan.records.contains_key(lower(d.id))),
    ensures
        forall|t: Seq<char>| #[trigger]
            rewritten(plan, objects).emitted.contains(t) ==> has_head(
                rewritten(plan, objects).objects,
                t,
            ),
        forall|t: Seq<char>| #[trigger]
            has_head(objects, t) ==> rewritten(plan, objects).emitted.contains(t),
    decreases objects.len(),
{
    if objects.len() > 0 {
        let rest = objects.drop_last();
        let last = objects.last();
        assert forall|i: int| 0 <= i < rest.len() implies (
        #[trigger] rest[i] matches ObjectView::Dialogue(d) ==> plan.records.contains_key(
            lower(d.id),
        )) by {
            assert(rest[i] == objects[i]);
        }
        lemma_rewritten_heads_stay(plan, rest);
        let before = rewritten(plan, rest);
        let after = rewritten(plan, objects);
        assert(objects[objects.len() - 1] == last);
        assert forall|t: Seq<char>| #[trigger] after.emitted.contains(t) implies has_head(
            after.objects,
            t,
        ) by {
            if before.emitted.contains(t) {
                lemma_has_head_more(before.objects, seq![last], t);
                assert(before.objects + seq![last] =~= before.objects.push(last));
            } else {
                assert(before.objects.push(last)[before.objects.len() as int] == last);
                assert(is_head_of(before.objects.push(last)[before.objects.len() as int], t));
            }
            if let ObjectView::Dialogue(d) = last {
                lemma_has_head_more(
                    before.objects.push(last),
                    lines_of(plan, lower(d.id)),
                    t,
                );
            }
        }
        assert forall|t: Seq<char>| #[trigger] has_head(objects, t) implies after.emitted.contains(
            t,
        ) by {
            let i = choose|i: int| 0 <= i < objects.len() && #[trigger] is_head_of(objects[i], t);
            if i < rest.len() {
                assert(is_head_of(rest[i], t));
                assert(has_head(rest, t));
            }
        }
    }
}

proof fn lemma_emitted_have_heads(plan: PlanView, objects: Seq<ObjectView>, topic: Seq<char>)
    requires
        rewritten(plan, objects).emitted.contains(topic),
    ensures
        has_head(objects, topic),
    decreases objects.len(),
{
    if objects.len() > 0 {
        let rest = objects.drop_last();
        if rewritten(plan, rest).emitted.contains(topic) {
            lemma_emitted_have_heads(plan, rest, topic);
            lemma_has_head_more(rest, seq![objects.last()], topic);
            assert(rest + seq![objects.last()] =~= objects);
        } else {
            assert(is_head_of(objects[objects.len() - 1], topic));
        }
    }
}

/// The record at `i` is the first head of `topic`.
pub open spec fn is_first_head(objects: Seq<ObjectView>, i: int, topic: Seq<char>) -> bool {
    &&& 0 <= i < objects.len()
    &&& is_head_of(objects[i], topic)
    &&& forall|j: int| 0 <= j < i ==> !#[trigger] is_head_of(objects[j], topic)
}

proof fn lemma_first_head_stays(
    plan: PlanView,
    objects: Seq<ObjectView>,
    i: int,
    topic: Seq<char>,
    n: int,
)
    requires
        is_first_head(objects, i, topic),
        plan.records.contains_key(topic),
        i < n <= objects.len(),
    ensures
        rewritten(plan, objects.take(n)).objects.contains(objects[i]),
    decreases n,
{
    let part = objects.take(n);
    let rest = objects.take(n - 1);
    let before = rewritten(plan, rest).objects;
    let after = rewritten(plan, part).objects;
    assert(part.drop_last() =~= rest);
    assert(part.last() == objects[n - 1]);
    if n == i + 1 {
        if rewritten(plan, rest).emitted.contains(topic) {
            lemma_emitted_have_heads(plan, rest, topic);
            let j = choose|j: int| 0 <= j < rest.len() && #[trigger] is_head_of(rest[j], topic);
            assert(is_head_of(objects[j], topic));
        }
        assert(after[before.len() as int] == objects[i]);
    } else {
        lemma_first_head_stays(plan, objects, i, topic, n - 1);
        let k = choose|k: int| 0 <= k < before.len() && before[k] == objects[i];
        assert(after[k] == objects[i]);
    }
}

/// Every topic of the plugin stays, under the head that the plugin has first, whether or not
/// lines of it do.
pub proof fn law_topics_of_the_plugin_stay(
    objects: Seq<ObjectView>,
    masters: Seq<Seq<ObjectView>>,
    i: int,
    topic: Seq<char>,
)
    requires
        is_first_head(objects, i, topic),
    ensures
        decoupled(objects, masters).contains(objects[i]),
{
    let plan = plan_of(case_of(objects, masters));
    let written = rewritten(plan, objects);
    let out = decoupled(objects, masters);
    law_topics_are_tidy(objects, masters);
    lemma_first_head_stays(plan, objects, i, topic, objects.len() as int);
    assert(objects.take(objects.len() as int) =~= objects);
    let k = choose|k: int| 0 <= k < written.objects.len() && written.objects[k] == objects[i];
    assert(out[k] == objects[i]);
}

proof fn lemma_supplied_missing(
    plan: PlanView,
    emitted: Set<Seq<char>>,
    topics: Seq<Seq<char>>,
    i: int,
    topic: Seq<char>,
)
    requires
        is_tidy(plan.records),
        0 <= i < supplied(plan, emitted, topics).len(),
        is_head_of(supplied(plan, emitted, topics)[i], topic),
    ensures
        topics.contains(topic),
        is_missing(plan, emitted, topic),
    decreases topics.len(),
{
    let rest = topics.drop_last();
    let before = supplied(plan, emitted, rest);
    let last = topics.last();
    if i < before.len() {
        assert(supplied(plan, emitted, topics)[i] == before[i]);
        lemma_supplied_missing(plan, emitted, rest, i, topic);
        let k = choose|k: int| 0 <= k < rest.len() && rest[k] == topic;
        assert(topics[k] == topic);
    } else if i == before.len() {
        assert(is_tidy_group(last, plan.records[last]));
        assert(topics[topics.len() - 1] == topic);
    } else {
        assert(supplied(plan, emitted, topics)[i] == lines_of(plan, last)[i - before.len() - 1]);
    }
}

/// The topic is in force and kept, has an id, and has lines that are kept.
pub open spec fn is_needed_topic(case: LivenessView, topic: Seq<char>) -> bool {
    &&& case.records.contains_key(topic)
    &&& case.reasons.contains_key(topic)
    &&& topic.len() > 0
    &&& live_infos(case).contains_key(topic)
}

/// The topics that are written are those of the plugin, and those that are kept and have lines
/// that are kept.
pub proof fn law_needed_topics_are_written(
    objects: Seq<ObjectView>,
    masters: Seq<Seq<ObjectView>>,
    topic: Seq<char>,
)
    ensures
        has_head(decoupled(objects, masters), topic) <==> has_head(objects, topic)
            || is_needed_topic(case_of(objects, masters), topic),
{
    let case = case_of(objects, masters);
    let plan = plan_of(case);
    let out = decoupled(objects, masters);
    let written = rewritten(plan, objects);
    let topics = sorted(plan.reasons.dom());
    law_topics_are_tidy(objects, masters);
    lemma_kept_finite(objects, masters);
    lemma_sorted_lists(plan.reasons.dom());
    lemma_decoupled_whole(objects, masters);
    if case.records.contains_key(topic) {
        assert(is_tidy_group(topic, case.records[topic]));
        lemma_lower_len(case.records[topic].dialogue.id);
    }
    if has_head(out, topic) {
        let i = choose|i: int| 0 <= i < out.len() && #[trigger] is_head_of(out[i], topic);
        if i < written.objects.len() {
            lemma_rewritten_heads(plan, objects);
            assert(is_head_of(written.objects[i], topic));
            lemma_emitted_have_heads(plan, objects, topic);
        } else {
            lemma_supplied_missing(
                plan,
                written.emitted,
                topics,
                i - written.objects.len(),
                topic,
            );
            assert(topics.to_set().contains(topic));
        }
    }
    if is_needed_topic(case, topic) && !written.emitted.contains(topic) {
        assert(is_missing(plan, written.emitted, topic));
        assert(plan.reasons.contains_key(topic));
    }
}

} // verus!
