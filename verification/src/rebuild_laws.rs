//! What holds of a plugin whose dialogue was written anew.

use vstd::prelude::*;

use crate::ids::sorted;
use crate::rebuild::{
    as_records, case_of, decoupled, lines_of, linked, plan_of, rewritten, supplied, survivors,
    PlanView,
};
use crate::record_views::{DialogueInfoView, ObjectView};
use crate::text::lower;

verus! {

/// The record is neither the head of a topic nor a line.
pub open spec fn is_other(object: ObjectView) -> bool {
    !(object is Dialogue) && !(object is DialogueInfo)
}

/// The records that are no dialogue.
pub open spec fn others(objects: Seq<ObjectView>) -> Seq<ObjectView> {
    objects.filter(|o: ObjectView| is_other(o))
}

proof fn lemma_others_add(a: Seq<ObjectView>, b: Seq<ObjectView>)
    ensures
        others(a + b) == others(a) + others(b),
{
    Seq::filter_distributes_over_add(a, b, |o: ObjectView| is_other(o));
}

proof fn lemma_others_push(a: Seq<ObjectView>, o: ObjectView)
    ensures
        others(a.push(o)) == if is_other(o) {
            others(a).push(o)
        } else {
            others(a)
        },
{
    a.lemma_filter_push(o, |o: ObjectView| is_other(o));
}

proof fn lemma_no_others(a: Seq<ObjectView>)
    requires
        forall|i: int| 0 <= i < a.len() ==> !is_other(#[trigger] a[i]),
    ensures
        others(a) == Seq::<ObjectView>::empty(),
{
    a.lemma_all_neg_filter_empty(|o: ObjectView| is_other(o));
    assert(others(a) =~= Seq::empty());
}

proof fn lemma_lines_are_lines(plan: PlanView, topic: Seq<char>)
    ensures
        forall|i: int|
            0 <= i < lines_of(plan, topic).len() ==> #[trigger] lines_of(
                plan,
                topic,
            )[i] is DialogueInfo,
        others(lines_of(plan, topic)) == Seq::<ObjectView>::empty(),
{
    lemma_no_others(lines_of(plan, topic));
}

proof fn lemma_rewritten_others(plan: PlanView, objects: Seq<ObjectView>)
    ensures
        others(rewritten(plan, objects).objects) == others(objects),
    decreases objects.len(),
{
    if objects.len() == 0 {
        assert(others(objects) =~= Seq::empty()) by {
            lemma_no_others(objects);
        }
        lemma_no_others(rewritten(plan, objects).objects);
    } else {
        let rest = objects.drop_last();
        let last = objects.last();
        lemma_rewritten_others(plan, rest);
        let before = rewritten(plan, rest).objects;
        assert(objects =~= rest.push(last));
        lemma_others_push(rest, last);
        lemma_others_push(before, last);
        if let ObjectView::Dialogue(dialogue) = last {
            let lines = lines_of(plan, lower(dialogue.id));
            lemma_lines_are_lines(plan, lower(dialogue.id));
            lemma_others_add(before.push(last), lines);
            assert(others(before) + Seq::<ObjectView>::empty() =~= others(before));
        }
    }
}

proof fn lemma_supplied_others(plan: PlanView, emitted: Set<Seq<char>>, topics: Seq<Seq<char>>)
    ensures
        others(supplied(plan, emitted, topics)) == Seq::<ObjectView>::empty(),
    decreases topics.len(),
{
    if topics.len() == 0 {
        lemma_no_others(supplied(plan, emitted, topics));
    } else {
        let before = supplied(plan, emitted, topics.drop_last());
        let topic = topics.last();
        let head = ObjectView::Dialogue(plan.records[topic].dialogue);
        lemma_supplied_others(plan, emitted, topics.drop_last());
        lemma_others_push(before, head);
        lemma_lines_are_lines(plan, topic);
        lemma_others_add(before.push(head), lines_of(plan, topic));
        assert(Seq::<ObjectView>::empty() + Seq::<ObjectView>::empty() =~= Seq::empty());
    }
}

/// Writing the dialogue anew leaves all other records as they are and in their order.
pub proof fn law_other_records_stay(objects: Seq<ObjectView>, masters: Seq<Seq<ObjectView>>)
    ensures
        others(decoupled(objects, masters)) == others(objects),
{
    let plan = plan_of(case_of(objects, masters));
    let written = rewritten(plan, objects);
    let topics = sorted(plan.reasons.dom());
    lemma_rewritten_others(plan, objects);
    lemma_supplied_others(plan, written.emitted, topics);
    lemma_others_add(written.objects, supplied(plan, written.emitted, topics));
    assert(others(objects) + Seq::<ObjectView>::empty() =~= others(objects));
}

/// The line at `i` follows the head of a topic and names no line before it, or follows a line and
/// the two name each other; and it names no line behind it unless one follows.
pub open spec fn is_chained_at(objects: Seq<ObjectView>, i: int) -> bool {
    objects[i] matches ObjectView::DialogueInfo(info) ==> {
        &&& i > 0
        &&& match objects[i - 1] {
            ObjectView::Dialogue(_) => info.prev_id == Seq::<char>::empty(),
            ObjectView::DialogueInfo(before) => info.prev_id == before.id && before.next_id
                == info.id,
            _ => false,
        }
        &&& i + 1 == objects.len() || !(objects[i + 1] is DialogueInfo) ==> info.next_id == Seq::<
            char,
        >::empty()
    }
}

/// All lines follow the heads of topics and are linked to their neighbours.
pub open spec fn is_chained(objects: Seq<ObjectView>) -> bool {
    forall|i: int| 0 <= i < objects.len() ==> #[trigger] is_chained_at(objects, i)
}

proof fn lemma_chain_push(objects: Seq<ObjectView>, o: ObjectView)
    requires
        is_chained(objects),
        !(o is DialogueInfo),
    ensures
        is_chained(objects.push(o)),
{
    let longer = objects.push(o);
    assert forall|i: int| 0 <= i < longer.len() implies #[trigger] is_chained_at(longer, i) by {
        if i < objects.len() {
            assert(is_chained_at(objects, i));
            assert(longer[i] == objects[i]);
            assert(i > 0 ==> longer[i - 1] == objects[i - 1]);
        }
    }
}

proof fn lemma_chain_block(
    objects: Seq<ObjectView>,
    head: ObjectView,
    infos: Seq<DialogueInfoView>,
)
    requires
        is_chained(objects),
        head is Dialogue,
    ensures
        is_chained(objects.push(head) + as_records(linked(infos))),
{
    let base = objects.push(head);
    let lines = as_records(linked(infos));
    let longer = base + lines;
    lemma_chain_push(objects, head);
    assert forall|i: int| 0 <= i < longer.len() implies #[trigger] is_chained_at(longer, i) by {
        if i < base.len() {
            assert(is_chained_at(base, i));
            assert(longer[i] == base[i]);
            assert(i > 0 ==> longer[i - 1] == base[i - 1]);
            if i == objects.len() {
                assert(longer[i] == head);
            } else {
                assert(longer[i + 1] == base[i + 1]);
            }
        } else {
            let k = i - base.len();
            assert(longer[i] == lines[k]);
            assert(lines[k] == ObjectView::DialogueInfo(linked(infos)[k]));
            if k == 0 {
                assert(longer[i - 1] == head);
            } else {
                assert(longer[i - 1] == lines[k - 1]);
            }
            if k + 1 < lines.len() {
                assert(longer[i + 1] == lines[k + 1]);
            }
        }
    }
}

proof fn lemma_chain_topic(
    objects: Seq<ObjectView>,
    head: ObjectView,
    plan: PlanView,
    topic: Seq<char>,
)
    requires
        is_chained(objects),
        head is Dialogue,
    ensures
        is_chained(objects.push(head) + lines_of(plan, topic)),
{
    if plan.live.contains_key(topic) {
        lemma_chain_block(
            objects,
            head,
            survivors(plan.records[topic].infos, plan.live[topic]),
        );
    } else {
        lemma_chain_push(objects, head);
        assert(objects.push(head) + lines_of(plan, topic) =~= objects.push(head));
    }
}

proof fn lemma_rewritten_chain(plan: PlanView, objects: Seq<ObjectView>)
    ensures
        is_chained(rewritten(plan, objects).objects),
    decreases objects.len(),
{
    if objects.len() > 0 {
        let before = rewritten(plan, objects.drop_last());
        let last = objects.last();
        lemma_rewritten_chain(plan, objects.drop_last());
        match last {
            ObjectView::Dialogue(dialogue) => {
                lemma_chain_topic(before.objects, last, plan, lower(dialogue.id));
            },
            ObjectView::DialogueInfo(_) => {},
            _ => {
                lemma_chain_push(before.objects, last);
            },
        }
    }
}

proof fn lemma_supplied_chain(
    base: Seq<ObjectView>,
    plan: PlanView,
    emitted: Set<Seq<char>>,
    topics: Seq<Seq<char>>,
)
    requires
        is_chained(base),
    ensures
        is_chained(base + supplied(plan, emitted, topics)),
    decreases topics.len(),
{
    if topics.len() == 0 {
        assert(base + supplied(plan, emitted, topics) =~= base);
    } else {
        let before = supplied(plan, emitted, topics.drop_last());
        let topic = topics.last();
        let head = ObjectView::Dialogue(plan.records[topic].dialogue);
        lemma_supplied_chain(base, plan, emitted, topics.drop_last());
        lemma_chain_topic(base + before, head, plan, topic);
        assert(base + (before.push(head) + lines_of(plan, topic)) =~= (base + before).push(head)
            + lines_of(plan, topic));
    }
}

/// In the dialogue that was written anew every line stands behind the head of its topic, and the
/// lines of a topic name each other in the order in which they stand: no link leads to a line that
/// is not there.
pub proof fn law_lines_are_chained(objects: Seq<ObjectView>, masters: Seq<Seq<ObjectView>>)
    ensures
        is_chained(decoupled(objects, masters)),
{
    let plan = plan_of(case_of(objects, masters));
    let written = rewritten(plan, objects);
    lemma_rewritten_chain(plan, objects);
    lemma_supplied_chain(written.objects, plan, written.emitted, sorted(plan.reasons.dom()));
}

} // verus!
