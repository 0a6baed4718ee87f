//! Which topics of dialogue are kept, and why.

use vstd::prelude::*;

use crate::dialogue_group::{DialogueGroup, GroupView};
use crate::dialogue_records::{groups_of, ids_of, DialogueIds, DialogueRecords};
use crate::id_map::{lemma_keys_listed, IdMap};
use crate::ids::{lemma_sorted_is, lemma_take_to_set, sorted, strictly_sorted};
use crate::record_views::ObjectView;
use crate::records::{DialogueType2, Plugin, TES3Object};
use crate::scripts::{
    add_script_topic_references, is_splittable, is_splittable_script, script_topics,
};
use crate::text::id_less;
use crate::topic_reasons::{
    add_topic_reason, lemma_with_reason_insert, lemma_with_reason_none, reasons_of, with_reason,
    DialogueTopicReason, DialogueTopicReasons,
};

verus! {

/// The game itself goes through topics of this kind.
pub open spec fn is_engine_kind(dialogue_type: DialogueType2) -> bool {
    ||| dialogue_type == DialogueType2::Greeting
    ||| dialogue_type == DialogueType2::Voice
    ||| dialogue_type == DialogueType2::Persuasion
}

/// Whether the game itself goes through topics of a kind.
pub fn is_engine_type(dialogue_type: DialogueType2) -> (res: bool)
    ensures
        res == is_engine_kind(dialogue_type),
{
    matches!(
        dialogue_type,
        DialogueType2::Greeting | DialogueType2::Voice | DialogueType2::Persuasion
    )
}

/// The topics that the game itself goes through.
pub open spec fn engine_topics(records: Map<Seq<char>, GroupView>) -> Set<Seq<char>> {
    Set::new(|t: Seq<char>| records.contains_key(t) && is_engine_kind(records[t].dialogue_type))
}

/// The topics that scripts can add, in order: those with an id.
pub open spec fn named_topics(records: Map<Seq<char>, GroupView>) -> Seq<Seq<char>> {
    sorted(records.dom().remove(Seq::empty()))
}

/// The record is a script that adds `topic`.
pub open spec fn adds(object: ObjectView, topics: Seq<Seq<char>>, topic: Seq<char>) -> bool {
    match object {
        ObjectView::Script(script) => script_topics(script.text, topics).contains(topic),
        _ => false,
    }
}

/// One of the records is a script that adds `topic`.
pub open spec fn some_adds(
    objects: Seq<ObjectView>,
    topics: Seq<Seq<char>>,
    topic: Seq<char>,
) -> bool {
    exists|i: int| 0 <= i < objects.len() && adds(#[trigger] objects[i], topics, topic)
}

/// The topics that the scripts among the records add.
pub open spec fn scripted_topics(objects: Seq<ObjectView>, topics: Seq<Seq<char>>) -> Set<
    Seq<char>,
> {
    Set::new(|t: Seq<char>| some_adds(objects, topics, t))
}

/// The topics that are kept: those that the plugin has, those that the game itself goes through,
/// and those that the plugin's scripts add.
pub open spec fn live_topics(
    objects: Seq<ObjectView>,
    records: Map<Seq<char>, GroupView>,
    owned: Map<Seq<char>, Set<Seq<char>>>,
) -> Map<Seq<char>, Set<DialogueTopicReason>> {
    with_reason(
        with_reason(
            with_reason(Map::empty(), owned.dom(), DialogueTopicReason::Starwind),
            engine_topics(records),
            DialogueTopicReason::Engine,
        ),
        scripted_topics(objects, named_topics(records)),
        DialogueTopicReason::Script,
    )
}

/// The text of every script can be searched for topics.
pub open spec fn are_scripts_splittable(objects: Seq<ObjectView>) -> bool {
    forall|i: int|
        0 <= i < objects.len() ==> (#[trigger] objects[i] matches ObjectView::Script(script)
            ==> is_splittable(script.text))
}

/// Whether the text of every script of a plugin can be searched for topics.
pub fn scripts_are_splittable(plugin: &Plugin) -> (res: bool)
    ensures
        res == are_scripts_splittable(plugin@),
{
    let ghost all = plugin@;
    let mut i: usize = 0;
    while i < plugin.objects.len()
        invariant
            i <= plugin.objects.len(),
            all == plugin@,
            forall|k: int|
                0 <= k < i ==> (#[trigger] all[k] matches ObjectView::Script(script)
                    ==> is_splittable(script.text)),
        decreases plugin.objects.len() - i,
    {
        assert(all[i as int] == plugin.objects@[i as int].deep_view());
        if let TES3Object::Script(script) = &plugin.objects[i] {
            if !is_splittable_script(script.text.as_str()) {
                return false;
            }
        }
        i += 1;
    }
    true
}

/// Lists the topics that have an id.
fn list_named_topics(records: &DialogueRecords) -> (res: Vec<String>)
    requires
        records.wf(),
    ensures
        res.deep_view() == named_topics(groups_of(records@)),
{
    let ghost keys = records.keys();
    let mut res: Vec<String> = Vec::new();
    let mut i: usize = 0;
    while i < records.len()
        invariant
            i <= keys.len(),
            keys == records.keys(),
            records.wf(),
            strictly_sorted(res.deep_view()),
            forall|k: int|
                0 <= k < res.deep_view().len() ==> keys.take(i as int).contains(
                    #[trigger] res.deep_view()[k],
                ) && res.deep_view()[k].len() > 0,
            forall|j: int|
                0 <= j < i && (#[trigger] keys[j]).len() > 0 ==> res.deep_view().contains(keys[j]),
        decreases keys.len() - i,
    {
        let key = records.key_at(i);
        let ghost before = res.deep_view();
        assert forall|k: int| 0 <= k < before.len() implies id_less(
            #[trigger] before[k],
            keys[i as int],
        ) && keys.take(i + 1).contains(before[k]) by {
            let j = choose|j: int|
                0 <= j < keys.take(i as int).len() && keys.take(i as int)[j] == before[k];
            assert(keys[j] == before[k]);
            assert(keys.take(i + 1)[j] == before[k]);
        }
        if !key.as_str().is_empty() {
            res.push(key.clone());
            let ghost after = res.deep_view();
            assert(after =~= before.push(keys[i as int]));
            proof {
                assert(keys.take(i + 1)[i as int] == keys[i as int]);
                assert forall|j: int| 0 <= j <= i && (#[trigger] keys[j]).len() > 0 implies
                    after.contains(keys[j]) by {
                    if j < i {
                        let k = choose|k: int| 0 <= k < before.len() && before[k] == keys[j];
                        assert(after[k] == keys[j]);
                    } else {
                        assert(after[before.len() as int] == keys[j]);
                    }
                }
                assert forall|a: int, b: int| 0 <= a < b < after.len() implies
                    id_less(#[trigger] after[a], #[trigger] after[b]) by {
                    if b == before.len() {
                        assert(id_less(before[a], keys[i as int]));
                    } else {
                        assert(before[a] == after[a] && before[b] == after[b]);
                    }
                }
            }
        }
        i += 1;
    }
    proof {
        let set = records@.dom().remove(Seq::empty());
        lemma_keys_listed(*records);
        assert(keys.take(i as int) =~= keys);
        assert forall|t: Seq<char>| #[trigger]
            res.deep_view().to_set().contains(t) <==> set.contains(t) by {
            if res.deep_view().contains(t) {
                let k = choose|k: int| 0 <= k < res.deep_view().len() && res.deep_view()[k] == t;
                assert(keys.contains(t));
                assert(keys.to_set().contains(t));
            }
            if set.contains(t) {
                assert(keys.to_set().contains(t));
                let j = choose|j: int| 0 <= j < keys.len() && keys[j] == t;
                assert(t.len() > 0) by {
                    if t.len() == 0 {
                        assert(t =~= Seq::empty());
                    }
                }
                assert(res.deep_view().contains(keys[j]));
            }
        }
        assert(res.deep_view().to_set() =~= set);
        assert(groups_of(records@).dom() =~= records@.dom());
        lemma_sorted_is(res.deep_view(), set);
    }
    res
}

/// Collects the topics that are kept, with the reasons.
pub fn collect_live_dialogue_topics(
    plugin: &Plugin,
    records: &DialogueRecords,
    starwind_ids: &DialogueIds,
) -> (res: DialogueTopicReasons)
    requires
        records.wf(),
        starwind_ids.wf(),
        are_scripts_splittable(plugin@),
    ensures
        res.wf(),
        reasons_of(res@) == live_topics(plugin@, groups_of(records@), ids_of(starwind_ids@)),
{
    let mut live: DialogueTopicReasons = IdMap::new();
    assert(reasons_of(live@) =~= Map::empty());
    add_owned_topics(starwind_ids, &mut live);
    add_engine_topics(records, &mut live);
    let topic_ids = list_named_topics(records);
    add_scripted_topics(plugin, &topic_ids, &mut live);
    live
}

fn add_owned_topics(ids: &DialogueIds, live: &mut DialogueTopicReasons)
    requires
        ids.wf(),
        old(live).wf(),
    ensures
        final(live).wf(),
        reasons_of(final(live)@) == with_reason(
            reasons_of(old(live)@),
            ids_of(ids@).dom(),
            DialogueTopicReason::Starwind,
        ),
{
    let ghost before = reasons_of(live@);
    let ghost keys = ids.keys();
    let mut i: usize = 0;
    proof {
        assert(keys.take(0).to_set() =~= Set::empty());
        lemma_with_reason_none(before, DialogueTopicReason::Starwind);
    }
    while i < ids.len()
        invariant
            i <= keys.len(),
            keys == ids.keys(),
            ids.wf(),
            live.wf(),
            reasons_of(live@) == with_reason(
                before,
                keys.take(i as int).to_set(),
                DialogueTopicReason::Starwind,
            ),
        decreases keys.len() - i,
    {
        let key = ids.key_at(i);
        proof {
            lemma_take_to_set(keys, i as int);
            lemma_with_reason_insert(
                before,
                keys.take(i as int).to_set(),
                DialogueTopicReason::Starwind,
                key@,
            );
        }
        add_topic_reason(live, key.as_str(), DialogueTopicReason::Starwind);
        i += 1;
    }
    proof {
        assert(keys.take(i as int) =~= keys);
        lemma_keys_listed(*ids);
        assert(ids_of(ids@).dom() =~= ids@.dom());
    }
}

fn add_engine_topics(records: &DialogueRecords, live: &mut DialogueTopicReasons)
    requires
        records.wf(),
        old(live).wf(),
    ensures
        final(live).wf(),
        reasons_of(final(live)@) == with_reason(
            reasons_of(old(live)@),
            engine_topics(groups_of(records@)),
            DialogueTopicReason::Engine,
        ),
{
    let ghost before = reasons_of(live@);
    let ghost keys = records.keys();
    let ghost engine = engine_topics(groups_of(records@));
    let mut i: usize = 0;
    proof {
        assert(keys.take(0).to_set().intersect(engine) =~= Set::empty());
        lemma_with_reason_none(before, DialogueTopicReason::Engine);
    }
    while i < records.len()
        invariant
            i <= keys.len(),
            keys == records.keys(),
            records.wf(),
            engine == engine_topics(groups_of(records@)),
            live.wf(),
            reasons_of(live@) == with_reason(
                before,
                keys.take(i as int).to_set().intersect(engine),
                DialogueTopicReason::Engine,
            ),
        decreases keys.len() - i,
    {
        let key = records.key_at(i);
        let group: &DialogueGroup = records.value_at(i);
        let ghost reached = keys.take(i as int).to_set().intersect(engine);
        let ghost grown = keys.take(i + 1).to_set().intersect(engine);
        proof {
            lemma_take_to_set(keys, i as int);
            assert(groups_of(records@)[key@] == group.deep_view());
        }
        if is_engine_type(group.dialogue_type) {
            proof {
                assert(engine.contains(key@));
                assert(grown =~= reached.insert(key@));
                lemma_with_reason_insert(before, reached, DialogueTopicReason::Engine, key@);
            }
            add_topic_reason(live, key.as_str(), DialogueTopicReason::Engine);
        } else {
            assert(grown =~= reached);
        }
        i += 1;
    }
    proof {
        assert(keys.take(i as int) =~= keys);
        lemma_keys_listed(*records);
        assert(keys.to_set().intersect(engine) =~= engine);
    }
}

fn add_scripted_topics(plugin: &Plugin, topic_ids: &Vec<String>, live: &mut DialogueTopicReasons)
    requires
        are_scripts_splittable(plugin@),
        old(live).wf(),
    ensures
        final(live).wf(),
        reasons_of(final(live)@) == with_reason(
            reasons_of(old(live)@),
            scripted_topics(plugin@, topic_ids.deep_view()),
            DialogueTopicReason::Script,
        ),
{
    let ghost before = reasons_of(live@);
    let ghost all = plugin@;
    let ghost topics = topic_ids.deep_view();
    let mut i: usize = 0;
    proof {
        assert(scripted_topics(all.take(0), topics) =~= Set::empty());
        lemma_with_reason_none(before, DialogueTopicReason::Script);
    }
    while i < plugin.objects.len()
        invariant
            i <= plugin.objects.len(),
            all == plugin@,
            are_scripts_splittable(all),
            topics == topic_ids.deep_view(),
            live.wf(),
            reasons_of(live@) == with_reason(
                before,
                scripted_topics(all.take(i as int), topics),
                DialogueTopicReason::Script,
            ),
        decreases plugin.objects.len() - i,
    {
        let object: &TES3Object = &plugin.objects[i];
        let ghost reached = scripted_topics(all.take(i as int), topics);
        let ghost grown = scripted_topics(all.take(i + 1), topics);
        proof {
            assert(all[i as int] == object.deep_view());
            lemma_scripted_step(all, i as int, topics);
        }
        if let TES3Object::Script(script) = object {
            let ghost added = script_topics(script.text@, topics);
            proof {
                assert(grown =~= reached.union(added));
                lemma_with_reason_twice(before, reached, added, DialogueTopicReason::Script);
            }
            let ids: &[String] = topic_ids.as_slice();
            assert(ids.deep_view() =~= topics);
            add_script_topic_references(script.text.as_str(), ids, live);
        } else {
            assert(grown =~= reached);
        }
        i += 1;
    }
    assert(all.take(i as int) =~= all);
}

proof fn lemma_scripted_step(objects: Seq<ObjectView>, i: int, topics: Seq<Seq<char>>)
    requires
        0 <= i < objects.len(),
    ensures
        forall|t: Seq<char>| #[trigger]
            some_adds(objects.take(i + 1), topics, t) <==> some_adds(objects.take(i), topics, t)
                || adds(objects[i], topics, t),
{
    assert forall|t: Seq<char>| #[trigger]
        some_adds(objects.take(i + 1), topics, t) <==> some_adds(objects.take(i), topics, t)
            || adds(objects[i], topics, t) by {
        let longer = objects.take(i + 1);
        let shorter = objects.take(i);
        assert(longer[i] == objects[i]);
        if some_adds(shorter, topics, t) {
            let k = choose|k: int| 0 <= k < shorter.len() && adds(#[trigger] shorter[k], topics, t);
            assert(longer[k] == shorter[k]);
        }
        if some_adds(longer, topics, t) {
            let k = choose|k: int| 0 <= k < longer.len() && adds(#[trigger] longer[k], topics, t);
            if k < i {
                assert(shorter[k] == longer[k]);
            }
        }
    }
}

proof fn lemma_with_reason_twice(
    topics: Map<Seq<char>, Set<DialogueTopicReason>>,
    first: Set<Seq<char>>,
    second: Set<Seq<char>>,
    reason: DialogueTopicReason,
)
    ensures
        with_reason(with_reason(topics, first, reason), second, reason) == with_reason(
            topics,
            first.union(second),
            reason,
        ),
{
    let left = with_reason(with_reason(topics, first, reason), second, reason);
    let right = with_reason(topics, first.union(second), reason);
    assert forall|t: Seq<char>| right.contains_key(t) implies #[trigger] left[t] == right[t] by {
        assert(left[t] =~= right[t]);
    }
    assert(left =~= right);
}

} // verus!
