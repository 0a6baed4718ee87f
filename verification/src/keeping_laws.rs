//! Which topics and lines are kept, why, and how they are counted.

use vstd::prelude::*;

use crate::audit::keep_reasons;
use crate::dialogue_group::GroupView;
use crate::ids::{lemma_sorted_lists, sorted};
use crate::live_infos::{
    account, count_topics, counts, has_live, is_live, live_infos, standing_of, topic_live_ids,
    total, LivenessView, Tally,
};
use crate::live_topics::{
    adds, is_engine_kind, live_topics, named_topics, scripted_topics, some_adds,
};
use crate::population::may_be_spoken;
use crate::record_views::{DialogueInfoView, ObjectView};
use crate::records::DialogueType2;
use crate::scripts::{is_named, law_scripts_add_what_they_name, lines, operand};
use crate::text::{id_less, lemma_id_less_asymmetric, lower, same};
use crate::topic_reasons::DialogueTopicReason;

verus! {

/// A script among the records has a line that adds the topic, in any case.
pub open spec fn is_scripted(objects: Seq<ObjectView>, topic: Seq<char>) -> bool {
    exists|i: int, l: int|
        0 <= i < objects.len() && objects[i] is Script && 0 <= l < lines(
            objects[i]->Script_0.text,
        ).len() && (match #[trigger] operand(lines(objects[i]->Script_0.text)[l]) {
            Some(id) => lower(id) == topic,
            None => false,
        })
}

/// The game itself goes through the topic: it is a greeting, a voice or a persuasion.
pub open spec fn is_engine_driven(records: Map<Seq<char>, GroupView>, topic: Seq<char>) -> bool {
    records.contains_key(topic) && (records[topic].dialogue_type == DialogueType2::Greeting
        || records[topic].dialogue_type == DialogueType2::Voice || records[topic].dialogue_type
        == DialogueType2::Persuasion)
}

/// The game itself goes through greetings, voices and persuasions, and no other topics.
pub proof fn law_three_kinds_are_engine_driven(dialogue_type: DialogueType2)
    ensures
        is_engine_kind(dialogue_type) <==> dialogue_type == DialogueType2::Greeting || dialogue_type
            == DialogueType2::Voice || dialogue_type == DialogueType2::Persuasion,
{
}

proof fn lemma_scripted(
    objects: Seq<ObjectView>,
    records: Map<Seq<char>, GroupView>,
    topic: Seq<char>,
)
    requires
        records.dom().finite(),
        forall|t: Seq<char>| #[trigger] records.contains_key(t) ==> lower(t) == t,
    ensures
        scripted_topics(objects, named_topics(records)).contains(topic) <==> records.contains_key(
            topic,
        ) && topic.len() > 0 && is_scripted(objects, topic),
{
    let named = records.dom().remove(Seq::empty());
    let topics = named_topics(records);
    lemma_sorted_lists(named);
    assert forall|i: int, j: int| 0 <= i < j < topics.len() implies !same(
        #[trigger] topics[i],
        #[trigger] topics[j],
    ) by {
        assert(id_less(topics[i], topics[j]));
        lemma_id_less_asymmetric(topics[i], topics[j]);
        assert(topics.to_set().contains(topics[i]));
        assert(topics.to_set().contains(topics[j]));
        assert(records.contains_key(topics[i]));
        assert(records.contains_key(topics[j]));
        if topics[i] == topics[j] {
            assert(id_less(topics[j], topics[i]));
        }
    }
    assert(topics.contains(topic) <==> records.contains_key(topic) && topic.len() > 0) by {
        assert(topics.to_set().contains(topic) <==> named.contains(topic));
        assert(topic.len() == 0 <==> topic =~= Seq::<char>::empty());
    }
    if some_adds(objects, topics, topic) {
        let i = choose|i: int| 0 <= i < objects.len() && adds(#[trigger] objects[i], topics, topic);
        let text = objects[i]->Script_0.text;
        law_scripts_add_what_they_name(text, topics, topic);
        let script = lines(text);
        let l = choose|l: int|
            0 <= l < script.len() && (operand(#[trigger] script[l]) matches Some(id) && same(
                topic,
                id,
            ));
        assert(records.contains_key(topic));
        assert(operand(lines(objects[i]->Script_0.text)[l]) is Some);
        assert(is_scripted(objects, topic));
    }
    if records.contains_key(topic) && topic.len() > 0 && is_scripted(objects, topic) {
        let (i, l) = choose|i: int, l: int|
            0 <= i < objects.len() && objects[i] is Script && 0 <= l < lines(
                objects[i]->Script_0.text,
            ).len() && (match #[trigger] operand(lines(objects[i]->Script_0.text)[l]) {
                Some(id) => lower(id) == topic,
                None => false,
            });
        let text = objects[i]->Script_0.text;
        assert(same(topic, operand(lines(text)[l])->0));
        assert(is_named(lines(text), topic));
        law_scripts_add_what_they_name(text, topics, topic);
        assert(adds(objects[i], topics, topic));
    }
}

/// A topic is kept if the plugin has it, if the game itself goes through it, or if it has an id,
/// is in force and a script of the plugin adds it; and just these are the reasons that are given.
pub proof fn law_topics_are_kept_for_their_reasons(
    objects: Seq<ObjectView>,
    records: Map<Seq<char>, GroupView>,
    owned: Map<Seq<char>, Set<Seq<char>>>,
    topic: Seq<char>,
)
    requires
        records.dom().finite(),
        forall|t: Seq<char>| #[trigger] records.contains_key(t) ==> lower(t) == t,
    ensures
        ({
            let kept = live_topics(objects, records, owned);
            let is_added = records.contains_key(topic) && topic.len() > 0 && is_scripted(
                objects,
                topic,
            );
            let is_driven = is_engine_driven(records, topic);
            &&& kept.contains_key(topic) <==> owned.contains_key(topic) || is_driven || is_added
            &&& kept.contains_key(topic) ==> {
                &&& kept[topic].contains(DialogueTopicReason::Starwind) <==> owned.contains_key(
                    topic,
                )
                &&& kept[topic].contains(DialogueTopicReason::Engine) <==> is_driven
                &&& kept[topic].contains(DialogueTopicReason::Script) <==> is_added
            }
        }),
{
    lemma_scripted(objects, records, topic);
}

/// A line of a topic is kept: it is not deleted, its topic is kept, and it is the plugin's own or
/// may be spoken.
pub open spec fn is_kept(case: LivenessView, topic: Seq<char>, info: DialogueInfoView) -> bool {
    &&& !info.deleted
    &&& case.reasons.contains_key(topic)
    &&& is_own(case, topic, info) || may_be_spoken(info, case.actors)
}

/// The line is the plugin's own: it is listed under its topic, in lower case.
pub open spec fn is_own(case: LivenessView, topic: Seq<char>, info: DialogueInfoView) -> bool {
    case.owned.contains_key(topic) && case.owned[topic].contains(lower(info.id))
}

/// The lines that are kept are listed by their ids under their topics, in lower case, and a topic
/// without any is not listed.
pub proof fn law_kept_lines_are_listed(case: LivenessView, topic: Seq<char>, id: Seq<char>)
    ensures
        ({
            let live = live_infos(case);
            &&& live.contains_key(topic) && live[topic].contains(id) <==> case.records.contains_key(
                topic,
            ) && exists|k: int|
                0 <= k < case.records[topic].infos.len() && is_kept(
                    case,
                    topic,
                    #[trigger] case.records[topic].infos[k],
                ) && lower(case.records[topic].infos[k].id) == id
            &&& live.contains_key(topic) <==> case.records.contains_key(topic) && exists|k: int|
                0 <= k < case.records[topic].infos.len() && is_kept(
                    case,
                    topic,
                    #[trigger] case.records[topic].infos[k],
                )
        }),
{
    let live = live_infos(case);
    let infos = case.records[topic].infos;
    let standing = standing_of(case, topic);
    let ids = topic_live_ids(case, topic);
    assert forall|k: int| 0 <= k < infos.len() implies is_live(standing, #[trigger] infos[k])
        == is_kept(case, topic, infos[k]) by {}
    assert forall|k: int| 0 <= k < infos.len() && is_kept(case, topic, #[trigger] infos[k]) implies
        ids.contains(lower(infos[k].id)) by {
        assert(is_live(standing, infos[k]));
        assert(has_live(standing, infos, lower(infos[k].id)));
    }
    assert forall|i: Seq<char>| #[trigger] ids.contains(i) implies exists|k: int|
        0 <= k < infos.len() && is_kept(case, topic, #[trigger] infos[k]) && lower(infos[k].id)
            == i by {
        assert(has_live(standing, infos, i));
        let k = choose|k: int|
            0 <= k < infos.len() && is_live(standing, #[trigger] infos[k]) && lower(infos[k].id)
                == i;
        assert(is_kept(case, topic, infos[k]));
    }
    if ids != Set::<Seq<char>>::empty() {
        assert(exists|i: Seq<char>| #[trigger] ids.contains(i)) by {
            if forall|i: Seq<char>| !(#[trigger] ids.contains(i)) {
                assert(ids =~= Set::empty());
            }
        }
    }
}

/// The case with one more line in a topic.
pub open spec fn with_line(
    case: LivenessView,
    topic: Seq<char>,
    info: DialogueInfoView,
) -> LivenessView {
    LivenessView {
        records: case.records.insert(
            topic,
            GroupView { infos: case.records[topic].infos.push(info), ..case.records[topic] },
        ),
        ..case
    }
}

proof fn lemma_count_more(
    case: LivenessView,
    topic: Seq<char>,
    info: DialogueInfoView,
    tally: Tally,
    topics: Seq<Seq<char>>,
)
    requires
        case.records.contains_key(topic),
        topics.no_duplicates(),
        forall|i: int| 0 <= i < topics.len() ==> case.records.contains_key(#[trigger] topics[i]),
    ensures
        count_topics(with_line(case, topic, info), tally, topics) == count_topics(
            case,
            tally,
            topics,
        ) + (if topics.contains(topic) && counts(standing_of(case, topic), tally, info) {
            1nat
        } else {
            0nat
        }),
    decreases topics.len(),
{
    if topics.len() > 0 {
        let rest = topics.drop_last();
        let last = topics.last();
        let more = with_line(case, topic, info);
        assert forall|i: int| 0 <= i < rest.len() implies case.records.contains_key(
            #[trigger] rest[i],
        ) by {
            assert(rest[i] == topics[i]);
        }
        assert(rest.no_duplicates()) by {
            assert forall|i: int, j: int|
                0 <= i < rest.len() && 0 <= j < rest.len() && i != j implies rest[i] != rest[j] by {
                assert(topics[i] != topics[j]);
            }
        }
        lemma_count_more(case, topic, info, tally, rest);
        assert(standing_of(more, last) == standing_of(case, last));
        if last == topic {
            assert(!rest.contains(topic)) by {
                if rest.contains(topic) {
                    let k = choose|k: int| 0 <= k < rest.len() && rest[k] == topic;
                    assert(topics[k] != topics[topics.len() - 1]);
                }
            }
            assert(topics.contains(topic)) by {
                assert(topics[topics.len() - 1] == topic);
            }
            let infos = case.records[topic].infos;
            assert(infos.push(info).drop_last() =~= infos);
        } else {
            assert(topics.contains(topic) <==> rest.contains(topic)) by {
                if rest.contains(topic) {
                    let k = choose|k: int| 0 <= k < rest.len() && rest[k] == topic;
                    assert(topics[k] == topic);
                }
                if topics.contains(topic) {
                    let k = choose|k: int| 0 <= k < topics.len() && topics[k] == topic;
                    assert(rest[k] == topic);
                }
            }
        }
    }
}

proof fn lemma_total_more(
    case: LivenessView,
    topic: Seq<char>,
    info: DialogueInfoView,
    tally: Tally,
)
    requires
        case.records.dom().finite(),
        case.records.contains_key(topic),
    ensures
        total(with_line(case, topic, info), tally) == total(case, tally) + (if counts(
            standing_of(case, topic),
            tally,
            info,
        ) {
            1nat
        } else {
            0nat
        }),
{
    let topics = sorted(case.records.dom());
    lemma_sorted_lists(case.records.dom());
    assert(with_line(case, topic, info).records.dom() =~= case.records.dom());
    assert(topics.to_set().contains(topic));
    assert forall|i: int| 0 <= i < topics.len() implies case.records.contains_key(
        #[trigger] topics[i],
    ) by {
        assert(topics.to_set().contains(topics[i]));
    }
    assert(topics.no_duplicates()) by {
        assert forall|i: int, j: int|
            0 <= i < topics.len() && 0 <= j < topics.len() && i != j implies topics[i]
            != topics[j] by {
            if topics[i] == topics[j] {
                let (a, b) = if i < j {
                    (i, j)
                } else {
                    (j, i)
                };
                assert(id_less(topics[a], topics[b]));
                lemma_id_less_asymmetric(topics[a], topics[b]);
            }
        }
    }
    lemma_count_more(case, topic, info, tally, topics);
}

proof fn lemma_count_none(case: LivenessView, tally: Tally, topics: Seq<Seq<char>>)
    requires
        forall|i: int|
            0 <= i < topics.len() ==> case.records[#[trigger] topics[i]].infos.len() == 0,
    ensures
        count_topics(case, tally, topics) == 0,
    decreases topics.len(),
{
    if topics.len() > 0 {
        let rest = topics.drop_last();
        assert forall|i: int|
            0 <= i < rest.len() implies case.records[#[trigger] rest[i]].infos.len() == 0 by {
            assert(rest[i] == topics[i]);
        }
        lemma_count_none(case, tally, rest);
        assert(case.records[topics[topics.len() - 1]].infos.len() == 0);
    }
}

/// Where there are no lines, nothing is counted.
pub proof fn law_no_lines_count_nothing(case: LivenessView)
    requires
        case.records.dom().finite(),
        forall|t: Seq<char>| #[trigger]
            case.records.contains_key(t) ==> case.records[t].infos.len() == 0,
    ensures
        account(case).effective == 0,
        account(case).owned == 0,
        account(case).retained == 0,
        account(case).pruned == 0,
        forall|name: Seq<char>| !(#[trigger] account(case).kept.contains_key(name)),
        forall|t: Seq<char>| !(#[trigger] account(case).topics.contains_key(t)),
{
    let topics = sorted(case.records.dom());
    lemma_sorted_lists(case.records.dom());
    assert forall|i: int|
        0 <= i < topics.len() implies case.records[#[trigger] topics[i]].infos.len() == 0 by {
        assert(topics.to_set().contains(topics[i]));
    }
    lemma_count_none(case, Tally::Effective, topics);
    lemma_count_none(case, Tally::Owned, topics);
    lemma_count_none(case, Tally::Retained, topics);
    lemma_count_none(case, Tally::Pruned, topics);
    assert forall|name: Seq<char>| !(#[trigger] account(case).kept.contains_key(name)) by {
        lemma_count_none(case, Tally::Kept(name), topics);
    }
}

/// One more line counts as effective unless it is deleted; as owned if it is the plugin's own; if
/// not, as retained where its topic is kept and it may be spoken, and as pruned otherwise. For each
/// reason why a line is retained it counts once.
pub proof fn law_lines_are_counted_one_by_one(
    case: LivenessView,
    topic: Seq<char>,
    info: DialogueInfoView,
    name: Seq<char>,
)
    requires
        case.records.dom().finite(),
        case.records.contains_key(topic),
    ensures
        ({
            let before = account(case);
            let after = account(with_line(case, topic, info));
            let own = is_own(case, topic, info);
            let kept = case.reasons.contains_key(topic) && may_be_spoken(info, case.actors);
            let one_if = |b: bool|
                if b {
                    1int
                } else {
                    0int
                };
            let reasons = keep_reasons(
                case.reasons[topic],
                case.records[topic].dialogue_type,
                info,
            );
            let old_count = if before.kept.contains_key(name) {
                before.kept[name] as int
            } else {
                0
            };
            let new_count = if after.kept.contains_key(name) {
                after.kept[name] as int
            } else {
                0
            };
            &&& after.effective == before.effective + one_if(!info.deleted)
            &&& after.owned == before.owned + one_if(!info.deleted && own)
            &&& after.retained == before.retained + one_if(!info.deleted && !own && kept)
            &&& after.pruned == before.pruned + one_if(!info.deleted && !own && !kept)
            &&& new_count == old_count + one_if(
                !info.deleted && !own && kept && reasons.contains(name),
            )
            &&& after.kept.contains_key(name) <==> new_count > 0
            &&& after.topics == before.topics
        }),
{
    lemma_total_more(case, topic, info, Tally::Effective);
    lemma_total_more(case, topic, info, Tally::Owned);
    lemma_total_more(case, topic, info, Tally::Retained);
    lemma_total_more(case, topic, info, Tally::Pruned);
    lemma_total_more(case, topic, info, Tally::Kept(name));
}

/// The names under which a line of the masters that is retained is counted, each with what it asks
/// for, and no others.
pub proof fn law_reasons_to_retain_a_line(
    reasons: Set<DialogueTopicReason>,
    dialogue_type: DialogueType2,
    info: DialogueInfoView,
    name: Seq<char>,
)
    ensures
        ({
            let names = keep_reasons(reasons, dialogue_type, info);
            &&& names.contains("VANILLA_ENGINE_TOPIC_GENERIC"@) <==> info.speaker_id.len() == 0
                && info.speaker_race.len() == 0 && info.speaker_class.len() == 0
                && info.speaker_faction.len() == 0 && (dialogue_type == DialogueType2::Greeting
                || dialogue_type == DialogueType2::Voice || dialogue_type
                == DialogueType2::Persuasion)
            &&& names.contains("VANILLA_MATCHING_SPEAKER_ID"@) <==> info.speaker_id.len() > 0
            &&& names.contains("VANILLA_MATCHING_RACE"@) <==> info.speaker_race.len() > 0
            &&& names.contains("VANILLA_MATCHING_CLASS"@) <==> info.speaker_class.len() > 0
            &&& names.contains("VANILLA_FACTION_UNKNOWN"@) <==> info.speaker_faction.len() > 0
            &&& names.contains("VANILLA_SCRIPT_TOPIC"@) <==> reasons.contains(
                DialogueTopicReason::Script,
            )
            &&& names.contains("VANILLA_DIALOGUE_TOPIC"@) <==> reasons.contains(
                DialogueTopicReason::Starwind,
            )
            &&& names.contains(name) ==> name == "VANILLA_ENGINE_TOPIC_GENERIC"@ || name
                == "VANILLA_MATCHING_SPEAKER_ID"@ || name == "VANILLA_MATCHING_RACE"@ || name
                == "VANILLA_MATCHING_CLASS"@ || name == "VANILLA_FACTION_UNKNOWN"@ || name
                == "VANILLA_SCRIPT_TOPIC"@ || name == "VANILLA_DIALOGUE_TOPIC"@
        }),
{
    reveal_strlit("VANILLA_ENGINE_TOPIC_GENERIC");
    reveal_strlit("VANILLA_MATCHING_SPEAKER_ID");
    reveal_strlit("VANILLA_MATCHING_RACE");
    reveal_strlit("VANILLA_MATCHING_CLASS");
    reveal_strlit("VANILLA_FACTION_UNKNOWN");
    reveal_strlit("VANILLA_SCRIPT_TOPIC");
    reveal_strlit("VANILLA_DIALOGUE_TOPIC");
    assert("VANILLA_ENGINE_TOPIC_GENERIC"@.len() == 28);
    assert("VANILLA_MATCHING_SPEAKER_ID"@.len() == 27);
    assert("VANILLA_MATCHING_RACE"@.len() == 21);
    assert("VANILLA_MATCHING_CLASS"@.len() == 22);
    assert("VANILLA_FACTION_UNKNOWN"@.len() == 23);
    assert("VANILLA_SCRIPT_TOPIC"@.len() == 20);
    assert("VANILLA_DIALOGUE_TOPIC"@.len() == 22);
    assert("VANILLA_MATCHING_CLASS"@[8] == 'M');
    assert("VANILLA_DIALOGUE_TOPIC"@[8] == 'D');
}

} // verus!
