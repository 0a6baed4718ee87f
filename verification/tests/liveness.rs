//! Which topics and lines are kept, and the account of them.

use add_vanilla_refs::audit::{add_dialogue_keep_reasons, DialogueAudit};
use add_vanilla_refs::dialogue_group::DialogueGroup;
use add_vanilla_refs::dialogue_records::{collect_dialogue_ids, collect_effective_dialogue_records};
use add_vanilla_refs::line_counts::can_count_records;
use add_vanilla_refs::live_infos::collect_live_dialogue_infos;
use add_vanilla_refs::live_topics::collect_live_dialogue_topics;
use add_vanilla_refs::population::{
    collect_dialogue_population, info_can_match_actor, report_dialogue_population, DialogueActor,
    DialoguePopulation,
};
use add_vanilla_refs::rebuild::decouple_dialogue_infos;
use add_vanilla_refs::records::{
    Creature, Dialogue, DialogueInfo, DialogueType2, Npc, Plugin, Script, TES3Object,
};
use add_vanilla_refs::topic_reasons::{DialogueTopicReason, ReasonSet};

fn text(s: &str) -> String {
    s.to_string()
}

fn topic(id: &str, dialogue_type: DialogueType2) -> TES3Object {
    TES3Object::Dialogue(Dialogue {
        id: text(id),
        dialogue_type,
        ..Default::default()
    })
}

fn line(id: &str, speaker_id: &str, race: &str, class: &str, faction: &str) -> DialogueInfo {
    DialogueInfo {
        id: text(id),
        speaker_id: text(speaker_id),
        speaker_race: text(race),
        speaker_class: text(class),
        speaker_faction: text(faction),
        ..Default::default()
    }
}

fn info(id: &str, speaker_id: &str, race: &str, class: &str, faction: &str) -> TES3Object {
    TES3Object::DialogueInfo(line(id, speaker_id, race, class, faction))
}

fn script(source: &str) -> TES3Object {
    TES3Object::Script(Script {
        id: text("script"),
        text: text(source),
        ..Default::default()
    })
}

fn person(id: &str, race: &str, class: &str) -> TES3Object {
    TES3Object::Npc(Npc {
        id: text(id),
        race: text(race),
        class: text(class),
        ..Default::default()
    })
}

fn kept_reasons(audit: &DialogueAudit) -> Vec<(String, usize)> {
    let reasons = &audit.keep_reasons;
    (0..reasons.len()).map(|i| (reasons.key_at(i).clone(), *reasons.value_at(i))).collect()
}

#[test]
fn reasons_have_names() {
    assert_eq!(DialogueTopicReason::Starwind.name(), "StarwindTopic");
    assert_eq!(DialogueTopicReason::Engine.name(), "EngineTopic");
    assert_eq!(DialogueTopicReason::Script.name(), "ScriptTopic");
}

#[test]
fn the_population_is_that_of_the_records_that_stay() {
    let mut gone = person("Gone", "Nord", "Bard");
    if let TES3Object::Npc(npc) = &mut gone {
        npc.deleted = true;
    }
    let mut woman = person("Ada", "Dunmer", "Scout");
    if let TES3Object::Npc(npc) = &mut woman {
        npc.female = true;
    }
    let plugin = Plugin {
        objects: vec![
            gone,
            woman,
            TES3Object::Creature(Creature {
                id: text("Guar"),
                ..Default::default()
            }),
            person("Bob", "Nord", ""),
        ],
    };
    let population = collect_dialogue_population(&plugin);
    let actors: Vec<_> = population
        .actors
        .iter()
        .map(|actor| (actor.id.as_str(), actor.race.as_str(), actor.class.as_str()))
        .collect();
    assert_eq!(
        actors,
        vec![("ada", "dunmer", "scout"), ("guar", "", ""), ("bob", "nord", "")]
    );
    let told: Vec<_> = report_dialogue_population(&plugin)
        .into_iter()
        .map(|actor| (actor.tag, actor.id, actor.race, actor.class, actor.sex))
        .collect();
    assert_eq!(
        told,
        vec![
            ("Npc", text("Ada"), text("Dunmer"), text("Scout"), "female"),
            ("Creature", text("Guar"), text(""), text(""), ""),
            ("Npc", text("Bob"), text("Nord"), text(""), "male"),
        ]
    );
}

#[test]
fn one_actor_must_have_all_that_a_line_asks_for() {
    let actor = |id: &str, race: &str, class: &str| DialogueActor {
        id: text(id),
        race: text(race),
        class: text(class),
    };
    let population = DialoguePopulation {
        actors: vec![actor("ada", "dunmer", "scout"), actor("bob", "nord", "bard")],
    };
    let nobody = DialoguePopulation { actors: vec![] };
    assert!(info_can_match_actor(&line("", "ADA", "", "", ""), &population));
    assert!(info_can_match_actor(&line("", "", "Nord", "Bard", ""), &population));
    assert!(!info_can_match_actor(&line("", "", "Nord", "Scout", ""), &population));
    assert!(!info_can_match_actor(&line("", "ada", "nord", "", ""), &population));
    assert!(!info_can_match_actor(&line("", "", "", "pauper", "any"), &population));
    // A faction excludes nobody, and a line that asks for nothing is for everybody.
    assert!(info_can_match_actor(&line("", "", "", "", "any"), &nobody));
    assert!(info_can_match_actor(&line("", "", "", "", ""), &nobody));
    assert!(!info_can_match_actor(&line("", "ada", "", "", ""), &nobody));
}

#[test]
fn topics_are_kept_for_their_reasons() {
    let masters = vec![Plugin {
        objects: vec![
            topic("Greeting 0", DialogueType2::Greeting),
            topic("Attack", DialogueType2::Voice),
            topic("Admire Success", DialogueType2::Persuasion),
            topic("Quest", DialogueType2::Journal),
            topic("Scripted", DialogueType2::Topic),
            topic("Idle", DialogueType2::Topic),
        ],
    }];
    let plugin = Plugin {
        objects: vec![
            topic("Own", DialogueType2::Topic),
            topic("ATTACK", DialogueType2::Voice),
            script("AddTopic scripted\nAddTopic own\nAddTopic unknown\nAddTopic \"\""),
        ],
    };
    let records = collect_effective_dialogue_records(&plugin, &masters);
    let ids = collect_dialogue_ids(&plugin);
    let live = collect_live_dialogue_topics(&plugin, &records, &ids);
    let kept: Vec<_> = (0..live.len())
        .map(|i| {
            let reasons = live.value_at(i);
            (
                live.key_at(i).as_str(),
                reasons.contains(DialogueTopicReason::Starwind),
                reasons.contains(DialogueTopicReason::Engine),
                reasons.contains(DialogueTopicReason::Script),
            )
        })
        .collect();
    assert_eq!(
        kept,
        vec![
            ("admire success", false, true, false),
            ("attack", true, true, false),
            ("greeting 0", false, true, false),
            ("own", true, false, true),
            ("scripted", false, false, true),
        ]
    );
}

#[test]
fn the_account_adds_up() {
    let masters = vec![Plugin {
        objects: vec![
            topic("Hello", DialogueType2::Greeting),
            info("h1", "", "", "", ""),
            info("h2", "missing", "", "", ""),
            info("h3", "", "nord", "", "guild"),
            topic("Scripted", DialogueType2::Topic),
            info("s1", "ada", "nord", "bard", ""),
            topic("Idle", DialogueType2::Topic),
            info("i1", "", "", "", ""),
            info("i2", "", "", "", ""),
        ],
    }];
    let mut removed = line("h1", "", "", "", "");
    removed.id = text("x1");
    removed.deleted = true;
    let plugin = Plugin {
        objects: vec![
            person("Ada", "Nord", "Bard"),
            topic("Hello", DialogueType2::Greeting),
            info("own", "missing", "", "", ""),
            TES3Object::DialogueInfo(removed),
            script("AddTopic scripted"),
        ],
    };
    let records = collect_effective_dialogue_records(&plugin, &masters);
    let ids = collect_dialogue_ids(&plugin);
    let topics = collect_live_dialogue_topics(&plugin, &records, &ids);
    let population = collect_dialogue_population(&plugin);
    let (live, audit) = collect_live_dialogue_infos(&records, &ids, &topics, &population);
    assert_eq!(audit.effective_infos, 7);
    assert_eq!(audit.starwind_owned_infos, 1);
    assert_eq!(audit.retained_vanilla_infos, 3);
    assert_eq!(audit.pruned_vanilla_infos, 3);
    assert_eq!(
        audit.effective_infos,
        audit.starwind_owned_infos + audit.retained_vanilla_infos + audit.pruned_vanilla_infos
    );
    assert_eq!(
        kept_reasons(&audit),
        vec![
            (text("VANILLA_DIALOGUE_TOPIC"), 2),
            (text("VANILLA_ENGINE_TOPIC_GENERIC"), 1),
            (text("VANILLA_FACTION_UNKNOWN"), 1),
            (text("VANILLA_MATCHING_CLASS"), 1),
            (text("VANILLA_MATCHING_RACE"), 2),
            (text("VANILLA_MATCHING_SPEAKER_ID"), 1),
            (text("VANILLA_SCRIPT_TOPIC"), 1),
        ]
    );
    assert_eq!(live.len(), 2);
    let hello = live.get("hello").unwrap();
    assert!(hello.contains("h1") && hello.contains("h3") && hello.contains("own"));
    assert_eq!(hello.len(), 3);
    assert!(live.get("scripted").unwrap().contains("s1"));
    assert!(live.get("idle").is_none());
}

#[test]
fn reasons_are_counted() {
    let mut audit = DialogueAudit::default();
    audit.add_reason("b");
    audit.add_reason("a");
    audit.add_reason("b");
    assert_eq!(kept_reasons(&audit), vec![(text("a"), 1), (text("b"), 2)]);
    assert_eq!(audit.effective_infos, 0);
}

#[test]
fn a_generic_line_counts_as_such_only_in_a_topic_of_the_game() {
    let mut group = DialogueGroup::default();
    let generic = line("x", "", "", "", "");
    let mut audit = DialogueAudit::default();
    add_dialogue_keep_reasons(&mut audit, None, &group, &generic);
    assert!(kept_reasons(&audit).is_empty());
    for dialogue_type in [
        DialogueType2::Greeting,
        DialogueType2::Voice,
        DialogueType2::Persuasion,
        DialogueType2::Journal,
    ] {
        group.dialogue_type = dialogue_type;
        add_dialogue_keep_reasons(&mut audit, None, &group, &generic);
    }
    assert_eq!(kept_reasons(&audit), vec![(text("VANILLA_ENGINE_TOPIC_GENERIC"), 3)]);
    let mut reasons = ReasonSet::new();
    reasons.insert(DialogueTopicReason::Engine);
    add_dialogue_keep_reasons(&mut audit, Some(&reasons), &group, &line("y", "", "", "", "f"));
    assert_eq!(
        kept_reasons(&audit),
        vec![(text("VANILLA_ENGINE_TOPIC_GENERIC"), 3), (text("VANILLA_FACTION_UNKNOWN"), 1)]
    );
}

#[test]
fn a_copied_topic_is_noted_with_its_reasons_in_order() {
    let mut reasons = ReasonSet::new();
    reasons.insert(DialogueTopicReason::Starwind);
    reasons.insert(DialogueTopicReason::Script);
    reasons.insert(DialogueTopicReason::Engine);
    let mut audit = DialogueAudit::default();
    audit.add_materialized_topic("topic", 4, Some(&reasons));
    audit.add_materialized_topic("another", 0, None);
    let noted = &audit.materialized_vanilla_topics;
    assert_eq!(noted.len(), 2);
    assert_eq!(noted.get("topic").unwrap().live_infos, 4);
    assert_eq!(
        noted.get("topic").unwrap().reasons,
        vec!["EngineTopic", "ScriptTopic", "StarwindTopic"]
    );
    assert!(noted.get("another").unwrap().reasons.is_empty());
}

#[test]
fn copied_topics_are_noted_in_the_account() {
    let masters = vec![Plugin {
        objects: vec![
            topic("Zeta", DialogueType2::Voice),
            info("z1", "", "", "", ""),
            info("z2", "", "", "", ""),
            topic("Alpha", DialogueType2::Topic),
            info("a1", "", "", "", ""),
            topic("Empty", DialogueType2::Voice),
        ],
    }];
    let mut plugin = Plugin {
        objects: vec![script("AddTopic alpha")],
    };
    assert!(can_count_records(&plugin, &masters));
    let audit = decouple_dialogue_infos(&mut plugin, &masters);
    let noted = &audit.materialized_vanilla_topics;
    assert_eq!(noted.len(), 2);
    assert_eq!(noted.key_at(0), "alpha");
    assert_eq!(noted.value_at(0).reasons, vec!["ScriptTopic"]);
    assert_eq!(noted.value_at(1).live_infos, 2);
    assert_eq!(noted.value_at(1).reasons, vec!["EngineTopic"]);
    let ids: Vec<_> = plugin.objects.iter().map(|object| object.editor_id()).collect();
    assert_eq!(ids, vec!["script", "Alpha", "a1", "Zeta", "z2", "z1"]);
}
