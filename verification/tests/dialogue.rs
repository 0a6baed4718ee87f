//! Writing the dialogue of a plugin anew.

use std::collections::HashSet;

use add_vanilla_refs::dialogue_group::DialogueGroup;
use add_vanilla_refs::imports::add_vanilla_refs;
use add_vanilla_refs::rebuild::decouple_dialogue_infos;
use add_vanilla_refs::records::{
    Dialogue, DialogueInfo, DialogueType2, Faction, Filter, Npc, Plugin, Script, TES3Object,
};
use add_vanilla_refs::references::collect_defined_ids;

fn dialogue(id: &str) -> TES3Object {
    TES3Object::Dialogue(Dialogue {
        id: id.to_string(),
        ..Default::default()
    })
}

fn dialogue_with_type(id: &str, dialogue_type: DialogueType2) -> TES3Object {
    TES3Object::Dialogue(Dialogue {
        id: id.to_string(),
        dialogue_type,
        ..Default::default()
    })
}

fn dialogue_info(id: &str, previous: &str, next: &str) -> TES3Object {
    TES3Object::DialogueInfo(dialogue_info_value(id, previous, next))
}

fn dialogue_info_with_speaker(
    id: &str,
    previous: &str,
    next: &str,
    speaker_id: &str,
) -> TES3Object {
    let mut info = dialogue_info_value(id, previous, next);
    info.speaker_id = speaker_id.to_string();
    TES3Object::DialogueInfo(info)
}

fn dialogue_info_value(id: &str, previous: &str, next: &str) -> DialogueInfo {
    DialogueInfo {
        id: id.to_string(),
        prev_id: previous.to_string(),
        next_id: next.to_string(),
        ..Default::default()
    }
}

fn dialogue_info_with_constraints(
    id: &str,
    speaker_id: &str,
    race: &str,
    class: &str,
    faction: &str,
) -> TES3Object {
    TES3Object::DialogueInfo(DialogueInfo {
        id: id.to_string(),
        speaker_id: speaker_id.to_string(),
        speaker_race: race.to_string(),
        speaker_class: class.to_string(),
        speaker_faction: faction.to_string(),
        ..Default::default()
    })
}

fn has_id(plugin: &Plugin, id: &str) -> bool {
    plugin
        .objects
        .iter()
        .any(|object| object.editor_id().eq_ignore_ascii_case(id))
}

fn infos_of(plugin: &Plugin) -> Vec<&DialogueInfo> {
    plugin
        .objects
        .iter()
        .filter_map(|object| match object {
            TES3Object::DialogueInfo(info) => Some(info),
            _ => None,
        })
        .collect()
}

#[test]
fn dialogue_links_skip_removed_vanilla_infos() {
    let mut usable_vanilla_info = dialogue_info("V2", "V1", "V3");
    if let TES3Object::DialogueInfo(info) = &mut usable_vanilla_info {
        info.speaker_cell = "MissingCell".to_string();
    }
    let masters = vec![Plugin {
        objects: vec![
            dialogue("Topic"),
            dialogue_info_with_speaker("V1", "", "V2", "missing_actor"),
            usable_vanilla_info,
            dialogue_info_with_speaker("V3", "V2", "", "missing_actor"),
        ],
    }];
    let mut first_starwind_info = dialogue_info("S1", "", "V1");
    if let TES3Object::DialogueInfo(info) = &mut first_starwind_info {
        info.speaker_cell = "VanillaCell".to_string();
        info.filters = vec![Filter {
            id: "filter_operand".to_string(),
            ..Default::default()
        }];
    }
    let mut plugin = Plugin {
        objects: vec![
            dialogue("Topic"),
            first_starwind_info,
            dialogue_info("S2", "V2", "V3"),
            dialogue_info("S3", "V3", ""),
        ],
    };

    decouple_dialogue_infos(&mut plugin, &masters);

    let infos: Vec<_> = infos_of(&plugin)
        .into_iter()
        .map(|info| {
            (
                info.id.as_str(),
                info.prev_id.as_str(),
                info.next_id.as_str(),
            )
        })
        .collect();
    assert_eq!(
        infos,
        vec![
            ("S1", "", "V2"),
            ("V2", "S1", "S2"),
            ("S2", "V2", "S3"),
            ("S3", "S2", ""),
        ]
    );
    let first_info = infos_of(&plugin)[0];
    assert_eq!(first_info.speaker_cell, "VanillaCell");
    assert_eq!(first_info.filters[0].id, "filter_operand");
}

#[test]
fn live_vanilla_only_topic_is_materialized() {
    let masters = vec![Plugin {
        objects: vec![
            dialogue("VanillaTopic"),
            dialogue_info("VanillaInfo", "", ""),
            dialogue("Ship"),
            dialogue_info("ShipInfo", "", ""),
        ],
    }];
    let mut plugin = Plugin {
        objects: vec![TES3Object::Script(Script {
            id: "starwind_script".to_string(),
            text: "AddTopic \"VanillaTopic\"".to_string(),
            ..Default::default()
        })],
    };

    decouple_dialogue_infos(&mut plugin, &masters);

    assert!(has_id(&plugin, "VanillaTopic"));
    assert!(has_id(&plugin, "VanillaInfo"));
    assert!(!has_id(&plugin, "Ship"));
    assert!(!has_id(&plugin, "ShipInfo"));
}

#[test]
fn dialogue_text_does_not_materialize_vanilla_topics() {
    let mut price_info = dialogue_info("PriceInfo", "", "");
    if let TES3Object::DialogueInfo(info) = &mut price_info {
        info.text = "VanillaB".to_string();
    }
    let masters = vec![Plugin {
        objects: vec![
            dialogue("Price on Your Head"),
            price_info,
            dialogue("VanillaB"),
            dialogue_info("VanillaBInfo", "", ""),
        ],
    }];
    let mut starwind_info = dialogue_info("StarwindInfo", "", "");
    if let TES3Object::DialogueInfo(info) = &mut starwind_info {
        info.text = "price on your head; VanillaB".to_string();
    }
    let mut plugin = Plugin {
        objects: vec![dialogue("StarwindTopic"), starwind_info],
    };

    decouple_dialogue_infos(&mut plugin, &masters);

    assert!(!has_id(&plugin, "Price on Your Head"));
    assert!(!has_id(&plugin, "PriceInfo"));
    assert!(!has_id(&plugin, "VanillaB"));
    assert!(!has_id(&plugin, "VanillaBInfo"));
}

#[test]
fn dialogue_materialization_dependencies_are_resolved_by_second_pass() {
    let base_plugins = vec![Plugin {
        objects: vec![
            dialogue_with_type("Topic", DialogueType2::Voice),
            dialogue_info_with_constraints("VanillaInfo", "", "", "", "Morag Tong"),
            TES3Object::Faction(Faction {
                id: "Morag Tong".to_string(),
                ..Default::default()
            }),
        ],
    }];
    let mut plugin = Plugin::default();
    let mut defined_ids = collect_defined_ids(&plugin);
    let mut defined_effects = HashSet::new();

    add_vanilla_refs(
        &mut plugin,
        &base_plugins,
        &mut defined_ids,
        &mut defined_effects,
        "post-dialogue",
    );
    decouple_dialogue_infos(&mut plugin, &base_plugins);

    assert!(has_id(&plugin, "VanillaInfo"));
    assert!(!has_id(&plugin, "Morag Tong"));

    add_vanilla_refs(
        &mut plugin,
        &base_plugins,
        &mut defined_ids,
        &mut defined_effects,
        "post-dialogue",
    );

    assert!(has_id(&plugin, "Morag Tong"));
}

#[test]
fn engine_driven_voice_topic_is_materialized() {
    let masters = vec![Plugin {
        objects: vec![
            dialogue_with_type("EngineVoice", DialogueType2::Voice),
            dialogue_info("VanillaVoiceInfo", "", ""),
        ],
    }];
    let mut plugin = Plugin::default();

    decouple_dialogue_infos(&mut plugin, &masters);

    assert!(has_id(&plugin, "EngineVoice"));
    assert!(has_id(&plugin, "VanillaVoiceInfo"));
}

#[test]
fn matching_actor_constraints_retain_vanilla_info() {
    let masters = vec![Plugin {
        objects: vec![
            dialogue("Topic"),
            dialogue_info_with_constraints("VanillaInfo", "", "Nord", "Warrior", ""),
        ],
    }];
    let mut plugin = Plugin {
        objects: vec![
            TES3Object::Npc(Npc {
                id: "speaker".to_string(),
                race: "Nord".to_string(),
                class: "Warrior".to_string(),
                ..Default::default()
            }),
            dialogue("Topic"),
            dialogue_info("StarwindInfo", "", ""),
        ],
    };

    decouple_dialogue_infos(&mut plugin, &masters);

    assert!(has_id(&plugin, "VanillaInfo"));
}

#[test]
fn incompatible_actor_constraints_prune_vanilla_info() {
    let masters = vec![Plugin {
        objects: vec![
            dialogue("Topic"),
            dialogue_info_with_constraints("VanillaInfo", "", "Dunmer", "Warrior", ""),
        ],
    }];
    let mut plugin = Plugin {
        objects: vec![
            TES3Object::Npc(Npc {
                id: "speaker".to_string(),
                race: "Nord".to_string(),
                class: "Warrior".to_string(),
                ..Default::default()
            }),
            dialogue("Topic"),
            dialogue_info("StarwindInfo", "", ""),
        ],
    };

    decouple_dialogue_infos(&mut plugin, &masters);

    assert!(!has_id(&plugin, "VanillaInfo"));
}

#[test]
fn impossible_speaker_id_prunes_info_even_with_unknown_faction() {
    let masters = vec![Plugin {
        objects: vec![
            dialogue("Topic"),
            dialogue_info_with_constraints(
                "VanillaInfo",
                "missing_speaker",
                "",
                "",
                "some_faction",
            ),
        ],
    }];
    let mut plugin = Plugin {
        objects: vec![dialogue("Topic"), dialogue_info("StarwindInfo", "", "")],
    };

    decouple_dialogue_infos(&mut plugin, &masters);

    assert!(!has_id(&plugin, "VanillaInfo"));
}

#[test]
fn dialogue_group_matches_ids_case_insensitively() {
    let mut group = DialogueGroup::default();
    group.insert_info(dialogue_info_value("First", "", ""));
    group.insert_info(dialogue_info_value("Third", "First", ""));
    group.insert_info(dialogue_info_value("second", "first", ""));

    assert_eq!(
        group
            .infos
            .iter()
            .map(|info| info.id.as_str())
            .collect::<Vec<_>>(),
        vec!["First", "second", "Third"]
    );

    group.insert_info(dialogue_info_value("FIRST", "", ""));
    assert_eq!(group.infos.len(), 3);
    assert_eq!(group.infos[0].id, "FIRST");
}

#[test]
fn dialogue_group_moves_existing_info_using_openmw_insertion_point() {
    let mut group = DialogueGroup::default();
    group.insert_info(dialogue_info_value("First", "", ""));
    group.insert_info(dialogue_info_value("Second", "First", ""));

    group.insert_info(dialogue_info_value("First", "First", ""));

    assert_eq!(
        group
            .infos
            .iter()
            .map(|info| info.id.as_str())
            .collect::<Vec<_>>(),
        vec!["First", "Second"]
    );
}

#[test]
fn starwind_dialogue_shell_is_preserved_without_live_infos() {
    let masters = vec![Plugin {
        objects: vec![dialogue("DeadTopic")],
    }];
    let mut plugin = Plugin {
        objects: vec![
            dialogue("DeadTopic"),
            dialogue("LiveTopic"),
            dialogue_info("LiveInfo", "", ""),
        ],
    };

    decouple_dialogue_infos(&mut plugin, &masters);

    assert!(has_id(&plugin, "DeadTopic"));
    assert!(has_id(&plugin, "LiveTopic"));
    assert!(has_id(&plugin, "LiveInfo"));
}

#[test]
fn deleted_dialogue_info_suppresses_parent_without_serializing_tombstone() {
    let mut deleted_info = dialogue_info_value("VanillaInfo", "", "");
    deleted_info.deleted = true;
    let base_plugins = vec![Plugin {
        objects: vec![dialogue("Topic"), dialogue_info("VanillaInfo", "", "")],
    }];
    let mut plugin = Plugin {
        objects: vec![dialogue("Topic"), TES3Object::DialogueInfo(deleted_info)],
    };

    decouple_dialogue_infos(&mut plugin, &base_plugins);

    assert!(has_id(&plugin, "Topic"));
    assert_eq!(infos_of(&plugin).len(), 0);
}

#[test]
fn duplicate_dialogue_shell_is_serialized_once() {
    let mut plugin = Plugin {
        objects: vec![
            dialogue("Topic"),
            dialogue_info("Info", "", ""),
            dialogue("Topic"),
        ],
    };

    decouple_dialogue_infos(&mut plugin, &[]);

    assert_eq!(
        plugin
            .objects
            .iter()
            .filter(|object| matches!(object, TES3Object::Dialogue(_)))
            .count(),
        1
    );
    assert_eq!(infos_of(&plugin).len(), 1);
}
