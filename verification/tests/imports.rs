//! Copying what a plugin needs from its masters.

use std::collections::HashSet;

use add_vanilla_refs::cleanup::{remove_exact_duplicate_magic_effects, strip_deleted_records};
use add_vanilla_refs::imports::{add_vanilla_refs, add_vanilla_refs_without_dialogue};
use add_vanilla_refs::records::{
    AiEscortPackage, AiFollowPackage, AiPackage, Dialogue, DialogueInfo, EffectId, Filter,
    MagicEffect, MiscItem, Npc, Plugin, Race, Spell, Static, TES3Object,
};
use add_vanilla_refs::references::{collect_defined_ids, collect_required_ids};

const WATER_BREATHING: EffectId = 0;

fn misc_item(id: &str, script: &str) -> TES3Object {
    TES3Object::MiscItem(MiscItem {
        id: id.to_string(),
        script: script.to_string(),
        ..Default::default()
    })
}

fn dialogue(id: &str) -> TES3Object {
    TES3Object::Dialogue(Dialogue {
        id: id.to_string(),
        ..Default::default()
    })
}

fn dialogue_info_with_speaker(
    id: &str,
    previous: &str,
    next: &str,
    speaker_id: &str,
) -> TES3Object {
    let mut info = dialogue_info_value(id, previous, next);
    info.speaker_id = speaker_id.to_string();
    TES3Object::DialogueInfo(info)
}

fn dialogue_info_value(id: &str, previous: &str, next: &str) -> DialogueInfo {
    DialogueInfo {
        id: id.to_string(),
        prev_id: previous.to_string(),
        next_id: next.to_string(),
        ..Default::default()
    }
}

fn has_id(plugin: &Plugin, id: &str) -> bool {
    plugin
        .objects
        .iter()
        .any(|object| object.editor_id().eq_ignore_ascii_case(id))
}

fn effects(plugin: &Plugin) -> Vec<&MagicEffect> {
    plugin
        .objects
        .iter()
        .filter_map(|object| match object {
            TES3Object::MagicEffect(effect) => Some(effect),
            _ => None,
        })
        .collect()
}

#[test]
fn imported_records_are_resolved_transitively() {
    let mut plugin = Plugin::default();
    plugin.objects.push(misc_item("root", "first_dependency"));

    let bloodmoon = Plugin {
        objects: vec![misc_item("first_dependency", "second_dependency")],
    };
    let tribunal = Plugin {
        objects: vec![misc_item("second_dependency", "third_dependency")],
    };
    let morrowind = Plugin {
        objects: vec![misc_item("third_dependency", "")],
    };
    let masters = vec![bloodmoon, tribunal, morrowind];
    let mut defined_ids = collect_defined_ids(&plugin);
    let mut defined_effects = HashSet::new();

    add_vanilla_refs(
        &mut plugin,
        &masters,
        &mut defined_ids,
        &mut defined_effects,
        "post-dialogue",
    );

    assert!(has_id(&plugin, "first_dependency"));
    assert!(has_id(&plugin, "second_dependency"));
    assert!(has_id(&plugin, "third_dependency"));
}

#[test]
fn first_closure_defers_dialogue_info_dependencies() {
    let mut plugin = Plugin {
        objects: vec![
            dialogue("Topic"),
            dialogue_info_with_speaker("Info", "", "", "vanilla_speaker"),
        ],
    };
    let masters = vec![Plugin {
        objects: vec![misc_item("vanilla_speaker", "")],
    }];
    let mut defined_ids = collect_defined_ids(&plugin);
    let mut defined_effects = HashSet::new();

    add_vanilla_refs_without_dialogue(
        &mut plugin,
        &masters,
        &mut defined_ids,
        &mut defined_effects,
        "pre-dialogue",
    );

    assert!(!has_id(&plugin, "vanilla_speaker"));

    add_vanilla_refs(
        &mut plugin,
        &masters,
        &mut defined_ids,
        &mut defined_effects,
        "post-dialogue",
    );

    assert!(has_id(&plugin, "vanilla_speaker"));
}

#[test]
fn deleted_records_do_not_contribute_dependencies_or_serialize() {
    let mut deleted = misc_item("deleted_record", "unwanted_dependency");
    if let TES3Object::MiscItem(item) = &mut deleted {
        item.deleted = true;
    }
    let mut plugin = Plugin {
        objects: vec![deleted],
    };
    let masters = vec![Plugin {
        objects: vec![misc_item("unwanted_dependency", "")],
    }];
    let mut defined_ids = collect_defined_ids(&plugin);
    let mut defined_effects = HashSet::new();

    add_vanilla_refs(
        &mut plugin,
        &masters,
        &mut defined_ids,
        &mut defined_effects,
        "post-dialogue",
    );

    assert!(!has_id(&plugin, "unwanted_dependency"));
    strip_deleted_records(&mut plugin);
    assert!(plugin.objects.is_empty());
}

#[test]
fn exact_duplicate_magic_effects_are_removed() {
    let effect = TES3Object::MagicEffect(MagicEffect {
        id: "WaterBreathing".to_string(),
        effect_id: WATER_BREATHING,
        ..Default::default()
    });
    let mut plugin = Plugin {
        objects: vec![effect.clone(), effect],
    };

    remove_exact_duplicate_magic_effects(&mut plugin);

    assert_eq!(effects(&plugin).len(), 1);
}

#[test]
fn required_records_keep_bloodmoon_precedence() {
    let mut plugin = Plugin::default();
    plugin.objects.push(misc_item("root", "shared_dependency"));

    let bloodmoon = Plugin {
        objects: vec![
            misc_item("shared_dependency", "bloodmoon_leaf"),
            misc_item("bloodmoon_leaf", ""),
        ],
    };
    let tribunal = Plugin {
        objects: vec![misc_item("shared_dependency", "tribunal_leaf")],
    };
    let masters = vec![bloodmoon, tribunal];
    let mut defined_ids = collect_defined_ids(&plugin);
    let mut defined_effects = HashSet::new();

    add_vanilla_refs(
        &mut plugin,
        &masters,
        &mut defined_ids,
        &mut defined_effects,
        "post-dialogue",
    );

    assert!(has_id(&plugin, "shared_dependency"));
    assert!(has_id(&plugin, "bloodmoon_leaf"));
    assert!(!has_id(&plugin, "tribunal_leaf"));
}

#[test]
fn foundation_dependencies_are_resolved() {
    let mut plugin = Plugin::default();
    plugin.objects.push(misc_item("WaterBreathing", ""));
    let bloodmoon = Plugin {
        objects: vec![
            TES3Object::Race(Race {
                id: "vanilla_race".to_string(),
                spells: vec!["vanilla_spell".to_string()],
                ..Default::default()
            }),
            TES3Object::Spell(Spell {
                id: "vanilla_spell".to_string(),
                ..Default::default()
            }),
            TES3Object::MagicEffect(MagicEffect {
                id: "WaterBreathing".to_string(),
        effect_id: WATER_BREATHING,
                cast_visual: "vanilla_cast_visual".to_string(),
                ..Default::default()
            }),
            TES3Object::Static(Static {
                id: "vanilla_cast_visual".to_string(),
                ..Default::default()
            }),
        ],
    };
    let mut defined_ids = collect_defined_ids(&plugin);
    let mut defined_effects = HashSet::new();

    add_vanilla_refs(
        &mut plugin,
        &[bloodmoon],
        &mut defined_ids,
        &mut defined_effects,
        "post-dialogue",
    );

    assert!(has_id(&plugin, "vanilla_race"));
    assert!(has_id(&plugin, "vanilla_spell"));
    assert!(has_id(&plugin, "vanilla_cast_visual"));
    assert_eq!(effects(&plugin).len(), 1);
    assert!(effects(&plugin)
        .iter()
        .any(|effect| effect.effect_id == WATER_BREATHING));
}

#[test]
fn escort_and_follow_targets_are_resolved() {
    let mut plugin = Plugin::default();
    plugin.objects.push(TES3Object::Npc(Npc {
        id: "root".to_string(),
        ai_packages: vec![
            AiPackage::Escort(AiEscortPackage {
                target: "escort_target".to_string(),
                ..Default::default()
            }),
            AiPackage::Follow(AiFollowPackage {
                target: "follow_target".to_string(),
                ..Default::default()
            }),
        ],
        ..Default::default()
    }));
    let masters = vec![Plugin {
        objects: vec![
            misc_item("escort_target", ""),
            misc_item("follow_target", ""),
        ],
    }];
    let mut defined_ids = collect_defined_ids(&plugin);
    let mut defined_effects = HashSet::new();

    add_vanilla_refs(
        &mut plugin,
        &masters,
        &mut defined_ids,
        &mut defined_effects,
        "post-dialogue",
    );

    assert!(has_id(&plugin, "escort_target"));
    assert!(has_id(&plugin, "follow_target"));
}

#[test]
fn dialogue_sound_and_filter_operands_are_not_dependencies() {
    let mut plugin = Plugin::default();
    plugin.objects.push(TES3Object::DialogueInfo(DialogueInfo {
        sound_path: "sound/dialogue.wav".to_string(),
        filters: vec![Filter {
            id: "filter_operand".to_string(),
            ..Default::default()
        }],
        ..Default::default()
    }));

    let required_ids = collect_required_ids(&plugin);

    assert!(!required_ids.contains("sound/dialogue.wav"));
    assert!(!required_ids.contains("filter_operand"));
    assert!(!required_ids.contains(""));
}
