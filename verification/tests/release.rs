//! The whole way of a plugin, and the steps at its end.

use std::collections::HashSet;

use add_vanilla_refs::cleanup::{
    collect_defined_effects, release_masters, remove_exact_duplicate_magic_effects,
    send_actors_home, strip_deleted_records,
};
use add_vanilla_refs::records::{
    AiActivatePackage, AiEscortPackage, AiFollowPackage, AiPackage, Creature, Dialogue,
    DialogueInfo, DialogueType2, Faction, Header, MagicEffect, MiscItem, Npc, Plugin, TES3Object,
};
use add_vanilla_refs::release::{finish_plugin, prepare_plugin};
use vstd::hash_set::StringHashSet;

fn text(s: &str) -> String {
    s.to_string()
}

fn item(id: &str, script: &str, deleted: bool) -> TES3Object {
    TES3Object::MiscItem(MiscItem {
        id: text(id),
        script: text(script),
        deleted,
        ..Default::default()
    })
}

fn header(masters: &[&str]) -> TES3Object {
    TES3Object::Header(Header {
        masters: masters.iter().map(|name| text(name)).collect(),
        ..Default::default()
    })
}

fn effect(effect_id: i32, bolt_sound: &str, rest: u64, handle: usize) -> TES3Object {
    TES3Object::MagicEffect(MagicEffect {
        effect_id,
        bolt_sound: text(bolt_sound),
        rest,
        handle,
        ..Default::default()
    })
}

fn ids(plugin: &Plugin) -> Vec<&str> {
    plugin.objects.iter().map(|object| object.editor_id()).collect()
}

#[test]
fn deleted_records_go_and_the_others_keep_their_order() {
    let mut plugin = Plugin {
        objects: vec![
            item("a", "", false),
            item("b", "", true),
            item("c", "", false),
            item("d", "", true),
        ],
    };
    strip_deleted_records(&mut plugin);
    assert_eq!(ids(&plugin), vec!["a", "c"]);
    strip_deleted_records(&mut plugin);
    assert_eq!(ids(&plugin), vec!["a", "c"]);
}

#[test]
fn only_effects_that_agree_in_everything_are_doubles() {
    let mut plugin = Plugin {
        objects: vec![
            effect(1, "a", 0, 10),
            effect(1, "b", 0, 11),
            item("x", "", false),
            effect(1, "a", 0, 12),
            effect(1, "a", 1, 13),
            effect(2, "a", 0, 14),
            item("x", "", false),
            effect(1, "b", 0, 15),
        ],
    };
    remove_exact_duplicate_magic_effects(&mut plugin);
    let handles: Vec<_> = plugin
        .objects
        .iter()
        .map(|object| match object {
            TES3Object::MagicEffect(effect) => effect.handle,
            _ => 0,
        })
        .collect();
    assert_eq!(handles, vec![10, 11, 0, 13, 14, 0]);
    assert_eq!(collect_defined_effects(&plugin), HashSet::from([1, 2]));
}

#[test]
fn actors_are_sent_to_cells_that_are_there() {
    let packages = || {
        vec![
            AiPackage::Escort(AiEscortPackage {
                target: text("t"),
                cell: text("Known"),
            }),
            AiPackage::Escort(AiEscortPackage {
                target: text("t"),
                cell: text("unknown"),
            }),
            AiPackage::Follow(AiFollowPackage {
                target: text("t"),
                cell: text(""),
            }),
            AiPackage::Activate(AiActivatePackage { target: text("t") }),
            AiPackage::Wander,
        ]
    };
    let mut plugin = Plugin {
        objects: vec![
            TES3Object::Npc(Npc {
                ai_packages: packages(),
                ..Default::default()
            }),
            TES3Object::Creature(Creature {
                ai_packages: packages(),
                ..Default::default()
            }),
        ],
    };
    let mut defined = StringHashSet::new();
    defined.insert(text("known"));
    send_actors_home(&mut plugin, &defined);
    for object in &plugin.objects {
        let packages = match object {
            TES3Object::Npc(npc) => &npc.ai_packages,
            TES3Object::Creature(creature) => &creature.ai_packages,
            _ => unreachable!(),
        };
        let cells: Vec<_> = packages
            .iter()
            .map(|package| match package {
                AiPackage::Escort(package) => package.cell.as_str(),
                AiPackage::Follow(package) => package.cell.as_str(),
                _ => "-",
            })
            .collect();
        assert_eq!(cells, vec!["Known", "igtestcell", "igtestcell", "-", "-"]);
    }
}

#[test]
fn the_header_loses_its_masters() {
    let mut plugin = Plugin {
        objects: vec![header(&["Morrowind.esm", "Tribunal.esm"]), item("x", "", false)],
    };
    assert!(release_masters(&mut plugin));
    assert!(matches!(&plugin.objects[0], TES3Object::Header(header) if header.masters.is_empty()));
    assert_eq!(plugin.objects.len(), 2);
    let mut headless = Plugin {
        objects: vec![item("x", "", false)],
    };
    assert!(!release_masters(&mut headless));
}

#[test]
fn a_released_plugin_stands_alone() {
    let masters = vec![
        Plugin { objects: vec![] },
        Plugin {
            objects: vec![item("script_item", "", false)],
        },
        Plugin {
            objects: vec![
                header(&[]),
                item("needed", "script_item", false),
                item("unneeded", "", false),
                TES3Object::Faction(Faction {
                    id: text("Guild"),
                    ..Default::default()
                }),
                TES3Object::Npc(Npc {
                    id: text("ghost"),
                    ..Default::default()
                }),
                effect(3, "", 0, 0),
                TES3Object::Dialogue(Dialogue {
                    id: text("Hello"),
                    dialogue_type: DialogueType2::Greeting,
                    ..Default::default()
                }),
                TES3Object::DialogueInfo(DialogueInfo {
                    id: text("guild line"),
                    speaker_faction: text("Guild"),
                    ..Default::default()
                }),
                TES3Object::DialogueInfo(DialogueInfo {
                    id: text("ghost line"),
                    prev_id: text("guild line"),
                    speaker_id: text("ghost"),
                    ..Default::default()
                }),
            ],
        },
    ];
    let mut plugin = Plugin {
        objects: vec![
            header(&["Morrowind.esm"]),
            item("root", "needed", false),
            item("gone", "unneeded", true),
            TES3Object::Npc(Npc {
                id: text("Actor"),
                ai_packages: vec![AiPackage::Follow(AiFollowPackage {
                    target: text("root"),
                    cell: text("nowhere"),
                })],
                ..Default::default()
            }),
        ],
    };
    let mut preparation = prepare_plugin(&mut plugin, &masters);
    let told: Vec<_> = preparation.imports.iter().map(|report| report.id.as_str()).collect();
    assert_eq!(told, vec!["needed", "script_item", ""]);
    assert!(preparation.defined_ids.contains("needed"));
    assert!(!preparation.defined_ids.contains("guild"));
    assert!(preparation.defined_effects.contains(&3));
    assert_eq!(preparation.population.len(), 1);
    assert_eq!(preparation.population[0].id, "Actor");
    assert!(preparation.notices.is_empty());

    let completion = finish_plugin(
        &mut plugin,
        &masters,
        &mut preparation.defined_ids,
        &mut preparation.defined_effects,
    );
    assert!(completion.has_header);
    assert_eq!(completion.notices.len(), 1);
    let told: Vec<_> = completion
        .imports
        .iter()
        .map(|report| (report.id.as_str(), report.cause.source_id.as_str(), report.cause.field))
        .collect();
    assert_eq!(told, vec![("Guild", "guild line", "speaker_faction")]);
    assert_eq!(completion.audit.effective_infos, 2);
    assert_eq!(completion.audit.retained_vanilla_infos, 1);
    assert_eq!(completion.audit.pruned_vanilla_infos, 1);
    assert_eq!(
        ids(&plugin),
        vec![
            "",
            "root",
            "Actor",
            "needed",
            "script_item",
            "",
            "Hello",
            "guild line",
            "Guild",
        ]
    );
    assert!(matches!(&plugin.objects[0], TES3Object::Header(header) if header.masters.is_empty()));
    assert!(plugin.objects.iter().all(|object| !object.deleted()));
    assert!(matches!(
        &plugin.objects[2],
        TES3Object::Npc(npc)
            if matches!(&npc.ai_packages[0], AiPackage::Follow(p) if p.cell == "igtestcell")
    ));
}
