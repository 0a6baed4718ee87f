//! What records need, and why.

use std::collections::{HashSet, VecDeque};

use add_vanilla_refs::causes::{dependency_field, source_id};
use add_vanilla_refs::imports::{
    add_vanilla_refs, add_vanilla_refs_with_dialogue, enqueue_dependencies, vanilla_plugin_name,
};
use add_vanilla_refs::notices::{collect_notices, collect_scan_notices, Notice};
use add_vanilla_refs::pending::{sort_pending, DependencyCause, PendingDependency};
use add_vanilla_refs::records::{
    AiActivatePackage, AiEscortPackage, AiFollowPackage, AiPackage, BipedObject, Cell, Class,
    Creature, DialogueInfo, Door, Faction, GameSetting, MagicEffect, MiscItem, Npc, Plugin, Race,
    Reference, Region, TES3Object, WornItem,
};
use add_vanilla_refs::references::{
    collect_defined_ids, collect_required_ids_from_object, collect_required_ids_with_dialogue,
    never_copy,
};
use add_vanilla_refs::vanilla_index::VanillaIndex;
use vstd::hash_set::StringHashSet;

fn text(s: &str) -> String {
    s.to_string()
}

fn misc_item(id: &str, script: &str) -> TES3Object {
    TES3Object::MiscItem(MiscItem {
        id: text(id),
        tag: text("MISC"),
        script: text(script),
        ..Default::default()
    })
}

fn needs(object: &TES3Object) -> Vec<String> {
    let ids = collect_required_ids_from_object(object);
    (0..ids.len()).map(|i| ids.at(i).clone()).collect()
}

fn npc() -> Npc {
    Npc {
        id: text("Someone"),
        script: text("N_Script"),
        inventory: vec![text("N_Item"), text("")],
        spells: vec![text("N_Spell")],
        ai_packages: vec![
            AiPackage::Travel,
            AiPackage::Escort(AiEscortPackage {
                target: text("N_Escorted"),
                cell: text("N_Cell"),
            }),
            AiPackage::Follow(AiFollowPackage {
                target: text("N_Followed"),
                cell: text("N_Cell"),
            }),
            AiPackage::Activate(AiActivatePackage {
                target: text("N_Activated"),
            }),
        ],
        race: text("N_Race"),
        class: text("N_Class"),
        faction: text("N_Faction"),
        head: text("N_Head"),
        hair: text("N_Hair"),
        ..Default::default()
    }
}

fn cell() -> Cell {
    Cell {
        name: text("Seyda Neen"),
        region: Some(text("C_Region")),
        references: vec![
            Reference {
                id: text("C_Thing"),
                owner: Some(text("C_Owner")),
                ..Default::default()
            },
            Reference {
                id: text("C_Other"),
                owner_global: Some(text("C_Global")),
                owner_faction: Some(text("C_Faction")),
                key: Some(text("C_Key")),
                trap: Some(text("C_Trap")),
                soul: Some(text("C_Soul")),
                ..Default::default()
            },
        ],
        ..Default::default()
    }
}

#[test]
fn a_person_needs_what_it_names() {
    assert_eq!(
        needs(&TES3Object::Npc(npc())),
        vec![
            "n_activated",
            "n_class",
            "n_escorted",
            "n_faction",
            "n_followed",
            "n_hair",
            "n_head",
            "n_item",
            "n_race",
            "n_script",
            "n_spell",
        ]
    );
}

#[test]
fn a_cell_needs_what_is_placed_in_it() {
    assert_eq!(
        needs(&TES3Object::Cell(cell())),
        vec![
            "c_faction", "c_global", "c_key", "c_other", "c_owner", "c_region", "c_soul", "c_thing",
            "c_trap",
        ]
    );
}

#[test]
fn other_kinds_need_what_they_name() {
    let door = TES3Object::Door(Door {
        script: text("Script"),
        open_sound: text("Open"),
        close_sound: text("Close"),
        ..Default::default()
    });
    assert_eq!(needs(&door), vec!["close", "open", "script"]);
    let armor = TES3Object::Armor(WornItem {
        enchanting: text("Enchanting"),
        biped_objects: vec![BipedObject {
            male_bodypart: text("Male"),
            female_bodypart: text(""),
        }],
        ..Default::default()
    });
    assert_eq!(needs(&armor), vec!["enchanting", "male"]);
    let region = TES3Object::Region(Region {
        id: text("Here"),
        sleep_creature: text("Guar"),
        sounds: vec![text("Wind")],
        ..Default::default()
    });
    assert_eq!(needs(&region), vec!["guar", "here", "wind"]);
    let faction = TES3Object::Faction(Faction {
        id: text("Us"),
        reactions: vec![text("Them"), text("US")],
        ..Default::default()
    });
    assert_eq!(needs(&faction), vec!["them", "us"]);
    assert_eq!(needs(&misc_item("x", "")), Vec::<String>::new());
}

#[test]
fn the_field_that_names_a_need_is_found() {
    let person = TES3Object::Npc(npc());
    for (target, field) in [
        ("n_script", "script"),
        ("n_item", "inventory"),
        ("n_spell", "spells"),
        ("n_escorted", "ai_package.target"),
        ("n_followed", "ai_package.target"),
        ("N_ACTIVATED", "ai_package.target"),
        ("n_race", "race"),
        ("n_class", "class"),
        ("n_faction", "faction"),
        ("n_head", "head"),
        ("n_hair", "hair"),
        ("n_cell", "dependency"),
    ] {
        assert_eq!(dependency_field(&person, target), field);
    }
    let place = TES3Object::Cell(cell());
    for (target, field) in [
        ("c_thing", "reference.id"),
        ("c_other", "reference.id"),
        ("c_owner", "reference.owner"),
        ("c_global", "reference.owner_global"),
        ("c_faction", "reference.owner_faction"),
        ("c_key", "reference.key"),
        ("c_trap", "reference.trap"),
        ("c_soul", "reference.soul"),
        ("c_region", "region"),
    ] {
        assert_eq!(dependency_field(&place, target), field);
    }
    let beast = TES3Object::Creature(Creature {
        script: text("B_Script"),
        inventory: vec![text("B_Item")],
        spells: vec![text("B_Spell")],
        ai_packages: vec![AiPackage::Follow(AiFollowPackage {
            target: text("B_Followed"),
            ..Default::default()
        })],
        sound: text("B_Sound"),
        ..Default::default()
    });
    for (target, field) in [
        ("b_script", "script"),
        ("b_item", "inventory"),
        ("b_spell", "spells"),
        ("b_followed", "ai_package.target"),
        ("b_sound", "sound"),
    ] {
        assert_eq!(dependency_field(&beast, target), field);
    }
    let line = TES3Object::DialogueInfo(DialogueInfo {
        speaker_id: text("L_Id"),
        speaker_race: text("L_Race"),
        speaker_class: text("L_Class"),
        speaker_faction: text("L_Faction"),
        player_faction: text("L_Player"),
        ..Default::default()
    });
    for (target, field) in [
        ("l_id", "speaker_id"),
        ("l_race", "speaker_race"),
        ("l_class", "speaker_class"),
        ("l_faction", "speaker_faction"),
        ("l_player", "player_faction"),
    ] {
        assert_eq!(dependency_field(&line, target), field);
    }
    assert_eq!(dependency_field(&misc_item("x", "y"), "y"), "dependency");
}

#[test]
fn the_source_of_a_need_has_a_name() {
    assert_eq!(source_id(&misc_item("Item", "")), "Item");
    assert_eq!(source_id(&misc_item("", "")), "<anonymous>");
    assert_eq!(source_id(&TES3Object::Cell(cell())), "Seyda Neen");
}

#[test]
fn needs_wait_in_order_and_once() {
    let mut required = StringHashSet::new();
    let mut pending = VecDeque::new();
    enqueue_dependencies(&misc_item("One", "Zulu"), &mut required, &mut pending, "pass");
    let door = TES3Object::Door(Door {
        id: text("Two"),
        script: text("zulu"),
        open_sound: text("Yankee"),
        close_sound: text("Alpha"),
        ..Default::default()
    });
    enqueue_dependencies(&door, &mut required, &mut pending, "pass");
    let waiting: Vec<_> = pending
        .iter()
        .map(|entry| (entry.id.as_str(), entry.cause.source_id.as_str()))
        .collect();
    assert_eq!(waiting, vec![("zulu", "One"), ("alpha", "Two"), ("yankee", "Two")]);
    assert_eq!(pending[0].cause.pass, "pass");
    assert_eq!(pending[0].cause.source_type, "MISC");
    assert_eq!(pending[0].cause.field, "dependency");
    assert!(required.contains("alpha"));
    assert!(!required.contains("Alpha"));
}

#[test]
fn waiting_entries_are_sorted_by_id() {
    let entry = |id: &str| PendingDependency {
        id: text(id),
        cause: DependencyCause {
            pass: "pass",
            source_type: text("MISC"),
            source_id: text(id),
            field: "script",
        },
    };
    let mut entries = VecDeque::new();
    for id in ["m", "c", "z", "a", "k", "b"] {
        entries.push_back(entry(id));
    }
    let sorted = sort_pending(entries);
    let ids: Vec<_> = sorted.iter().map(|entry| entry.id.as_str()).collect();
    assert_eq!(ids, vec!["a", "b", "c", "k", "m", "z"]);
}

#[test]
fn the_first_master_that_has_a_record_offers_it() {
    let mut gone = misc_item("gone", "");
    if let TES3Object::MiscItem(item) = &mut gone {
        item.deleted = true;
    }
    let masters = vec![
        Plugin {
            objects: vec![gone, misc_item("Both", "first"), misc_item("both", "second")],
        },
        Plugin {
            objects: vec![misc_item("BOTH", "third"), misc_item("Gone", "fourth")],
        },
    ];
    let index = VanillaIndex::new(&masters);
    let script = |id: &str| match index.resolve(id) {
        Some((master, TES3Object::MiscItem(item))) => Some((master, item.script.as_str())),
        _ => None,
    };
    assert_eq!(script("both"), Some((0, "first")));
    assert_eq!(script("gone"), Some((1, "fourth")));
    assert_eq!(script("neither"), None);
}

#[test]
fn some_kinds_are_never_copied() {
    assert!(never_copy(&TES3Object::Cell(Cell::default())));
    assert!(never_copy(&TES3Object::DialogueInfo(DialogueInfo::default())));
    assert!(!never_copy(&misc_item("x", "")));
    let masters = vec![Plugin {
        objects: vec![TES3Object::Cell(Cell {
            id: text("wanted"),
            ..Default::default()
        })],
    }];
    assert!(VanillaIndex::new(&masters).resolve("wanted").is_none());
}

#[test]
fn masters_have_names() {
    assert_eq!(vanilla_plugin_name(0), "Bloodmoon.esm");
    assert_eq!(vanilla_plugin_name(1), "Tribunal.esm");
    assert_eq!(vanilla_plugin_name(2), "Morrowind.esm");
    assert_eq!(vanilla_plugin_name(3), "master");
}

#[test]
fn copies_are_reported_with_their_causes() {
    let mut plugin = Plugin {
        objects: vec![misc_item("root", "Dependency")],
    };
    let masters = vec![
        Plugin { objects: vec![] },
        Plugin {
            objects: vec![
                misc_item("dependency", "leaf"),
                misc_item("LEAF", ""),
                TES3Object::GameSetting(GameSetting {
                    id: text("sSetting"),
                    tag: text("GMST"),
                    ..Default::default()
                }),
            ],
        },
    ];
    let mut defined = collect_defined_ids(&plugin);
    let mut effects = HashSet::new();
    let reports = add_vanilla_refs(&mut plugin, &masters, &mut defined, &mut effects, "post");
    let told: Vec<_> = reports
        .iter()
        .map(|report| {
            (
                report.id.as_str(),
                report.tag.as_str(),
                report.master,
                report.foundation,
                report.cause.source_type.as_str(),
                report.cause.source_id.as_str(),
                report.cause.field,
                report.cause.pass,
            )
        })
        .collect();
    assert_eq!(
        told,
        vec![
            ("dependency", "MISC", 1, false, "MISC", "root", "dependency", "post"),
            ("LEAF", "MISC", 1, false, "MISC", "dependency", "dependency", "post"),
            ("sSetting", "GMST", 1, true, "FOUNDATION", "Tribunal.esm", "foundation", "post"),
        ]
    );
    let ids: Vec<_> = plugin.objects.iter().map(|object| object.editor_id()).collect();
    assert_eq!(ids, vec!["root", "dependency", "LEAF", "sSetting"]);
    assert!(defined.contains("leaf"));
}

#[test]
fn a_second_pass_copies_nothing() {
    let mut plugin = Plugin {
        objects: vec![misc_item("root", "a")],
    };
    let masters = vec![Plugin {
        objects: vec![
            misc_item("a", "b"),
            misc_item("b", "a"),
            TES3Object::Race(Race {
                id: text("race"),
                spells: vec![text("a")],
                ..Default::default()
            }),
            TES3Object::Class(Class {
                id: text("class"),
                ..Default::default()
            }),
            TES3Object::MagicEffect(MagicEffect {
                id: text("effect"),
                effect_id: 7,
                ..Default::default()
            }),
        ],
    }];
    let mut defined = collect_defined_ids(&plugin);
    let mut effects = HashSet::new();
    let first = add_vanilla_refs(&mut plugin, &masters, &mut defined, &mut effects, "one");
    assert_eq!(first.len(), 5);
    assert!(effects.contains(&7));
    let second = add_vanilla_refs(&mut plugin, &masters, &mut defined, &mut effects, "two");
    assert!(second.is_empty());
    assert_eq!(plugin.objects.len(), 6);
}

#[test]
fn what_is_defined_is_not_copied_though_it_is_deleted() {
    let mut buried = misc_item("shared", "");
    if let TES3Object::MiscItem(item) = &mut buried {
        item.deleted = true;
    }
    let mut plugin = Plugin {
        objects: vec![misc_item("root", "shared"), buried],
    };
    let masters = vec![Plugin {
        objects: vec![misc_item("shared", "")],
    }];
    let mut defined = collect_defined_ids(&plugin);
    let mut effects = HashSet::new();
    let reports = add_vanilla_refs(&mut plugin, &masters, &mut defined, &mut effects, "post");
    assert!(reports.is_empty());
}

#[test]
fn a_need_is_put_down_to_the_first_record_that_has_it() {
    let mut plugin = Plugin {
        objects: vec![misc_item("first", "x"), misc_item("second", "x")],
    };
    let masters = vec![Plugin {
        objects: vec![misc_item("x", "")],
    }];
    let mut defined = collect_defined_ids(&plugin);
    let mut effects = HashSet::new();
    let reports = add_vanilla_refs_with_dialogue(
        &mut plugin,
        &masters,
        &mut defined,
        &mut effects,
        false,
        "pre",
    );
    assert_eq!(reports.len(), 1);
    assert_eq!(reports[0].cause.source_id, "first");
}

#[test]
fn records_that_do_not_count_need_nothing() {
    let mut gone = misc_item("gone", "a");
    if let TES3Object::MiscItem(item) = &mut gone {
        item.deleted = true;
    }
    let plugin = Plugin {
        objects: vec![
            gone,
            misc_item("here", "b"),
            TES3Object::DialogueInfo(DialogueInfo {
                speaker_id: text("c"),
                ..Default::default()
            }),
        ],
    };
    let with = collect_required_ids_with_dialogue(&plugin, true);
    assert!(!with.contains("a") && with.contains("b") && with.contains("c"));
    let without = collect_required_ids_with_dialogue(&plugin, false);
    assert!(!without.contains("a") && without.contains("b") && !without.contains("c"));
}

#[test]
fn notices_tell_of_targets_places_owners_and_speakers() {
    let person = collect_notices(&TES3Object::Npc(npc()));
    assert_eq!(person.len(), 1);
    assert!(matches!(&person[0], Notice::ActivationTarget { target } if target == "n_activated"));
    let place = collect_notices(&TES3Object::Cell(cell()));
    assert_eq!(place.len(), 5);
    assert!(matches!(
        &place[0],
        Notice::CellReference { id, cell } if id == "C_Thing" && cell == "Seyda Neen"
    ));
    assert!(matches!(&place[1], Notice::Owner { id } if id == "c_owner"));
    assert!(matches!(&place[2], Notice::CellReference { id, .. } if id == "C_Other"));
    assert!(matches!(&place[3], Notice::Owner { id } if id == "c_global"));
    assert!(matches!(&place[4], Notice::Owner { id } if id == "c_faction"));
    let line = TES3Object::DialogueInfo(DialogueInfo {
        id: text("Line"),
        speaker_id: text("Speaker"),
        ..Default::default()
    });
    let plugin = Plugin {
        objects: vec![misc_item("x", ""), line],
    };
    assert!(collect_scan_notices(&plugin, false).is_empty());
    let told = collect_scan_notices(&plugin, true);
    assert_eq!(told.len(), 1);
    assert!(matches!(
        &told[0],
        Notice::Line { id, speaker } if id == "Line" && speaker == "speaker"
    ));
}

#[test]
fn of_foundations_that_stand_for_the_same_the_first_is_copied() {
    let race = |id: &str, spell: &str| {
        TES3Object::Race(Race {
            id: text(id),
            spells: vec![text(spell)],
            ..Default::default()
        })
    };
    let effect = |id: &str, effect_id: i32| {
        TES3Object::MagicEffect(MagicEffect {
            id: text(id),
            effect_id,
            ..Default::default()
        })
    };
    let masters = vec![
        Plugin {
            objects: vec![race("Nord", "first"), race("NORD", "second"), effect("one", 5)],
        },
        Plugin {
            objects: vec![race("nord", "third"), effect("two", 5), effect("three", 6)],
        },
    ];
    let mut plugin = Plugin::default();
    let mut defined = collect_defined_ids(&plugin);
    let mut effects = HashSet::new();
    let reports = add_vanilla_refs(&mut plugin, &masters, &mut defined, &mut effects, "post");
    let told: Vec<_> = reports.iter().map(|report| (report.id.as_str(), report.master)).collect();
    assert_eq!(told, vec![("Nord", 0), ("one", 0), ("three", 1)]);
}
