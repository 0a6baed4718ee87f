//! The topics in force, and how they are written.

use add_vanilla_refs::dialogue_group::DialogueGroup;
use add_vanilla_refs::dialogue_records::{collect_dialogue_ids, collect_effective_dialogue_records};
use add_vanilla_refs::rebuild::{append_live_dialogue_infos, decouple_dialogue_infos};
use add_vanilla_refs::records::{Dialogue, DialogueInfo, Filter, MiscItem, Plugin, TES3Object};
use vstd::hash_set::StringHashSet;

fn text(s: &str) -> String {
    s.to_string()
}

fn topic(id: &str) -> TES3Object {
    TES3Object::Dialogue(Dialogue {
        id: text(id),
        ..Default::default()
    })
}

fn line(id: &str, prev_id: &str) -> DialogueInfo {
    DialogueInfo {
        id: text(id),
        prev_id: text(prev_id),
        ..Default::default()
    }
}

fn info(id: &str, prev_id: &str) -> TES3Object {
    TES3Object::DialogueInfo(line(id, prev_id))
}

fn item(id: &str) -> TES3Object {
    TES3Object::MiscItem(MiscItem {
        id: text(id),
        ..Default::default()
    })
}

fn ids(group: &DialogueGroup) -> Vec<&str> {
    group.infos.iter().map(|info| info.id.as_str()).collect()
}

fn written(plugin: &Plugin) -> Vec<String> {
    plugin
        .objects
        .iter()
        .map(|object| match object {
            TES3Object::DialogueInfo(info) => {
                format!("{}<{}>{}", info.prev_id, info.id, info.next_id)
            }
            object => object.editor_id().to_string(),
        })
        .collect()
}

#[test]
fn a_line_goes_where_its_predecessor_says() {
    let mut group = DialogueGroup::default();
    group.insert_info(line("b", ""));
    group.insert_info(line("a", ""));
    group.insert_info(line("c", "B"));
    group.insert_info(line("z", "unknown"));
    assert_eq!(ids(&group), vec!["a", "b", "c", "z"]);
    // Moved to the front, and to the back.
    group.insert_info(line("c", ""));
    assert_eq!(ids(&group), vec!["c", "a", "b", "z"]);
    group.insert_info(line("c", "z"));
    assert_eq!(ids(&group), vec!["a", "b", "z", "c"]);
    // Replaced in place, as it names the same line.
    let mut other = line("C", "Z");
    other.text = text("new");
    group.insert_info(other);
    assert_eq!(ids(&group), vec!["a", "b", "z", "C"]);
    assert_eq!(group.infos[3].text, "new");
}

#[test]
fn masters_are_loaded_from_the_back() {
    let masters = vec![
        Plugin {
            objects: vec![topic("Topic"), info("late", "early")],
        },
        Plugin {
            objects: vec![topic("TOPIC"), info("early", ""), info("last", "early")],
        },
    ];
    let plugin = Plugin {
        objects: vec![
            info("stray", ""),
            topic("topic"),
            info("own", "late"),
            info("", "own"),
            item("between"),
            info("lost", "own"),
        ],
    };
    let records = collect_effective_dialogue_records(&plugin, &masters);
    assert_eq!(records.len(), 1);
    let group = records.get("topic").unwrap();
    assert_eq!(group.dialogue.id, "topic");
    assert_eq!(ids(group), vec!["early", "late", "own", "last"]);
}

#[test]
fn the_lines_of_a_plugin_are_listed_by_topic() {
    let mut gone = line("Gone", "");
    gone.deleted = true;
    let plugin = Plugin {
        objects: vec![
            topic("One"),
            info("A", ""),
            TES3Object::DialogueInfo(gone),
            topic("Two"),
            item("between"),
            info("Lost", ""),
            topic("ONE"),
            info("b", "A"),
        ],
    };
    let listed = collect_dialogue_ids(&plugin);
    assert_eq!(listed.len(), 2);
    let one = listed.get("one").unwrap();
    assert!(one.contains("a") && one.contains("b"));
    assert_eq!(one.len(), 2);
    assert!(listed.get("two").unwrap().is_empty());
}

#[test]
fn lines_that_survive_are_linked() {
    let mut group = DialogueGroup::default();
    for (id, prev_id) in [("A", ""), ("B", "A"), ("C", "B"), ("D", "C")] {
        group.insert_info(line(id, prev_id));
    }
    group.infos[3].deleted = true;
    let mut live = StringHashSet::new();
    for id in ["a", "c", "d"] {
        live.insert(text(id));
    }
    let mut plugin = Plugin {
        objects: vec![item("before")],
    };
    append_live_dialogue_infos(&mut plugin.objects, &group, &live);
    assert_eq!(written(&plugin), vec!["before", "<A>C", "A<C>"]);
}

#[test]
fn other_records_stay_in_their_order() {
    let masters = vec![Plugin {
        objects: vec![topic("Topic"), info("vanilla", "")],
    }];
    let mut plugin = Plugin {
        objects: vec![
            item("one"),
            topic("Topic"),
            info("own", ""),
            item("two"),
            topic("Second"),
            item("three"),
            topic("TOPIC"),
            info("more", "own"),
        ],
    };
    decouple_dialogue_infos(&mut plugin, &masters);
    assert_eq!(
        written(&plugin),
        vec![
            "one",
            "Topic",
            "<own>more",
            "own<more>vanilla",
            "more<vanilla>",
            "two",
            "Second",
            "three",
        ]
    );
}

#[test]
fn dialogue_written_anew_stays_as_it_is_without_masters() {
    let masters = vec![Plugin {
        objects: vec![topic("Topic"), info("v1", ""), info("v2", "v1"), info("v3", "v2")],
    }];
    let mut plugin = Plugin {
        objects: vec![topic("Topic"), info("own", "V1"), item("item"), topic("Shell")],
    };
    decouple_dialogue_infos(&mut plugin, &masters);
    let once = written(&plugin);
    assert_eq!(
        once,
        vec!["Topic", "<v1>own", "v1<own>v2", "own<v2>v3", "v2<v3>", "item", "Shell"]
    );
    let audit = decouple_dialogue_infos(&mut plugin, &[]);
    assert_eq!(written(&plugin), once);
    assert_eq!(audit.starwind_owned_infos, 4);
}

#[test]
fn texts_sounds_places_and_conditions_decide_nothing() {
    let spoken = |id: &str, prev_id: &str, loud: bool| {
        let mut info = line(id, prev_id);
        if loud {
            info.text = text("Idle talk");
            info.sound_path = text("vo\\line.mp3");
            info.speaker_cell = text("Balmora");
            info.filters = vec![Filter { id: text("Idle") }];
        }
        TES3Object::DialogueInfo(info)
    };
    let rebuilt = |loud: bool| {
        let masters = vec![Plugin {
            objects: vec![
                topic("Topic"),
                spoken("v1", "", loud),
                topic("Idle"),
                spoken("v2", "", loud),
            ],
        }];
        let mut plugin = Plugin {
            objects: vec![topic("Topic"), spoken("own", "v1", loud)],
        };
        decouple_dialogue_infos(&mut plugin, &masters);
        written(&plugin)
    };
    assert_eq!(rebuilt(true), vec!["Topic", "<v1>own", "v1<own>"]);
    assert_eq!(rebuilt(true), rebuilt(false));
}

#[test]
fn a_topic_without_an_id_is_written_if_the_plugin_has_its_head() {
    let masters = || {
        vec![Plugin {
            objects: vec![topic(""), info("vanilla", "")],
        }]
    };
    let mut plugin = Plugin {
        objects: vec![item("before"), topic(""), info("own", "vanilla"), item("behind")],
    };
    decouple_dialogue_infos(&mut plugin, &masters());
    assert_eq!(written(&plugin), vec!["before", "", "<vanilla>own", "vanilla<own>", "behind"]);
    let mut without = Plugin {
        objects: vec![item("before")],
    };
    decouple_dialogue_infos(&mut without, &masters());
    assert_eq!(written(&without), vec!["before"]);
}

#[test]
fn the_first_head_of_a_topic_stays() {
    let head = |id: &str, handle: usize| {
        TES3Object::Dialogue(Dialogue {
            id: text(id),
            handle,
            ..Default::default()
        })
    };
    let masters = vec![Plugin {
        objects: vec![head("Topic", 1), info("vanilla", "")],
    }];
    let mut plugin = Plugin {
        objects: vec![head("TOPIC", 2), head("topic", 3), info("own", "")],
    };
    decouple_dialogue_infos(&mut plugin, &masters);
    assert_eq!(written(&plugin), vec!["TOPIC", "<own>vanilla", "own<vanilla>"]);
    assert!(matches!(&plugin.objects[0], TES3Object::Dialogue(head) if head.handle == 2));
}
