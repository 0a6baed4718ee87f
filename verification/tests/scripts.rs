//! Topics that scripts add.

use add_vanilla_refs::id_map::IdMap;
use add_vanilla_refs::live_topics::scripts_are_splittable;
use add_vanilla_refs::records::{Plugin, Script, TES3Object};
use add_vanilla_refs::scripts::{
    add_script_topic_references, char_width, characters, is_splittable_script, is_whitespace,
};
use add_vanilla_refs::topic_reasons::{DialogueTopicReason, DialogueTopicReasons};

fn added(text: &str, topics: &[&str]) -> Vec<String> {
    let topics: Vec<String> = topics.iter().map(|topic| topic.to_string()).collect();
    let mut live: DialogueTopicReasons = IdMap::new();
    assert!(is_splittable_script(text));
    add_script_topic_references(text, &topics, &mut live);
    (0..live.len())
        .map(|i| {
            assert!(live.value_at(i).contains(DialogueTopicReason::Script));
            assert!(!live.value_at(i).contains(DialogueTopicReason::Engine));
            assert!(!live.value_at(i).contains(DialogueTopicReason::Starwind));
            live.key_at(i).clone()
        })
        .collect()
}

#[test]
fn white_space_is_that_of_unicode() {
    for c in '\u{0}'..=char::MAX {
        assert_eq!(is_whitespace(c), c.is_whitespace());
    }
}

#[test]
fn widths_are_those_of_utf8() {
    for c in '\u{0}'..=char::MAX {
        assert_eq!(char_width(c), c.len_utf8());
    }
}

#[test]
fn characters_are_those_of_the_text() {
    assert_eq!(characters("a\u{e4}\n\u{10000}"), vec!['a', '\u{e4}', '\n', '\u{10000}']);
    assert!(characters("").is_empty());
}

#[test]
fn a_topic_may_be_quoted_or_a_word() {
    let topics = ["little secret", "latest", "rumors"];
    assert_eq!(added("AddTopic \"little secret\"", &topics), vec!["little secret"]);
    assert_eq!(added("AddTopic latest rumors", &topics), vec!["latest"]);
    assert_eq!(added("AddTopic \"latest rumors\"", &topics), Vec::<String>::new());
    assert_eq!(added("AddTopic \"latest", &topics), vec!["latest"]);
    assert_eq!(added("AddTopic \"latest\" \"rumors\"", &topics), vec!["latest"]);
    assert_eq!(added("AddTopic\t  rumors  ; a word", &topics), vec!["rumors"]);
}

#[test]
fn the_command_and_the_topic_are_found_in_any_case() {
    assert_eq!(added("  aDDtOPIC \"LITTLE Secret\"", &["little secret"]), vec!["little secret"]);
}

#[test]
fn commands_need_white_space_behind_them() {
    assert_eq!(added("AddTopic", &["", "x"]), Vec::<String>::new());
    assert_eq!(added("AddTopic\"x\"", &["x"]), Vec::<String>::new());
    assert_eq!(added("AddTopics x", &["x"]), Vec::<String>::new());
    assert_eq!(added("AddTopi x", &["x"]), Vec::<String>::new());
    assert_eq!(added("set x to AddTopic x", &["x"]), Vec::<String>::new());
}

#[test]
fn comments_add_nothing() {
    assert_eq!(added("; AddTopic x\n  ;AddTopic x", &["x"]), Vec::<String>::new());
}

#[test]
fn lines_end_with_line_feeds_and_may_have_carriage_returns() {
    let text = "begin\r\nAddTopic one\r\n\n\tAddTopic \"two\"\r\nAddTopic three\nend";
    assert_eq!(added(text, &["one", "two", "three", "four"]), vec!["one", "three", "two"]);
    // A carriage return that ends no line is part of it.
    assert_eq!(added("AddTopic \"one\r", &["one"]), Vec::<String>::new());
    assert_eq!(added("AddTopic \"one\r\n", &["one"]), vec!["one"]);
}

#[test]
fn an_empty_operand_stands_for_the_empty_topic() {
    assert_eq!(added("AddTopic \"\"", &["", "x"]), vec![""]);
    assert_eq!(added("AddTopic   ", &["x", ""]), vec![""]);
}

#[test]
fn of_topics_that_differ_in_case_the_first_counts() {
    assert_eq!(added("AddTopic x", &["X", "x"]), vec!["X"]);
    assert_eq!(added("AddTopic X", &["x", "X"]), vec!["x"]);
}

#[test]
fn reasons_that_were_there_stay() {
    let mut live: DialogueTopicReasons = IdMap::new();
    add_script_topic_references("AddTopic x", &["x".to_string()], &mut live);
    add_script_topic_references("AddTopic y", &["x".to_string(), "y".to_string()], &mut live);
    add_script_topic_references("AddTopic x", &["x".to_string()], &mut live);
    assert_eq!(live.len(), 2);
    assert!(live.get("x").unwrap().contains(DialogueTopicReason::Script));
    assert!(live.get("y").unwrap().contains(DialogueTopicReason::Script));
}

#[test]
fn a_character_across_the_end_of_the_command_is_told() {
    // Seven bytes, and a character of two.
    assert!(!is_splittable_script("1234567\u{e4}"));
    assert!(!is_splittable_script("good\n  \t1234567\u{e4} x"));
    assert!(is_splittable_script("123456\u{e4} x"));
    assert!(is_splittable_script("12345678\u{e4}"));
    assert!(is_splittable_script("12345\u{e4}"));
    assert!(is_splittable_script("\u{e4}\u{e4}\u{e4}\u{e4}"));
    assert!(is_splittable_script("; 34567\u{e4}"));
    assert!(is_splittable_script(""));
    // The split that the condition is about.
    for text in ["1234567\u{e4}", "123456\u{e4} x", "\u{10000}\u{10000}", "1\u{10000}\u{10000}"] {
        assert_eq!(is_splittable_script(text), text.len() < 8 || text.is_char_boundary(8));
    }
}

#[test]
fn every_script_of_a_plugin_is_looked_at() {
    let script = |text: &str| {
        TES3Object::Script(Script {
            text: text.to_string(),
            deleted: true,
            ..Default::default()
        })
    };
    let mut plugin = Plugin {
        objects: vec![script("AddTopic x")],
    };
    assert!(scripts_are_splittable(&plugin));
    plugin.objects.push(script("1234567\u{e4}"));
    assert!(!scripts_are_splittable(&plugin));
}
