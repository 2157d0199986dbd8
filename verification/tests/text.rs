//! Texts, maps keyed by texts, scopes, buffers and payloads.
use boon::abi::BufferRange;
use boon::builtins::{join_texts, static_function_call_path_to_definition, BuiltinFunction};
use boon::parts::{get_property, merge_style_property, set_property};
use boon::scene::{
    event_keydown_text, event_payload_matches, event_primary_payload, split_keydown_payload,
    EventPortId, UiEvent, UiEventKind,
};
use boon::scope::{
    child_path, local_element_scope, object_item_scope, path_key, scope_element_binding,
    scope_object_source_binding,
};
use boon::semantic_ir::{IntCompareOp, TextListFilter};
use boon::text::{
    i64_text, parse_i64, split_once, split_text, strip_prefix, text_less, trim_text, u128_text,
    u64_text,
};
use boon::text_map::TextMap;
use boon::values::{int_compare_matches, text_list_item_matches_filter};

fn strings(texts: &[&str]) -> Vec<String> {
    texts.iter().map(|text| text.to_string()).collect()
}

#[test]
fn numbers_are_written_and_read_back() {
    assert_eq!(u64_text(0), "0");
    assert_eq!(u64_text(18446744073709551615), "18446744073709551615");
    assert_eq!(u128_text(u128::MAX), "340282366920938463463374607431768211455");
    assert_eq!(i64_text(-42), "-42");
    for value in [0, 7, -7, i64::MAX, i64::MIN] {
        assert_eq!(i64_text(value), value.to_string());
        assert_eq!(parse_i64(&i64_text(value)), Some(value));
    }
}

#[test]
fn numbers_are_parsed_as_the_standard_library_does() {
    for text in ["12", "+12", "-12", "", "+", "-", "1a", " 1", "9223372036854775808", "-9223372036854775808", "007"] {
        assert_eq!(parse_i64(text), text.parse::<i64>().ok(), "{text}");
    }
}

#[test]
fn texts_are_trimmed_of_white_space() {
    for text in ["", "  a b ", "\t\n x\u{A0}", "\u{3000}y\u{2003}", "\u{85}", "\u{200B}z"] {
        assert_eq!(trim_text(text), text.trim());
    }
}

#[test]
fn texts_are_split_and_stripped() {
    assert_eq!(split_once("a:b:c", ':'), Some(("a".to_string(), "b:c".to_string())));
    assert_eq!(split_once("abc", ':'), None);
    assert_eq!(split_text("a/b//c", '/'), strings(&["a", "b", "", "c"]));
    assert_eq!(split_text("", '/'), strings(&[""]));
    assert_eq!(strip_prefix("store.x", "store."), Some("x".to_string()));
    assert_eq!(strip_prefix("x", "store."), None);
}

#[test]
fn texts_are_ordered_by_their_bytes() {
    let texts = ["", "A", "a", "aa", "b", "\u{E9}", "\u{4E2D}", "\u{1F600}", "\u{FFFD}"];
    for a in texts {
        for b in texts {
            assert_eq!(text_less(a, b), a < b, "{a} {b}");
        }
    }
}

#[test]
fn a_map_keeps_the_last_value_of_each_key_in_order() {
    let mut map: TextMap<i64> = TextMap::new();
    for (key, value) in [("b", 1), ("a", 2), ("c", 3), ("b", 4)] {
        map.insert(key.to_string(), value);
    }
    assert_eq!(map.len(), 3);
    let listed: Vec<(String, i64)> = (0..map.len()).map(|i| (map.entry(i).0.clone(), *map.entry(i).1)).collect();
    assert_eq!(listed, vec![("a".to_string(), 2), ("b".to_string(), 4), ("c".to_string(), 3)]);
    assert_eq!(map.take("a"), Some(2));
    assert_eq!(map.take("a"), None);
    assert_eq!(map.get("c"), Some(&3));
    assert!(!map.contains_key("a"));
}

#[test]
fn paths_and_scopes_are_named() {
    assert_eq!(path_key(&vec![]), "root");
    assert_eq!(path_key(&child_path(&vec![0, 12], 3)), "0_12_3");
    let scope = object_item_scope("store.todos", 7);
    assert_eq!(scope, "store.todos.__item__.7");
    assert_eq!(
        scope_object_source_binding(Some("__item__.button"), "store.todos", 7),
        Some("store.todos.__item__.7.button".to_string()),
    );
    assert_eq!(
        scope_object_source_binding(Some("store.button"), "store.todos", 7),
        Some("store.button".to_string()),
    );
    assert_eq!(scope_object_source_binding(None, "store.todos", 7), None);
    assert_eq!(scope_element_binding("__element__.hovered", Some("s")), "s.hovered");
    assert_eq!(scope_element_binding("store.hovered", Some("s")), "store.hovered");
    assert_eq!(scope_element_binding("__element__.hovered", None), "__element__.hovered");
}

#[test]
fn elements_with_facts_of_their_own_have_a_scope() {
    let facts = vec![boon::semantic_ir::SemanticFactBinding {
        kind: boon::semantic_ir::SemanticFactKind::Hovered,
        binding: "__element__.hovered".to_string(),
    }];
    assert_eq!(local_element_scope(&vec![1, 2], None, &facts), Some("__element__.1_2".to_string()));
}

#[test]
fn buffer_ranges_are_packed_and_read_back() {
    let range = BufferRange::new(3, 4);
    assert_eq!(BufferRange::from_packed(range.pack()), range);
    let memory: Vec<u8> = (0..10).collect();
    assert_eq!(range.slice(&memory), Some(&memory[3..7]));
    assert_eq!(BufferRange::new(8, 4).slice(&memory), None);
    assert_eq!(BufferRange::new(u32::MAX, u32::MAX).slice(&memory), None);
}

#[test]
fn key_payloads_hold_a_key_and_a_text() {
    assert_eq!(split_keydown_payload("Enter"), ("Enter".to_string(), None));
    assert_eq!(
        split_keydown_payload("Enter\u{1F}milk"),
        ("Enter".to_string(), Some("milk".to_string())),
    );
    let event = UiEvent {
        target: EventPortId(1),
        kind: UiEventKind::KeyDown,
        payload: Some("Enter\u{1F}milk".to_string()),
    };
    assert_eq!(event_primary_payload(&event), Some("Enter".to_string()));
    assert_eq!(event_keydown_text(&event), Some("milk".to_string()));
    assert!(event_payload_matches(&event, "Enter"));
    assert!(!event_payload_matches(&event, "Escape"));
}

#[test]
fn numbers_in_texts_are_compared() {
    let more = TextListFilter::IntCompare { op: IntCompareOp::Greater, value: 2 };
    assert!(text_list_item_matches_filter("3", &more));
    assert!(!text_list_item_matches_filter("2", &more));
    assert!(!text_list_item_matches_filter("milk", &more));
    assert!(int_compare_matches(IntCompareOp::LessOrEqual, 2, 2));
    assert!(!int_compare_matches(IntCompareOp::Less, 2, 2));
    assert!(int_compare_matches(IntCompareOp::NotEqual, 1, 2));
}

#[test]
fn properties_are_replaced_and_styles_joined() {
    let mut properties = vec![("class".to_string(), "a".to_string())];
    set_property(&mut properties, "class", "b".to_string());
    set_property(&mut properties, "id", "x".to_string());
    assert_eq!(get_property(&properties, "class"), Some("b".to_string()));
    assert_eq!(get_property(&properties, "id"), Some("x".to_string()));
    assert_eq!(get_property(&properties, "style"), None);
    merge_style_property(&mut properties, "color: red");
    assert_eq!(get_property(&properties, "style"), Some("color: red".to_string()));
    merge_style_property(&mut properties, "width: 1px");
    let style = get_property(&properties, "style").unwrap();
    assert!(style.starts_with("color: red") && style.ends_with("width: 1px"), "{style}");
}

#[test]
fn functions_of_the_platform_have_paths() {
    assert_eq!(
        static_function_call_path_to_definition(&strings(&["List", "count"])),
        Ok(BuiltinFunction::ListCount),
    );
    assert_eq!(
        static_function_call_path_to_definition(&strings(&["Ulid", "generate"])),
        Ok(BuiltinFunction::UlidGenerate),
    );
    assert_eq!(
        static_function_call_path_to_definition(&strings(&["List", "nothing"])),
        Err("Unknown function 'List/nothing(..)' in static context".to_string()),
    );
    assert_eq!(join_texts(&strings(&["a", "b", "c"]), "/"), "a/b/c");
    assert_eq!(join_texts(&strings(&[]), "/"), "");
}
