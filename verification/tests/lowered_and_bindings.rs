use crabbyconsole::autocomplete::{
    object_only_named_object, rank_completions_lowered, rank_gdscript_slots_lowered, scene_file_completer_lowered,
    AutocompleteSlot, AutocompleteType, VariantTypeName, VariantTypePair,
};
use crabbyconsole::bindings::KeyBindings;
use crabbyconsole::commands::{find_resources_lowered, ForRun, ResourceFind};
use crabbyconsole::history::{search_history_lowered, HistoryEntry};
use crabbyconsole::logfilter::ErrorDeduplicator;

fn pairs(items: &[(&str, &str)]) -> Vec<(String, String)> {
    items.iter().map(|(a, b)| (a.to_string(), b.to_string())).collect()
}

fn words(s: &str) -> Vec<String> {
    s.split_whitespace().map(|w| w.to_string()).collect()
}

#[test]
fn lowered_completions_use_the_given_lowered_texts() {
    let ranked = rank_completions_lowered(
        "no",
        pairs(&[("node", "node"), ("annotate", "annotate"), ("xyz", "xyz"), ("Noise", "noise")]),
    );
    assert_eq!(ranked, vec!["Noise".to_string(), "node".to_string(), "annotate".to_string()]);
    // Only the lowered text is matched against.
    let ranked = rank_completions_lowered("ab", pairs(&[("XY", "abc"), ("ab", "zz")]));
    assert_eq!(ranked, vec!["XY".to_string()]);
    // Within a group, the items are in alphabetical order of the items themselves.
    let ranked = rank_completions_lowered("a", pairs(&[("b", "ab"), ("a", "ba"), ("c", "ac")]));
    assert_eq!(ranked, vec!["b".to_string(), "c".to_string(), "a".to_string()]);
}

fn nil() -> VariantTypePair {
    VariantTypePair { typ: 0, variant_name: "Nil".to_string(), class_name: String::new() }
}

#[test]
fn lowered_gdscript_slots_rank_by_group_rank_and_name() {
    let slot = |name: &str, typ: AutocompleteType| AutocompleteSlot { name: name.to_string(), indentation: 0, help: None, typ };
    let entries = vec![
        (slot("Node", AutocompleteType::Class { is_global: false, is_abstract: false }), "node".to_string()),
        (slot("name", AutocompleteType::BuiltInType), "name".to_string()),
        (slot("notify", AutocompleteType::UtilityFunc(vec![], nil())), "notify".to_string()),
        (slot("get_node", AutocompleteType::Clap), "get_node".to_string()),
    ];
    let out: Vec<String> = rank_gdscript_slots_lowered(entries, "no").iter().map(|s| s.name.clone()).collect();
    assert_eq!(out, vec!["notify".to_string(), "Node".to_string(), "get_node".to_string()]);
}

#[test]
fn lowered_scene_completer_filters_by_lowered_extension() {
    let entries = pairs(&[
        ("res://Main.tscn", "res://main.tscn"),
        ("res://main.gd", "res://main.gd"),
        ("res://map.GLTF", "res://map.gltf"),
        ("res://x.tscn", "res://x.tscn"),
    ]);
    assert_eq!(
        scene_file_completer_lowered("ma", &entries),
        vec!["res://Main.tscn".to_string(), "res://map.GLTF".to_string()]
    );
    assert_eq!(scene_file_completer_lowered("", &entries).len(), 3);
    // An extension in upper case is not a scene file unless its lowered text says so.
    let odd = pairs(&[("res://a.TSCN", "res://a.TSCN")]);
    assert!(scene_file_completer_lowered("", &odd).is_empty());
}

fn entry(command: &str, timestamp: i128, success: bool) -> HistoryEntry {
    HistoryEntry {
        timestamp,
        command: command.to_string(),
        success,
        execution_time: 0,
        async_wait_time: None,
        signal_wait_time: None,
    }
}

#[test]
fn lowered_history_search_matches_the_given_lowered_commands() {
    let h = vec![
        entry("print(1)", 10, true),
        entry("  print(1) ", 20, false),
        entry("vprint(2)", 30, true),
        entry("quit()", 40, true),
    ];
    let lowers = vec![
        "print(1)".to_string(),
        "  print(1) ".to_string(),
        "vprint(2)".to_string(),
        "quit()".to_string(),
    ];
    let found = search_history_lowered(&h, &lowers, "print");
    let names: Vec<String> = found.iter().map(|s| s.name.clone()).collect();
    assert_eq!(names, vec!["vprint(2)".to_string(), "  print(1) ".to_string()]);
    let quit = search_history_lowered(&h, &lowers, "qu");
    assert_eq!(quit.len(), 1);
    assert_eq!(quit[0].timestamp, 40);
}

#[test]
fn lowered_resource_find_uses_the_lowered_needle() {
    let entries = pairs(&[
        ("res://Player.tscn", "res://player.tscn"),
        ("res://icon.svg", "res://icon.svg"),
        ("res://player_2.tscn", "res://player_2.tscn"),
    ]);
    match find_resources_lowered(&entries, Some("player"), true, false) {
        Ok(ResourceFind::Listing(t)) => assert_eq!(t, "res://Player.tscn\nres://player_2.tscn"),
        _ => panic!("expected a listing"),
    }
    match find_resources_lowered(&entries, None, false, false) {
        Ok(ResourceFind::Listing(t)) => assert_eq!(t, "res://Player.tscn"),
        _ => panic!("expected a listing"),
    }
    match find_resources_lowered(&entries, Some("icon"), false, true) {
        Ok(ResourceFind::Load(p)) => assert_eq!(p, "res://icon.svg"),
        _ => panic!("expected a load"),
    }
    assert_eq!(
        find_resources_lowered(&entries, Some("PLAYER"), false, true).err().unwrap(),
        "No resource found that matches given needle"
    );
}

#[test]
fn object_table_check() {
    let good = vec![
        VariantTypeName { typ: 0, name: "Nil".to_string() },
        VariantTypeName { typ: 24, name: "Object".to_string() },
    ];
    assert!(object_only_named_object(&good));
    let bad = vec![
        VariantTypeName { typ: 24, name: "Object".to_string() },
        VariantTypeName { typ: 24, name: "Thing".to_string() },
    ];
    assert!(!object_only_named_object(&bad));
    assert!(object_only_named_object(&vec![]));
}

#[test]
fn keys_are_bound_unbound_listed_and_cleared() {
    let mut b = KeyBindings::new();
    assert_eq!(b.list(), "{}");
    assert_eq!(b.bind(65, "A", &words("print 1")), "Bound key A to print 1");
    assert_eq!(b.bind(66, "B", &words("quit()")), "Bound key B to quit()");
    assert_eq!(b.command_for(65), Some(&"print 1".to_string()));
    assert_eq!(b.command_for(67), None);
    assert_eq!(b.list(), "{\n    A: \"print 1\",\n    B: \"quit()\",\n}");
    // Binding a bound key replaces its command in place.
    assert_eq!(b.bind(65, "A", &words("x")), "Bound key A to x");
    assert_eq!(b.list(), "{\n    A: \"x\",\n    B: \"quit()\",\n}");
    assert_eq!(b.len(), 2);
    assert_eq!(b.unbind(65, "A"), Ok("Unbound key A with command \"x\"".to_string()));
    assert_eq!(b.unbind(65, "A"), Err("Key A was not bound".to_string()));
    assert_eq!(b.command_for(65), None);
    assert_eq!(b.command_for(66), Some(&"quit()".to_string()));
    assert_eq!(b.clear(), "Removed 1 bindings.");
    assert_eq!(b.len(), 0);
    assert_eq!(b.clear(), "Removed 0 bindings.");
}

#[test]
fn for_run_collects_until_the_first_failure() {
    let mut run: ForRun<i32, String> = ForRun::new();
    assert!(run.record(Ok(1)));
    assert!(run.record(Ok(2)));
    assert_eq!(run.finish(), Ok(vec![1, 2]));
    let mut run: ForRun<i32, String> = ForRun::new();
    assert!(run.record(Ok(1)));
    assert!(!run.record(Err("bad".to_string())));
    assert!(!run.record(Ok(3)));
    assert_eq!(run.finish(), Err("bad".to_string()));
    let empty: ForRun<i32, String> = ForRun::new();
    assert_eq!(empty.finish(), Ok(vec![]));
}

#[test]
fn error_shown_again_only_after_the_window() {
    let mut d = ErrorDeduplicator::new();
    let s = 1_000_000_000u128;
    assert!(d.allow("e", 0));
    assert!(!d.allow("e", 5 * s - 1));
    assert!(d.allow("e", 5 * s));
}
