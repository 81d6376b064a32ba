use crabbyconsole::autocomplete::{
    parse_variant_type, utility_function_slots, variant_type_pair, Argument, UtilityFunction, VariantTypeName,
    rank_completions, rank_gdscript_slots, scene_file_completer, AutocompleteSlot, AutocompleteType, VariantTypePair};
use crabbyconsole::history::{
    timing_text, waiting_message, Waiting, get_default_history_entries, history_after_load, interruption_message, prepare_submission, search_history,
    ConsoleHistory, HistoryEntry, InterruptionKind,
};
use crabbyconsole::logfilter::{error_report, is_garbage_error, ErrorDeduplicator, ErrorType, LogHook};
use crabbyconsole::names::{is_reserved_keyword, is_valid_variable_name, validate_no_braces, CommandName, CommandNameError};
use crabbyconsole::numbers::{
    describe_status, for_expressions, format_status, humanize_duration, i64_to_string, render_template, replace,
    SteppedRange, SteppedRangeError,
};
use crabbyconsole::registry::{
    describe_expression, remote_status_text, signal_watch_names, signal_watch_prefix, signals_added_message, watchable_name,
    WatchNameStyle, WatchableKind, CommandAction, CommandOutput, CommandRegistry, ConsoleClientEvent, ConsoleServer,
    ClientEventOutcome, CustomCommand, CustomCommandExpression, Watch, WatchAction, Watches,
};

fn words(s: &str) -> Vec<String> {
    s.split(' ').filter(|w| !w.is_empty()).map(|w| w.to_string()).collect()
}

fn entry(command: &str, timestamp: i128, success: bool) -> HistoryEntry {
    HistoryEntry {
        timestamp,
        command: command.to_string(),
        success,
        execution_time: 0,
        async_wait_time: None,
        signal_wait_time: None,
    }
}

#[test]
fn registry_add_then_get_then_remove() {
    let reserved = vec!["clear".to_string()];
    let mut reg = CommandRegistry::new();
    let out = reg.handle(CommandAction::Add { name: "hi".to_string(), body: words("print( 1 )") }, &reserved);
    assert_eq!(out, Ok(CommandOutput::Nil));
    let c = reg.get("hi").unwrap();
    assert_eq!(c.expression, CustomCommandExpression::String("print( 1 )".to_string()));
    assert_eq!(c.help, "print( 1 )");
    reg.handle(CommandAction::Add { name: "hi".to_string(), body: words("2") }, &reserved).unwrap();
    assert_eq!(reg.len(), 1);
    assert_eq!(reg.get("hi").unwrap().expression, CustomCommandExpression::String("2".to_string()));
    reg.handle(CommandAction::Add { name: "other".to_string(), body: words("3") }, &reserved).unwrap();
    assert_eq!(
        reg.handle(CommandAction::List, &reserved),
        Ok(CommandOutput::Text("hi = String(\"2\")\nother = String(\"3\")".to_string()))
    );
    assert_eq!(reg.subcommands(), vec![("hi".to_string(), "2".to_string()), ("other".to_string(), "3".to_string())]);
    reg.handle(CommandAction::Remove { name: "hi".to_string() }, &reserved).unwrap();
    assert!(reg.get("hi").is_none());
    assert!(reg.get("other").is_some());
    reg.handle(CommandAction::Clear, &reserved).unwrap();
    assert_eq!(reg.len(), 0);
}

#[test]
fn registry_refuses_bad_names() {
    let reserved = vec!["clear".to_string()];
    let mut reg = CommandRegistry::new();
    let bad = reg.handle(CommandAction::Add { name: "-x".to_string(), body: words("1") }, &reserved);
    assert_eq!(bad, Err(CommandNameError::Invalid("-x".to_string())));
    let taken = reg.handle(CommandAction::Add { name: "clear".to_string(), body: words("1") }, &reserved);
    let err = taken.unwrap_err();
    assert_eq!(err, CommandNameError::Reserved("clear".to_string()));
    assert_eq!(
        err.message(),
        "'clear' is reserved (a custom command cannot have the same name as a built-in command)"
    );
    assert_eq!(
        CommandNameError::Invalid("help".to_string()).message(),
        "'help' is not a valid command name (it must be alphanumeric, must not start with a dash, and cannot be `help`)"
    );
    assert!(CommandName::new("help".to_string(), &reserved).is_err());
    assert_eq!(CommandName::new("my-cmd_2".to_string(), &reserved).unwrap().as_str(), "my-cmd_2");
    assert!(!CommandName::is_valid("a b"));
    assert!(CommandName::is_available("x", &reserved));
    assert!(!CommandName::is_available("clear", &reserved));
    assert_eq!(reg.len(), 0);
}

#[test]
fn describes_expressions() {
    assert_eq!(describe_expression(&CustomCommandExpression::String("a \"b\"".to_string())), "String(\"a \\\"b\\\"\")");
    assert_eq!(describe_expression(&CustomCommandExpression::Callable(7)), "Callable(#7)");
}

#[test]
fn watches_add_remove_pause() {
    let mut w = Watches::new();
    let add = |name: &str, slot: u64| WatchAction::Add { name: name.to_string(), expression: words("fps ( )"), slot };
    assert_eq!(w.handle(add("fps", 1)), CommandOutput::Text("Added new watch `fps`.".to_string()));
    assert_eq!(w.handle(add("fps", 2)), CommandOutput::Text("Overwrote watch `fps`.".to_string()));
    w.handle(add("frame", 3));
    w.handle(add("mem", 4));
    assert_eq!(w.len(), 3);
    assert_eq!(
        w.handle(WatchAction::Remove { prefix: "f".to_string(), all: true }),
        CommandOutput::Text("Removed 2 watches:\nfps\nframe".to_string())
    );
    assert_eq!(
        w.handle(WatchAction::Remove { prefix: "x".to_string(), all: false }),
        CommandOutput::Text("No watch found with prefix `x`.".to_string())
    );
    assert_eq!(w.handle(WatchAction::List), CommandOutput::Text("mem = String(\"fps ( )\")".to_string()));
    assert_eq!(w.handle(WatchAction::Pause), CommandOutput::Bool(true));
    assert!(w.paused());
    assert_eq!(w.handle(WatchAction::Pause), CommandOutput::Bool(false));
    assert_eq!(w.handle(WatchAction::Refresh), CommandOutput::Text("Refreshed 1 watches.".to_string()));
    assert_eq!(w.handle(WatchAction::Clear), CommandOutput::Text("Cleared 1 watches.".to_string()));
    assert_eq!(w.len(), 0);
    let mut w2 = Watches::new();
    assert!(!w2.insert("a".to_string(), Watch { expression: CustomCommandExpression::Callable(1), slot: 9 }));
    assert!(w2.insert("a".to_string(), Watch { expression: CustomCommandExpression::Callable(2), slot: 9 }));
    assert_eq!(w2.get_index(0).unwrap().1.slot, 9);
}

#[test]
fn console_server_tracks_clients() {
    let mut s = ConsoleServer::new("127.0.0.1".to_string(), 9000);
    assert_eq!(s.ip(), "127.0.0.1");
    assert_eq!(s.port(), 9000);
    let a = "10.0.0.1:5".to_string();
    assert_eq!(s.handle_client_event(a.clone(), ConsoleClientEvent::Connected), ClientEventOutcome::Applied);
    assert_eq!(s.handle_client_event(a.clone(), ConsoleClientEvent::RanCommand), ClientEventOutcome::Applied);
    assert_eq!(s.client_at(0), Some((&a, 1)));
    assert_eq!(s.handle_client_event(a.clone(), ConsoleClientEvent::Connected), ClientEventOutcome::AlreadyPresent(1));
    assert_eq!(
        s.handle_client_event("x".to_string(), ConsoleClientEvent::RanCommand),
        ClientEventOutcome::MissingClient
    );
    assert_eq!(s.handle_client_event(a.clone(), ConsoleClientEvent::Disconnected), ClientEventOutcome::Applied);
    assert_eq!(s.len(), 0);
}

#[test]
fn history_search_keeps_latest_and_orders() {
    let h = vec![
        entry("print(1)", 10, true),
        entry("  print(1) ", 20, false),
        entry("vprint(2)", 30, true),
        entry("quit()", 40, true),
    ];
    let found = search_history(&h, "PRINT");
    let names: Vec<String> = found.iter().map(|s| s.name.clone()).collect();
    assert_eq!(names, vec!["vprint(2)".to_string(), "  print(1) ".to_string()]);
    assert_eq!(found[1].timestamp, 20);
    assert!(!found[1].success);
    let perfect = search_history(&h, "qu");
    assert_eq!(perfect.len(), 1);
    assert_eq!(perfect[0].name, "quit()");
}

#[test]
fn history_moves_and_records() {
    let mut h = ConsoleHistory::new();
    assert!(h.record(entry("a", 1, true)));
    assert!(!h.record(entry("a", 2, true)));
    assert!(h.record(entry("b", 3, true)));
    assert_eq!(h.entries.len(), 2);
    assert_eq!(h.index, 2);
    assert_eq!(h.move_by(-1), "b");
    assert_eq!(h.move_by(-5), "a");
    assert_eq!(h.move_by(9), "b");
    assert_eq!(prepare_submission("   :clear"), Some(":clear".to_string()));
    assert_eq!(prepare_submission("   "), None);
}

#[test]
fn default_history_and_loading() {
    let d = get_default_history_entries(5);
    assert_eq!(d.len(), 8);
    assert_eq!(d[0].command, "viewport().size_changed");
    assert_eq!(d[7].command, "DisplayServer.beep()");
    assert!(d.iter().all(|e| e.timestamp == 5 && e.success && e.execution_time == 0));
    let loaded = history_after_load(Err("no file".to_string()), 5);
    assert_eq!(loaded.entries.len(), 8);
    assert_eq!(loaded.to_save.len(), 8);
    let read = history_after_load(Ok(vec![entry("x", 1, true)]), 5);
    assert_eq!(read.entries.len(), 1);
    assert!(read.to_save.is_empty());
    assert!(!interruption_message(&InterruptionKind::ByUser).is_empty());
}

#[test]
fn names_and_keywords() {
    assert!(is_reserved_keyword("while"));
    assert!(!is_reserved_keyword("whale"));
    assert!(is_valid_variable_name("foo_1"));
    assert!(!is_valid_variable_name("1foo"));
    assert!(!is_valid_variable_name("for"));
    assert!(!is_valid_variable_name("_"));
    assert_eq!(validate_no_braces("abc"), Ok("abc".to_string()));
    assert_eq!(validate_no_braces("a{b"), Err("value must not contain '{' or '}': `a{b`".to_string()));
}

#[test]
fn numbers_and_templates() {
    assert_eq!(i64_to_string(-42), "-42");
    assert_eq!(replace("a-b-c", "-", "+"), "a+b+c");
    assert_eq!(render_template("{x},{y},{x}", &vec![("x".to_string(), "1".to_string()), ("y".to_string(), "2".to_string())]), "1,2,1");
    assert_eq!(humanize_duration(59), "59s ago");
    assert_eq!(humanize_duration(300), "5m ago");
    assert_eq!(humanize_duration(7200), "2h ago");
    assert_eq!(humanize_duration(86400 * 3), "3d ago");
    assert_eq!(humanize_duration(86400 * 60), "2mo ago");
    assert_eq!(humanize_duration(86400 * 800), "2y ago");
    assert_eq!(format_status(404, Some("Not Found")), "404 Not Found");
    assert_eq!(format_status(799, None), "799");
    assert_eq!(describe_status(502), "502 Bad Gateway");
    assert_eq!(describe_status(200), "200 OK");
    assert_eq!(describe_status(799), "799");
    assert_eq!(describe_status(70000), "70000");
    assert_eq!(describe_status(-1), "-1");
}

#[test]
fn stepped_ranges() {
    let mut r = SteppedRange::new(1, 7, 3).unwrap();
    assert_eq!((r.next(), r.next(), r.next(), r.next()), (Some(1), Some(4), Some(7), None));
    let mut down = SteppedRange::new(3, 1, -1).unwrap();
    assert_eq!((down.next(), down.next(), down.next(), down.next()), (Some(3), Some(2), Some(1), None));
    let mut edge = SteppedRange::new(i64::MAX - 1, i64::MAX, 5).unwrap();
    assert_eq!((edge.next(), edge.next()), (Some(i64::MAX - 1), None));
    let zero = SteppedRange::new(1, 5, 0).err().unwrap();
    assert_eq!(zero, SteppedRangeError::StepZero);
    assert_eq!(zero.message(), "step must not be 0");
    let wrong = SteppedRange::new(1, 5, -1).err().unwrap();
    assert_eq!(wrong, SteppedRangeError::WrongDirection { start: 1, end: 5, step: -1 });
    assert_eq!(wrong.message(), "step -1 does not move from 1 toward 5");
    assert_eq!(
        for_expressions("i", "print({i})", 1, 3, 1).unwrap(),
        vec!["print(1)".to_string(), "print(2)".to_string(), "print(3)".to_string()]
    );
}

#[test]
fn garbage_errors_are_recognised() {
    assert!(is_garbage_error(
        "Parse error: Cannot get return value of call to \"print()\" because it returns \"void\".",
        ErrorType::Script
    ));
    assert!(is_garbage_error("Assignment is not allowed inside an expression.", ErrorType::Script));
    assert!(is_garbage_error("Expected end of statement after \"for\", found \":\" instead.", ErrorType::Script));
    assert!(!is_garbage_error("Assignment is not allowed inside an expression.", ErrorType::Error));
    assert!(!is_garbage_error("Something else", ErrorType::Script));
}

fn vt(typ: i64, name: &str) -> VariantTypePair {
    VariantTypePair { typ, variant_name: name.to_string(), class_name: String::new() }
}

#[test]
fn completions_are_ranked() {
    let ranked = rank_completions("no", vec!["node".to_string(), "annotate".to_string(), "xyz".to_string(), "Noise".to_string()]);
    assert_eq!(ranked, vec!["Noise".to_string(), "node".to_string(), "annotate".to_string()]);
    let slots = vec![
        AutocompleteSlot { name: "get_node".to_string(), indentation: 0, help: None, typ: AutocompleteType::Method(vec![], vt(0, "NIL")) },
        AutocompleteSlot { name: "name".to_string(), indentation: 0, help: None, typ: AutocompleteType::Property(vt(4, "String")) },
        AutocompleteSlot { name: "Node".to_string(), indentation: 0, help: None, typ: AutocompleteType::Class { is_global: false, is_abstract: false } },
        AutocompleteSlot { name: "notify".to_string(), indentation: 0, help: None, typ: AutocompleteType::Method(vec![], vt(0, "NIL")) },
    ];
    let out: Vec<String> = rank_gdscript_slots(slots, "no").iter().map(|s| s.name.clone()).collect();
    assert_eq!(out, vec!["notify".to_string(), "Node".to_string(), "get_node".to_string()]);
}

#[test]
fn log_hook_switches_and_filters() {
    let mut hook = LogHook::new(true);
    assert!(hook.get_enabled());
    assert!(hook.accepts_message());
    assert!(hook.accepts_error("Something broke", ErrorType::Error));
    assert!(!hook.accepts_error("Assignment is not allowed inside an expression.", ErrorType::Script));
    assert!(!hook.toggle_enabled());
    assert!(!hook.accepts_message());
    assert!(!hook.accepts_error("Something broke", ErrorType::Error));
    assert!(hook.set_enabled(true));
    assert!(hook.get_enabled());
}

#[test]
fn error_reports_name_the_place() {
    assert_eq!(
        error_report("SCRIPT", "Bad thing", "because", "_ready", "res://main.gd", 12),
        "Error (SCRIPT): Bad thing (because)\nFunction: _ready (res://main.gd:12)\n"
    );
}

#[test]
fn signal_watches_are_named_and_filtered() {
    assert_eq!(watchable_name(WatchableKind::Resource, "", "Texture2D"), "Texture2D");
    assert_eq!(watchable_name(WatchableKind::Resource, "icon", "Texture2D"), "icon");
    assert_eq!(watchable_name(WatchableKind::Object, "x", "SceneTree"), "SceneTree");
    assert_eq!(signal_watch_prefix(WatchNameStyle::Name, "Player", "Player:<Node#1>", None), Ok("Player".to_string()));
    assert_eq!(
        signal_watch_prefix(WatchNameStyle::NameWithId, "Player", "Player:<Node#1>", None),
        Ok("Player:<Node#1>".to_string())
    );
    assert_eq!(
        signal_watch_prefix(WatchNameStyle::Path, "Player", "id", Some("/root/Player")),
        Ok("/root/Player".to_string())
    );
    assert!(signal_watch_prefix(WatchNameStyle::Path, "Player", "id", None).unwrap_err().starts_with("User requested"));
    let names = signal_watch_names("Player", &vec!["ready".to_string(), "bad name".to_string(), "tree_exited".to_string()]);
    assert_eq!(
        names,
        vec![
            ("ready".to_string(), "Player.ready".to_string()),
            ("tree_exited".to_string(), "Player.tree_exited".to_string())
        ]
    );
    assert_eq!(signals_added_message(3, WatchableKind::Node, "/root/Player"), "Added 3 watches for node `/root/Player`.");
}

#[test]
fn scene_files_are_completed() {
    let res = vec![
        "res://Main.tscn".to_string(),
        "res://main.gd".to_string(),
        "res://map.GLTF".to_string(),
        "res://x.tscn".to_string(),
    ];
    assert_eq!(scene_file_completer("ma", &res), vec!["res://Main.tscn".to_string(), "res://map.GLTF".to_string()]);
    assert_eq!(scene_file_completer("", &res).len(), 3);
}

fn types() -> Vec<VariantTypeName> {
    vec![
        VariantTypeName { typ: 0, name: "Nil".to_string() },
        VariantTypeName { typ: 3, name: "float".to_string() },
        VariantTypeName { typ: 4, name: "String".to_string() },
        VariantTypeName { typ: 24, name: "Object".to_string() },
    ]
}

#[test]
fn variant_types_are_read_by_name() {
    assert_eq!(parse_variant_type("float", &types()), Ok(3));
    assert_eq!(parse_variant_type("Node", &types()), Err("unknown variant type: Node".to_string()));
    let p = variant_type_pair("Node", &types());
    assert_eq!((p.typ, p.variant_name.as_str(), p.class_name.as_str()), (24, "Object", "Node"));
    assert_eq!(p.nice_variant_name(), "Node");
    let q = variant_type_pair("String", &types());
    assert_eq!((q.typ, q.variant_name.as_str(), q.class_name.as_str()), (4, "String", ""));
}

#[test]
fn global_functions_become_suggestions() {
    let funcs = vec![
        UtilityFunction {
            name: "lerp".to_string(),
            return_type: Some("float".to_string()),
            is_vararg: false,
            arguments: vec![
                Argument { name: "from".to_string(), ty: "float".to_string() },
                Argument { name: "to".to_string(), ty: "float".to_string() },
            ],
            description: "Interpolates.\nMore detail.".to_string(),
        },
        UtilityFunction {
            name: "print".to_string(),
            return_type: None,
            is_vararg: true,
            arguments: vec![],
            description: String::new(),
        },
    ];
    let slots = utility_function_slots(&funcs, 2, &types());
    assert_eq!(slots.len(), 2);
    assert_eq!(slots[0].name, "lerp");
    assert_eq!(slots[0].indentation, 2);
    assert_eq!(slots[0].help, Some("Interpolates.".to_string()));
    match &slots[0].typ {
        AutocompleteType::UtilityFunc(args, ret) => {
            assert_eq!(args.len(), 2);
            assert_eq!(args[1].0, "to");
            assert_eq!(args[1].1.typ, 3);
            assert_eq!(ret.typ, 3);
        }
        _ => panic!("expected a utility function"),
    }
    assert_eq!(slots[1].help, Some(String::new()));
    match &slots[1].typ {
        AutocompleteType::UtilityFunc(args, ret) => {
            assert!(args.is_empty());
            assert_eq!((ret.typ, ret.variant_name.as_str()), (0, "Nil"));
        }
        _ => panic!("expected a utility function"),
    }
}

#[test]
fn remote_status_lists_clients() {
    assert_eq!(remote_status_text(None), "Status: offline\n\nTo start the remote console, run :cons remote start.");
    let mut s = ConsoleServer::new("0.0.0.0".to_string(), 7777);
    s.handle_client_event("1.2.3.4:9".to_string(), ConsoleClientEvent::Connected);
    s.handle_client_event("1.2.3.4:9".to_string(), ConsoleClientEvent::RanCommand);
    s.handle_client_event("5.6.7.8:1".to_string(), ConsoleClientEvent::Connected);
    assert_eq!(
        remote_status_text(Some(&s)),
        "Status: online (0.0.0.0:7777)\nConnected clients (2):\n- 1.2.3.4:9 (commands run: 1)\n- 5.6.7.8:1 (commands run: 0)\n"
    );
}

#[test]
fn job_status_lines() {
    assert_eq!(waiting_message(Waiting::Async), "Waiting for async... (press Ctrl+C to cancel)");
    assert_eq!(waiting_message(Waiting::Signal), "Waiting for signal... (press Ctrl+C to cancel)");
    assert_eq!(timing_text("1.2ms", None, None), " (took 1.2ms)");
    assert_eq!(timing_text("1ms", Some("2ms"), None), " (took 1ms + 2ms async wait time)");
    assert_eq!(timing_text("1ms", None, Some("3ms")), " (took 1ms + 3ms signal wait time)");
    assert_eq!(
        timing_text("1ms", Some("2ms"), Some("3ms")),
        " (took 1ms + 2ms async wait time + 3ms signal wait time)"
    );
}

#[test]
fn errors_are_shown_once_per_window() {
    let mut d = ErrorDeduplicator::new();
    let s = 1_000_000_000u128;
    assert!(d.allow("boom", 10 * s));
    assert!(!d.allow("boom", 12 * s));
    assert!(d.allow("other", 12 * s));
    assert!(!d.allow("boom", 15 * s - 1));
    assert!(d.allow("boom", 15 * s));
    assert!(!d.allow("boom", 19 * s));
}

#[test]
fn replace_with_empty_pattern_matches_std() {
    assert_eq!(replace("ab", "", "x"), "ab".replace("", "x"));
    assert_eq!(replace("", "", "x"), "x");
}

#[test]
fn type_names_round_trip() {
    for name in ["int", "float", "String", "Node3D", "Nil"] {
        let p = variant_type_pair(name, &types());
        assert_eq!(p.nice_variant_name(), name);
    }
}
