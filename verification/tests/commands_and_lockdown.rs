use crabbyconsole::commands::{
    adjacent_pairs,
    check_callable_args, check_variable_name, collect_results, delta_type_error, eval_file_summary, file_commands, find_resources,
    norm_type_error, parse_position, prepare_select, route_expression, split_commands, split_coordinates,
    split_range, timestamp_prefix, BoolArg, DeltaArgs, DeltaPlan, ExpressionRoute, PositionSpec, ResourceFind,
    SelectError, SeqRun,
};
use crabbyconsole::lockdown::{
    check_command_allowed, check_gdscript_allowed, check_marker, enable_lockdown, is_lockdown_enabled, lockdown, CommandLink,
    LockdownError, LockdownRefusal, LockdownState,
};

fn words(s: &str) -> Vec<String> {
    s.split(' ').filter(|w| !w.is_empty()).map(|w| w.to_string()).collect()
}

#[test]
fn lockdown_is_entered_once_and_stays() {
    let mut state = LockdownState::new();
    assert!(!is_lockdown_enabled(&state));
    assert_eq!(enable_lockdown(&mut state), Ok(()));
    assert!(is_lockdown_enabled(&state));
    let again = enable_lockdown(&mut state);
    assert_eq!(again, Err(LockdownError::AlreadyEnabled));
    assert_eq!(again.unwrap_err().message(), "lockdown mode was already enabled");
    assert!(is_lockdown_enabled(&state));
}

#[test]
fn lockdown_refuses_gdscript_and_risky_commands() {
    let mut state = LockdownState::new();
    let chain = vec![
        CommandLink { name: ":".to_string(), marked: false },
        CommandLink { name: "window".to_string(), marked: true },
        CommandLink { name: "size".to_string(), marked: false },
    ];
    assert_eq!(check_gdscript_allowed(&state), Ok(()));
    assert_eq!(check_command_allowed(&state, &chain), Ok(()));
    enable_lockdown(&mut state).unwrap();
    let refused = check_gdscript_allowed(&state).unwrap_err();
    assert_eq!(refused.message(), "GDScript execution disallowed, since lockdown mode is enabled");
    let refused = check_command_allowed(&state, &chain).unwrap_err();
    assert_eq!(refused, LockdownRefusal::RiskyCommand { risky_cmd: ": window size".to_string() });
    assert_eq!(
        refused.message(),
        "Running risky command `: window size` is disallowed, since lockdown mode is enabled"
    );
    let safe = vec![CommandLink { name: ":".to_string(), marked: false }, CommandLink { name: "clear".to_string(), marked: false }];
    assert_eq!(check_command_allowed(&state, &safe), Ok(()));
}

#[test]
fn check_marker_reports_chain() {
    let chain = vec![
        CommandLink { name: ":".to_string(), marked: true },
        CommandLink { name: "log".to_string(), marked: false },
    ];
    assert_eq!(check_marker(&chain), (true, ": log".to_string()));
    assert_eq!(check_marker(&vec![]), (false, String::new()));
}

#[test]
fn delta_plans_identity_first() {
    let args = DeltaArgs { expression: words("node . position"), norm: true, dt: false };
    assert_eq!(args.cache_key(), "node . position");
    assert_eq!(args.plan(false), DeltaPlan::Identity { norm: true });
    assert_eq!(args.plan(true), DeltaPlan::Difference { per_second: false, norm: true });
    assert_eq!(delta_type_error("STRING"), "`:delta` expected numeric type, instead got STRING");
    assert_eq!(
        norm_type_error("BOOL"),
        "the `--norm` flag can only be used with numeric types, Vector-like types, and Quat, not BOOL"
    );
}

#[test]
fn bool_arg_switches() {
    assert!(BoolArg::Value(true).apply(false));
    assert!(!BoolArg::Value(false).apply(true));
    assert!(BoolArg::Toggle.apply(false));
    assert!(!BoolArg::Toggle.apply(BoolArg::Toggle.apply(false)));
    assert_eq!(BoolArg::value_variants(), vec![BoolArg::Value(true), BoolArg::Value(false), BoolArg::Toggle]);
    let on = BoolArg::Value(true).to_possible_value();
    assert_eq!(on.name, "1");
    assert_eq!(on.aliases, vec!["true".to_string(), "on".to_string()]);
    let off = BoolArg::Value(false).to_possible_value();
    assert_eq!(off.name, "0");
    assert_eq!(off.aliases, vec!["false".to_string(), "off".to_string()]);
    let t = BoolArg::Toggle.to_possible_value();
    assert_eq!(t.name, "toggle");
    assert!(t.aliases.is_empty());
}

#[test]
fn seq_and_par_groups() {
    let w = words("|> print(1) |> |> a . b |>");
    assert_eq!(split_commands(&w, "|>"), vec!["print(1)".to_string(), "a . b".to_string()]);
    let w = words("x <> y z");
    assert_eq!(split_commands(&w, "<>"), vec!["x".to_string(), "y z".to_string()]);
    assert!(split_commands(&vec![], "|>").is_empty());
}

#[test]
fn select_needs_separator_then_valid_binding() {
    let w = words("i > 3 =-> i + 1 =-> x");
    let plan = prepare_select("i", &w).ok().unwrap();
    assert_eq!(plan.condition, "i > 3");
    assert_eq!(plan.body, "i + 1 =-> x");
    let missing = prepare_select("i", &words("i > 3")).err().unwrap();
    assert_eq!(missing, SelectError::MissingSeparator);
    assert_eq!(missing.message(), "expected exactly one =-> separator to separate condition from body");
    let bad = prepare_select("1x", &w).err().unwrap();
    assert_eq!(bad, SelectError::InvalidBinding { binding: "1x".to_string() });
    assert_eq!(
        bad.message(),
        "invalid binding name `1x`, must be alphanumeric, must not start with a digit, and cannot be a reserved keyword"
    );
    assert_eq!(prepare_select("1x", &words("a")).err().unwrap(), SelectError::MissingSeparator);
}

#[test]
fn seq_run_stops_at_first_error() {
    let mut run: SeqRun<i32, String> = SeqRun::new(false);
    assert!(run.record(Ok(1)));
    assert!(!run.record(Err("boom".to_string())));
    assert_eq!(run.finish(), Err("boom".to_string()));
    let mut run: SeqRun<i32, String> = SeqRun::new(true);
    assert!(run.record(Err("ignored".to_string())));
    assert!(run.record(Ok(2)));
    assert_eq!(run.finish(), Ok(Some(2)));
    let run: SeqRun<i32, String> = SeqRun::new(false);
    assert_eq!(run.finish(), Ok(None));
}

#[test]
fn par_results_collect_first_error() {
    let ok: Vec<Result<i32, String>> = vec![Ok(1), Ok(2)];
    assert_eq!(collect_results(ok), Ok(vec![1, 2]));
    let bad: Vec<Result<i32, String>> = vec![Ok(1), Err("a".to_string()), Err("b".to_string())];
    assert_eq!(collect_results(bad), Err("a".to_string()));
}

#[test]
fn resource_find_filters_ignoring_case() {
    let res = vec!["res://Player.tscn".to_string(), "res://icon.svg".to_string(), "res://player_2.tscn".to_string()];
    match find_resources(&res, &words("player"), false, false).ok().unwrap() {
        ResourceFind::Listing(t) => assert_eq!(t, "res://Player.tscn"),
        ResourceFind::Load(_) => panic!("expected a listing"),
    }
    match find_resources(&res, &words("PLAYER"), true, false).ok().unwrap() {
        ResourceFind::Listing(t) => assert_eq!(t, "res://Player.tscn\nres://player_2.tscn"),
        ResourceFind::Load(_) => panic!("expected a listing"),
    }
    match find_resources(&res, &vec![], true, false).ok().unwrap() {
        ResourceFind::Listing(t) => assert_eq!(t, "res://Player.tscn\nres://icon.svg\nres://player_2.tscn"),
        ResourceFind::Load(_) => panic!("expected a listing"),
    }
    match find_resources(&res, &words("icon"), false, true).ok().unwrap() {
        ResourceFind::Load(p) => assert_eq!(p, "res://icon.svg"),
        ResourceFind::Listing(_) => panic!("expected a load"),
    }
    assert_eq!(
        find_resources(&res, &words("nothing"), false, true).err().unwrap(),
        "No resource found that matches given needle"
    );
    match find_resources(&res, &words("nothing"), true, false).ok().unwrap() {
        ResourceFind::Listing(t) => assert_eq!(t, ""),
        ResourceFind::Load(_) => panic!("expected a listing"),
    }
}

#[test]
fn eval_file_skips_blank_lines_and_comments() {
    let lines = vec![
        "  print(1)  ".to_string(),
        "".to_string(),
        "   # comment".to_string(),
        ":clear".to_string(),
    ];
    assert_eq!(file_commands(&lines), vec!["print(1)".to_string(), ":clear".to_string()]);
    assert_eq!(eval_file_summary(4, "/game/run.txt"), "Evaluated 4 commands from file `/game/run.txt`.");
}

#[test]
fn routes_commands_and_gdscript() {
    match route_expression(":seq\ta") {
        ExpressionRoute::Command(c) => assert_eq!(c, "seq a"),
        ExpressionRoute::GdScript(_) => panic!("expected a command"),
    }
    match route_expression("1 +\n 2") {
        ExpressionRoute::GdScript(g) => assert_eq!(g, "1 + 2"),
        ExpressionRoute::Command(_) => panic!("expected GDScript"),
    }
}

#[test]
fn position_arguments() {
    assert_eq!(parse_position("@cursor"), Ok(PositionSpec::Cursor));
    assert_eq!(parse_position("@cam"), Ok(PositionSpec::Camera));
    assert_eq!(parse_position("@Static*3D"), Ok(PositionSpec::Node("Static*3D".to_string())));
    assert_eq!(parse_position("@"), Err("node pattern cannot be empty".to_string()));
    assert_eq!(parse_position("1,2"), Ok(PositionSpec::Coordinates("1,2".to_string())));
}

#[test]
fn coordinates_and_ranges_are_cut() {
    assert_eq!(split_coordinates("1, 2", 2), Ok(vec!["1".to_string(), " 2".to_string()]));
    assert_eq!(split_coordinates("1,2", 3), Err("expected 'x,y,z' but got '1,2'".to_string()));
    assert_eq!(split_coordinates("1,2,3", 2), Err("expected 'x,y' but got '1,2,3'".to_string()));
    assert_eq!(split_range("-5..10"), Ok(("-5".to_string(), "10".to_string())));
    assert_eq!(split_range("1...3"), Ok(("1".to_string(), ".3".to_string())));
    assert_eq!(split_range("5"), Err("invalid range `5`, expected format START..END".to_string()));
}

#[test]
fn timestamps_and_callable_arity() {
    assert_eq!(timestamp_prefix(true, 7, 5, 59), Some("[07:05:59] ".to_string()));
    assert_eq!(timestamp_prefix(false, 7, 5, 59), None);
    assert_eq!(check_callable_args(2, 3), Ok(()));
    assert_eq!(check_callable_args(2, 2), Ok(()));
    assert_eq!(
        check_callable_args(3, 1),
        Err("Callable expected at least 3 arguments, but got only 1".to_string())
    );
}

#[test]
fn set_needs_a_valid_name() {
    assert_eq!(check_variable_name("speed"), Ok(()));
    assert_eq!(
        check_variable_name("_"),
        Err("invalid variable name `_`, must be alphanumeric, must not start with a digit, and cannot be a reserved keyword".to_string())
    );
}

#[test]
fn lockdown_replies() {
    let mut state = LockdownState::new();
    assert_eq!(lockdown(&mut state), Ok("Lockdown mode enabled."));
    assert_eq!(lockdown(&mut state), Err(LockdownError::AlreadyEnabled));
    assert!(is_lockdown_enabled(&state));
}

#[test]
fn neighbouring_pairs() {
    assert_eq!(adjacent_pairs(&vec![1, 2, 3]), Ok(vec![(1, 2), (2, 3)]));
    assert_eq!(adjacent_pairs(&vec![7]), Err("expected array of at least 2 elements, but got 1 instead".to_string()));
    assert_eq!(
        adjacent_pairs::<i32>(&vec![]),
        Err("expected array of at least 2 elements, but got 0 instead".to_string())
    );
}
