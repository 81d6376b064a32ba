use crabbyconsole::expr::{build_eval_sources, reduce_expression, split_statements, ReduceExpressionResultSlot};
use crabbyconsole::text::{
    fit_to_width, sanitize_code, second_to_last_word_end, split_console_whitespace, strip_prefix, trim,
};

fn chars_to_string(v: &Vec<char>) -> String {
    v.iter().collect()
}

#[test]
fn splits_on_any_whitespace() {
    let words = split_console_whitespace("  :node  find\tPlayer \n");
    assert_eq!(words, vec![":node".to_string(), "find".to_string(), "Player".to_string()]);
    assert!(split_console_whitespace("   ").is_empty());
}

#[test]
fn second_to_last_word_end_counts_trailing_space() {
    assert_eq!(second_to_last_word_end(":node fi"), 7);
    assert_eq!(second_to_last_word_end(":node "), 7);
    assert_eq!(second_to_last_word_end(":no"), 1);
    assert_eq!(second_to_last_word_end(""), 1);
}

#[test]
fn fit_to_width_pads_and_cuts() {
    assert_eq!(fit_to_width("ab", 4), "ab  ");
    assert_eq!(fit_to_width("abcdef", 3), "abc");
    assert_eq!(fit_to_width("", 0), "");
}

#[test]
fn sanitize_replaces_tabs_and_drops_control() {
    assert_eq!(sanitize_code("a\tb\nc\u{7}d"), "a bcd");
}

#[test]
fn trim_and_strip_prefix() {
    assert_eq!(trim("  x y \t"), "x y");
    assert_eq!(strip_prefix(":seq a", ":"), Some("seq a".to_string()));
    assert_eq!(strip_prefix("seq", ":"), None);
}

#[test]
fn reduce_expression_splits_call_chain() {
    let r = reduce_expression("foo().bar(1, 2).baz");
    assert_eq!(r.slots.len(), 2);
    match &r.slots[0] {
        ReduceExpressionResultSlot::Method(n, a) => {
            assert_eq!(n, "foo");
            assert_eq!(a, "");
        }
        _ => panic!("expected a method"),
    }
    match &r.slots[1] {
        ReduceExpressionResultSlot::Method(n, a) => {
            assert_eq!(n, "bar");
            assert_eq!(a, "1, 2");
        }
        _ => panic!("expected a method"),
    }
    assert_eq!(r.indentation, 16);
    assert_eq!(r.remaining, "baz");
}

#[test]
fn reduce_expression_keeps_the_rest() {
    let input = "node.position.x";
    let r = reduce_expression(input);
    assert_eq!(r.slots.len(), 2);
    let rest: String = input.chars().skip(r.indentation).collect();
    assert_eq!(r.remaining, rest);
    assert_eq!(r.remaining, "x");
    let r2 = reduce_expression("f(g()).h");
    assert!(r2.slots.is_empty());
    assert_eq!(r2.indentation, 0);
    assert_eq!(r2.remaining, "f(g()).h");
}

#[test]
fn statements_skip_empty_pieces() {
    let st = split_statements("a = 1;  ; b");
    let texts: Vec<String> = st.iter().map(chars_to_string).collect();
    assert_eq!(texts, vec!["a = 1".to_string(), "b".to_string()]);
}

#[test]
fn eval_sources_for_two_statements() {
    let metas = vec!["x".to_string()];
    let s = build_eval_sources("a = 1; b", &metas, "Node", "run_7").unwrap();
    let attrs = "\t@warning_ignore_start(\"unused_variable\")\n\t@warning_ignore_start(\"unused_parameter\")\n\t@warning_ignore_start(\"return_value_discarded\")\n\t@warning_ignore_start(\"shadowed_variable\")\n\t@warning_ignore_start(\"integer_division\")";
    let head = format!("extends Node\n\nfunc run_7():\n{attrs}\n\tvar x = get_meta(\"x\")\n\t");
    assert_eq!(s.as_expression, format!("{head}a = 1\n\treturn b\n"));
    assert_eq!(s.as_statement, format!("{head}a = 1\n\tb\n"));
    assert_eq!(build_eval_sources(" ; ", &metas, "Node", "run_7").err(), Some("Empty expression".to_string()));
}

#[test]
fn eval_sources_single_statement_without_metas() {
    let s = build_eval_sources("1 + 2", &vec![], "Ctx", "f").unwrap();
    assert!(s.as_expression.ends_with("\n\t\n\treturn 1 + 2\n"));
    assert!(s.as_statement.ends_with("\n\t\n\t1 + 2\n"));
}
