use crabbyconsole::autocomplete::{AutocompleteSlot, AutocompleteType, VariantTypePair};
use crabbyconsole::docs::{
    escape_table_cell, format_arg, full_command_name, help_page, markdown_table, mono_csv, write_help_docs, ArgInfo,
    ArgRow, CommandDoc, PossibleValueInfo,
};
use crabbyconsole::history::SearchSlot;
use crabbyconsole::plot::{load_cached_font, metrics_text_anchor, FontCache, MetricsKind};
use crabbyconsole::suggestions::{
    apply_completion, autocomplete_slot_line, clap_completion_args, clap_slots, ClapCompletion, MAX_SLOTS, maybe_shift_slot, pick_nodepath_format, pick_type_of, search_slot_line,
    slot_color, slot_details, truncate_slots, PickType, PickerState, SlotColor, SuggestionSlots,
};

const HEADER: &str = "| Name | Description | Possible values | Default |\n| --- | --- | --- | --- |\n";

fn row(name: &str, help: &str, pv: &[&str], dv: &[&str]) -> ArgRow {
    ArgRow {
        name: name.to_string(),
        help: help.to_string(),
        possible_values: pv.iter().map(|s| s.to_string()).collect(),
        default_values: dv.iter().map(|s| s.to_string()).collect(),
    }
}

fn vt(typ: i64, variant: &str, class: &str) -> VariantTypePair {
    VariantTypePair { typ, variant_name: variant.to_string(), class_name: class.to_string() }
}

#[test]
fn escape_table_cell_escapes_pipes_and_breaks() {
    assert_eq!(escape_table_cell("a|b\nc"), "a\\|b<br>c");
    assert_eq!(escape_table_cell("plain"), "plain");
    assert!(!escape_table_cell("x\n\ny").contains('\n'));
}

#[test]
fn mono_csv_quotes_each_value() {
    assert_eq!(mono_csv(&vec!["a".to_string(), "b|c".to_string()]), "`a`, `b\\|c`");
    assert_eq!(mono_csv(&vec![]), "");
}

#[test]
fn markdown_table_of_named_rows() {
    let rows = vec![row("`-n`<br>`--norm`", "Use the norm", &[], &["false"]), row("", "hidden", &[], &[])];
    assert_eq!(markdown_table(&rows), format!("{HEADER}| `-n`<br>`--norm` | Use the norm |  | `false` |\n"));
    assert_eq!(markdown_table(&vec![row("", "x", &[], &[])]), "");
    assert_eq!(markdown_table(&vec![]), "");
}

#[test]
fn format_arg_names_positionals_and_flags() {
    let positional = ArgInfo {
        positional: true,
        id: "expression".to_string(),
        value_names: None,
        short: None,
        long: None,
        help: Some("The expression".to_string()),
        possible_values: vec![],
        default_values: vec![],
    };
    let r = format_arg(&positional);
    assert_eq!(r.name, "`<EXPRESSION>`");
    assert_eq!(r.help, "The expression");
    let named = ArgInfo { value_names: Some(vec!["X".to_string(), "Y".to_string()]), ..positional };
    assert_eq!(format_arg(&named).name, "`<X>`<br>`<Y>`");
    let flag = ArgInfo {
        positional: false,
        id: "metrics".to_string(),
        value_names: None,
        short: Some('m'),
        long: Some("metrics".to_string()),
        help: None,
        possible_values: vec![
            PossibleValueInfo { name: "none".to_string(), hidden: false },
            PossibleValueInfo { name: "secret".to_string(), hidden: true },
            PossibleValueInfo { name: "basic".to_string(), hidden: false },
        ],
        default_values: vec!["basic".to_string()],
    };
    let r = format_arg(&flag);
    assert_eq!(r.name, "`-m`<br>`--metrics`");
    assert_eq!(r.help, "");
    assert_eq!(r.possible_values, vec!["none".to_string(), "basic".to_string()]);
    assert_eq!(r.default_values, vec!["basic".to_string()]);
}

fn doc(name: &str, risky: bool, experimental: bool, subs: Vec<CommandDoc>) -> CommandDoc {
    CommandDoc {
        name: name.to_string(),
        about: format!("  About {name}\n"),
        usage: String::new(),
        positionals: vec![],
        options: vec![],
        risky,
        experimental,
        subcommands: subs,
    }
}

#[test]
fn help_page_sections() {
    let page = help_page(": window", " Resize it ", ": window <W>", &vec![], &vec![], true, false);
    assert_eq!(
        page,
        "# `: window`\n\nResize it\n\nUsage: `: window <W>`\n\n!!! danger \"Risky\"\n    This command is marked as risky, so it cannot be used in lockdown mode.\n"
    );
    let page = help_page("x", "", "", &vec![], &vec![], false, true);
    assert_eq!(
        page,
        "# `x`\n\n!!! example \"Experimental\"\n    This command is marked as experimental, so it may be subject to change.\n"
    );
}

#[test]
fn help_docs_inherit_markers_and_nest_folders() {
    let tree = doc(":", false, false, vec![doc("window", true, false, vec![doc("size", false, false, vec![])]), doc("clear", false, false, vec![])]);
    let pages = write_help_docs(&tree, "");
    assert_eq!(pages.len(), 4);
    assert!(pages[0].dir.is_empty());
    assert!(pages[0].markdown.starts_with("# `:`\n\nAbout :\n\n"));
    assert_eq!(pages[1].dir, vec!["window".to_string()]);
    assert!(pages[1].markdown.starts_with("# `: window`"));
    assert_eq!(pages[2].dir, vec!["window".to_string(), "size".to_string()]);
    assert!(pages[2].markdown.starts_with("# `: window size`"));
    assert!(pages[2].markdown.contains("!!! danger \"Risky\""));
    assert_eq!(pages[3].dir, vec!["clear".to_string()]);
    assert!(!pages[3].markdown.contains("Risky"));
    assert_eq!(full_command_name("", ":"), ":");
    assert_eq!(full_command_name(": window", "size"), ": window size");
}

#[test]
fn plot_font_layout_and_metrics() {
    let mut cache = FontCache::new();
    assert!(cache.needs_registration());
    let layout = load_cached_font(&mut cache, Some(Ok(()))).unwrap();
    assert!(!cache.needs_registration());
    let again = load_cached_font(&mut cache, None).unwrap();
    assert_eq!(again.font_metrics_name, layout.font_metrics_name);
    assert_eq!(again.font_sans_serif_y_label_area_size, layout.font_sans_serif_y_label_area_size);
    assert_eq!(layout.font_metrics_name, "plotters-metrics");
    assert_eq!(layout.font_sans_serif_name, "sans-serif");
    assert_eq!((layout.font_metrics_size, layout.font_sans_serif_size), (16, 15));
    assert_eq!((layout.font_metrics_line_height, layout.font_metrics_margin), (16, 8));
    assert_eq!(layout.font_sans_serif_y_label_area_size, 45);
    let mut failed = FontCache::new();
    assert_eq!(load_cached_font(&mut failed, Some(Err("failed to load font".to_string()))).unwrap_err(), "failed to load font");
    assert_eq!(load_cached_font(&mut failed, None).unwrap_err(), "failed to load font");
    assert_eq!(metrics_text_anchor(&layout, 300, 2), (292, 40));
    assert_eq!(MetricsKind::Off.line_count(), 0);
    assert_eq!(MetricsKind::Basic.line_count(), 2);
    assert_eq!(MetricsKind::Advanced.line_count(), 3);
    assert!(!MetricsKind::Off.is_shown());
}

#[test]
fn shifting_the_selection_wraps() {
    assert_eq!(maybe_shift_slot(3, None, 1), Some(0));
    assert_eq!(maybe_shift_slot(3, Some(2), 1), Some(0));
    assert_eq!(maybe_shift_slot(3, Some(0), -1), Some(2));
    assert_eq!(maybe_shift_slot(0, Some(0), -1), Some(0));
    let there = maybe_shift_slot(5, Some(1), 7).unwrap();
    assert_eq!(maybe_shift_slot(5, Some(there), -7), Some(1));
}

fn slot(name: &str, indentation: usize, typ: AutocompleteType) -> AutocompleteSlot {
    AutocompleteSlot { name: name.to_string(), indentation, help: None, typ }
}

#[test]
fn completion_replaces_the_typed_word() {
    let m = slot("queue_free", 5, AutocompleteType::Method(vec![], vt(0, "NIL", "")));
    assert_eq!(apply_completion("node.que", &m), "node.queue_free()");
    let p = slot("position", 5, AutocompleteType::Property(vt(5, "Vector2", "")));
    assert_eq!(apply_completion("node.pos", &p), "node.position");
    assert_eq!(apply_completion("ab", &p), "abposition");
}

#[test]
fn perform_moves_and_completes() {
    let slots = vec![
        slot("show", 5, AutocompleteType::Method(vec![], vt(0, "NIL", ""))),
        slot("scale", 5, AutocompleteType::Property(vt(5, "Vector2", ""))),
    ];
    let mut s = SuggestionSlots::Autocomplete(slots, None, "node.s".to_string());
    assert_eq!(s.perform(1), Some("node.show()".to_string()));
    assert_eq!(s.perform(1), Some("node.scale".to_string()));
    assert_eq!(s.target_line(), 1);
    let mut h = SuggestionSlots::Hidden;
    assert_eq!(h.perform(1), None);
    let mut search = SuggestionSlots::Search(vec![SearchSlot { name: ":clear".to_string(), timestamp: 0, success: true }], Some(0));
    assert_eq!(search.perform(-1), Some(":clear".to_string()));
}

#[test]
fn slot_text_and_colors() {
    let args = vec![("text".to_string(), vt(4, "String", "")), ("".to_string(), vt(24, "Object", "Node"))];
    let sig = AutocompleteType::Signal(args, vt(0, "NIL", ""));
    assert_eq!(slot_details(&sig), "(text: String, Node) (signal)");
    let m = AutocompleteType::Method(vec![], vt(24, "Object", "Node3D"));
    assert_eq!(slot_details(&m), "() -> Node3D");
    let c = AutocompleteType::Class { is_global: true, is_abstract: true };
    assert_eq!(slot_details(&c), " (global) (abstract)");
    assert_eq!(slot_color(&c), SlotColor::Global);
    assert_eq!(slot_color(&AutocompleteType::Clap), SlotColor::Method);
    let mut s = slot("hide", 5, AutocompleteType::Method(vec![], vt(0, "NIL", "")));
    s.help = Some("Hides it".to_string());
    assert_eq!(autocomplete_slot_line("node", &s), "node hide() Hides it");
    let entry = SearchSlot { name: ":fps".to_string(), timestamp: 0, success: true };
    assert_eq!(search_slot_line(&entry, 300_000_000_000), ":fps 5m ago");
    assert_eq!(search_slot_line(&entry, 0), ":fps 0s ago");
}

#[test]
fn truncating_keeps_the_first() {
    let mut v = vec![1, 2, 3, 4];
    truncate_slots(&mut v, 2);
    assert_eq!(v, vec![1, 2]);
    truncate_slots(&mut v, 10);
    assert_eq!(v, vec![1, 2]);
}

#[test]
fn picker_selection_and_formats() {
    let mut p = PickerState::new();
    assert_eq!(p.on_scroll(1), None);
    assert_eq!(p.on_hovered(3), Some("[3/3]\n(scroll to change slot)".to_string()));
    assert_eq!(p.on_scroll(1), Some("[2/3]\n(scroll to change slot)".to_string()));
    assert_eq!(p.on_scroll(-2), Some("[1/3]\n(scroll to change slot)".to_string()));
    assert_eq!(p.on_hovered(0), None);
    assert_eq!(pick_nodepath_format("/root/Main", "123", 0), Some("get_node(\"/root/Main\")".to_string()));
    assert_eq!(pick_nodepath_format("/root/Main", "123", 1), Some("/root/Main".to_string()));
    assert_eq!(pick_nodepath_format("/root/Main", "123", 2), Some("instance_from_id(123)".to_string()));
    assert_eq!(pick_nodepath_format("/root/Main", "123", 3), Some(":node from-id 123".to_string()));
    assert_eq!(pick_nodepath_format("/root/Main", "123", 4), None);
    assert_eq!(pick_type_of(1), Some(PickType::Node2D));
    assert_eq!(pick_type_of(7), None);
}

#[test]
fn refreshed_suggestions_keep_selection_only_for_same_line() {
    let search = |n: usize| -> Vec<SearchSlot> {
        (0..n).map(|i| SearchSlot { name: format!("c{i}"), timestamp: 0, success: true }).collect()
    };
    let before = SuggestionSlots::Search(search(3), Some(2));
    match before.with_search(search(200), false) {
        SuggestionSlots::Search(v, i) => {
            assert_eq!(v.len(), MAX_SLOTS);
            assert_eq!(i, Some(2));
        }
        _ => panic!("expected history matches"),
    }
    match before.with_search(search(2), true) {
        SuggestionSlots::Search(v, i) => {
            assert_eq!(v.len(), 2);
            assert_eq!(i, None);
        }
        _ => panic!("expected history matches"),
    }
    match before.with_completions(vec![], false, "x".to_string()) {
        SuggestionSlots::Autocomplete(v, i, l) => {
            assert!(v.is_empty());
            assert_eq!(i, None);
            assert_eq!(l, "x");
        }
        _ => panic!("expected completions"),
    }
}

#[test]
fn clap_completion_words_and_slots() {
    assert_eq!(clap_completion_args("node fi"), (vec!["node".to_string(), "fi".to_string()], 1));
    assert_eq!(clap_completion_args("node "), (vec!["node".to_string(), String::new()], 1));
    assert_eq!(clap_completion_args(""), (vec![String::new()], 0));
    let slots = clap_slots(
        "node fi",
        &vec![
            ClapCompletion { value: "find".to_string(), help: Some("Find nodes".to_string()) },
            ClapCompletion { value: "from-id".to_string(), help: None },
        ],
    );
    assert_eq!(slots.len(), 2);
    assert_eq!(slots[0].name, "find");
    assert_eq!(slots[0].indentation, 6);
    assert_eq!(slots[0].help, Some("Find nodes".to_string()));
    assert!(matches!(slots[1].typ, AutocompleteType::Clap));
    assert_eq!(slots[1].help, None);
}
