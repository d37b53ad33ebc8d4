use cuc::node::Entry;
use cuc::node::Node;
use cuc::node::Value;
use cuc::parse::parse_arg;
use cuc::parse::parse_complete;
use cuc::parse::parse_flag;
use cuc::parse::parse_name;
use cuc::usage::CompleteKind;
use cuc::usage::UError;

fn arg_entry(v: Value) -> Entry {
    Entry { name: None, value: v }
}

fn prop(name: &str, v: Value) -> Entry {
    Entry {
        name: Some(name.to_string()),
        value: v,
    }
}

fn node(name: &str, entries: Vec<Entry>, children: Vec<Node>) -> Node {
    Node {
        name: name.to_string(),
        entries,
        children,
    }
}

#[test]
fn flag_canonical_name_is_longest_spelling() {
    let n = node(
        "flag",
        vec![arg_entry(Value::Str("-v --verbose".to_string()))],
        vec![],
    );
    let flag = parse_flag(&n).unwrap();
    assert_eq!(flag.name, "verbose");
    assert_eq!(flag.names, vec!["-v", "--verbose"]);
    assert!(!flag.names.is_empty());
}

#[test]
fn flag_canonical_name_ties_break_first() {
    let n = node(
        "flag",
        vec![arg_entry(Value::Str("--aa --bb".to_string()))],
        vec![],
    );
    let flag = parse_flag(&n).unwrap();
    assert_eq!(flag.name, "aa");
}

#[test]
fn flag_slug_replaces_special_chars() {
    let n = node(
        "flag",
        vec![arg_entry(Value::Str("--dry-run".to_string()))],
        vec![],
    );
    let flag = parse_flag(&n).unwrap();
    assert_eq!(flag.name, "dry_run");
}

#[test]
fn flag_props_and_negate() {
    let n = node(
        "flag",
        vec![
            arg_entry(Value::Str("--color".to_string())),
            prop("help", Value::Str("use colors".to_string())),
            prop("global", Value::Bool(true)),
            prop("negate", Value::Str("--no-color".to_string())),
        ],
        vec![],
    );
    let flag = parse_flag(&n).unwrap();
    assert_eq!(flag.help, "use colors");
    assert!(flag.is_global_itself());
    assert_eq!(flag.names, vec!["--color", "--no-color"]);
}

#[test]
fn arg_required_bracket_form() {
    let n = node(
        "arg",
        vec![arg_entry(Value::Str("<target>".to_string()))],
        vec![],
    );
    let arg = parse_arg(&n).unwrap();
    assert!(arg.required);
    assert_eq!(arg.name, "target");
    assert_eq!(arg.repr, "<target>");
}

#[test]
fn arg_optional_bracket_form() {
    let n = node(
        "arg",
        vec![arg_entry(Value::Str("[target]".to_string()))],
        vec![],
    );
    let arg = parse_arg(&n).unwrap();
    assert!(!arg.required);
    assert_eq!(arg.name, "target");
    assert_eq!(arg.repr, "[target]");
}

#[test]
fn arg_bounds_default_when_unset() {
    let n = node(
        "arg",
        vec![arg_entry(Value::Str("[files]".to_string()))],
        vec![],
    );
    let arg = parse_arg(&n).unwrap();
    assert_eq!(arg.max, Some(-1));
    assert_eq!(arg.min, Some(0));
}

#[test]
fn arg_explicit_bounds_kept() {
    let n = node(
        "arg",
        vec![
            arg_entry(Value::Str("<files>".to_string())),
            prop("var", Value::Bool(true)),
            prop("var_min", Value::Int(1)),
            prop("var_max", Value::Int(3)),
        ],
        vec![],
    );
    let arg = parse_arg(&n).unwrap();
    assert!(arg.var);
    assert_eq!(arg.min, Some(1));
    assert_eq!(arg.max, Some(3));
}

#[test]
fn parse_name_rejects_other_kind() {
    let n = node("bin", vec![arg_entry(Value::Str("x".to_string()))], vec![]);
    match parse_name(&n) {
        Err(UError::InvalidNodeName(kind)) => assert_eq!(kind, "bin"),
        other => panic!("expected an invalid-node-name failure, got {:?}", other.is_ok()),
    }
}

#[test]
fn parse_name_requires_first_positional() {
    let n = node("name", vec![prop("help", Value::Str("x".to_string()))], vec![]);
    match parse_name(&n) {
        Err(UError::InvalidNodeFirstArg(kind)) => assert_eq!(kind, "name"),
        other => panic!("expected a missing-first-arg failure, got {:?}", other.is_ok()),
    }
}

#[test]
fn flag_rejects_non_string_first_entry() {
    let n = node("flag", vec![arg_entry(Value::Int(3))], vec![]);
    assert!(matches!(parse_flag(&n), Err(UError::InvalidNodeFirstArg(_))));
}

#[test]
fn choices_entry_must_be_string() {
    let choices = node(
        "choices",
        vec![arg_entry(Value::Str("a".to_string())), arg_entry(Value::Int(1))],
        vec![],
    );
    let n = node(
        "arg",
        vec![arg_entry(Value::Str("<kind>".to_string()))],
        vec![choices],
    );
    assert!(matches!(parse_arg(&n), Err(UError::InvalidNodeFirstArg(_))));
}

#[test]
fn flag_choices_child_synthesizes_arg() {
    let choices = node(
        "choices",
        vec![
            arg_entry(Value::Str("fast".to_string())),
            arg_entry(Value::Str("slow".to_string())),
        ],
        vec![],
    );
    let n = node(
        "flag",
        vec![arg_entry(Value::Str("--mode <mode>".to_string()))],
        vec![choices],
    );
    let flag = parse_flag(&n).unwrap();
    // the last spelling is popped and becomes the synthesized argument
    assert_eq!(flag.names, vec!["--mode"]);
    let arg = flag.arg.expect("synthesized argument");
    assert_eq!(arg.name, "<mode>");
    assert!(arg.required);
    assert_eq!(arg.choices, vec!["fast", "slow"]);
}

#[test]
fn complete_run_and_descriptions() {
    let n = node(
        "complete",
        vec![
            arg_entry(Value::Str("target".to_string())),
            prop("run", Value::Str("echo hi".to_string())),
            prop("descriptions", Value::Bool(true)),
        ],
        vec![],
    );
    let c = parse_complete(&n).unwrap();
    assert_eq!(c.name, "target");
    assert!(c.descs);
    assert!(matches!(c.kind, CompleteKind::Run(ref s) if s == "echo hi"));
}

#[test]
fn complete_type_file() {
    let n = node(
        "complete",
        vec![
            arg_entry(Value::Str("path".to_string())),
            prop("type", Value::Str("file".to_string())),
        ],
        vec![],
    );
    let c = parse_complete(&n).unwrap();
    assert!(c.kind.is_file());
}

#[test]
fn flag_name_trims_leading_and_trailing_dashes() {
    let n = node(
        "flag",
        vec![arg_entry(Value::Str("-v-".to_string()))],
        vec![],
    );
    let flag = parse_flag(&n).unwrap();
    assert_eq!(flag.name, "v");
}

#[test]
fn flag_without_entries_is_rejected() {
    let n = node("flag", vec![], vec![]);
    assert!(matches!(parse_flag(&n), Err(UError::InvalidNodeFirstArg(_))));
}

#[test]
fn cmd_without_entries_is_rejected() {
    let n = node("cmd", vec![], vec![]);
    assert!(matches!(cuc::parse::parse_cmd(&n), Err(UError::InvalidNodeFirstArg(_))));
}

#[test]
fn complete_without_entries_is_rejected() {
    let n = node("complete", vec![], vec![]);
    assert!(matches!(parse_complete(&n), Err(UError::InvalidNodeFirstArg(_))));
}

#[test]
fn arg_without_positional_is_rejected() {
    let n = node("arg", vec![prop("hide", Value::Bool(true))], vec![]);
    assert!(matches!(parse_arg(&n), Err(UError::InvalidNodeFirstArg(_))));
}

#[test]
fn first_positional_wins_over_leading_property() {
    // a named property ahead of the positional value must not be taken as
    // the spelling list
    let n = node(
        "flag",
        vec![
            prop("help", Value::Str("more output".to_string())),
            arg_entry(Value::Str("-v --verbose".to_string())),
        ],
        vec![],
    );
    let flag = parse_flag(&n).unwrap();
    assert_eq!(flag.names, vec!["-v", "--verbose"]);
    assert_eq!(flag.name, "verbose");
    assert_eq!(flag.help, "more output");
}
