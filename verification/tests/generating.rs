use cuc::generator::Completor;
use cuc::generator::Generator;
use cuc::node::Entry;
use cuc::node::Node;
use cuc::node::Value;
use cuc::usage::UsageSpec;

fn positional(v: &str) -> Entry {
    Entry {
        name: None,
        value: Value::Str(v.to_string()),
    }
}

fn prop(name: &str, v: Value) -> Entry {
    Entry {
        name: Some(name.to_string()),
        value: v,
    }
}

fn node(name: &str, entries: Vec<Entry>, children: Vec<Node>) -> Node {
    Node {
        name: name.to_string(),
        entries,
        children,
    }
}

fn resolved(nodes: &Vec<Node>) -> UsageSpec {
    let (mut spec, _) = UsageSpec::parse(nodes).unwrap();
    UsageSpec::add_default_completes(&mut spec.completes);
    spec
}

fn generate(spec: UsageSpec, completor: Option<Completor>) -> String {
    let mut g = Generator::new(spec);
    g.completor = completor;
    let mut view = g.into_view();
    view.generate()
}

fn demo_nodes() -> Vec<Node> {
    vec![
        node("bin", vec![positional("app")], vec![]),
        node(
            "flag",
            vec![positional("-v --verbose"), prop("global", Value::Bool(true))],
            vec![],
        ),
        node(
            "cmd",
            vec![positional("build")],
            vec![node("arg", vec![positional("<target>")], vec![])],
        ),
        node(
            "cmd",
            vec![positional("run")],
            vec![node("arg", vec![positional("<target>")], vec![])],
        ),
    ]
}

fn count_occurrences(hay: &str, needle: &str) -> usize {
    let mut count = 0;
    let mut from = 0;
    while let Some(pos) = hay[from..].find(needle) {
        count += 1;
        from += pos + needle.len();
    }
    count
}

#[test]
fn generation_is_deterministic_and_idempotent() {
    let first = generate(resolved(&demo_nodes()), None);
    let second = generate(resolved(&demo_nodes()), None);
    assert_eq!(first, second);
}

#[test]
fn end_to_end_global_flag_and_two_commands() {
    let out = generate(resolved(&demo_nodes()), None);
    // exactly one shared global-flag bundle function
    assert_eq!(count_occurrences(&out, "function _global_flags_()"), 1);
    // two per-command functions named from the root namespace
    assert_eq!(count_occurrences(&out, "function _cmd_build()"), 1);
    assert_eq!(count_occurrences(&out, "function _cmd_run()"), 1);
    // both command bodies call the shared bundle
    assert!(count_occurrences(&out, "_global_flags_()") >= 3);
    // the root matcher targets the declared binary
    assert!(out.contains("clink.argmatcher(\"app\")"));
    assert!(out.contains(":nofiles()"));
}

#[test]
fn no_function_is_declared_twice() {
    let out = generate(resolved(&demo_nodes()), None);
    for name in [
        "function _global_flags_()",
        "function _cmd_build()",
        "function _cmd_run()",
    ] {
        assert_eq!(count_occurrences(&out, name), 1);
    }
    // declarations precede the root body that references them
    let decl = out.find("function _cmd_build()").unwrap();
    let body = out.find("clink.argmatcher(\"app\")").unwrap();
    assert!(decl < body);
}

#[test]
fn variadic_argument_carries_exact_bounds() {
    // the argument is bound to the built-in file completion so that the
    // argument group opens and carries the hint and advance callback
    let nodes = vec![
        node("bin", vec![positional("app")], vec![]),
        node(
            "arg",
            vec![
                positional("<file>"),
                prop("var", Value::Bool(true)),
                prop("var_min", Value::Int(1)),
                prop("var_max", Value::Int(3)),
            ],
            vec![],
        ),
    ];
    let out = generate(resolved(&nodes), None);
    assert!(out.contains("clink.filematches"));
    assert!(out.contains("[multiple args (1..3)]"));
    assert!(out.contains("ud.var_min=1; ud.var_max=3"));
    assert!(out.contains("function loop_until(word_index, line_state, user_data)"));
}

fn run_complete_nodes() -> Vec<Node> {
    vec![
        node("bin", vec![positional("app")], vec![]),
        node(
            "complete",
            vec![
                positional("Target"),
                prop("run", Value::Str("echo hi".to_string())),
                prop("descriptions", Value::Bool(true)),
            ],
            vec![],
        ),
        node("arg", vec![positional("<target>")], vec![]),
        node("cmd", vec![positional("other")], vec![]),
    ]
}

#[test]
fn run_completion_without_bridge_renders_hint_only() {
    let out = generate(resolved(&run_complete_nodes()), None);
    assert!(!out.contains("_complete_arg_"));
    assert!(out.contains("hint = [===[Argument expected: <target>]===]"));
}

#[test]
fn run_completion_with_bridge_renders_bridge_function() {
    let completor = Completor {
        exe_path: "C:\\tools\\app.exe".to_string(),
        shell: "C:\\git\\bash.exe".to_string(),
    };
    let out = generate(resolved(&run_complete_nodes()), Some(completor));
    // the bridge function is declared once and referenced in the root body
    assert_eq!(count_occurrences(&out, "function _complete_arg_Target("), 1);
    assert!(count_occurrences(&out, "_complete_arg_Target") >= 2);
    // the embedded script rides along base64-encoded
    assert!(out.contains("local b64_encoded_script = [[ZWNobyBoaQ==]]"));
    assert!(out.contains("local exec = [[C:\\tools\\app.exe]]"));
    assert!(out.contains("local shell = [[C:\\git\\bash.exe]]"));
    // descriptions are filtered through the colon-prefix extraction
    assert!(out.contains("line = line:match(\"^([^:]+):\")"));
    assert!(out.contains("complete --current"));
}

#[test]
fn choices_render_as_literal_alternation() {
    let choices = node(
        "choices",
        vec![positional("fast"), positional("slow")],
        vec![],
    );
    let nodes = vec![
        node("bin", vec![positional("app")], vec![]),
        node("arg", vec![positional("<mode>")], vec![choices]),
    ];
    let out = generate(resolved(&nodes), None);
    assert!(out.contains("\"fast\", \"slow\""));
}

#[test]
fn file_completion_uses_builtin_matcher() {
    let nodes = vec![
        node("bin", vec![positional("app")], vec![]),
        node("arg", vec![positional("<file>")], vec![]),
    ];
    let out = generate(resolved(&nodes), None);
    assert!(out.contains("clink.filematches"));
}

#[test]
fn registered_matchers_replace_bin_matcher() {
    let mut g = Generator::new(resolved(&demo_nodes()));
    g.arg_matchers = vec!["app".to_string(), "app.exe".to_string()];
    let mut view = g.into_view();
    let out = view.generate();
    assert!(out.contains("local matcher = clink.argmatcher()"));
    assert!(out.contains("clink.arg.register_parser(\"app\", matcher)"));
    assert!(out.contains("clink.arg.register_parser(\"app.exe\", matcher)"));
    assert!(!out.contains("clink.argmatcher(\"app\")"));
}

#[test]
fn flag_help_and_alias_render_inline() {
    let alias = node("alias", vec![positional("-V")], vec![]);
    let nodes = vec![
        node("bin", vec![positional("app")], vec![]),
        node(
            "flag",
            vec![
                positional("--verbose"),
                prop("help", Value::Str("more output".to_string())),
            ],
            vec![alias],
        ),
    ];
    let out = generate(resolved(&nodes), None);
    assert!(out.contains("{ \"--verbose\", [===[more output]===] }"));
    assert!(out.contains("--[[alias]] { \"-V\", [===[more output]===] }"));
}

#[test]
fn negative_variadic_bound_renders_with_sign() {
    let nodes = vec![
        node("bin", vec![positional("app")], vec![]),
        node(
            "arg",
            vec![
                positional("<file>"),
                prop("var", Value::Bool(true)),
                prop("var_min", Value::Int(-2)),
                prop("var_max", Value::Int(-1)),
            ],
            vec![],
        ),
    ];
    let out = generate(resolved(&nodes), None);
    assert!(out.contains("[multiple args (-2..*)]"));
    assert!(out.contains("ud.var_min=-2; ud.var_max=-1"));
}

#[test]
fn nested_scopes_cascade_global_bundles() {
    let nodes = vec![
        node("bin", vec![positional("app")], vec![]),
        node(
            "flag",
            vec![positional("--verbose"), prop("global", Value::Bool(true))],
            vec![],
        ),
        node(
            "cmd",
            vec![positional("top")],
            vec![
                node(
                    "flag",
                    vec![positional("--cd"), prop("global", Value::Bool(true))],
                    vec![],
                ),
                node(
                    "cmd",
                    vec![positional("inner")],
                    vec![node("flag", vec![positional("--fast")], vec![])],
                ),
            ],
        ),
    ];
    let out = generate(resolved(&nodes), None);
    // one function per scope with content, nested names derived from the path
    assert_eq!(count_occurrences(&out, "function _cmd_top()"), 1);
    assert_eq!(count_occurrences(&out, "function _cmd_top_inner()"), 1);
    // the scope declaring its own global calls the parent bundle and,
    // guarded, its own distinct bundle
    assert_eq!(count_occurrences(&out, "function _global_flags_top()"), 1);
    assert!(out.contains("_global_flags_top and _global_flags_top()"));
    // the deepest scope only inherits: it calls its parent bundle and,
    // guarded, its own
    assert!(out.contains("_global_flags_top_inner and _global_flags_top_inner()"));
}

#[test]
fn bridgeless_run_binding_renders_enclosed_hint() {
    // the second argument is rendered as its own enclosed group, so the
    // hint-only fallback shows without any sibling command
    let nodes = vec![
        node("bin", vec![positional("app")], vec![]),
        node(
            "complete",
            vec![
                positional("extra"),
                prop("run", Value::Str("echo hi".to_string())),
            ],
            vec![],
        ),
        node("arg", vec![positional("<target>")], vec![]),
        node("arg", vec![positional("<extra>")], vec![]),
    ];
    let out = generate(resolved(&nodes), None);
    assert!(!out.contains("_complete_arg_"));
    assert!(out.contains(":_addexarg({hint = [===[Argument expected: <extra>]===]})"));
}

#[test]
fn parent_bundle_reference_is_nil_guarded() {
    // the child declares the only global flag: the root scope has no bundle,
    // so the child's reference to it must be guarded, not a bare call
    let nodes = vec![
        node("bin", vec![positional("app")], vec![]),
        node(
            "cmd",
            vec![positional("build")],
            vec![node(
                "flag",
                vec![positional("--cd"), prop("global", Value::Bool(true))],
                vec![],
            )],
        ),
    ];
    let out = generate(resolved(&nodes), None);
    assert_eq!(count_occurrences(&out, "function _global_flags_()"), 0);
    assert!(out.contains("_global_flags_ and _global_flags_()"));
    assert!(!out.contains(")\n\t\t_global_flags_()"));
    assert_eq!(count_occurrences(&out, "function _global_flags_build()"), 1);
}

#[test]
fn leading_bridgeless_run_binding_opens_hint_group() {
    // no subcommand and no other entry: the hint-only group still opens
    let nodes = vec![
        node("bin", vec![positional("app")], vec![]),
        node(
            "complete",
            vec![
                positional("target"),
                prop("run", Value::Str("echo hi".to_string())),
            ],
            vec![],
        ),
        node("arg", vec![positional("<target>")], vec![]),
    ];
    let out = generate(resolved(&nodes), None);
    assert!(!out.contains("_complete_arg_"));
    assert!(out.contains(":_addexarg({hint = [===[Argument expected: <target>]===]})"));
}
