use cuc::namespace::NameSpace;
use cuc::node::Entry;
use cuc::node::Node;
use cuc::node::Value;
use cuc::usage::CompleteKind;
use cuc::usage::GlobalFlag;
use cuc::usage::UsageSpec;

fn positional(v: &str) -> Entry {
    Entry {
        name: None,
        value: Value::Str(v.to_string()),
    }
}

fn prop(name: &str, v: Value) -> Entry {
    Entry {
        name: Some(name.to_string()),
        value: v,
    }
}

fn node(name: &str, entries: Vec<Entry>, children: Vec<Node>) -> Node {
    Node {
        name: name.to_string(),
        entries,
        children,
    }
}

fn demo_nodes() -> Vec<Node> {
    vec![
        node("bin", vec![positional("app")], vec![]),
        node(
            "flag",
            vec![positional("-v --verbose"), prop("global", Value::Bool(true))],
            vec![],
        ),
        node(
            "cmd",
            vec![positional("build")],
            vec![node("arg", vec![positional("<target>")], vec![])],
        ),
        node(
            "cmd",
            vec![positional("run")],
            vec![node("arg", vec![positional("<target>")], vec![])],
        ),
    ]
}

#[test]
fn parse_assembles_and_propagates() {
    let nodes = demo_nodes();
    let (spec, inc) = UsageSpec::parse(&nodes).unwrap();
    assert!(inc.is_none());
    assert_eq!(spec.info.bin, "app");
    assert_eq!(spec.flags.len(), 1);
    assert_eq!(spec.cmds.len(), 2);
    // the global flag was imposed, tagged with the root namespace
    for cmd in &spec.cmds {
        assert_eq!(cmd.flags.len(), 1);
        assert!(cmd.flags[0].is_global_imposed());
        assert_eq!(cmd.flags[0].name, "verbose");
    }
}

#[test]
fn propagation_is_idempotent() {
    let nodes = demo_nodes();
    let (mut spec, _) = UsageSpec::parse(&nodes).unwrap();
    let before: Vec<usize> = spec.cmds.iter().map(|c| c.flags.len()).collect();
    // run the whole resolution pass a second time over the resolved tree:
    // root flags imposed first, then full-depth propagation
    let flags = std::mem::take(&mut spec.flags);
    for flag in &flags {
        if flag.is_global_itself() {
            for cmd in &mut spec.cmds {
                UsageSpec::add_global_flag_to_cmd(flag, cmd, NameSpace::root());
            }
        }
    }
    spec.flags = flags;
    UsageSpec::add_global_flags_to_all_subcmds(&mut spec.cmds, NameSpace::root());
    let after: Vec<usize> = spec.cmds.iter().map(|c| c.flags.len()).collect();
    assert_eq!(before, after);
}

#[test]
fn propagation_reaches_every_descendant() {
    let nodes = vec![
        node(
            "flag",
            vec![positional("-v --verbose"), prop("global", Value::Bool(true))],
            vec![],
        ),
        node(
            "cmd",
            vec![positional("top")],
            vec![
                node(
                    "flag",
                    vec![positional("--cd"), prop("global", Value::Bool(true))],
                    vec![],
                ),
                node("cmd", vec![positional("inner")], vec![]),
            ],
        ),
    ];
    let (spec, _) = UsageSpec::parse(&nodes).unwrap();
    let top = &spec.cmds[0];
    // the root flag reached the direct child, tagged with the root scope
    assert!(top.flags.iter().any(|f| f.name == "verbose"
        && matches!(f.global, GlobalFlag::Imposed(ref ns) if ns.scope.is_empty())));
    // both globals reached the grandchild, re-tagged to its immediate parent
    let inner = &top.cmds[0];
    assert_eq!(inner.flags.len(), 2);
    for f in &inner.flags {
        assert!(matches!(f.global, GlobalFlag::Imposed(ref ns) if ns.scope == vec!["top"]));
    }
    assert!(inner.flags.iter().any(|f| f.name == "cd"));
    assert!(inner.flags.iter().any(|f| f.name == "verbose"));
}

#[test]
fn merge_overrides_matching_flag() {
    let base_nodes = vec![
        node("name", vec![positional("base")], vec![]),
        node(
            "flag",
            vec![positional("--x"), prop("help", Value::Str("old".to_string()))],
            vec![],
        ),
        node(
            "flag",
            vec![positional("--y"), prop("help", Value::Str("other".to_string()))],
            vec![],
        ),
    ];
    let over_nodes = vec![node(
        "flag",
        vec![positional("--x"), prop("help", Value::Str("new".to_string()))],
        vec![],
    )];
    let (base, _) = UsageSpec::parse(&base_nodes).unwrap();
    let (over, _) = UsageSpec::parse(&over_nodes).unwrap();
    let merged = base.merge(over);
    assert_eq!(merged.flags.len(), 2);
    // the untouched base flag keeps its position, the override moves to the end
    assert_eq!(merged.flags[0].name, "y");
    assert_eq!(merged.flags[1].name, "x");
    assert_eq!(merged.flags[1].help, "new");
    // the empty overriding name leaves the base name standing
    assert_eq!(merged.info.name, "base");
}

#[test]
fn merge_drops_unmatched_override_entries() {
    let base_nodes = vec![node(
        "flag",
        vec![positional("--x")],
        vec![],
    )];
    let over_nodes = vec![node(
        "flag",
        vec![positional("--z")],
        vec![],
    )];
    let (base, _) = UsageSpec::parse(&base_nodes).unwrap();
    let (over, _) = UsageSpec::parse(&over_nodes).unwrap();
    let merged = base.merge(over);
    assert_eq!(merged.flags.len(), 1);
    assert_eq!(merged.flags[0].name, "x");
}

#[test]
fn merge_completes_last_writer_wins() {
    let base_nodes = vec![node(
        "complete",
        vec![positional("t"), prop("run", Value::Str("old".to_string()))],
        vec![],
    )];
    let over_nodes = vec![node(
        "complete",
        vec![positional("t"), prop("run", Value::Str("new".to_string()))],
        vec![],
    )];
    let (base, _) = UsageSpec::parse(&base_nodes).unwrap();
    let (over, _) = UsageSpec::parse(&over_nodes).unwrap();
    let merged = base.merge(over);
    let c = merged.completes.get("t").expect("binding kept");
    assert!(matches!(c.kind, CompleteKind::Run(ref s) if s == "new"));
}

#[test]
fn default_completes_always_available() {
    let nodes: Vec<Node> = vec![];
    let (mut spec, _) = UsageSpec::parse(&nodes).unwrap();
    UsageSpec::add_default_completes(&mut spec.completes);
    assert!(spec.completes.get("file").unwrap().kind.is_file());
    assert!(matches!(
        spec.completes.get("dir").unwrap().kind,
        CompleteKind::Dir
    ));
}

#[test]
fn completes_keyed_case_insensitively() {
    let nodes = vec![node(
        "complete",
        vec![positional("Target"), prop("run", Value::Str("echo x".to_string()))],
        vec![],
    )];
    let (spec, _) = UsageSpec::parse(&nodes).unwrap();
    assert!(spec.completes.get("target").is_some());
    assert!(spec.completes.get("Target").is_none());
}

#[test]
fn hidden_declarations_are_skipped() {
    let nodes = vec![
        node(
            "flag",
            vec![positional("--secret"), prop("hide", Value::Bool(true))],
            vec![],
        ),
        node(
            "cmd",
            vec![positional("covert"), prop("hide", Value::Bool(true))],
            vec![],
        ),
        node("flag", vec![positional("--seen")], vec![]),
    ];
    let (spec, _) = UsageSpec::parse(&nodes).unwrap();
    assert_eq!(spec.flags.len(), 1);
    assert_eq!(spec.flags[0].name, "seen");
    assert!(spec.cmds.is_empty());
}

#[test]
fn parse_reports_include_path() {
    let nodes = vec![node("include", vec![positional("base.kdl")], vec![])];
    let (_, inc) = UsageSpec::parse(&nodes).unwrap();
    assert_eq!(inc.as_deref(), Some("base.kdl"));
}

#[test]
fn imposed_copies_are_never_reinjected() {
    let nodes = demo_nodes();
    let (spec, _) = UsageSpec::parse(&nodes).unwrap();
    // the copy that propagation put into the first command
    let imposed = &spec.cmds[0].flags[0];
    assert!(imposed.is_global_imposed());
    let mut fresh = cuc::parse::parse_cmd(&node("cmd", vec![positional("x")], vec![])).unwrap();
    UsageSpec::add_global_flag_to_cmd(imposed, &mut fresh, NameSpace::root());
    // an inherited copy is not a declaration: the command stays unchanged
    assert!(fresh.flags.is_empty());
}
