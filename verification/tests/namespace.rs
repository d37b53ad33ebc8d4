use cuc::namespace::NameSpace;
use cuc::namespace::arg_complete_func_name;
use cuc::namespace::slugify;

#[test]
fn test_constants() {
    assert_eq!(NameSpace::SEPARATOR, "::");
    assert_eq!(NameSpace::FUNC_SEPARATOR, "_");
}

#[test]
fn test_root() {
    let ns = NameSpace::root();
    assert!(ns.scope.is_empty());
    assert!(ns.is_root());
}

#[test]
fn test_is_root() {
    let root_ns = NameSpace::root();
    assert!(root_ns.is_root());

    let non_root_ns = NameSpace::root().join("test");
    assert!(!non_root_ns.is_root());
}

#[test]
fn test_view() {
    let ns = NameSpace::root().join("a").join("b");
    let view = ns.view();
    assert_eq!(view.scope, &["a", "b"]);

    let root_ns = NameSpace::root();
    let root_view = root_ns.view();
    assert_eq!(root_view.scope, &[] as &[String]);
}

#[test]
fn test_join_string() {
    let ns = NameSpace::root().join("test");
    assert_eq!(ns.scope, vec!["test"]);
    assert!(!ns.is_root());
}

#[test]
fn test_join_empty_string() {
    let ns = NameSpace::root().join("");
    assert!(ns.is_root()); // Empty string should not be added
    assert_eq!(ns.scope, Vec::<String>::new());
}

#[test]
fn test_join_whitespace_only() {
    let ns = NameSpace::root().join("   ");
    assert!(ns.is_root()); // Whitespace-only should not be added
    assert_eq!(ns.scope, Vec::<String>::new());
}

#[test]
fn test_join_whitespace_around_content() {
    let ns = NameSpace::root().join("  test  ");
    assert_eq!(ns.scope, vec!["  test  "]); // only checked for blankness, not trimmed
}

#[test]
fn test_join_chaining() {
    let ns = NameSpace::root().join("a").join("b").join("c");
    assert_eq!(ns.scope, vec!["a", "b", "c"]);
}

#[test]
fn test_join_mixed_empty() {
    let ns = NameSpace::root()
        .join("a")
        .join("")
        .join("b")
        .join("   ")
        .join("c");
    assert_eq!(ns.scope, vec!["a", "b", "c"]);
}

#[test]
fn test_parent_empty_scope() {
    let ns = NameSpace::root();
    let parent = ns.parent();
    assert_eq!(parent.scope, &[] as &[String]);
}

#[test]
fn test_parent_single_level() {
    let ns = NameSpace::root().join("a");
    let parent = ns.parent();
    assert_eq!(parent.scope, &[] as &[String]);
}

#[test]
fn test_parent_multi_level() {
    let ns = NameSpace::root().join("a").join("b").join("c");
    let parent = ns.parent();
    assert_eq!(parent.scope, &["a", "b"]);
}

#[test]
fn test_display_empty() {
    let ns = NameSpace::root();
    assert_eq!(ns.display(), "");
}

#[test]
fn test_display_single() {
    let ns = NameSpace::root().join("test");
    assert_eq!(ns.display(), "test");
}

#[test]
fn test_display_multiple() {
    let ns = NameSpace::root().join("a").join("b").join("c");
    assert_eq!(ns.display(), "a::b::c");
}

#[test]
fn test_display_with_special_chars() {
    let ns = NameSpace::root().join("a_b").join("c::d").join("e-f");
    assert_eq!(ns.display(), "a_b::c::d::e-f");
}

#[test]
fn test_complex_workflow() {
    let ns = NameSpace::root()
        .join("module")
        .join("submodule")
        .join("function");

    assert!(!ns.is_root());
    assert_eq!(ns.display(), "module::submodule::function");

    let parent = ns.parent();
    assert_eq!(parent.scope, &["module", "submodule"]);

    let view = ns.view();
    assert_eq!(view.scope, &["module", "submodule", "function"]);
}

#[test]
fn test_edge_cases() {
    let ns1 = NameSpace::root().join("\t");
    assert!(ns1.is_root());

    let ns2 = NameSpace::root().join("\n");
    assert!(ns2.is_root());

    let ns3 = NameSpace::root().join(" \t \n ");
    assert!(ns3.is_root());
}

#[test]
fn test_function_names() {
    let ns = NameSpace::root().join("build");
    let view = ns.view();
    assert_eq!(view.as_func_str(), "build");
    assert_eq!(view.flag_func_name("verbose"), "_flag_build_verbose");
    assert_eq!(view.global_flag_func_name(), "_global_flags_build");
    assert_eq!(view.cmd_func_name("sub"), "_cmd_build_sub");

    let root_view = NameSpace::root().view();
    assert_eq!(root_view.flag_func_name("verbose"), "_flag_verbose");
    assert_eq!(root_view.global_flag_func_name(), "_global_flags_");
    assert_eq!(root_view.cmd_func_name("build"), "_cmd_build");
}

#[test]
fn test_slugify_drops_special_chars() {
    assert_eq!(slugify("a-b!c d_e9"), "abcd_e9");
    assert_eq!(slugify(""), "");
}

#[test]
fn test_arg_complete_func_name() {
    assert_eq!(arg_complete_func_name("my-target"), "_complete_arg_mytarget");
}

#[test]
fn test_join_ignores_blank_segments_in_display() {
    let ns = NameSpace::root().join("a").join("").join("  ").join("b");
    assert_eq!(ns.display(), "a::b");
}

#[test]
fn test_view_round_trip() {
    let ns = NameSpace::root().join("a").join("b");
    let rebuilt = NameSpace::from(ns.view());
    assert_eq!(rebuilt.scope, ns.scope);
    assert_eq!(rebuilt.display(), ns.display());
}
