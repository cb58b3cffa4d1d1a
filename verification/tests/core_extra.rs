use dev_env_helper::types::CliToolTemplate;
use dev_env_helper::resolution::{
    has_cycle, resolve_installation_order, resolve_installation_order_with_templates,
    get_reverse_dependencies_with_names,
};
use dev_env_helper::template::{get_builtin_templates, list_all_templates, get_template_by_id};
use dev_env_helper::tree::{get_dependency_tree, get_dependency_tree_with_templates};
use dev_env_helper::storage::validate_template;

fn tpl(id: &str, name: &str, deps: Option<Vec<&str>>) -> CliToolTemplate {
    CliToolTemplate {
        id: id.to_string(),
        name: name.to_string(),
        executable: id.to_string(),
        version_command: "--version".to_string(),
        version_parser: "stdout".to_string(),
        config_files: vec![],
        install_methods: None,
        dependencies: deps.map(|d| d.iter().map(|s| s.to_string()).collect()),
    }
}

#[test]
fn has_cycle_detects_mutual_dependency() {
    let templates = vec![tpl("a", "A", Some(vec!["b"])), tpl("b", "B", Some(vec!["a"]))];
    assert!(has_cycle(&vec!["a".to_string(), "b".to_string()], &templates));
}

#[test]
fn has_cycle_accepts_acyclic_set() {
    let templates = vec![tpl("a", "A", None), tpl("b", "B", Some(vec!["a"]))];
    assert!(!has_cycle(&vec!["a".to_string(), "b".to_string()], &templates));
}

#[test]
fn has_cycle_ignores_edges_outside_the_set() {
    // the cycle runs through b, which is not requested
    let templates = vec![tpl("a", "A", Some(vec!["b"])), tpl("b", "B", Some(vec!["a"]))];
    assert!(!has_cycle(&vec!["a".to_string()], &templates));
}

#[test]
fn duplicate_request_entries_are_deduplicated() {
    let templates = vec![tpl("a", "A", None), tpl("b", "B", Some(vec!["a"]))];
    let ids = vec!["b".to_string(), "a".to_string(), "b".to_string()];
    let order = resolve_installation_order_with_templates(&ids, &templates).unwrap();
    assert_eq!(order, vec!["a", "b"]);
}

#[test]
fn unknown_tool_error_names_the_first_unknown_id() {
    let templates = vec![tpl("a", "A", None)];
    let ids = vec!["a".to_string(), "x".to_string(), "y".to_string()];
    let err = resolve_installation_order_with_templates(&ids, &templates).unwrap_err();
    assert_eq!(err, "Unknown tool ID: x");
}

#[test]
fn reverse_dependencies_membership_is_exact() {
    let templates = vec![
        tpl("a", "Tool A", None),
        tpl("b", "Tool B", Some(vec!["a"])),
        tpl("c", "Tool C", Some(vec!["a", "b"])),
        tpl("d", "Tool D", Some(vec!["b"])),
    ];
    let r = get_reverse_dependencies_with_names("a", &templates);
    assert_eq!(
        r,
        vec![("b".to_string(), "Tool B".to_string()), ("c".to_string(), "Tool C".to_string())]
    );
    let none = get_reverse_dependencies_with_names("d", &templates);
    assert!(none.is_empty());
}

#[test]
fn builtin_catalog_lists_seventeen_wellformed_templates() {
    let templates = get_builtin_templates();
    assert_eq!(templates.len(), 17);
    assert_eq!(templates[0].id, "node");
    assert_eq!(templates[0].name, "Node.js");
    for t in &templates {
        assert!(validate_template(t).is_ok());
    }
    assert_eq!(list_all_templates().len(), 17);
}

#[test]
fn builtin_dependencies_resolve_in_order() {
    let ids = vec!["uv".to_string(), "python".to_string()];
    let order = resolve_installation_order(&ids).unwrap();
    assert_eq!(order, vec!["python", "uv"]);
}

#[test]
fn template_lookup_finds_known_and_rejects_unknown() {
    let t = get_template_by_id("python").unwrap();
    assert_eq!(t.name, "Python");
    assert_eq!(t.executable, "python3");
    assert!(get_template_by_id("no-such-tool").is_none());
}

#[test]
fn builtin_tree_counts_installed_tools() {
    let installed = vec!["python".to_string()];
    let tree = get_dependency_tree("uv", &installed).unwrap();
    assert_eq!(tree.total_tools, 2);
    assert_eq!(tree.installed_count, 1);
    assert_eq!(tree.missing_count, 1);
    assert_eq!(tree.root.tool_id, "uv");
    assert!(!tree.root.installed);
    assert!(tree.root.dependencies[0].installed);
}

#[test]
fn tree_installed_flags_follow_the_supplied_set_alone() {
    let templates = vec![
        tpl("a", "Tool A", None),
        tpl("b", "Tool B", Some(vec!["a"])),
        tpl("c", "Tool C", Some(vec!["b"])),
    ];
    // the middle of the chain is installed, its ancestor and descendant are not
    let installed = vec!["b".to_string()];
    let tree = get_dependency_tree_with_templates("c", &installed, &templates).unwrap();
    assert!(!tree.root.installed);
    assert!(tree.root.dependencies[0].installed);
    assert!(!tree.root.dependencies[0].dependencies[0].installed);
    assert_eq!(tree.installed_count, 1);
}

#[test]
fn tree_skips_self_and_unknown_dependencies() {
    let templates = vec![tpl("a", "Tool A", Some(vec!["a", "ghost", "b"])), tpl("b", "Tool B", None)];
    let installed: Vec<String> = Vec::new();
    let tree = get_dependency_tree_with_templates("a", &installed, &templates).unwrap();
    assert_eq!(tree.total_tools, 2);
    assert_eq!(tree.root.dependencies.len(), 1);
    assert_eq!(tree.root.dependencies[0].tool_id, "b");
}

#[test]
fn tree_unknown_root_is_reported() {
    let templates = vec![tpl("a", "Tool A", None)];
    let installed: Vec<String> = Vec::new();
    let err = get_dependency_tree_with_templates("nope", &installed, &templates).unwrap_err();
    assert_eq!(err, "Unknown tool ID: nope");
}

#[test]
fn tree_long_cycle_is_cut_by_the_depth_ceiling() {
    // a two-node cycle is not a self-reference, so only the ceiling stops it
    let templates = vec![tpl("a", "Tool A", Some(vec!["b"])), tpl("b", "Tool B", Some(vec!["a"]))];
    let installed: Vec<String> = Vec::new();
    let tree = get_dependency_tree_with_templates("a", &installed, &templates).unwrap();
    assert_eq!(tree.total_tools, 50);
    // walk to the deepest node: the pruned branch ends there
    let mut node = &tree.root;
    let mut depth = 1;
    while !node.dependencies.is_empty() {
        node = &node.dependencies[0];
        depth += 1;
    }
    assert_eq!(depth, 50);
}
