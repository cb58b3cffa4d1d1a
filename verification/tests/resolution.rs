use dev_env_helper::types::CliToolTemplate;
use dev_env_helper::resolution::resolve_installation_order_with_templates;
use dev_env_helper::tree::get_dependency_tree_with_templates;

fn create_test_template(
    id: &str,
    name: &str,
    dependencies: Option<Vec<&str>>,
) -> CliToolTemplate {
    CliToolTemplate {
        id: id.to_string(),
        name: name.to_string(),
        executable: id.to_string(),
        version_command: "--version".to_string(),
        version_parser: "stdout".to_string(),
        config_files: vec![],
        install_methods: None,
        dependencies: dependencies.map(|deps| deps.iter().map(|s| s.to_string()).collect()),
    }
}

#[test]
fn test_single_tool_no_dependencies() {
    let templates = vec![create_test_template("tool1", "Tool 1", None)];
    let tool_ids = vec!["tool1".to_string()];

    let result = resolve_installation_order_with_templates(&tool_ids, &templates);

    assert!(result.is_ok());
    let order = result.unwrap();
    assert_eq!(order, vec!["tool1"]);
}

#[test]
fn test_two_tools_one_dependency() {
    let templates = vec![
        create_test_template("base", "Base Tool", None),
        create_test_template("dependent", "Dependent Tool", Some(vec!["base"])),
    ];
    let tool_ids = vec!["dependent".to_string(), "base".to_string()];

    let result = resolve_installation_order_with_templates(&tool_ids, &templates);

    assert!(result.is_ok());
    let order = result.unwrap();
    // Base should come before dependent
    assert_eq!(order, vec!["base", "dependent"]);
}

#[test]
fn test_dependency_chain() {
    let templates = vec![
        create_test_template("a", "Tool A", None),
        create_test_template("b", "Tool B", Some(vec!["a"])),
        create_test_template("c", "Tool C", Some(vec!["b"])),
    ];
    let tool_ids = vec!["c".to_string(), "b".to_string(), "a".to_string()];

    let result = resolve_installation_order_with_templates(&tool_ids, &templates);

    assert!(result.is_ok());
    let order = result.unwrap();
    assert_eq!(order, vec!["a", "b", "c"]);
}

#[test]
fn test_multiple_dependencies() {
    let templates = vec![
        create_test_template("a", "Tool A", None),
        create_test_template("b", "Tool B", None),
        create_test_template("c", "Tool C", Some(vec!["a", "b"])),
    ];
    let tool_ids = vec!["c".to_string(), "a".to_string(), "b".to_string()];

    let result = resolve_installation_order_with_templates(&tool_ids, &templates);

    assert!(result.is_ok());
    let order = result.unwrap();
    // A and B should come before C, but A and B can be in any order relative to each other
    let c_index = order.iter().position(|x| x == "c").unwrap();
    let a_index = order.iter().position(|x| x == "a").unwrap();
    let b_index = order.iter().position(|x| x == "b").unwrap();
    assert!(c_index > a_index);
    assert!(c_index > b_index);
}

#[test]
fn test_diamond_dependency() {
    // Diamond: D depends on B and C, both B and C depend on A
    let templates = vec![
        create_test_template("a", "Tool A", None),
        create_test_template("b", "Tool B", Some(vec!["a"])),
        create_test_template("c", "Tool C", Some(vec!["a"])),
        create_test_template("d", "Tool D", Some(vec!["b", "c"])),
    ];
    let tool_ids = vec!["d".to_string(), "c".to_string(), "b".to_string(), "a".to_string()];

    let result = resolve_installation_order_with_templates(&tool_ids, &templates);

    assert!(result.is_ok());
    let order = result.unwrap();
    // A should be first, D should be last
    assert_eq!(order[0], "a");
    assert_eq!(order[3], "d");
}

#[test]
fn test_circular_dependency_detection() {
    let templates = vec![
        create_test_template("a", "Tool A", Some(vec!["b"])),
        create_test_template("b", "Tool B", Some(vec!["a"])),
    ];
    let tool_ids = vec!["a".to_string(), "b".to_string()];

    let result = resolve_installation_order_with_templates(&tool_ids, &templates);

    assert!(result.is_err());
    assert!(result.unwrap_err().contains("Circular dependency"));
}

#[test]
fn test_self_circular_dependency() {
    let templates = vec![create_test_template("a", "Tool A", Some(vec!["a"]))];
    let tool_ids = vec!["a".to_string()];

    let result = resolve_installation_order_with_templates(&tool_ids, &templates);

    // Self-dependencies should be caught
    assert!(result.is_err());
    assert!(result.unwrap_err().contains("Circular dependency"));
}

#[test]
fn test_complex_circular_dependency() {
    let templates = vec![
        create_test_template("a", "Tool A", Some(vec!["b"])),
        create_test_template("b", "Tool B", Some(vec!["c"])),
        create_test_template("c", "Tool C", Some(vec!["a"])),
    ];
    let tool_ids = vec!["a".to_string(), "b".to_string(), "c".to_string()];

    let result = resolve_installation_order_with_templates(&tool_ids, &templates);

    assert!(result.is_err());
    assert!(result.unwrap_err().contains("Circular dependency"));
}

#[test]
fn test_unknown_tool_id() {
    let templates = vec![create_test_template("a", "Tool A", None)];
    let tool_ids = vec!["a".to_string(), "unknown".to_string()];

    let result = resolve_installation_order_with_templates(&tool_ids, &templates);

    assert!(result.is_err());
    assert!(result.unwrap_err().contains("Unknown tool ID"));
}

#[test]
fn test_partial_dependency_set() {
    // Tool C depends on A and B, but we're only installing C and B (A is already installed)
    let templates = vec![
        create_test_template("a", "Tool A", None),
        create_test_template("b", "Tool B", None),
        create_test_template("c", "Tool C", Some(vec!["a", "b"])),
    ];
    let tool_ids = vec!["c".to_string(), "b".to_string()];

    let result = resolve_installation_order_with_templates(&tool_ids, &templates);

    assert!(result.is_ok());
    let order = result.unwrap();
    // B should come before C (A is not in the set so it's not considered)
    assert_eq!(order, vec!["b", "c"]);
}

#[test]
fn test_dependency_tree_single_tool() {
    let templates = vec![create_test_template("a", "Tool A", None)];
    let installed: Vec<String> = Vec::new();

    let result = get_dependency_tree_with_templates("a", &installed, &templates);

    assert!(result.is_ok());
    let tree = result.unwrap();
    assert_eq!(tree.total_tools, 1);
    assert_eq!(tree.installed_count, 0);
    assert_eq!(tree.missing_count, 1);
    assert_eq!(tree.root.tool_id, "a");
    assert!(tree.root.dependencies.is_empty());
}

#[test]
fn test_dependency_tree_with_dependencies() {
    let templates = vec![
        create_test_template("a", "Tool A", None),
        create_test_template("b", "Tool B", Some(vec!["a"])),
    ];
    let installed: Vec<String> = Vec::new();

    let result = get_dependency_tree_with_templates("b", &installed, &templates);

    assert!(result.is_ok());
    let tree = result.unwrap();
    assert_eq!(tree.total_tools, 2);
    assert_eq!(tree.installed_count, 0);
    assert_eq!(tree.missing_count, 2);
    assert_eq!(tree.root.tool_id, "b");
    assert_eq!(tree.root.dependencies.len(), 1);
    assert_eq!(tree.root.dependencies[0].tool_id, "a");
}

#[test]
fn test_dependency_tree_with_installed_tools() {
    let templates = vec![
        create_test_template("a", "Tool A", None),
        create_test_template("b", "Tool B", Some(vec!["a"])),
    ];
    let mut installed: Vec<String> = Vec::new();
    installed.push("a".to_string());

    let result = get_dependency_tree_with_templates("b", &installed, &templates);

    assert!(result.is_ok());
    let tree = result.unwrap();
    assert_eq!(tree.total_tools, 2);
    assert_eq!(tree.installed_count, 1);
    assert_eq!(tree.missing_count, 1);
    assert!(tree.root.dependencies[0].installed);
}

#[test]
fn test_dependency_tree_deep_hierarchy() {
    let templates = vec![
        create_test_template("a", "Tool A", None),
        create_test_template("b", "Tool B", Some(vec!["a"])),
        create_test_template("c", "Tool C", Some(vec!["b"])),
        create_test_template("d", "Tool D", Some(vec!["c"])),
    ];
    let installed: Vec<String> = Vec::new();

    let result = get_dependency_tree_with_templates("d", &installed, &templates);

    assert!(result.is_ok());
    let tree = result.unwrap();
    assert_eq!(tree.total_tools, 4);
    assert_eq!(tree.installed_count, 0);
    assert_eq!(tree.missing_count, 4);
    // Verify the hierarchy
    assert_eq!(tree.root.tool_id, "d");
    assert_eq!(tree.root.dependencies[0].tool_id, "c");
    assert_eq!(tree.root.dependencies[0].dependencies[0].tool_id, "b");
    assert_eq!(tree.root.dependencies[0].dependencies[0].dependencies[0].tool_id, "a");
}
