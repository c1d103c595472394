use clap_repl::grammar::{BuildError, Grammar, GrammarNode, NodeKind, ValueChoice, Want};

fn s(text: &str) -> String {
    text.to_string()
}

fn choice(literal: &str, description: Option<&str>) -> ValueChoice {
    ValueChoice { literal: s(literal), description: description.map(s) }
}

#[test]
fn new_grammar_holds_only_the_root() {
    let g = Grammar::new(s("app"));
    assert_eq!(g.len(), 1);
    assert_eq!(g.root().name, "app");
    assert_eq!(g.root().kind, NodeKind::Command);
    assert_eq!(g.children_of(0), Some(&Vec::new()));
    assert_eq!(g.children_of(1), None);
    assert_eq!(g.value_set_of(0), None);
}

#[test]
fn add_child_appends_in_declaration_order() {
    let mut g = Grammar::new(s("app"));
    let download = g.add_child(0, GrammarNode::command(s("download"), None)).unwrap();
    let upload = g.add_child(0, GrammarNode::command(s("upload"), None)).unwrap();
    let login = g.add_child(0, GrammarNode::command(s("login"), Some(s("sign in")))).unwrap();
    assert_eq!((download, upload, login), (1, 2, 3));
    assert_eq!(g.len(), 4);
    assert_eq!(g.children_of(0), Some(&vec![1, 2, 3]));
    assert_eq!(g.node(3).unwrap().name, "login");
    assert_eq!(g.node(3).unwrap().description, Some(s("sign in")));
    let path = g.add_child(download, GrammarNode::positional(s("path"), true)).unwrap();
    assert_eq!(path, 4);
    assert_eq!(g.children_of(download), Some(&vec![4]));
    assert_eq!(g.node(path).unwrap().kind, NodeKind::Positional);
    assert!(g.node(path).unwrap().required);
}

#[test]
fn add_child_refuses_a_missing_parent() {
    let mut g = Grammar::new(s("app"));
    assert_eq!(
        g.add_child(1, GrammarNode::command(s("x"), None)),
        Err(BuildError::NoSuchParent)
    );
    assert_eq!(g.len(), 1);
}

#[test]
fn add_child_refuses_a_parent_that_is_no_command() {
    let mut g = Grammar::new(s("app"));
    let flag = g.add_child(0, GrammarNode::flag(s("v"), Some(s("--verbose")), None, false)).unwrap();
    assert_eq!(
        g.add_child(flag, GrammarNode::command(s("x"), None)),
        Err(BuildError::ParentNotCommand)
    );
    assert_eq!(g.len(), 2);
    assert_eq!(g.children_of(flag), Some(&Vec::new()));
}

#[test]
fn add_child_refuses_a_node_with_children() {
    let mut g = Grammar::new(s("app"));
    let mut node = GrammarNode::command(s("x"), None);
    node.children.push(0);
    assert_eq!(g.add_child(0, node), Err(BuildError::HasChildren));
    assert_eq!(g.len(), 1);
}

#[test]
fn add_child_refuses_a_sibling_name() {
    let mut g = Grammar::new(s("app"));
    g.add_child(0, GrammarNode::command(s("login"), None)).unwrap();
    assert_eq!(
        g.add_child(0, GrammarNode::positional(s("login"), false)),
        Err(BuildError::DuplicateName)
    );
    assert_eq!(g.len(), 2);
    assert_eq!(g.children_of(0), Some(&vec![1]));
}

#[test]
fn same_name_under_different_parents_is_fine() {
    let mut g = Grammar::new(s("app"));
    let a = g.add_child(0, GrammarNode::command(s("a"), None)).unwrap();
    let b = g.add_child(0, GrammarNode::command(s("b"), None)).unwrap();
    assert_eq!(g.add_child(a, GrammarNode::positional(s("path"), true)), Ok(3));
    assert_eq!(g.add_child(b, GrammarNode::positional(s("path"), true)), Ok(4));
}

#[test]
fn value_set_keeps_declaration_order() {
    let mut g = Grammar::new(s("app"));
    let mut mode = GrammarNode::flag(s("mode"), Some(s("--mode")), Some(s("-m")), true);
    mode.values = Some(vec![choice("secure", Some("with TLS")), choice("insecure", None)]);
    let id = g.add_child(0, mode).unwrap();
    assert_eq!(
        g.value_set_of(id),
        Some(&vec![choice("secure", Some("with TLS")), choice("insecure", None)])
    );
    assert_eq!(g.value_set_of(0), None);
    assert_eq!(g.value_set_of(9), None);
}

#[test]
fn accepts_goes_by_the_value_set() {
    let mut mode = GrammarNode::flag(s("mode"), Some(s("--mode")), None, true);
    assert!(mode.accepts(&s("anything")));
    mode.values = Some(vec![choice("secure", None), choice("insecure", None)]);
    assert!(mode.accepts(&s("secure")));
    assert!(mode.accepts(&s("insecure")));
    assert!(!mode.accepts(&s("Secure")));
    assert!(!mode.accepts(&s("sec")));
    mode.values = Some(Vec::new());
    assert!(!mode.accepts(&s("secure")));
}

#[test]
fn find_child_returns_the_first_position_that_fits() {
    let mut g = Grammar::new(s("app"));
    g.add_child(0, GrammarNode::flag(s("verbose"), Some(s("--verbose")), Some(s("-v")), false)).unwrap();
    g.add_child(0, GrammarNode::command(s("download"), None)).unwrap();
    g.add_child(0, GrammarNode::positional(s("file"), false)).unwrap();
    g.add_child(0, GrammarNode::command(s("login"), None)).unwrap();
    assert_eq!(g.find_child(0, &Want::AnyCommand, 0), Some(1));
    assert_eq!(g.find_child(0, &Want::AnyCommand, 2), Some(3));
    assert_eq!(g.find_child(0, &Want::AnyCommand, 4), None);
    assert_eq!(g.find_child(0, &Want::Command(&s("login")), 0), Some(3));
    assert_eq!(g.find_child(0, &Want::Command(&s("Login")), 0), None);
    assert_eq!(g.find_child(0, &Want::Command(&s("file")), 0), None);
    assert_eq!(g.find_child(0, &Want::Flag(&s("--verbose")), 0), Some(0));
    assert_eq!(g.find_child(0, &Want::Flag(&s("-v")), 0), Some(0));
    assert_eq!(g.find_child(0, &Want::Flag(&s("verbose")), 0), None);
    assert_eq!(g.find_child(0, &Want::Positional, 0), Some(2));
    assert_eq!(g.find_child(0, &Want::Positional, 3), None);
    assert_eq!(g.find_child(1, &Want::AnyCommand, 0), None);
    assert_eq!(g.find_child(9, &Want::AnyCommand, 0), None);
}

#[test]
fn node_is_there_for_an_index_in_the_tree() {
    let mut g = Grammar::new(s("app"));
    g.add_child(0, GrammarNode::command(s("login"), None)).unwrap();
    assert_eq!(g.node(0).map(|n| n.name.as_str()), Some("app"));
    assert_eq!(g.node(1).map(|n| n.name.as_str()), Some("login"));
    assert!(g.node(2).is_none());
}
