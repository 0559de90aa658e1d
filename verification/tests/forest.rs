use branch_forest::forest::{choose_parent, AncestryEdge, BranchForest};

fn edge(branch: &str, parent: Option<&str>) -> AncestryEdge {
    AncestryEdge { branch: branch.to_string(), parent: parent.map(String::from) }
}

fn names(list: &[&str]) -> Vec<String> {
    list.iter().map(|s| s.to_string()).collect()
}

#[test]
fn root_edge_has_no_parent() {
    let e = AncestryEdge::root("main".to_string());
    assert_eq!(e, edge("main", None));
}

#[test]
fn line_of_root_is_the_branch() {
    assert_eq!(edge("main", None).line(), "main");
    assert_eq!(edge("feature/x", None).line(), "feature/x");
}

#[test]
fn line_of_child_is_branch_space_parent() {
    assert_eq!(edge("develop", Some("main")).line(), "develop main");
    assert_eq!(edge("feature/x", Some("develop")).line(), "feature/x develop");
}

#[test]
fn render_of_empty_forest_is_empty() {
    assert_eq!(BranchForest { edges: vec![] }.render(), "");
}

#[test]
fn render_of_one_edge_has_no_line_feed() {
    assert_eq!(BranchForest { edges: vec![edge("main", None)] }.render(), "main");
    assert_eq!(BranchForest { edges: vec![edge("a", Some("b"))] }.render(), "a b");
}

#[test]
fn render_joins_lines_without_trailing_line_feed() {
    let forest = BranchForest {
        edges: vec![edge("main", None), edge("develop", Some("main")), edge("feature/x", Some("develop"))],
    };
    assert_eq!(forest.render(), "main\ndevelop main\nfeature/x develop");
}

#[test]
fn rendered_lines_read_back_as_the_edges() {
    let forest = BranchForest {
        edges: vec![edge("main", None), edge("develop", Some("main")), edge("orphan", None)],
    };
    let text = forest.render();
    let lines: Vec<&str> = text.split('\n').collect();
    assert_eq!(lines.len(), forest.edges.len());
    for (line, e) in lines.iter().zip(forest.edges.iter()) {
        let tokens: Vec<&str> = line.split(' ').collect();
        match &e.parent {
            None => assert_eq!(tokens, vec![e.branch.as_str()]),
            Some(p) => assert_eq!(tokens, vec![e.branch.as_str(), p.as_str()]),
        }
    }
}

#[test]
fn choose_parent_takes_the_first_other_branch() {
    let branch = "feature/x".to_string();
    assert_eq!(choose_parent(&branch, &names(&["develop", "main"])), Some("develop".to_string()));
    assert_eq!(choose_parent(&branch, &names(&["main", "develop"])), Some("main".to_string()));
}

#[test]
fn choose_parent_skips_the_branch_itself() {
    let branch = "develop".to_string();
    assert_eq!(choose_parent(&branch, &names(&["develop", "main"])), Some("main".to_string()));
    assert_eq!(choose_parent(&branch, &names(&["develop", "develop", "x", "main"])), Some("x".to_string()));
}

#[test]
fn choose_parent_of_nothing_else_is_none() {
    let branch = "orphan".to_string();
    assert_eq!(choose_parent(&branch, &names(&[])), None);
    assert_eq!(choose_parent(&branch, &names(&["orphan"])), None);
    assert_eq!(choose_parent(&branch, &names(&["orphan", "orphan"])), None);
}

#[test]
fn choose_parent_compares_whole_names() {
    let branch = "main".to_string();
    assert_eq!(choose_parent(&branch, &names(&["main", "main2"])), Some("main2".to_string()));
    assert_eq!(choose_parent(&branch, &names(&["mai", "main"])), Some("mai".to_string()));
}
