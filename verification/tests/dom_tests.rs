use phi_tools::dom::{AriaChecked, AriaChild, AriaNode, BoxInfo, DomTree};
use phi_tools::props::Props;

fn create_test_tree() -> AriaNode {
    let mut root = AriaNode::fragment();
    root.children.push(AriaChild::Node(Box::new(
        AriaNode::new("button", "Click me")
            .with_index(0)
            .with_box(true, Some("pointer".to_string())),
    )));
    root.children.push(AriaChild::Node(Box::new(
        AriaNode::new("link", "Go to page")
            .with_index(1)
            .with_box(true, None),
    )));
    root.children.push(AriaChild::Node(Box::new(
        AriaNode::new("paragraph", "").with_child(AriaChild::Text("Some text".to_string())),
    )));
    root
}

#[test]
fn test_is_interactive() {
    let interactive = AriaNode::new("button", "Click").with_index(0).with_box(true, None);
    assert!(interactive.is_interactive());

    let not_interactive = AriaNode::new("button", "Click").with_box(false, None);
    assert!(!not_interactive.is_interactive());
}

#[test]
fn test_has_pointer_cursor() {
    let with_pointer = AriaNode::new("button", "").with_box(true, Some("pointer".to_string()));
    assert!(with_pointer.has_pointer_cursor());
}

#[test]
fn test_find_node_by_index() {
    let root = create_test_tree();
    let tree = DomTree::new(root);

    let button = tree.find_node_by_index(0);
    assert!(button.is_some());
    assert_eq!(button.unwrap().role, "button");
    assert_eq!(button.unwrap().name, "Click me");

    let not_found = tree.find_node_by_index(999);
    assert!(not_found.is_none());
}

#[test]
fn test_count_nodes() {
    let root = create_test_tree();
    let tree = DomTree::new(root);
    assert_eq!(tree.count_nodes(), 4);
}

#[test]
fn test_interactive_indices() {
    let root = create_test_tree();
    let tree = DomTree::new(root);
    let indices = tree.interactive_indices();
    assert_eq!(indices.len(), 2);
    assert!(indices.contains(&0));
    assert!(indices.contains(&1));
}

#[test]
fn test_inject_iframe_content() {
    let mut main_tree = AriaNode::fragment();
    main_tree
        .children
        .push(AriaChild::Node(Box::new(AriaNode::new("iframe", "").with_index(0))));

    let mut iframe_tree = AriaNode::fragment();
    iframe_tree.children.push(AriaChild::Node(Box::new(
        AriaNode::new("button", "Inside iframe").with_index(0),
    )));

    let mut main = DomTree::new(main_tree);
    let iframe = DomTree::new(iframe_tree);

    main.inject_iframe_content(0, iframe);

    let iframe_node = main.find_node_by_index(0).unwrap();
    assert_eq!(iframe_node.children.len(), 1);
}

#[test]
fn new_tree_sizes_selectors_and_collects_iframes() {
    let root = AriaNode::fragment()
        .with_child(AriaChild::Node(Box::new(AriaNode::new("iframe", "ad").with_index(3))))
        .with_child(AriaChild::Node(Box::new(AriaNode::new("button", "Go").with_index(1))));
    let tree = DomTree::new(root);
    assert_eq!(tree.selectors.len(), 4);
    assert!(tree.selectors.iter().all(|s| s.is_empty()));
    assert_eq!(tree.get_iframe_indices(), &[3]);
    assert!(tree.get_selector(1).is_none());
}

#[test]
fn interactive_indices_are_sorted() {
    let root = AriaNode::fragment()
        .with_child(AriaChild::Node(Box::new(AriaNode::new("a", "").with_index(5))))
        .with_child(AriaChild::Node(Box::new(AriaNode::new("b", "").with_index(2))))
        .with_child(AriaChild::Node(Box::new(AriaNode::new("c", "").with_index(7))));
    let tree = DomTree::new(root);
    assert_eq!(tree.interactive_indices(), vec![2, 5, 7]);
    assert_eq!(tree.count_interactive(), 3);
}

#[test]
fn find_by_index_mut_write_is_read_back() {
    let mut tree = DomTree::new(create_test_tree());
    {
        let node = tree.find_node_by_index_mut(1).unwrap();
        node.name = "Renamed".to_string();
    }
    assert_eq!(tree.find_node_by_index(1).unwrap().name, "Renamed");
    assert_eq!(tree.find_node_by_index(0).unwrap().name, "Click me");
    assert!(tree.find_node_by_index_mut(42).is_none());
}

#[test]
fn find_by_index_takes_first_in_preorder() {
    let root = AriaNode::fragment()
        .with_child(AriaChild::Node(Box::new(
            AriaNode::new("list", "")
                .with_child(AriaChild::Node(Box::new(AriaNode::new("item", "deep").with_index(4)))),
        )))
        .with_child(AriaChild::Node(Box::new(AriaNode::new("item", "later").with_index(4))));
    assert_eq!(root.find_by_index(4).unwrap().name, "deep");
}

#[test]
fn inject_appends_non_empty_selectors_and_shifts_iframes() {
    let main_root = AriaNode::fragment()
        .with_child(AriaChild::Node(Box::new(AriaNode::new("iframe", "").with_index(1))));
    let mut main = DomTree::new(main_root);
    main.selectors = vec!["#a".to_string(), "#frame".to_string()];

    let frame_root = AriaNode::fragment()
        .with_child(AriaChild::Node(Box::new(AriaNode::new("button", "In").with_index(0))))
        .with_child(AriaChild::Node(Box::new(AriaNode::new("iframe", "").with_index(2))));
    let mut frame = DomTree::new(frame_root);
    frame.selectors = vec!["#in".to_string(), String::new(), "#nested".to_string()];

    main.inject_iframe_content(1, frame);
    assert_eq!(
        main.selectors,
        vec!["#a".to_string(), "#frame".to_string(), "#in".to_string(), "#nested".to_string()]
    );
    assert_eq!(main.iframe_indices, vec![1, 4]);
    let node = main.find_node_by_index(1).unwrap();
    assert_eq!(node.role, "iframe");
    assert_eq!(node.children.len(), 2);
}

#[test]
fn inject_without_target_changes_nothing() {
    let mut main = DomTree::new(create_test_tree());
    let frame = DomTree::new(AriaNode::fragment().with_child(AriaChild::Text("x".to_string())));
    main.inject_iframe_content(9, frame);
    assert_eq!(main.count_nodes(), 4);
    assert_eq!(main.selectors.len(), 2);
}

#[test]
fn assemble_with_iframes_fills_each_frame() {
    let root = AriaNode::fragment()
        .with_child(AriaChild::Node(Box::new(AriaNode::new("iframe", "one").with_index(0))))
        .with_child(AriaChild::Node(Box::new(AriaNode::new("iframe", "two").with_index(1))));
    let tree = DomTree::new(root);
    let assembled = tree.assemble_with_iframes(|i| {
        if i == 0 {
            Some(DomTree::new(
                AriaNode::fragment().with_child(AriaChild::Text("first frame".to_string())),
            ))
        } else {
            None
        }
    });
    assert_eq!(assembled.find_node_by_index(0).unwrap().children.len(), 1);
    assert_eq!(assembled.find_node_by_index(1).unwrap().children.len(), 0);
}

#[test]
fn text_content_joins_and_trims() {
    let node = AriaNode::new("p", "")
        .with_child(AriaChild::Text("Hello".to_string()))
        .with_child(AriaChild::Node(Box::new(
            AriaNode::new("b", "").with_child(AriaChild::Text("world".to_string())),
        )));
    assert_eq!(node.get_text_content(), "Hello world");
}

#[test]
fn containers_and_counts() {
    assert!(AriaNode::fragment().is_container());
    assert!(AriaNode::new("iframe", "").is_container());
    assert!(!AriaNode::new("button", "").is_container());
    let tree = create_test_tree();
    assert_eq!(tree.count_nodes(), 4);
    assert_eq!(tree.count_interactive(), 2);
}

#[test]
fn aria_equals_ignores_children_and_index() {
    let a = AriaNode::new("checkbox", "Agree").with_checked(true).with_index(3);
    let b = AriaNode::new("checkbox", "Agree")
        .with_checked(true)
        .with_child(AriaChild::Text("x".to_string()));
    let c = AriaNode::new("checkbox", "Agree").with_checked(false);
    assert!(a.aria_equals(&b));
    assert!(!a.aria_equals(&c));
    assert_eq!(a.checked, Some(AriaChecked::Bool(true)));
}

#[test]
fn builders_set_their_fields() {
    let n = AriaNode::new("treeitem", "Docs")
        .with_disabled(true)
        .with_expanded(false)
        .with_level(2)
        .with_prop("url", "https://example.com");
    assert_eq!(n.disabled, Some(true));
    assert_eq!(n.expanded, Some(false));
    assert_eq!(n.level, Some(2));
    assert_eq!(n.props.get("url").map(|s| s.as_str()), Some("https://example.com"));
    assert_eq!(BoxInfo::default(), BoxInfo { visible: false, cursor: None });
}

#[test]
fn props_insert_replaces_and_reads_back() {
    let mut p = Props::new();
    p.insert("a".to_string(), "1".to_string());
    p.insert("b".to_string(), "2".to_string());
    p.insert("a".to_string(), "3".to_string());
    assert_eq!(p.len(), 2);
    assert_eq!(p.get("a").map(|s| s.as_str()), Some("3"));
    assert_eq!(p.get("b").map(|s| s.as_str()), Some("2"));
    assert!(p.get("c").is_none());
}

#[test]
fn props_equality_ignores_binding_order() {
    let mut p = Props::new();
    p.insert("a".to_string(), "1".to_string());
    p.insert("b".to_string(), "2".to_string());
    let mut q = Props::new();
    q.insert("b".to_string(), "2".to_string());
    q.insert("a".to_string(), "1".to_string());
    assert!(p == q);
    assert!(p.same_as(&q));
    q.insert("a".to_string(), "9".to_string());
    assert!(p != q);
    let n1 = AriaNode::new("link", "x").with_prop("url", "u").with_prop("placeholder", "p");
    let n2 = AriaNode::new("link", "x").with_prop("placeholder", "p").with_prop("url", "u");
    assert_eq!(n1, n2);
}

#[test]
fn clones_are_equal_and_independent() {
    let tree = DomTree::new(create_test_tree());
    let mut copy = tree.clone();
    assert_eq!(copy, tree);
    copy.find_node_by_index_mut(0).unwrap().name = "Changed".to_string();
    assert_eq!(tree.find_node_by_index(0).unwrap().name, "Click me");
    let child = AriaChild::Text("t".to_string());
    assert_eq!(child.clone(), child);
    let p = AriaNode::new("a", "").with_prop("k", "v").props;
    assert_eq!(p.clone(), p);
}

#[test]
fn find_by_index_mut_without_write_changes_nothing() {
    let mut tree = DomTree::new(create_test_tree());
    let before = tree.clone();
    assert!(tree.find_node_by_index_mut(1).is_some());
    assert_eq!(tree, before);
    assert!(tree.find_node_by_index_mut(5).is_none());
    assert_eq!(tree, before);
}
