use phi_tools::dom::{AriaChild, AriaNode};
use phi_tools::render::{normalize_url, render_aria_tree, RenderMode};

#[test]
fn test_normalize_url() {
    assert_eq!(normalize_url("example.com"), "https://example.com");
    assert_eq!(normalize_url("https://example.com"), "https://example.com");
    assert_eq!(normalize_url("about:blank"), "about:blank");
}

#[test]
fn test_render_aria_tree() {
    let mut root = AriaNode::fragment();
    root.children.push(AriaChild::Node(Box::new(
        AriaNode::new("button", "Click me")
            .with_index(0)
            .with_box(true, Some("pointer".to_string())),
    )));
    root.children.push(AriaChild::Node(Box::new(
        AriaNode::new("heading", "Title").with_index(1).with_level(1).with_box(true, None),
    )));

    let snapshot = render_aria_tree(&root, RenderMode::Ai, None);
    assert!(snapshot.contains("button"));
    assert!(snapshot.contains("Click me"));
    assert!(snapshot.contains("[0]"));
    assert!(snapshot.contains("[pointer]"));
    assert!(snapshot.contains("[level=1]"));
}

#[test]
fn render_exact_lines() {
    let mut root = AriaNode::fragment();
    root.children.push(AriaChild::Node(Box::new(
        AriaNode::new("button", "Click me")
            .with_index(0)
            .with_box(true, Some("pointer".to_string())),
    )));
    root.children.push(AriaChild::Node(Box::new(
        AriaNode::new("heading", "Title").with_index(1).with_level(1).with_box(true, None),
    )));
    let snapshot = render_aria_tree(&root, RenderMode::Ai, None);
    assert_eq!(
        snapshot,
        "- fragment\n  - button [0] \"Click me\" [pointer]\n  - heading [1] \"Title\" [level=1]\n"
    );
}

#[test]
fn render_states_props_and_text() {
    let node = AriaNode::new("textbox", "")
        .with_disabled(true)
        .with_checked(false)
        .with_prop("placeholder", "Search")
        .with_prop("url", "https://a.b");
    let link = AriaNode::new("link", "Home")
        .with_child(AriaChild::Text("  Home ".to_string()))
        .with_child(AriaChild::Text(" More text ".to_string()));
    let root = AriaNode::fragment()
        .with_child(AriaChild::Node(Box::new(node)))
        .with_child(AriaChild::Node(Box::new(link)));
    let snapshot = render_aria_tree(&root, RenderMode::Ai, None);
    assert_eq!(
        snapshot,
        "- fragment\n  - textbox [disabled] [unchecked] -> https://a.b placeholder=\"Search\"\n  - link \"Home\"\n    text: Home\n    text: More text\n"
    );
}

#[test]
fn render_skips_empty_nodes_and_ignores_depth_limit() {
    let root = AriaNode::fragment()
        .with_child(AriaChild::Node(Box::new(AriaNode::new("generic", ""))))
        .with_child(AriaChild::Node(Box::new(
            AriaNode::new("list", "").with_child(AriaChild::Node(Box::new(
                AriaNode::new("listitem", "Deep"),
            ))),
        )));
    let full = render_aria_tree(&root, RenderMode::Ai, None);
    assert_eq!(full, "- fragment\n  - list\n    - listitem \"Deep\"\n");
    assert_eq!(render_aria_tree(&root, RenderMode::Ai, Some(0)), full);
}

#[test]
fn normalize_url_edges() {
    assert_eq!(normalize_url("  example.com/path  "), "https://example.com/path");
    assert_eq!(normalize_url("   "), "");
    assert_eq!(normalize_url("http://x.org"), "http://x.org");
    assert_eq!(normalize_url("data:text/plain,hi"), "data:text/plain,hi");
    assert_eq!(normalize_url("file:///tmp/a.html"), "file:///tmp/a.html");
    let once = normalize_url(" news.example ");
    assert_eq!(normalize_url(&once), once);
}

#[test]
fn heading_text_child_is_listed_under_it() {
    let root = AriaNode::new("heading", "Page Title")
        .with_index(1)
        .with_level(1)
        .with_box(true, None)
        .with_child(AriaChild::Text("Page Title".into()));
    let s = render_aria_tree(&root, RenderMode::Ai, None);
    assert_eq!(s, "- heading [1] \"Page Title\" [level=1]\n  text: Page Title\n");
}
