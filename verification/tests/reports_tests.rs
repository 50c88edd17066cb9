use phi_tools::dom::{AriaChild, AriaNode, DomTree};
use phi_tools::reports::{
    click_report, close_report, close_tab_report, hover_report, evaluate_report, extract_report, history_report, input_report,
    markdown_report, navigate_report, new_tab_report, press_key_report, read_links_report,
    restart_report, screenshot_failed_report, scroll_report, select_report, snapshot_report,
    switch_tab_report, switch_tab_target, tab_list_report, tabs_unavailable_report, wait_report,
    TabSummary,
};
use phi_tools::session::LinkEntry;

fn page() -> DomTree {
    DomTree::new(
        AriaNode::fragment()
            .with_child(AriaChild::Node(Box::new(
                AriaNode::new("button", "OK").with_index(0).with_box(true, None),
            ))),
    )
}

#[test]
fn navigate_answers() {
    assert_eq!(
        navigate_report("https://a.b", &Ok(Ok(page()))),
        "Navigated to https://a.b\n\nPage snapshot:\n- fragment\n  - button [0] \"OK\"\n"
    );
    assert_eq!(
        navigate_report("https://a.b", &Ok(Err("no DOM".to_string()))),
        "Navigated to https://a.b but failed to extract page content: no DOM"
    );
    assert_eq!(
        navigate_report("https://a.b", &Err("timeout".to_string())),
        "Navigation failed: timeout"
    );
}

#[test]
fn new_tab_answers() {
    assert_eq!(new_tab_report("https://a.b", &Ok(Ok(()))), "Opened new tab and navigated to https://a.b.");
    assert_eq!(
        new_tab_report("https://a.b", &Ok(Err("dns".to_string()))),
        "New tab opened but navigation failed: dns"
    );
    assert_eq!(new_tab_report("x", &Err("closed".to_string())), "Failed to open new tab: closed");
}

#[test]
fn tab_list_marks_active() {
    let tabs = vec![
        TabSummary { title: "A".to_string(), url: "https://a/".to_string() },
        TabSummary { title: "B".to_string(), url: "https://b/".to_string() },
    ];
    assert_eq!(
        tab_list_report(&Ok(tabs), "https://b/"),
        "2 tab(s):\n[0] A\n    https://a/\n[1] [active] B\n    https://b/\n"
    );
    assert_eq!(tab_list_report(&Ok(Vec::new()), ""), "0 tab(s):\n");
    assert_eq!(tab_list_report(&Err("gone".to_string()), ""), "Failed to list tabs: gone");
}

#[test]
fn switch_tab_answers() {
    assert_eq!(switch_tab_target(1, 2), Ok(1));
    assert_eq!(switch_tab_target(2, 2), Err("Tab index 2 out of range (2 tabs).".to_string()));
    assert_eq!(switch_tab_report(1, &Ok("Docs".to_string())), "Switched to tab [1]: Docs");
    assert_eq!(switch_tab_report(3, &Err("cdp".to_string())), "Failed to switch to tab 3: cdp");
    assert_eq!(tabs_unavailable_report("locked"), "Failed to get tabs: locked");
}

#[test]
fn element_action_answers() {
    assert_eq!(click_report("#go", &Ok(())), "Clicked element: #go");
    assert_eq!(click_report("#go", &Err("hidden".to_string())), "Click failed on '#go': hidden");
    assert_eq!(input_report("#q", "rust", &Ok(())), "Typed 'rust' into: #q");
    assert_eq!(input_report("#q", "rust", &Err("ro".to_string())), "Input failed on '#q': ro");
    assert_eq!(select_report("#s", "L", &Ok(())), "Selected 'L' in: #s");
    assert_eq!(select_report("#s", "L", &Err("no".to_string())), "Select failed on '#s': no");
    assert_eq!(press_key_report("Enter", &Ok(())), "Pressed key: Enter");
    assert_eq!(press_key_report("Enter", &Err("x".to_string())), "Press key failed: x");
}

#[test]
fn scroll_snapshot_and_script_answers() {
    assert_eq!(scroll_report("down", 500, &Ok(())), "Scrolled down by 500px.");
    assert_eq!(scroll_report("up", 1, &Err("e".to_string())), "Scroll failed: e");
    assert_eq!(
        snapshot_report(&Ok(page())),
        "Page snapshot (1 interactive elements):\n- fragment\n  - button [0] \"OK\"\n"
    );
    assert_eq!(snapshot_report(&Err("e".to_string())), "Failed to capture snapshot: e");
    assert_eq!(evaluate_report(&Ok("42".to_string())), "JavaScript result: 42");
    assert_eq!(evaluate_report(&Err("boom".to_string())), "JavaScript evaluation failed: boom");
    assert_eq!(extract_report(&Ok("body text".to_string())), "body text");
    assert_eq!(extract_report(&Err("e".to_string())), "Extract failed: e");
}

#[test]
fn history_answers() {
    assert_eq!(
        history_report(false, &Ok(Ok(page()))),
        "Went back.\n\nPage snapshot:\n- fragment\n  - button [0] \"OK\"\n"
    );
    assert_eq!(
        history_report(true, &Ok(Err("e".to_string()))),
        "Went forward.\n\nPage snapshot:\n(snapshot failed: e)"
    );
    assert_eq!(history_report(false, &Err("x".to_string())), "Go back failed: x");
    assert_eq!(history_report(true, &Err("x".to_string())), "Go forward failed: x");
}

#[test]
fn content_and_lifecycle_answers() {
    let md = markdown_report(&Ok("<p>Hi</p>".to_string()));
    assert!(md.contains("Hi"));
    assert!(!md.contains("<p>"));
    assert_eq!(markdown_report(&Err("e".to_string())), "Failed to get markdown: e");
    let links = vec![LinkEntry { index: 0, text: "A".to_string(), href: "h".to_string() }];
    assert_eq!(read_links_report(&Ok(links)), "Page links:\n[0] A -> h\n");
    assert_eq!(read_links_report(&Err("e".to_string())), "Failed to read links: e");
    assert_eq!(close_report(&Ok(())), "Browser closed.");
    assert_eq!(close_report(&Err("e".to_string())), "Failed to close browser: e");
    assert_eq!(
        restart_report(&Ok(())),
        "Browser restarted successfully. It starts fresh — previous tabs are gone, re-navigate as needed."
    );
    assert_eq!(restart_report(&Err("e".to_string())), "Failed to restart browser: e");
    assert_eq!(wait_report(2000), "Waited 2000ms.");
    assert_eq!(screenshot_failed_report("e"), "Screenshot failed: e");
}

#[test]
fn hover_and_close_tab_answers() {
    assert_eq!(hover_report("#m", &Ok(())), "Hovered over element: #m");
    assert_eq!(hover_report("#m", &Err("gone".to_string())), "Hover failed on '#m': gone");
    assert_eq!(close_tab_report(&Ok(())), "Closed the current tab.");
    assert_eq!(
        close_tab_report(&Err("Failed to close tab: busy".to_string())),
        "Failed to close tab: busy"
    );
}
