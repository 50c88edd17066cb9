use phi_tools::dom::{AriaChild, AriaNode, DomTree};
use phi_tools::session::{
    active_tab, escape_quotes, escape_value, format_links, hover_js, page_markdown,
    page_url_from, press_key_js, screenshot_base64, scroll_js, scroll_offsets, select_js,
    selector_for_index, selector_step, type_text_js, LinkEntry, SelectorStep, TabState,
};

#[test]
fn escaping_quotes_and_backslashes() {
    assert_eq!(escape_quotes("a[title='x']"), "a[title=\\'x\\']");
    assert_eq!(escape_quotes("a\\b"), "a\\b");
    assert_eq!(escape_value("it's a \\ test"), "it\\'s a \\\\ test");
    assert_eq!(escape_value("plain"), "plain");
}

#[test]
fn type_text_script_text() {
    let js = type_text_js("input[name='q']", "O'Hara\\");
    let expected = "(() => {
                const el = document.querySelector('input[name=\\'q\\']');
                if (!el) return 'element not found';
                el.focus();
                el.value = 'O\\'Hara\\\\';
                el.dispatchEvent(new Event('input', { bubbles: true }));
                el.dispatchEvent(new Event('change', { bubbles: true }));
                return 'ok';
            })()";
    assert_eq!(js, expected);
}

#[test]
fn hover_select_and_key_scripts() {
    assert_eq!(
        hover_js("#menu"),
        "(() => {
                const el = document.querySelector('#menu');
                if (!el) return 'element not found';
                el.dispatchEvent(new MouseEvent('mouseover', { bubbles: true }));
                return 'ok';
            })()"
    );
    assert_eq!(
        select_js("#size", "L"),
        "(() => {
                const el = document.querySelector('#size');
                if (!el) return 'element not found';
                el.value = 'L';
                el.dispatchEvent(new Event('change', { bubbles: true }));
                return 'ok';
            })()"
    );
    assert_eq!(
        press_key_js("Enter"),
        "(() => {
                document.dispatchEvent(new KeyboardEvent('keydown', { key: 'Enter', bubbles: true }));
                document.dispatchEvent(new KeyboardEvent('keyup', { key: 'Enter', bubbles: true }));
                return 'ok';
            })()"
    );
}

#[test]
fn scroll_directions() {
    assert_eq!(scroll_offsets("down", 500), (0, 500));
    assert_eq!(scroll_offsets("up", 300), (0, -300));
    assert_eq!(scroll_offsets("right", 20), (20, 0));
    assert_eq!(scroll_offsets("left", 20), (-20, 0));
    assert_eq!(scroll_offsets("sideways", 7), (0, 7));
    assert_eq!(scroll_offsets("down", 0xFFFF_FFFF), (0, -1));
    assert_eq!(
        scroll_js("up", 250),
        "window.scrollBy({ left: 0, top: -250, behavior: 'smooth' }); 'ok'"
    );
}

#[test]
fn active_tab_prefers_focus_then_visibility_then_first() {
    let t = |visible, focused| TabState { visible, focused };
    assert_eq!(active_tab(&[t(true, false), t(true, true)]), Ok(1));
    assert_eq!(active_tab(&[t(false, true), t(true, false), t(true, false)]), Ok(1));
    assert_eq!(active_tab(&[t(false, false), t(false, true)]), Ok(0));
    assert_eq!(active_tab(&[]), Err("No tabs available".to_string()));
}

#[test]
fn link_listing() {
    let links = vec![
        LinkEntry { index: 0, text: "Home".to_string(), href: "https://a.b/".to_string() },
        LinkEntry { index: 12, text: String::new(), href: "https://a.b/x".to_string() },
    ];
    assert_eq!(format_links(&links), "[0] Home -> https://a.b/\n[12]  -> https://a.b/x\n");
    assert_eq!(format_links(&[]), "");
}

#[test]
fn selector_lookup_by_index() {
    let root = AriaNode::fragment()
        .with_child(AriaChild::Node(Box::new(AriaNode::new("button", "A").with_index(0))))
        .with_child(AriaChild::Node(Box::new(AriaNode::new("button", "B").with_index(1))));
    let mut dom = DomTree::new(root);
    dom.selectors = vec!["#a".to_string(), String::new()];
    assert_eq!(selector_for_index(&dom, 0), Ok("#a".to_string()));
    assert_eq!(selector_for_index(&dom, 1), Err("No element with index 1".to_string()));
    assert_eq!(selector_for_index(&dom, 7), Err("No element with index 7".to_string()));
}

#[test]
fn selector_step_prefers_index() {
    assert_eq!(selector_step(Some(3), Some("#x".to_string()), "browser_click"), SelectorStep::ByIndex(3));
    assert_eq!(
        selector_step(None, Some("#x".to_string()), "browser_click"),
        SelectorStep::BySelector("#x".to_string())
    );
    assert_eq!(
        selector_step(None, None, "browser_click"),
        SelectorStep::Refuse("browser_click: either index or selector is required".to_string())
    );
}

#[test]
fn screenshot_is_standard_base64() {
    assert_eq!(screenshot_base64(b"hello"), "aGVsbG8=");
    assert_eq!(screenshot_base64(b"hi"), "aGk=");
    assert_eq!(screenshot_base64(b"abc"), "YWJj");
    assert_eq!(screenshot_base64(&[0xfb, 0xff]), "+/8=");
    assert_eq!(screenshot_base64(b""), "");
}

#[test]
fn markdown_of_page_source() {
    let md = page_markdown("<h1>Title</h1><p>Hello <b>world</b></p>");
    assert_ne!(md, "<h1>Title</h1><p>Hello <b>world</b></p>");
    assert!(md.contains("Title"));
    assert!(md.contains("**world**"));
}

#[test]
fn page_url_defaults_to_unknown() {
    assert_eq!(page_url_from(Some("https://a.b/".to_string())), "https://a.b/");
    assert_eq!(page_url_from(None), "unknown");
}
