//! What each browser tool answers, from the outcome of the work it asked
//! the browser to do.

use vstd::prelude::*;
use crate::dom::{nodes, DomTree, indices_in};
use crate::render::{render_aria_tree, rendered_tree, RenderMode};
use crate::session::{links_listing, format_links, html_markdown, page_markdown, LinkEntry};
use crate::text::{append_str, concat, decimal, u64_decimal, usize_decimal};

verus! {

broadcast use vstd::string::group_string_axioms;

/// Whether a snapshot's node count fits the counters that render it.
pub open spec fn renderable(dom: DomTree) -> bool {
    nodes(dom@.root).len() <= usize::MAX
}

/// Whether a snapshot inside an outcome, if there is one, can be rendered.
pub open spec fn outcome_renderable(outcome: Result<DomTree, String>) -> bool {
    match outcome {
        Ok(dom) => renderable(dom),
        Err(_) => true,
    }
}

/// The page snapshot of `dom` as the tools show it.
pub open spec fn snapshot_text(dom: DomTree) -> Seq<char> {
    rendered_tree(dom@.root, None)
}

fn snapshot_of(dom: &DomTree) -> (r: String)
    requires
        renderable(*dom),
    ensures
        r@ == snapshot_text(*dom),
{
    render_aria_tree(&dom.root, RenderMode::Ai, None)
}

/// The answer to a navigation to `url`: failed, done without a snapshot,
/// or done with one.
pub open spec fn navigate_reply(url: Seq<char>, outcome: Result<Result<DomTree, String>, String>) -> Seq<char> {
    match outcome {
        Err(e) => "Navigation failed: "@ + e@,
        Ok(Err(e)) => "Navigated to "@ + url + " but failed to extract page content: "@ + e@,
        Ok(Ok(dom)) => "Navigated to "@ + url + "\n\nPage snapshot:\n"@ + snapshot_text(dom),
    }
}

/// The answer of the navigate tool.
pub fn navigate_report(url: &str, outcome: &Result<Result<DomTree, String>, String>) -> (r: String)
    requires
        *outcome matches Ok(inner) ==> outcome_renderable(inner),
    ensures
        r@ == navigate_reply(url@, *outcome),
{
    match outcome {
        Err(e) => concat("Navigation failed: ", e.as_str()),
        Ok(Err(e)) => {
            let mut r = concat("Navigated to ", url);
            append_str(&mut r, " but failed to extract page content: ");
            append_str(&mut r, e.as_str());
            r
        },
        Ok(Ok(dom)) => {
            let mut r = concat("Navigated to ", url);
            append_str(&mut r, "\n\nPage snapshot:\n");
            let s = snapshot_of(dom);
            append_str(&mut r, s.as_str());
            r
        },
    }
}

/// The answer to opening a tab on `url`: the tab failed, the navigation
/// failed, or both went through.
pub open spec fn new_tab_reply(url: Seq<char>, outcome: Result<Result<(), String>, String>) -> Seq<char> {
    match outcome {
        Err(e) => "Failed to open new tab: "@ + e@,
        Ok(Err(e)) => "New tab opened but navigation failed: "@ + e@,
        Ok(Ok(_)) => "Opened new tab and navigated to "@ + url + "."@,
    }
}

/// The answer of the new-tab tool.
pub fn new_tab_report(url: &str, outcome: &Result<Result<(), String>, String>) -> (r: String)
    ensures
        r@ == new_tab_reply(url@, *outcome),
{
    match outcome {
        Err(e) => concat("Failed to open new tab: ", e.as_str()),
        Ok(Err(e)) => concat("New tab opened but navigation failed: ", e.as_str()),
        Ok(Ok(_)) => {
            let mut r = concat("Opened new tab and navigated to ", url);
            append_str(&mut r, ".");
            r
        },
    }
}

/// A tab as the tab list shows it.
#[derive(Debug, Clone, PartialEq)]
pub struct TabSummary {
    pub title: String,
    pub url: String,
}

/// The two lines of tab `i`, marked active where its URL is `active_url`.
pub open spec fn tab_lines(i: nat, t: TabSummary, active_url: Seq<char>) -> Seq<char> {
    "["@ + decimal(i) + "]"@ + (if t.url@ == active_url {
        " [active]"@
    } else {
        seq![]
    }) + " "@ + t.title@ + "\n    "@ + t.url@ + "\n"@
}

/// The lines of all `tabs`, numbered from 0.
pub open spec fn tabs_listing(tabs: Seq<TabSummary>, active_url: Seq<char>) -> Seq<char>
    decreases tabs.len(),
{
    if tabs.len() == 0 {
        seq![]
    } else {
        tabs_listing(tabs.drop_last(), active_url) + tab_lines(
            (tabs.len() - 1) as nat,
            tabs.last(),
            active_url,
        )
    }
}

/// The answer to listing the tabs.
pub open spec fn tab_list_reply(tabs: Result<Vec<TabSummary>, String>, active_url: Seq<char>) -> Seq<char> {
    match tabs {
        Ok(ts) => decimal(ts@.len()) + " tab(s):\n"@ + tabs_listing(ts@, active_url),
        Err(e) => "Failed to list tabs: "@ + e@,
    }
}

/// The answer of the tab-list tool, given the URL of the active tab.
pub fn tab_list_report(tabs: &Result<Vec<TabSummary>, String>, active_url: &str) -> (r: String)
    ensures
        r@ == tab_list_reply(*tabs, active_url@),
{
    match tabs {
        Err(e) => concat("Failed to list tabs: ", e.as_str()),
        Ok(ts) => {
            let mut body = String::new();
            let mut i: usize = 0;
            while i < ts.len()
                invariant
                    i <= ts@.len(),
                    body@ == tabs_listing(ts@.take(i as int), active_url@),
                decreases ts.len() - i,
            {
                let t = &ts[i];
                assert(ts@.take(i + 1).drop_last() == ts@.take(i as int));
                append_str(&mut body, "[");
                let d = usize_decimal(i);
                append_str(&mut body, d.as_str());
                append_str(&mut body, "]");
                if crate::text::str_eq(t.url.as_str(), active_url) {
                    append_str(&mut body, " [active]");
                }
                append_str(&mut body, " ");
                append_str(&mut body, t.title.as_str());
                append_str(&mut body, "\n    ");
                append_str(&mut body, t.url.as_str());
                append_str(&mut body, "\n");
                i = i + 1;
                assert(body@ == tabs_listing(ts@.take(i as int), active_url@));
            }
            assert(ts@.take(ts@.len() as int) == ts@);
            let mut r = usize_decimal(ts.len());
            append_str(&mut r, " tab(s):\n");
            append_str(&mut r, body.as_str());
            r
        },
    }
}

/// The tab to switch to, or the answer that `index` is out of range.
pub open spec fn switch_target(index: usize, tab_count: usize) -> Result<usize, Seq<char>> {
    if index < tab_count {
        Ok(index)
    } else {
        Err(
            "Tab index "@ + decimal(index as nat) + " out of range ("@ + decimal(tab_count as nat)
                + " tabs)."@,
        )
    }
}

/// Checks `index` against the number of open tabs.
pub fn switch_tab_target(index: usize, tab_count: usize) -> (r: Result<usize, String>)
    ensures
        match r {
            Ok(i) => switch_target(index, tab_count) == Ok::<usize, Seq<char>>(i),
            Err(e) => switch_target(index, tab_count) == Err::<usize, Seq<char>>(e@),
        },
{
    if index < tab_count {
        Ok(index)
    } else {
        let mut r = String::from_str("Tab index ");
        let d = usize_decimal(index);
        append_str(&mut r, d.as_str());
        append_str(&mut r, " out of range (");
        let n = usize_decimal(tab_count);
        append_str(&mut r, n.as_str());
        append_str(&mut r, " tabs).");
        Err(r)
    }
}

/// The answer to activating tab `index`: its title, or the error.
pub open spec fn switch_reply(index: usize, activation: Result<String, String>) -> Seq<char> {
    match activation {
        Ok(title) => "Switched to tab ["@ + decimal(index as nat) + "]: "@ + title@,
        Err(e) => "Failed to switch to tab "@ + decimal(index as nat) + ": "@ + e@,
    }
}

/// The answer of the switch-tab tool once the tab was activated or not.
pub fn switch_tab_report(index: usize, activation: &Result<String, String>) -> (r: String)
    ensures
        r@ == switch_reply(index, *activation),
{
    let d = usize_decimal(index);
    match activation {
        Ok(title) => {
            let mut r = concat("Switched to tab [", d.as_str());
            append_str(&mut r, "]: ");
            append_str(&mut r, title.as_str());
            r
        },
        Err(e) => {
            let mut r = concat("Failed to switch to tab ", d.as_str());
            append_str(&mut r, ": ");
            append_str(&mut r, e.as_str());
            r
        },
    }
}

/// The answer where the tabs could not be listed before a switch.
pub fn tabs_unavailable_report(e: &str) -> (r: String)
    ensures
        r@ == "Failed to get tabs: "@ + e@,
{
    concat("Failed to get tabs: ", e)
}

/// The answer to a scroll of `amount` pixels in `direction`.
pub open spec fn scroll_reply(direction: Seq<char>, amount: u32, outcome: Result<(), String>) -> Seq<char> {
    match outcome {
        Ok(_) => "Scrolled "@ + direction + " by "@ + decimal(amount as nat) + "px."@,
        Err(e) => "Scroll failed: "@ + e@,
    }
}

/// The answer of the scroll tool.
pub fn scroll_report(direction: &str, amount: u32, outcome: &Result<(), String>) -> (r: String)
    ensures
        r@ == scroll_reply(direction@, amount, *outcome),
{
    match outcome {
        Ok(_) => {
            let mut r = concat("Scrolled ", direction);
            append_str(&mut r, " by ");
            let d = u64_decimal(amount as u64);
            append_str(&mut r, d.as_str());
            append_str(&mut r, "px.");
            r
        },
        Err(e) => concat("Scroll failed: ", e.as_str()),
    }
}

/// The answer to a snapshot request: the number of numbered elements and
/// the snapshot, or the error.
pub open spec fn snapshot_reply(outcome: Result<DomTree, String>) -> Seq<char> {
    match outcome {
        Ok(dom) => "Page snapshot ("@ + decimal(indices_in(nodes(dom@.root)).len())
            + " interactive elements):\n"@ + snapshot_text(dom),
        Err(e) => "Failed to capture snapshot: "@ + e@,
    }
}

/// The answer of the snapshot tool.
pub fn snapshot_report(outcome: &Result<DomTree, String>) -> (r: String)
    requires
        outcome_renderable(*outcome),
    ensures
        r@ == snapshot_reply(*outcome),
{
    match outcome {
        Ok(dom) => {
            let count = dom.count_interactive();
            let mut r = String::from_str("Page snapshot (");
            let d = usize_decimal(count);
            append_str(&mut r, d.as_str());
            append_str(&mut r, " interactive elements):\n");
            let s = snapshot_of(dom);
            append_str(&mut r, s.as_str());
            r
        },
        Err(e) => concat("Failed to capture snapshot: ", e.as_str()),
    }
}

/// The answer to a click on the element `css`.
pub open spec fn click_reply(css: Seq<char>, outcome: Result<(), String>) -> Seq<char> {
    match outcome {
        Ok(_) => "Clicked element: "@ + css,
        Err(e) => "Click failed on '"@ + css + "': "@ + e@,
    }
}

/// The answer of the click tool.
pub fn click_report(css: &str, outcome: &Result<(), String>) -> (r: String)
    ensures
        r@ == click_reply(css@, *outcome),
{
    match outcome {
        Ok(_) => concat("Clicked element: ", css),
        Err(e) => failed_on("Click failed on '", css, e.as_str()),
    }
}

fn failed_on(lead: &str, css: &str, e: &str) -> (r: String)
    ensures
        r@ == lead@ + css@ + "': "@ + e@,
{
    let mut r = concat(lead, css);
    append_str(&mut r, "': ");
    append_str(&mut r, e);
    r
}

/// The answer to hovering over the element `css`.
pub open spec fn hover_reply(css: Seq<char>, outcome: Result<(), String>) -> Seq<char> {
    match outcome {
        Ok(_) => "Hovered over element: "@ + css,
        Err(e) => "Hover failed on '"@ + css + "': "@ + e@,
    }
}

/// The answer of the hover tool.
pub fn hover_report(css: &str, outcome: &Result<(), String>) -> (r: String)
    ensures
        r@ == hover_reply(css@, *outcome),
{
    match outcome {
        Ok(_) => concat("Hovered over element: ", css),
        Err(e) => failed_on("Hover failed on '", css, e.as_str()),
    }
}

/// The answer to typing `text` into the element `css`.
pub open spec fn input_reply(css: Seq<char>, text: Seq<char>, outcome: Result<(), String>) -> Seq<char> {
    match outcome {
        Ok(_) => "Typed '"@ + text + "' into: "@ + css,
        Err(e) => "Input failed on '"@ + css + "': "@ + e@,
    }
}

/// The answer of the input tool.
pub fn input_report(css: &str, text: &str, outcome: &Result<(), String>) -> (r: String)
    ensures
        r@ == input_reply(css@, text@, *outcome),
{
    match outcome {
        Ok(_) => {
            let mut r = concat("Typed '", text);
            append_str(&mut r, "' into: ");
            append_str(&mut r, css);
            r
        },
        Err(e) => failed_on("Input failed on '", css, e.as_str()),
    }
}

/// The answer to selecting `value` in the element `css`.
pub open spec fn select_reply(css: Seq<char>, value: Seq<char>, outcome: Result<(), String>) -> Seq<char> {
    match outcome {
        Ok(_) => "Selected '"@ + value + "' in: "@ + css,
        Err(e) => "Select failed on '"@ + css + "': "@ + e@,
    }
}

/// The answer of the select tool.
pub fn select_report(css: &str, value: &str, outcome: &Result<(), String>) -> (r: String)
    ensures
        r@ == select_reply(css@, value@, *outcome),
{
    match outcome {
        Ok(_) => {
            let mut r = concat("Selected '", value);
            append_str(&mut r, "' in: ");
            append_str(&mut r, css);
            r
        },
        Err(e) => failed_on("Select failed on '", css, e.as_str()),
    }
}

/// The answer to pressing `key`.
pub open spec fn press_key_reply(key: Seq<char>, outcome: Result<(), String>) -> Seq<char> {
    match outcome {
        Ok(_) => "Pressed key: "@ + key,
        Err(e) => "Press key failed: "@ + e@,
    }
}

/// The answer of the press-key tool.
pub fn press_key_report(key: &str, outcome: &Result<(), String>) -> (r: String)
    ensures
        r@ == press_key_reply(key@, *outcome),
{
    match outcome {
        Ok(_) => concat("Pressed key: ", key),
        Err(e) => concat("Press key failed: ", e.as_str()),
    }
}

/// The answer to running a script: its result as JSON text, or the error.
pub open spec fn evaluate_reply(outcome: Result<String, String>) -> Seq<char> {
    match outcome {
        Ok(json) => "JavaScript result: "@ + json@,
        Err(e) => "JavaScript evaluation failed: "@ + e@,
    }
}

/// The answer of the evaluate tool.
pub fn evaluate_report(outcome: &Result<String, String>) -> (r: String)
    ensures
        r@ == evaluate_reply(*outcome),
{
    match outcome {
        Ok(json) => concat("JavaScript result: ", json.as_str()),
        Err(e) => concat("JavaScript evaluation failed: ", e.as_str()),
    }
}

/// The answer to a content extraction: the text or HTML as it came, or
/// the error.
pub open spec fn extract_reply(outcome: Result<String, String>) -> Seq<char> {
    match outcome {
        Ok(content) => content@,
        Err(e) => "Extract failed: "@ + e@,
    }
}

/// The answer of the extract tool.
pub fn extract_report(outcome: &Result<String, String>) -> (r: String)
    ensures
        r@ == extract_reply(*outcome),
{
    match outcome {
        Ok(content) => String::from_str(content.as_str()),
        Err(e) => concat("Extract failed: ", e.as_str()),
    }
}

/// The snapshot after a move in the history, or why there is none.
pub open spec fn after_move_snapshot(outcome: Result<DomTree, String>) -> Seq<char> {
    match outcome {
        Ok(dom) => snapshot_text(dom),
        Err(e) => "(snapshot failed: "@ + e@ + ")"@,
    }
}

/// The answer to a move back (`forward` false) or forward in the history.
pub open spec fn history_reply(forward: bool, outcome: Result<Result<DomTree, String>, String>) -> Seq<char> {
    match outcome {
        Ok(snap) => (if forward {
            "Went forward."@
        } else {
            "Went back."@
        }) + "\n\nPage snapshot:\n"@ + after_move_snapshot(snap),
        Err(e) => (if forward {
            "Go forward failed: "@
        } else {
            "Go back failed: "@
        }) + e@,
    }
}

/// The answer of the go-back (`forward` false) and go-forward tools.
pub fn history_report(forward: bool, outcome: &Result<Result<DomTree, String>, String>) -> (r: String)
    requires
        *outcome matches Ok(inner) ==> outcome_renderable(inner),
    ensures
        r@ == history_reply(forward, *outcome),
{
    match outcome {
        Ok(snap) => {
            let mut r = if forward {
                String::from_str("Went forward.")
            } else {
                String::from_str("Went back.")
            };
            append_str(&mut r, "\n\nPage snapshot:\n");
            match snap {
                Ok(dom) => {
                    let s = snapshot_of(dom);
                    append_str(&mut r, s.as_str());
                },
                Err(e) => {
                    append_str(&mut r, "(snapshot failed: ");
                    append_str(&mut r, e.as_str());
                    append_str(&mut r, ")");
                },
            }
            r
        },
        Err(e) => {
            let mut r = if forward {
                String::from_str("Go forward failed: ")
            } else {
                String::from_str("Go back failed: ")
            };
            append_str(&mut r, e.as_str());
            r
        },
    }
}

/// The answer to a Markdown request on the page source, or the error.
pub open spec fn markdown_reply(page: Result<String, String>) -> Seq<char> {
    match page {
        Ok(html) => html_markdown(html@),
        Err(e) => "Failed to get markdown: "@ + e@,
    }
}

/// The answer of the Markdown tool, from the page source.
pub fn markdown_report(page: &Result<String, String>) -> (r: String)
    ensures
        r@ == markdown_reply(*page),
{
    match page {
        Ok(html) => page_markdown(html.as_str()),
        Err(e) => concat("Failed to get markdown: ", e.as_str()),
    }
}

/// The answer to listing the page's links.
pub open spec fn read_links_reply(links: Result<Vec<LinkEntry>, String>) -> Seq<char> {
    match links {
        Ok(ls) => "Page links:\n"@ + links_listing(ls@),
        Err(e) => "Failed to read links: "@ + e@,
    }
}

/// The answer of the read-links tool.
pub fn read_links_report(links: &Result<Vec<LinkEntry>, String>) -> (r: String)
    ensures
        r@ == read_links_reply(*links),
{
    match links {
        Ok(ls) => {
            let l = format_links(ls.as_slice());
            concat("Page links:\n", l.as_str())
        },
        Err(e) => concat("Failed to read links: ", e.as_str()),
    }
}

/// The answer to closing the browser.
pub open spec fn close_reply(outcome: Result<(), String>) -> Seq<char> {
    match outcome {
        Ok(_) => "Browser closed."@,
        Err(e) => "Failed to close browser: "@ + e@,
    }
}

/// The answer of the close tool.
pub fn close_report(outcome: &Result<(), String>) -> (r: String)
    ensures
        r@ == close_reply(*outcome),
{
    match outcome {
        Ok(_) => String::from_str("Browser closed."),
        Err(e) => concat("Failed to close browser: ", e.as_str()),
    }
}

/// The answer to closing the active tab: the error as the session words
/// it where it failed.
pub open spec fn close_tab_reply(outcome: Result<(), String>) -> Seq<char> {
    match outcome {
        Ok(_) => "Closed the current tab."@,
        Err(e) => e@,
    }
}

/// The answer of the close-tab tool.
pub fn close_tab_report(outcome: &Result<(), String>) -> (r: String)
    ensures
        r@ == close_tab_reply(*outcome),
{
    match outcome {
        Ok(_) => String::from_str("Closed the current tab."),
        Err(e) => String::from_str(e.as_str()),
    }
}

/// The answer to restarting the browser.
pub open spec fn restart_reply(outcome: Result<(), String>) -> Seq<char> {
    match outcome {
        Ok(_) => "Browser restarted successfully. It starts fresh — previous tabs are gone, re-navigate as needed."@,
        Err(e) => "Failed to restart browser: "@ + e@,
    }
}

/// The answer of the restart tool.
pub fn restart_report(outcome: &Result<(), String>) -> (r: String)
    ensures
        r@ == restart_reply(*outcome),
{
    match outcome {
        Ok(_) => String::from_str(
            "Browser restarted successfully. It starts fresh — previous tabs are gone, re-navigate as needed.",
        ),
        Err(e) => concat("Failed to restart browser: ", e.as_str()),
    }
}

/// The answer of the wait tool after `timeout_ms` milliseconds.
pub fn wait_report(timeout_ms: u64) -> (r: String)
    ensures
        r@ == "Waited "@ + decimal(timeout_ms as nat) + "ms."@,
{
    let mut r = String::from_str("Waited ");
    let d = u64_decimal(timeout_ms);
    append_str(&mut r, d.as_str());
    append_str(&mut r, "ms.");
    r
}

/// The answer where no screenshot could be taken.
pub fn screenshot_failed_report(e: &str) -> (r: String)
    ensures
        r@ == "Screenshot failed: "@ + e@,
{
    concat("Screenshot failed: ", e)
}

} // verus!
