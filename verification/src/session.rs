//! The computing half of a browser session: the page scripts it sends,
//! which tab counts as active, how it lists links, and the lookup of an
//! element's selector in a snapshot.

use vstd::prelude::*;
use base64::Engine;
use crate::dom::{DomTree, TreeModel};
use crate::text::{
    append_str, chars_of, decimal, i64_decimal, push_char, signed_decimal, str_eq, u64_decimal,
    usize_decimal,
};

verus! {

broadcast use vstd::string::group_string_axioms;

/// `c` inside a single-quoted script string where only quotes are escaped.
pub open spec fn quote_escape_char(c: char) -> Seq<char> {
    if c == '\'' {
        seq!['\\', '\'']
    } else {
        seq![c]
    }
}

/// `c` inside a single-quoted script string where backslashes and quotes
/// are escaped.
pub open spec fn value_escape_char(c: char) -> Seq<char> {
    if c == '\\' {
        seq!['\\', '\\']
    } else {
        quote_escape_char(c)
    }
}

/// `s` with each `'` written `\'`.
pub open spec fn quote_escaped(s: Seq<char>) -> Seq<char>
    decreases s.len(),
{
    if s.len() == 0 {
        seq![]
    } else {
        quote_escaped(s.drop_last()) + quote_escape_char(s.last())
    }
}

/// `s` with each `\` written `\\` and each `'` written `\'`.
pub open spec fn value_escaped(s: Seq<char>) -> Seq<char>
    decreases s.len(),
{
    if s.len() == 0 {
        seq![]
    } else {
        value_escaped(s.drop_last()) + value_escape_char(s.last())
    }
}

/// What the inside of a single-quoted script string stands for, reading
/// `\\` as a backslash and `\'` as a quote.
pub open spec fn unescaped(s: Seq<char>) -> Seq<char>
    decreases s.len(),
{
    if s.len() == 0 {
        seq![]
    } else if s.len() >= 2 && s[0] == '\\' && (s[1] == '\\' || s[1] == '\'') {
        seq![s[1]] + unescaped(s.skip(2))
    } else {
        seq![s[0]] + unescaped(s.skip(1))
    }
}

pub proof fn lemma_value_escaped_cons(c: char, s: Seq<char>)
    ensures
        value_escaped(seq![c] + s) == value_escape_char(c) + value_escaped(s),
    decreases s.len(),
{
    let t = seq![c] + s;
    if s.len() == 0 {
        assert(t == seq![c]);
        assert(t.drop_last() == Seq::<char>::empty());
        assert(t.last() == c);
        assert(value_escaped(Seq::<char>::empty()) == Seq::<char>::empty());
        assert(value_escaped(t) == Seq::<char>::empty() + value_escape_char(c));
        assert(value_escaped(t) == value_escape_char(c) + Seq::<char>::empty());
    } else {
        assert(t.drop_last() == seq![c] + s.drop_last());
        assert(t.last() == s.last());
        lemma_value_escaped_cons(c, s.drop_last());
        assert(value_escaped(t) == value_escape_char(c) + value_escaped(s.drop_last())
            + value_escape_char(s.last()));
        assert(value_escape_char(c) + value_escaped(s.drop_last()) + value_escape_char(s.last())
            == value_escape_char(c) + (value_escaped(s.drop_last()) + value_escape_char(s.last())));
    }
}

/// A value written into a script reaches the page as it was given: the
/// script string stands for exactly the original text.
pub proof fn lemma_value_escape_round_trip(s: Seq<char>)
    ensures
        unescaped(value_escaped(s)) == s,
    decreases s.len(),
{
    if s.len() > 0 {
        let c = s[0];
        let rest = s.skip(1);
        assert(s == seq![c] + rest);
        lemma_value_escaped_cons(c, rest);
        lemma_value_escape_round_trip(rest);
        let e = value_escape_char(c) + value_escaped(rest);
        if c == '\\' || c == '\'' {
            assert(e.skip(2) == value_escaped(rest));
        } else {
            assert(e.skip(1) == value_escaped(rest));
        }
    }
}

/// A selector without quotes goes into a script as it is.
pub proof fn lemma_quote_free_unchanged(s: Seq<char>)
    requires
        forall|j: int| 0 <= j < s.len() ==> s[j] != '\'',
    ensures
        quote_escaped(s) == s,
    decreases s.len(),
{
    if s.len() > 0 {
        lemma_quote_free_unchanged(s.drop_last());
        assert(s.drop_last().push(s.last()) == s);
    }
}

/// `s` with each `'` escaped, for a single-quoted selector in a script.
pub fn escape_quotes(s: &str) -> (r: String)
    ensures
        r@ == quote_escaped(s@),
{
    let cs = chars_of(s);
    let mut r = String::new();
    let mut i: usize = 0;
    while i < cs.len()
        invariant
            i <= cs@.len(),
            cs@ == s@,
            r@ == quote_escaped(cs@.take(i as int)),
        decreases cs.len() - i,
    {
        let c = cs[i];
        assert(cs@.take(i + 1).drop_last() == cs@.take(i as int));
        if c == '\'' {
            push_char(&mut r, '\\');
            push_char(&mut r, '\'');
        } else {
            push_char(&mut r, c);
        }
        i = i + 1;
    }
    assert(cs@.take(cs@.len() as int) == cs@);
    r
}

/// `s` with each backslash and each `'` escaped, for a single-quoted
/// value in a script.
pub fn escape_value(s: &str) -> (r: String)
    ensures
        r@ == value_escaped(s@),
{
    let cs = chars_of(s);
    let mut r = String::new();
    let mut i: usize = 0;
    while i < cs.len()
        invariant
            i <= cs@.len(),
            cs@ == s@,
            r@ == value_escaped(cs@.take(i as int)),
        decreases cs.len() - i,
    {
        let c = cs[i];
        assert(cs@.take(i + 1).drop_last() == cs@.take(i as int));
        if c == '\\' {
            push_char(&mut r, '\\');
            push_char(&mut r, '\\');
        } else if c == '\'' {
            push_char(&mut r, '\\');
            push_char(&mut r, '\'');
        } else {
            push_char(&mut r, c);
        }
        i = i + 1;
    }
    assert(cs@.take(cs@.len() as int) == cs@);
    r
}

/// The opening of a script that looks up the element `selector` and gives
/// up where there is none.
pub open spec fn element_lookup(selector: Seq<char>) -> Seq<char> {
    "(() => {\n                const el = document.querySelector('"@ + quote_escaped(selector)
        + "');\n                if (!el) return 'element not found';\n"@
}

/// The script that focuses the element `selector`, sets its value to
/// `text` and fires `input` and `change` events.
pub open spec fn type_text_script(selector: Seq<char>, text: Seq<char>) -> Seq<char> {
    element_lookup(selector) + "                el.focus();\n                el.value = '"@
        + value_escaped(text)
        + "';\n                el.dispatchEvent(new Event('input', { bubbles: true }));\n                el.dispatchEvent(new Event('change', { bubbles: true }));\n                return 'ok';\n            })()"@
}

/// The script that fires `mouseover` on the element `selector`.
pub open spec fn hover_script(selector: Seq<char>) -> Seq<char> {
    element_lookup(selector)
        + "                el.dispatchEvent(new MouseEvent('mouseover', { bubbles: true }));\n                return 'ok';\n            })()"@
}

/// The script that sets the value of the element `selector` to `value`
/// and fires `change`.
pub open spec fn select_script(selector: Seq<char>, value: Seq<char>) -> Seq<char> {
    element_lookup(selector) + "                el.value = '"@ + value_escaped(value)
        + "';\n                el.dispatchEvent(new Event('change', { bubbles: true }));\n                return 'ok';\n            })()"@
}

/// The script that fires `keydown` and `keyup` for `key` on the document
/// (the key goes in as given).
pub open spec fn press_key_script(key: Seq<char>) -> Seq<char> {
    "(() => {\n                document.dispatchEvent(new KeyboardEvent('keydown', { key: '"@ + key
        + "', bubbles: true }));\n                document.dispatchEvent(new KeyboardEvent('keyup', { key: '"@
        + key + "', bubbles: true }));\n                return 'ok';\n            })()"@
}

fn element_lookup_text(selector: &str) -> (r: String)
    ensures
        r@ == element_lookup(selector@),
{
    let mut r = String::from_str("(() => {\n                const el = document.querySelector('");
    let sel = escape_quotes(selector);
    append_str(&mut r, sel.as_str());
    append_str(&mut r, "');\n                if (!el) return 'element not found';\n");
    r
}

/// The script that types `text` into the element `selector`.
pub fn type_text_js(selector: &str, text: &str) -> (r: String)
    ensures
        r@ == type_text_script(selector@, text@),
{
    let mut r = element_lookup_text(selector);
    append_str(&mut r, "                el.focus();\n                el.value = '");
    let v = escape_value(text);
    append_str(&mut r, v.as_str());
    append_str(
        &mut r,
        "';\n                el.dispatchEvent(new Event('input', { bubbles: true }));\n                el.dispatchEvent(new Event('change', { bubbles: true }));\n                return 'ok';\n            })()",
    );
    r
}

/// The script that hovers over the element `selector`.
pub fn hover_js(selector: &str) -> (r: String)
    ensures
        r@ == hover_script(selector@),
{
    let mut r = element_lookup_text(selector);
    append_str(
        &mut r,
        "                el.dispatchEvent(new MouseEvent('mouseover', { bubbles: true }));\n                return 'ok';\n            })()",
    );
    r
}

/// The script that selects `value` in the element `selector`.
pub fn select_js(selector: &str, value: &str) -> (r: String)
    ensures
        r@ == select_script(selector@, value@),
{
    let mut r = element_lookup_text(selector);
    append_str(&mut r, "                el.value = '");
    let v = escape_value(value);
    append_str(&mut r, v.as_str());
    append_str(
        &mut r,
        "';\n                el.dispatchEvent(new Event('change', { bubbles: true }));\n                return 'ok';\n            })()",
    );
    r
}

/// The script that presses `key`.
pub fn press_key_js(key: &str) -> (r: String)
    ensures
        r@ == press_key_script(key@),
{
    let mut r = String::from_str(
        "(() => {\n                document.dispatchEvent(new KeyboardEvent('keydown', { key: '",
    );
    append_str(&mut r, key);
    append_str(
        &mut r,
        "', bubbles: true }));\n                document.dispatchEvent(new KeyboardEvent('keyup', { key: '",
    );
    append_str(&mut r, key);
    append_str(&mut r, "', bubbles: true }));\n                return 'ok';\n            })()");
    r
}

/// `amount` as a signed 32-bit count (its bits read as `i32`).
pub open spec fn signed_amount(amount: u32) -> int {
    (amount as i32) as int
}

/// How far the page scrolls, left and down, for `direction` and `amount`
/// pixels: `up` and `left` scroll back, anything but `up`, `right` and
/// `left` scrolls down.
pub open spec fn scroll_delta(direction: Seq<char>, amount: u32) -> (int, int) {
    if direction == "up"@ {
        (0, -signed_amount(amount))
    } else if direction == "right"@ {
        (signed_amount(amount), 0)
    } else if direction == "left"@ {
        (-signed_amount(amount), 0)
    } else {
        (0, signed_amount(amount))
    }
}

/// Whether scrolling by `amount` in `direction` stays within `i32`
/// (negating the smallest `i32` does not).
pub open spec fn scroll_fits(direction: Seq<char>, amount: u32) -> bool {
    (direction == "up"@ || direction == "left"@) ==> amount != 0x8000_0000u32
}

/// The offsets to scroll by, left and down.
pub fn scroll_offsets(direction: &str, amount: u32) -> (r: (i32, i32))
    requires
        scroll_fits(direction@, amount),
    ensures
        r.0 == scroll_delta(direction@, amount).0,
        r.1 == scroll_delta(direction@, amount).1,
{
    let a = #[verifier::truncate] (amount as i32);
    proof {
        reveal_strlit("down");
        reveal_strlit("up");
        reveal_strlit("right");
        reveal_strlit("left");
    }
    assert("down"@.len() == 4 && "up"@.len() == 2 && "right"@.len() == 5 && "left"@.len() == 4);
    assert("down"@[0] != "left"@[0]);
    if str_eq(direction, "up") || str_eq(direction, "left") {
        assert(amount != 0x8000_0000u32 ==> (amount as i32) != i32::MIN) by (bit_vector);
    }
    if str_eq(direction, "down") {
        (0, a)
    } else if str_eq(direction, "up") {
        (0, -a)
    } else if str_eq(direction, "right") {
        (a, 0)
    } else if str_eq(direction, "left") {
        (-a, 0)
    } else {
        (0, a)
    }
}

/// The script that scrolls the window smoothly by `x` and `y` pixels.
pub open spec fn scroll_script(x: int, y: int) -> Seq<char> {
    "window.scrollBy({ left: "@ + signed_decimal(x) + ", top: "@ + signed_decimal(y)
        + ", behavior: 'smooth' }); 'ok'"@
}

/// The script that scrolls the page by `amount` pixels in `direction`.
pub fn scroll_js(direction: &str, amount: u32) -> (r: String)
    requires
        scroll_fits(direction@, amount),
    ensures
        r@ == scroll_script(scroll_delta(direction@, amount).0, scroll_delta(direction@, amount).1),
{
    let (x, y) = scroll_offsets(direction, amount);
    let mut r = String::from_str("window.scrollBy({ left: ");
    let xs = i64_decimal(x as i64);
    append_str(&mut r, xs.as_str());
    append_str(&mut r, ", top: ");
    let ys = i64_decimal(y as i64);
    append_str(&mut r, ys.as_str());
    append_str(&mut r, ", behavior: 'smooth' }); 'ok'");
    r
}

/// A page's URL as the tab reported it, or `unknown` where it did not.
pub fn page_url_from(reported: Option<String>) -> (r: String)
    ensures
        r@ == (match reported {
            Some(u) => u@,
            None => "unknown"@,
        }),
{
    match reported {
        Some(u) => u,
        None => String::from_str("unknown"),
    }
}

/// What one tab reports of itself: whether its document is visible and
/// whether it has the focus (false where the tab did not answer).
#[derive(Debug, Clone, Copy, PartialEq, Eq)]
pub struct TabState {
    pub visible: bool,
    pub focused: bool,
}

/// The first position of `s` that holds `true`.
pub open spec fn first_true(s: Seq<bool>) -> Option<int>
    decreases s.len(),
{
    if s.len() == 0 {
        None
    } else if s[0] {
        Some(0)
    } else {
        match first_true(s.drop_first()) {
            Some(i) => Some(i + 1),
            None => None,
        }
    }
}

/// Per tab, whether it is visible and focused.
pub open spec fn visible_and_focused(tabs: Seq<TabState>) -> Seq<bool> {
    tabs.map_values(|t: TabState| t.visible && t.focused)
}

/// Per tab, whether it is visible.
pub open spec fn visible_tabs(tabs: Seq<TabState>) -> Seq<bool> {
    tabs.map_values(|t: TabState| t.visible)
}

/// The tab taken as the active one: the first visible and focused tab,
/// else the first visible tab, else the first tab; none where there are
/// no tabs.
pub open spec fn active_tab_choice(tabs: Seq<TabState>) -> Option<int> {
    match first_true(visible_and_focused(tabs)) {
        Some(i) => Some(i),
        None => match first_true(visible_tabs(tabs)) {
            Some(i) => Some(i),
            None => if tabs.len() > 0 {
                Some(0)
            } else {
                None
            },
        },
    }
}

/// `first_true` names the least position that holds `true`.
pub proof fn lemma_first_true(s: Seq<bool>)
    ensures
        match first_true(s) {
            Some(i) => 0 <= i < s.len() && s[i] && forall|j: int| 0 <= j < i ==> !s[j],
            None => forall|j: int| 0 <= j < s.len() ==> !s[j],
        },
    decreases s.len(),
{
    if s.len() > 0 && !s[0] {
        let t = s.drop_first();
        lemma_first_true(t);
        assert forall|j: int| 1 <= j < s.len() implies s[j] == t[j - 1] by {}
    }
}

fn first_set(flags: &Vec<bool>) -> (r: Option<usize>)
    ensures
        match r {
            Some(i) => first_true(flags@) == Some(i as int),
            None => first_true(flags@) is None,
        },
{
    proof {
        lemma_first_true(flags@);
    }
    let mut i: usize = 0;
    while i < flags.len()
        invariant
            i <= flags@.len(),
            forall|j: int| 0 <= j < i ==> !flags@[j],
        decreases flags.len() - i,
    {
        if flags[i] {
            proof {
                lemma_first_true(flags@);
                assert(flags@[i as int]);
            }
            return Some(i);
        }
        i = i + 1;
    }
    None
}

/// The error when there is no tab to act on.
pub open spec fn no_tabs_error() -> Seq<char> {
    "No tabs available"@
}

/// The position of the active tab among `tabs`.
pub fn active_tab(tabs: &[TabState]) -> (r: Result<usize, String>)
    ensures
        match r {
            Ok(i) => active_tab_choice(tabs@) == Some(i as int),
            Err(e) => active_tab_choice(tabs@) is None && e@ == no_tabs_error(),
        },
{
    let mut strong: Vec<bool> = Vec::new();
    let mut weak: Vec<bool> = Vec::new();
    let mut i: usize = 0;
    while i < tabs.len()
        invariant
            i <= tabs@.len(),
            strong@ == visible_and_focused(tabs@).take(i as int),
            weak@ == visible_tabs(tabs@).take(i as int),
        decreases tabs.len() - i,
    {
        let t = tabs[i];
        strong.push(t.visible && t.focused);
        weak.push(t.visible);
        i = i + 1;
        assert(strong@ == visible_and_focused(tabs@).take(i as int));
        assert(weak@ == visible_tabs(tabs@).take(i as int));
    }
    assert(strong@ == visible_and_focused(tabs@));
    assert(weak@ == visible_tabs(tabs@));
    match first_set(&strong) {
        Some(k) => Ok(k),
        None => match first_set(&weak) {
            Some(k) => Ok(k),
            None => if tabs.len() > 0 {
                Ok(0)
            } else {
                Err(String::from_str("No tabs available"))
            },
        },
    }
}

/// The active tab is a tab; it is visible and focused where some tab is,
/// and visible where some tab is.
pub proof fn lemma_active_tab_choice(tabs: Seq<TabState>)
    ensures
        active_tab_choice(tabs) is Some <==> tabs.len() > 0,
        match active_tab_choice(tabs) {
            Some(i) => {
                &&& 0 <= i < tabs.len()
                &&& (exists|j: int| 0 <= j < tabs.len() && tabs[j].visible && tabs[j].focused)
                    ==> tabs[i].visible && tabs[i].focused
                &&& (exists|j: int| 0 <= j < tabs.len() && tabs[j].visible) ==> tabs[i].visible
            },
            None => true,
        },
{
    let s = visible_and_focused(tabs);
    let w = visible_tabs(tabs);
    lemma_first_true(s);
    lemma_first_true(w);
    if exists|j: int| 0 <= j < tabs.len() && tabs[j].visible && tabs[j].focused {
        let j = choose|j: int| 0 <= j < tabs.len() && tabs[j].visible && tabs[j].focused;
        assert(s[j]);
    }
    if exists|j: int| 0 <= j < tabs.len() && tabs[j].visible {
        let j = choose|j: int| 0 <= j < tabs.len() && tabs[j].visible;
        assert(w[j]);
    }
}

/// A link of the page: its position among the page's links, its text and
/// its target.
#[derive(Debug, Clone, PartialEq)]
pub struct LinkEntry {
    pub index: u64,
    pub text: String,
    pub href: String,
}

/// The line that lists one link: `[index] text -> href`.
pub open spec fn link_line(l: LinkEntry) -> Seq<char> {
    "["@ + decimal(l.index as nat) + "] "@ + l.text@ + " -> "@ + l.href@ + "\n"@
}

/// The lines of all `links`, in order.
pub open spec fn links_listing(links: Seq<LinkEntry>) -> Seq<char>
    decreases links.len(),
{
    if links.len() == 0 {
        seq![]
    } else {
        links_listing(links.drop_last()) + link_line(links.last())
    }
}

/// One line per link, in the order given.
pub fn format_links(links: &[LinkEntry]) -> (r: String)
    ensures
        r@ == links_listing(links@),
{
    let mut r = String::new();
    let mut i: usize = 0;
    while i < links.len()
        invariant
            i <= links@.len(),
            r@ == links_listing(links@.take(i as int)),
        decreases links.len() - i,
    {
        let l = &links[i];
        assert(links@.take(i + 1).drop_last() == links@.take(i as int));
        append_str(&mut r, "[");
        let d = u64_decimal(l.index);
        append_str(&mut r, d.as_str());
        append_str(&mut r, "] ");
        append_str(&mut r, l.text.as_str());
        append_str(&mut r, " -> ");
        append_str(&mut r, l.href.as_str());
        append_str(&mut r, "\n");
        i = i + 1;
        assert(r@ == links_listing(links@.take(i as int)));
    }
    assert(links@.take(links@.len() as int) == links@);
    r
}

/// The selector of element `index` in snapshot `t`, or the error that
/// there is no such element.
pub open spec fn selector_lookup(t: TreeModel, index: usize) -> Result<Seq<char>, Seq<char>> {
    if index < t.selectors.len() && t.selectors[index as int].len() > 0 {
        Ok(t.selectors[index as int])
    } else {
        Err("No element with index "@ + decimal(index as nat))
    }
}

/// The CSS selector of the element numbered `index` in `dom`.
pub fn selector_for_index(dom: &DomTree, index: usize) -> (r: Result<String, String>)
    ensures
        match r {
            Ok(s) => selector_lookup(dom@, index) == Ok::<Seq<char>, Seq<char>>(s@),
            Err(e) => selector_lookup(dom@, index) == Err::<Seq<char>, Seq<char>>(e@),
        },
{
    match dom.get_selector(index) {
        Some(s) => Ok(String::from_str(s.as_str())),
        None => {
            let mut e = String::from_str("No element with index ");
            let d = usize_decimal(index);
            append_str(&mut e, d.as_str());
            Err(e)
        },
    }
}

/// How a tool that acts on an element finds it: by its number in the page
/// snapshot, by the CSS selector it was given, or not at all.
#[derive(Debug, Clone, PartialEq)]
pub enum SelectorStep {
    ByIndex(usize),
    BySelector(String),
    Refuse(String),
}

/// The answer of `tool` when it was given neither an element number nor a
/// selector.
pub open spec fn missing_target(tool: Seq<char>) -> Seq<char> {
    tool + ": either index or selector is required"@
}

/// The way to the element: the snapshot number where one is given (it is
/// preferred), else the selector, else a refusal.
pub fn selector_step(index: Option<usize>, selector: Option<String>, tool_name: &str) -> (r:
    SelectorStep)
    ensures
        match index {
            Some(i) => r == SelectorStep::ByIndex(i),
            None => match selector {
                Some(s) => r == SelectorStep::BySelector(s),
                None => r matches SelectorStep::Refuse(e) && e@ == missing_target(tool_name@),
            },
        },
{
    match index {
        Some(i) => SelectorStep::ByIndex(i),
        None => match selector {
            Some(s) => SelectorStep::BySelector(s),
            None => {
                let mut e = String::from_str(tool_name);
                append_str(&mut e, ": either index or selector is required");
                SelectorStep::Refuse(e)
            },
        },
    }
}

/// The base64 symbol for the six-bit value `v`: `A`-`Z`, `a`-`z`, `0`-`9`,
/// `+`, `/`.
pub open spec fn base64_symbol(v: int) -> char {
    if v < 26 {
        (65 + v) as char
    } else if v < 52 {
        (97 + (v - 26)) as char
    } else if v < 62 {
        (48 + (v - 52)) as char
    } else if v == 62 {
        '+'
    } else {
        '/'
    }
}

/// Standard base64 with `=` padding (RFC 4648, section 4) of `b`: each
/// three bytes become four symbols, a last one or two bytes two or three
/// symbols and padding.
pub open spec fn base64_standard(b: Seq<u8>) -> Seq<char>
    decreases b.len(),
{
    if b.len() == 0 {
        seq![]
    } else {
        let x = b[0] as int;
        if b.len() == 1 {
            seq![base64_symbol(x / 4), base64_symbol((x % 4) * 16), '=', '=']
        } else {
            let y = b[1] as int;
            if b.len() == 2 {
                seq![
                    base64_symbol(x / 4),
                    base64_symbol((x % 4) * 16 + y / 16),
                    base64_symbol((y % 16) * 4),
                    '=',
                ]
            } else {
                let z = b[2] as int;
                seq![
                    base64_symbol(x / 4),
                    base64_symbol((x % 4) * 16 + y / 16),
                    base64_symbol((y % 16) * 4 + z / 64),
                    base64_symbol(z % 64),
                ] + base64_standard(b.skip(3))
            }
        }
    }
}

/// The length of the padded base64 text of `n` bytes.
pub open spec fn base64_len(n: nat) -> nat {
    (n / 3) * 4 + if n % 3 > 0 {
        4nat
    } else {
        0nat
    }
}

/// `base64::engine::general_purpose::STANDARD.encode`: standard-alphabet
/// base64 with padding; it panics where the encoded length does not fit
/// in `usize`.
#[verifier::external_body]
fn base64_encode(data: &[u8]) -> (r: String)
    requires
        base64_len(data@.len()) <= usize::MAX,
    ensures
        r@ == base64_standard(data@),
{
    base64::engine::general_purpose::STANDARD.encode(data)
}

/// A captured PNG image as the base64 text that is handed on.
pub fn screenshot_base64(png: &[u8]) -> (r: String)
    requires
        base64_len(png@.len()) <= usize::MAX,
    ensures
        r@ == base64_standard(png@),
{
    base64_encode(png)
}

/// What `html2md::parse_html` makes of the page source `html`.
pub uninterp spec fn html_markdown(html: Seq<char>) -> Seq<char>;

/// `html2md::parse_html`: the Markdown rendering of `html`, which depends
/// on `html` alone; what that rendering is, rule by rule, is left to the
/// name `html_markdown`.
#[verifier::external_body]
fn parse_html(html: &str) -> (r: String)
    ensures
        r@ == html_markdown(html@),
{
    html2md::parse_html(html)
}

/// The page source `html` as Markdown.
pub fn page_markdown(html: &str) -> (r: String)
    ensures
        r@ == html_markdown(html@),
{
    parse_html(html)
}

} // verus!
