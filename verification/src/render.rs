//! URL normalization and the text rendering of an accessibility tree that
//! is handed to an AI agent.

use vstd::prelude::*;
use vstd::string::*;
use crate::dom::{
    AriaChecked, AriaChild, AriaNode, ChildModel, NodeModel, TriState, children_model, child_model,
    lemma_children_model, lemma_nodes_in_concat, lemma_nodes_in_push, nodes, nodes_in,
};
use crate::text::{
    append_str, decimal, has_prefix, is_space, push_char, str_eq, trim, trim_end, trim_start,
    trim_str, u64_decimal, usize_decimal,
};

verus! {

broadcast use vstd::string::group_string_axioms;

// ── URL normalization ──

/// Whether the URL already names a scheme that is used as it stands.
pub open spec fn has_known_scheme(t: Seq<char>) -> bool {
    ||| "http://"@.is_prefix_of(t)
    ||| "https://"@.is_prefix_of(t)
    ||| "about:"@.is_prefix_of(t)
    ||| "data:"@.is_prefix_of(t)
    ||| "file:"@.is_prefix_of(t)
}

/// The URL `u` trimmed, with `https://` put before it unless it is empty
/// or already starts with `http://`, `https://`, `about:`, `data:` or
/// `file:`.
pub open spec fn normalized_url(u: Seq<char>) -> Seq<char> {
    let t = trim(u);
    if t.len() == 0 || has_known_scheme(t) {
        t
    } else {
        "https://"@ + t
    }
}

/// Normalize a URL: add an https:// prefix if it has no scheme.
pub fn normalize_url(url: &str) -> (r: String)
    ensures
        r@ == normalized_url(url@),
{
    let t = trim_str(url);
    let ts = t.as_str();
    if ts.is_empty() {
        return t;
    }
    if has_prefix(ts, "http://") || has_prefix(ts, "https://") {
        return t;
    }
    if has_prefix(ts, "about:") || has_prefix(ts, "data:") || has_prefix(ts, "file:") {
        return t;
    }
    let mut r = String::from_str("https://");
    r.append(ts);
    r
}

// ── ARIA tree rendering ──

/// Rendering mode for the ARIA tree snapshot.
#[derive(Debug, Clone, Copy, PartialEq, Eq)]
pub enum RenderMode {
    /// Optimized for AI consumption: compact, includes indices, hides
    /// empty non-interactive nodes.
    Ai,
}

/// Two spaces per level of depth.
pub open spec fn indent(depth: nat) -> Seq<char>
    decreases depth,
{
    if depth == 0 {
        seq![]
    } else {
        indent((depth - 1) as nat) + "  "@
    }
}

/// Whether a node is left out of the AI rendering: it is no container,
/// not interactive, nameless, childless and no textbox.
pub open spec fn skipped(m: NodeModel) -> bool {
    &&& !(m.role == "fragment"@ || m.role == "iframe"@)
    &&& !(m.index is Some && m.visible)
    &&& m.name.len() == 0
    &&& m.children.len() == 0
    &&& m.role != "textbox"@
}

pub open spec fn index_part(m: NodeModel) -> Seq<char> {
    match m.index {
        Some(i) => " ["@ + decimal(i as nat) + "]"@,
        None => seq![],
    }
}

pub open spec fn name_part(m: NodeModel) -> Seq<char> {
    if m.name.len() > 0 {
        " \""@ + m.name + "\""@
    } else {
        seq![]
    }
}

pub open spec fn state_part(m: NodeModel) -> Seq<char> {
    (if m.active == Some(true) {
        " [active]"@
    } else {
        seq![]
    }) + (if m.disabled == Some(true) {
        " [disabled]"@
    } else {
        seq![]
    }) + (match m.checked {
        Some(TriState::Bool(true)) => " [checked]"@,
        Some(TriState::Bool(false)) => " [unchecked]"@,
        Some(TriState::Mixed(_)) => " [mixed]"@,
        None => seq![],
    }) + (match m.level {
        Some(l) => " [level="@ + decimal(l as nat) + "]"@,
        None => seq![],
    }) + (if m.cursor == Some("pointer"@) {
        " [pointer]"@
    } else {
        seq![]
    })
}

pub open spec fn props_part(m: NodeModel) -> Seq<char> {
    (if m.props.contains_key("url"@) {
        " -> "@ + m.props["url"@]
    } else {
        seq![]
    }) + (if m.props.contains_key("placeholder"@) {
        " placeholder=\""@ + m.props["placeholder"@] + "\""@
    } else {
        seq![]
    })
}

/// The line that describes a node.
pub open spec fn node_line(m: NodeModel, depth: nat) -> Seq<char> {
    indent(depth) + "- "@ + m.role + index_part(m) + name_part(m) + state_part(m) + props_part(m)
        + "\n"@
}

/// The AI rendering of the subtree rooted at `m`, at depth `depth`.
pub open spec fn render_ai(m: NodeModel, depth: nat) -> Seq<char>
    decreases m, 1nat,
{
    if skipped(m) {
        seq![]
    } else {
        node_line(m, depth) + render_children(m.children, depth)
    }
}

/// The rendering of the children of a node at depth `depth`: each text
/// child that is not blank, trimmed, on a line of its own, node children
/// one level deeper.
pub open spec fn render_children(cs: Seq<ChildModel>, depth: nat) -> Seq<char>
    decreases cs, 0nat,
{
    if cs.len() == 0 {
        seq![]
    } else {
        render_children(cs.drop_last(), depth) + match cs.last() {
            ChildModel::Text(t) => text_line(t, depth),
            ChildModel::Node(c) => render_ai(c, depth + 1),
        }
    }
}

/// The line for a text child: its trimmed text, where that is not empty.
pub open spec fn text_line(t: Seq<char>, depth: nat) -> Seq<char> {
    if trim(t).len() > 0 {
        indent(depth) + "  text: "@ + trim(t) + "\n"@
    } else {
        seq![]
    }
}

/// The snapshot text of a tree: `render_ai` from depth 0, unless the depth
/// limit is below 0, which no limit is.
pub open spec fn rendered_tree(root: NodeModel, max_depth: Option<usize>) -> Seq<char> {
    if max_depth matches Some(max) && 0 > max {
        seq![]
    } else {
        render_ai(root, 0)
    }
}

fn push_indent(buf: &mut String, depth: usize)
    ensures
        final(buf)@ == old(buf)@ + indent(depth as nat),
{
    let ghost start = buf@;
    let mut i: usize = 0;
    while i < depth
        invariant
            i <= depth,
            buf@ == start + indent(i as nat),
        decreases depth - i,
    {
        append_str(buf, "  ");
        i = i + 1;
        assert(indent(i as nat) == indent((i - 1) as nat) + "  "@);
    }
}

proof fn lemma_child_size(cs: Seq<ChildModel>, k: int)
    requires
        0 <= k < cs.len(),
        cs[k] is Node,
    ensures
        nodes(cs[k]->Node_0).len() <= nodes_in(cs).len(),
{
    assert(cs.take(k + 1) == cs.take(k).push(cs[k]));
    lemma_nodes_in_push(cs.take(k), cs[k]);
    lemma_nodes_in_concat(cs.take(k + 1), cs.skip(k + 1));
    assert(cs.take(k + 1) + cs.skip(k + 1) == cs);
}

fn index_part_of(node: &AriaNode) -> (r: String)
    ensures
        r@ == index_part(node@),
{
    let mut buf = String::new();
    if let Some(idx) = node.index {
        append_str(&mut buf, " [");
        let d = usize_decimal(idx);
        append_str(&mut buf, d.as_str());
        append_str(&mut buf, "]");
    }
    buf
}

fn name_part_of(node: &AriaNode) -> (r: String)
    ensures
        r@ == name_part(node@),
{
    let mut buf = String::new();
    if !node.name.as_str().is_empty() {
        append_str(&mut buf, " \"");
        append_str(&mut buf, node.name.as_str());
        append_str(&mut buf, "\"");
    }
    buf
}

fn state_part_of(node: &AriaNode) -> (r: String)
    ensures
        r@ == state_part(node@),
{
    let ghost m = node@;
    let mut buf = String::new();
    if node.active == Some(true) {
        append_str(&mut buf, " [active]");
    }
    if node.disabled == Some(true) {
        append_str(&mut buf, " [disabled]");
    }
    let ghost b1 = buf@;
    match &node.checked {
        Some(AriaChecked::Bool(true)) => append_str(&mut buf, " [checked]"),
        Some(AriaChecked::Bool(false)) => append_str(&mut buf, " [unchecked]"),
        Some(AriaChecked::Mixed(_)) => append_str(&mut buf, " [mixed]"),
        None => {},
    }
    let ghost b2 = buf@;
    if let Some(level) = node.level {
        append_str(&mut buf, " [level=");
        let d = u64_decimal(level as u64);
        append_str(&mut buf, d.as_str());
        append_str(&mut buf, "]");
    }
    let ghost b3 = buf@;
    if node.has_pointer_cursor() {
        append_str(&mut buf, " [pointer]");
    }
    assert(buf@ == b3 + (if m.cursor == Some("pointer"@) {
        " [pointer]"@
    } else {
        seq![]
    }));
    buf
}

fn props_part_of(node: &AriaNode) -> (r: String)
    ensures
        r@ == props_part(node@),
{
    let mut buf = String::new();
    if let Some(url) = node.props.get("url") {
        append_str(&mut buf, " -> ");
        append_str(&mut buf, url.as_str());
    }
    let ghost b1 = buf@;
    if let Some(placeholder) = node.props.get("placeholder") {
        append_str(&mut buf, " placeholder=\"");
        append_str(&mut buf, placeholder.as_str());
        append_str(&mut buf, "\"");
    }
    buf
}

fn push_node_line(node: &AriaNode, buf: &mut String, depth: usize)
    ensures
        final(buf)@ == old(buf)@ + node_line(node@, depth as nat),
{
    let ghost start = buf@;
    push_indent(buf, depth);
    append_str(buf, "- ");
    append_str(buf, node.role.as_str());
    let p1 = index_part_of(node);
    append_str(buf, p1.as_str());
    let p2 = name_part_of(node);
    append_str(buf, p2.as_str());
    let p3 = state_part_of(node);
    append_str(buf, p3.as_str());
    let p4 = props_part_of(node);
    append_str(buf, p4.as_str());
    append_str(buf, "\n");
}

fn push_text_line(text: &str, buf: &mut String, depth: usize)
    ensures
        final(buf)@ == old(buf)@ + text_line(text@, depth as nat),
{
    let trimmed = trim_str(text);
    if !trimmed.as_str().is_empty() {
        push_indent(buf, depth);
        append_str(buf, "  text: ");
        append_str(buf, trimmed.as_str());
        append_str(buf, "\n");
    }
}

fn render_node_ai(node: &AriaNode, buf: &mut String, depth: usize, max_depth: Option<usize>)
    requires
        depth + nodes(node@).len() <= usize::MAX,
    ensures
        final(buf)@ == old(buf)@ + render_ai(node@, depth as nat),
    decreases *node,
{
    let ghost m = node@;
    proof {
        lemma_children_model(node.children@);
    }
    if !node.is_container() && !node.is_interactive() && node.name.as_str().is_empty()
        && node.children.len() == 0 && !str_eq(node.role.as_str(), "textbox") {
        return;
    }
    push_node_line(node, buf, depth);
    let ghost after_line = buf@;
    let mut i: usize = 0;
    while i < node.children.len()
        invariant
            i <= node.children@.len(),
            m == node@,
            m.children == children_model(node.children@),
            m.children.len() == node.children@.len(),
            depth + nodes(m).len() <= usize::MAX,
            nodes(m) == seq![m] + nodes_in(m.children),
            buf@ == after_line + render_children(m.children.take(i as int), depth as nat),
        decreases node.children.len() - i,
    {
        proof {
            lemma_children_model(node.children@);
            let cs = m.children;
            assert(cs.take(i + 1).drop_last() == cs.take(i as int));
            assert(cs.take(i + 1).last() == cs[i as int]);
        }
        match &node.children[i] {
            AriaChild::Text(text) => {
                push_text_line(text.as_str(), buf, depth);
            },
            AriaChild::Node(child) => {
                proof {
                    lemma_child_size(m.children, i as int);
                }
                render_node_ai(child, buf, depth + 1, max_depth);
            },
        }
        i = i + 1;
    }
    assert(m.children.take(i as int) == m.children);
}

fn render_node(
    node: &AriaNode,
    buf: &mut String,
    depth: usize,
    mode: &RenderMode,
    max_depth: Option<usize>,
)
    requires
        depth + nodes(node@).len() <= usize::MAX,
    ensures
        final(buf)@ == old(buf)@ + (if max_depth matches Some(max) && depth > max {
            seq![]
        } else {
            render_ai(node@, depth as nat)
        }),
{
    if let Some(max) = max_depth {
        if depth > max {
            return;
        }
    }
    match mode {
        RenderMode::Ai => render_node_ai(node, buf, depth, max_depth),
    }
}

/// Render an ARIA tree as a compact text snapshot for AI consumption.
///
/// Format example:
/// ```text
/// - generic [0] [active]
///   - heading [1] "Page Title" [level=1]
///     text: Page Title
///   - button [2] "Submit"
///   - textbox [3] "Search"
/// ```
pub fn render_aria_tree(root: &AriaNode, mode: RenderMode, max_depth: Option<usize>) -> (r: String)
    requires
        nodes(root@).len() <= usize::MAX,
    ensures
        r@ == rendered_tree(root@, max_depth),
{
    let mut buf = String::new();
    render_node(root, &mut buf, 0, &mode, max_depth);
    buf
}

} // verus!

verus! {

proof fn lemma_trim_end_prefix(s: Seq<char>)
    ensures
        trim_end(s).len() <= s.len(),
        trim_end(s) == s.take(trim_end(s).len() as int),
        trim_end(s).len() > 0 ==> !is_space(trim_end(s).last()),
    decreases s.len(),
{
    if s.len() > 0 && is_space(s.last()) {
        lemma_trim_end_prefix(s.drop_last());
        assert(s.drop_last().take(trim_end(s).len() as int) == s.take(trim_end(s).len() as int));
    } else {
        assert(s.take(s.len() as int) == s);
    }
}

proof fn lemma_trim_start_first(s: Seq<char>)
    ensures
        trim_start(s).len() > 0 ==> !is_space(trim_start(s)[0]),
    decreases s.len(),
{
    if s.len() > 0 && is_space(s[0]) {
        lemma_trim_start_first(s.drop_first());
    }
}

/// A trimmed string starts and ends with a character other than white
/// space.
pub proof fn lemma_trim_ends(s: Seq<char>)
    ensures
        trim(s).len() > 0 ==> !is_space(trim(s)[0]) && !is_space(trim(s).last()),
{
    lemma_trim_start_first(s);
    lemma_trim_end_prefix(trim_start(s));
}

/// A string that starts and ends with other than white space is its own
/// trim.
pub proof fn lemma_trim_fixed(s: Seq<char>)
    requires
        s.len() > 0 ==> !is_space(s[0]) && !is_space(s.last()),
    ensures
        trim(s) == s,
{
}

/// Trimming twice is trimming once.
pub proof fn lemma_trim_idempotent(s: Seq<char>)
    ensures
        trim(trim(s)) == trim(s),
{
    lemma_trim_ends(s);
    lemma_trim_fixed(trim(s));
}

/// Normalizing a normalized URL changes nothing.
pub proof fn lemma_normalize_url_idempotent(u: Seq<char>)
    ensures
        normalized_url(normalized_url(u)) == normalized_url(u),
{
    let t = trim(u);
    lemma_trim_idempotent(u);
    if !(t.len() == 0 || has_known_scheme(t)) {
        reveal_strlit("https://");
        let n = "https://"@ + t;
        lemma_trim_ends(u);
        assert(n[0] == 'h');
        assert(n.last() == t.last());
        lemma_trim_fixed(n);
        assert(n.subrange(0, 8) == "https://"@);
        assert("https://"@.is_prefix_of(n));
    }
}

/// A normalized URL is empty or starts with one of the schemes used as
/// they stand.
pub proof fn lemma_normalize_url_scheme(u: Seq<char>)
    ensures
        normalized_url(u).len() == 0 || has_known_scheme(normalized_url(u)),
{
    let t = trim(u);
    if !(t.len() == 0 || has_known_scheme(t)) {
        reveal_strlit("https://");
        let n = "https://"@ + t;
        assert(n.subrange(0, 8) == "https://"@);
    }
}

/// How a node that is shown renders: its line, then each child in order,
/// a non-blank text child as a `text:` line of its trimmed text under the
/// node and a node child one level deeper; nothing else is added.
pub proof fn lemma_render_node_law(m: NodeModel, depth: nat)
    ensures
        !skipped(m) ==> render_ai(m, depth) == node_line(m, depth) + render_children(
            m.children,
            depth,
        ),
        skipped(m) ==> render_ai(m, depth) == Seq::<char>::empty(),
        render_children(Seq::<ChildModel>::empty(), depth) == Seq::<char>::empty(),
        forall|k: int|
            0 <= k < m.children.len() ==> #[trigger] render_children(m.children.take(k + 1), depth)
                == render_children(m.children.take(k), depth) + match m.children[k] {
                ChildModel::Text(t) => if trim(t).len() > 0 {
                    indent(depth) + "  text: "@ + trim(t) + "\n"@
                } else {
                    Seq::<char>::empty()
                },
                ChildModel::Node(c) => render_ai(c, depth + 1),
            },
{
    assert forall|k: int| 0 <= k < m.children.len() implies #[trigger] render_children(
        m.children.take(k + 1),
        depth,
    ) == render_children(m.children.take(k), depth) + match m.children[k] {
        ChildModel::Text(t) => if trim(t).len() > 0 {
            indent(depth) + "  text: "@ + trim(t) + "\n"@
        } else {
            Seq::<char>::empty()
        },
        ChildModel::Node(c) => render_ai(c, depth + 1),
    } by {
        assert(m.children.take(k + 1).drop_last() == m.children.take(k));
        assert(m.children.take(k + 1).last() == m.children[k]);
    }
}

/// The depth limit of `render_aria_tree` never shortens the snapshot: the
/// root is rendered at depth 0 and the limit is only compared there.
pub proof fn lemma_render_ignores_depth_limit(root: NodeModel, max_depth: Option<usize>)
    ensures
        rendered_tree(root, max_depth) == render_ai(root, 0),
{
}

} // verus!
