//! The ARIA accessibility tree of a page and its indexed snapshot.

use vstd::prelude::*;
use crate::props::Props;
use crate::text::{append_str, push_char, str_eq, trim, trim_str};
use crate::props::{lemma_pairs_map_at, lemma_pairs_map_dom, pairs_map};

verus! {

broadcast use vstd::string::group_string_axioms;

// ── Executable tree ──

/// ARIA checked state (true, false, or mixed).
#[derive(Debug, Clone, PartialEq)]
pub enum AriaChecked {
    Bool(bool),
    Mixed(String),
}

/// ARIA pressed state (true, false, or mixed).
#[derive(Debug, Clone, PartialEq)]
pub enum AriaPressed {
    Bool(bool),
    Mixed(String),
}

/// Box/visibility information for an element.
#[derive(Debug, Clone, PartialEq)]
pub struct BoxInfo {
    /// Whether the element is visible (non-zero bounding box).
    pub visible: bool,
    /// CSS cursor value (e.g., "pointer", "default").
    pub cursor: Option<String>,
}

impl Default for BoxInfo {
    /// Not visible, no cursor.
    fn default() -> (r: BoxInfo)
        ensures
            !r.visible,
            r.cursor is None,
    {
        BoxInfo { visible: false, cursor: None }
    }
}

/// Child of an `AriaNode`: either another node or a text string.
#[derive(Debug, PartialEq)]
pub enum AriaChild {
    Text(String),
    Node(Box<AriaNode>),
}

/// A node of the accessibility tree.
#[derive(Debug, PartialEq)]
pub struct AriaNode {
    /// ARIA role (e.g., "button", "link", "textbox", "generic", "iframe", "fragment").
    pub role: String,
    /// Accessible name of the element.
    pub name: String,
    /// Index of the element in the interactive elements array.
    pub index: Option<usize>,
    /// Child nodes (nodes or text strings).
    pub children: Vec<AriaChild>,
    /// ARIA properties specific to this element (e.g., url, placeholder).
    pub props: Props,
    /// Box information (visibility, cursor).
    pub box_info: BoxInfo,
    /// Whether element is checked (for checkboxes, radios, etc.).
    pub checked: Option<AriaChecked>,
    /// Whether element is disabled.
    pub disabled: Option<bool>,
    /// Whether element is expanded (for expandable elements).
    pub expanded: Option<bool>,
    /// Heading/list level.
    pub level: Option<u32>,
    /// Whether button is pressed.
    pub pressed: Option<AriaPressed>,
    /// Whether element is selected.
    pub selected: Option<bool>,
    /// Whether element is currently active/focused.
    pub active: Option<bool>,
}

/// Former name of [`AriaNode`].
pub type ElementNode = AriaNode;

// ── Mathematical model ──

/// A checked or pressed state: a boolean or "mixed".
pub enum TriState {
    Bool(bool),
    Mixed(Seq<char>),
}

/// Model of a child: text or a node.
pub enum ChildModel {
    Text(Seq<char>),
    Node(NodeModel),
}

/// Model of a node: its strings as character sequences, its properties as
/// a map and its children as a sequence.
pub struct NodeModel {
    pub role: Seq<char>,
    pub name: Seq<char>,
    pub index: Option<usize>,
    pub children: Seq<ChildModel>,
    pub props: Map<Seq<char>, Seq<char>>,
    pub visible: bool,
    pub cursor: Option<Seq<char>>,
    pub checked: Option<TriState>,
    pub disabled: Option<bool>,
    pub expanded: Option<bool>,
    pub level: Option<u32>,
    pub pressed: Option<TriState>,
    pub selected: Option<bool>,
    pub active: Option<bool>,
}

pub open spec fn opt_chars(o: Option<String>) -> Option<Seq<char>> {
    match o {
        Some(s) => Some(s@),
        None => None,
    }
}

pub open spec fn checked_model(c: Option<AriaChecked>) -> Option<TriState> {
    match c {
        Some(AriaChecked::Bool(b)) => Some(TriState::Bool(b)),
        Some(AriaChecked::Mixed(s)) => Some(TriState::Mixed(s@)),
        None => None,
    }
}

pub open spec fn pressed_model(c: Option<AriaPressed>) -> Option<TriState> {
    match c {
        Some(AriaPressed::Bool(b)) => Some(TriState::Bool(b)),
        Some(AriaPressed::Mixed(s)) => Some(TriState::Mixed(s@)),
        None => None,
    }
}

/// The model of a node.
pub open spec fn node_model(n: AriaNode) -> NodeModel
    decreases n, 1nat,
{
    NodeModel {
        role: n.role@,
        name: n.name@,
        index: n.index,
        children: children_model(n.children@),
        props: n.props@,
        visible: n.box_info.visible,
        cursor: opt_chars(n.box_info.cursor),
        checked: checked_model(n.checked),
        disabled: n.disabled,
        expanded: n.expanded,
        level: n.level,
        pressed: pressed_model(n.pressed),
        selected: n.selected,
        active: n.active,
    }
}

/// The models of a list of children.
pub open spec fn children_model(cs: Seq<AriaChild>) -> Seq<ChildModel>
    decreases cs, 0nat,
{
    if cs.len() == 0 {
        seq![]
    } else {
        children_model(cs.drop_last()).push(
            match cs.last() {
                AriaChild::Text(t) => ChildModel::Text(t@),
                AriaChild::Node(b) => ChildModel::Node(node_model(*b)),
            },
        )
    }
}

/// The model of a child.
pub open spec fn child_model(c: AriaChild) -> ChildModel {
    match c {
        AriaChild::Text(t) => ChildModel::Text(t@),
        AriaChild::Node(b) => ChildModel::Node(node_model(*b)),
    }
}

impl View for AriaNode {
    type V = NodeModel;

    open spec fn view(&self) -> NodeModel {
        node_model(*self)
    }
}

fn copy_string(s: &String) -> (r: String)
    ensures
        r@ == s@,
{
    String::from_str(s.as_str())
}

fn copy_opt_string(o: &Option<String>) -> (r: Option<String>)
    ensures
        opt_chars(r) == opt_chars(*o),
{
    match o {
        Some(s) => Some(copy_string(s)),
        None => None,
    }
}

fn copy_checked(c: &Option<AriaChecked>) -> (r: Option<AriaChecked>)
    ensures
        checked_model(r) == checked_model(*c),
{
    match c {
        Some(AriaChecked::Bool(b)) => Some(AriaChecked::Bool(*b)),
        Some(AriaChecked::Mixed(s)) => Some(AriaChecked::Mixed(copy_string(s))),
        None => None,
    }
}

fn copy_pressed(c: &Option<AriaPressed>) -> (r: Option<AriaPressed>)
    ensures
        pressed_model(r) == pressed_model(*c),
{
    match c {
        Some(AriaPressed::Bool(b)) => Some(AriaPressed::Bool(*b)),
        Some(AriaPressed::Mixed(s)) => Some(AriaPressed::Mixed(copy_string(s))),
        None => None,
    }
}

impl AriaChild {
    /// A copy of this child, node children copied whole.
    pub fn deep_copy(&self) -> (r: AriaChild)
        ensures
            child_model(r) == child_model(*self),
        decreases *self, 0nat,
    {
        match self {
            AriaChild::Text(t) => AriaChild::Text(copy_string(t)),
            AriaChild::Node(n) => AriaChild::Node(Box::new((**n).deep_copy())),
        }
    }
}

impl AriaNode {
    /// A copy of the whole subtree.
    pub fn deep_copy(&self) -> (r: AriaNode)
        ensures
            r@ == self@,
        decreases *self, 1nat,
    {
        let mut children: Vec<AriaChild> = Vec::new();
        let mut i: usize = 0;
        proof {
            lemma_children_model(self.children@);
        }
        while i < self.children.len()
            invariant
                i <= self.children@.len(),
                children_model(children@) == children_model(self.children@.take(i as int)),
                forall|j: int| 0 <= j < self.children@.len() ==> children_model(self.children@)[j]
                    == child_model(#[trigger] self.children@[j]),
            decreases self.children.len() - i,
        {
            assert(decreases_to!(*self => self.children));
            assert(decreases_to!(self.children => self.children@[i as int]));
            let c = self.children[i].deep_copy();
            let ghost before = children@;
            children.push(c);
            proof {
                assert(children@.drop_last() == before);
                assert(self.children@.take(i + 1).drop_last() == self.children@.take(i as int));
            }
            i = i + 1;
        }
        assert(self.children@.take(self.children@.len() as int) == self.children@);
        AriaNode {
            role: copy_string(&self.role),
            name: copy_string(&self.name),
            index: self.index,
            children,
            props: self.props.clone(),
            box_info: BoxInfo {
                visible: self.box_info.visible,
                cursor: copy_opt_string(&self.box_info.cursor),
            },
            checked: copy_checked(&self.checked),
            disabled: self.disabled,
            expanded: self.expanded,
            level: self.level,
            pressed: copy_pressed(&self.pressed),
            selected: self.selected,
            active: self.active,
        }
    }
}

impl Clone for AriaChild {
    fn clone(&self) -> (r: AriaChild)
        ensures
            child_model(r) == child_model(*self),
    {
        self.deep_copy()
    }
}

impl Clone for AriaNode {
    fn clone(&self) -> (r: AriaNode)
        ensures
            r@ == self@,
    {
        self.deep_copy()
    }
}

pub proof fn lemma_children_model(cs: Seq<AriaChild>)
    ensures
        children_model(cs).len() == cs.len(),
        forall|i: int| 0 <= i < cs.len() ==> children_model(cs)[i] == child_model(#[trigger] cs[i]),
    decreases cs.len(),
{
    if cs.len() > 0 {
        lemma_children_model(cs.drop_last());
        assert forall|i: int| 0 <= i < cs.len() implies children_model(cs)[i] == child_model(
            #[trigger] cs[i],
        ) by {
            if i < cs.len() - 1 {
                assert(cs.drop_last()[i] == cs[i]);
            }
        }
    }
}

/// The nodes of the subtree rooted at `m`, in preorder.
pub open spec fn nodes(m: NodeModel) -> Seq<NodeModel>
    decreases m, 1nat,
{
    seq![m] + nodes_in(m.children)
}

/// The nodes of the subtrees of the node children in `cs`, in preorder.
pub open spec fn nodes_in(cs: Seq<ChildModel>) -> Seq<NodeModel>
    decreases cs, 0nat,
{
    if cs.len() == 0 {
        seq![]
    } else {
        nodes_in(cs.drop_last()) + match cs.last() {
            ChildModel::Text(_) => Seq::<NodeModel>::empty(),
            ChildModel::Node(c) => nodes(c),
        }
    }
}

/// The nodes that one child contributes.
pub open spec fn child_nodes(c: ChildModel) -> Seq<NodeModel> {
    match c {
        ChildModel::Text(_) => Seq::<NodeModel>::empty(),
        ChildModel::Node(n) => nodes(n),
    }
}

/// The text of the subtree rooted at `m`: each text child followed by a
/// space, in document order.
pub open spec fn text_of(m: NodeModel) -> Seq<char>
    decreases m, 1nat,
{
    texts_in(m.children)
}

pub open spec fn texts_in(cs: Seq<ChildModel>) -> Seq<char>
    decreases cs, 0nat,
{
    if cs.len() == 0 {
        seq![]
    } else {
        texts_in(cs.drop_last()) + match cs.last() {
            ChildModel::Text(t) => t.push(' '),
            ChildModel::Node(c) => text_of(c),
        }
    }
}

pub open spec fn child_text(c: ChildModel) -> Seq<char> {
    match c {
        ChildModel::Text(t) => t.push(' '),
        ChildModel::Node(n) => text_of(n),
    }
}

/// The indices carried by the nodes of `s`, in order.
pub open spec fn indices_in(s: Seq<NodeModel>) -> Seq<usize>
    decreases s.len(),
{
    if s.len() == 0 {
        seq![]
    } else {
        indices_in(s.drop_last()) + match s.last().index {
            Some(i) => seq![i],
            None => Seq::<usize>::empty(),
        }
    }
}

/// The indices carried by the iframe nodes of `s`, in order.
pub open spec fn iframe_indices_in(s: Seq<NodeModel>) -> Seq<usize>
    decreases s.len(),
{
    if s.len() == 0 {
        seq![]
    } else {
        iframe_indices_in(s.drop_last()) + match s.last().index {
            Some(i) => if s.last().role == "iframe"@ {
                seq![i]
            } else {
                Seq::<usize>::empty()
            },
            None => Seq::<usize>::empty(),
        }
    }
}

/// The first node of `s` whose index is `i`.
pub open spec fn first_with_index(s: Seq<NodeModel>, i: usize) -> Option<NodeModel>
    decreases s.len(),
{
    if s.len() == 0 {
        None
    } else if s[0].index == Some(i) {
        Some(s[0])
    } else {
        first_with_index(s.drop_first(), i)
    }
}

// ── Lemmas on the model ──

pub proof fn lemma_nodes_in_concat(a: Seq<ChildModel>, b: Seq<ChildModel>)
    ensures
        nodes_in(a + b) == nodes_in(a) + nodes_in(b),
    decreases b.len(),
{
    if b.len() == 0 {
        assert(a + b == a);
    } else {
        lemma_nodes_in_concat(a, b.drop_last());
        assert((a + b).drop_last() == a + b.drop_last());
    }
}

pub proof fn lemma_nodes_in_push(a: Seq<ChildModel>, c: ChildModel)
    ensures
        nodes_in(a.push(c)) == nodes_in(a) + child_nodes(c),
{
    assert(a.push(c).drop_last() == a);
}

pub proof fn lemma_texts_in_push(a: Seq<ChildModel>, c: ChildModel)
    ensures
        texts_in(a.push(c)) == texts_in(a) + child_text(c),
{
    assert(a.push(c).drop_last() == a);
}

pub proof fn lemma_indices_concat(a: Seq<NodeModel>, b: Seq<NodeModel>)
    ensures
        indices_in(a + b) == indices_in(a) + indices_in(b),
    decreases b.len(),
{
    if b.len() == 0 {
        assert(a + b == a);
    } else {
        lemma_indices_concat(a, b.drop_last());
        assert((a + b).drop_last() == a + b.drop_last());
    }
}

pub proof fn lemma_iframes_concat(a: Seq<NodeModel>, b: Seq<NodeModel>)
    ensures
        iframe_indices_in(a + b) == iframe_indices_in(a) + iframe_indices_in(b),
    decreases b.len(),
{
    if b.len() == 0 {
        assert(a + b == a);
    } else {
        lemma_iframes_concat(a, b.drop_last());
        assert((a + b).drop_last() == a + b.drop_last());
    }
}

pub proof fn lemma_first_concat(a: Seq<NodeModel>, b: Seq<NodeModel>, i: usize)
    ensures
        first_with_index(a + b, i) == (match first_with_index(a, i) {
            Some(m) => Some(m),
            None => first_with_index(b, i),
        }),
    decreases a.len(),
{
    if a.len() == 0 {
        assert(a + b == b);
    } else {
        assert((a + b)[0] == a[0]);
        assert((a + b).drop_first() == a.drop_first() + b);
        lemma_first_concat(a.drop_first(), b, i);
    }
}

/// The indices of the nodes of a subtree are the root's, then those of the
/// children's subtrees.
pub proof fn lemma_indices_of_node(m: NodeModel)
    ensures
        indices_in(nodes(m)) == (match m.index {
            Some(i) => seq![i],
            None => Seq::<usize>::empty(),
        }) + indices_in(nodes_in(m.children)),
        iframe_indices_in(nodes(m)) == (match m.index {
            Some(i) => if m.role == "iframe"@ {
                seq![i]
            } else {
                Seq::<usize>::empty()
            },
            None => Seq::<usize>::empty(),
        }) + iframe_indices_in(nodes_in(m.children)),
{
    lemma_indices_concat(seq![m], nodes_in(m.children));
    lemma_iframes_concat(seq![m], nodes_in(m.children));
    assert(seq![m].drop_last() == Seq::<NodeModel>::empty());
    assert(seq![m].last() == m);
    assert(indices_in(Seq::<NodeModel>::empty()) == Seq::<usize>::empty());
    assert(iframe_indices_in(Seq::<NodeModel>::empty()) == Seq::<usize>::empty());
    assert(indices_in(seq![m]) == indices_in(Seq::<NodeModel>::empty()) + (match m.index {
        Some(i) => seq![i],
        None => Seq::<usize>::empty(),
    }));
}

/// `m` with the first node of its subtree (in preorder) whose index is `i`
/// replaced by `new`; `m` itself where no node has index `i`.
pub open spec fn replace_first(m: NodeModel, i: usize, new: NodeModel) -> NodeModel
    decreases m, 1nat,
{
    if m.index == Some(i) {
        new
    } else {
        NodeModel { children: replace_first_in(m.children, i, new), ..m }
    }
}

pub open spec fn replace_first_in(cs: Seq<ChildModel>, i: usize, new: NodeModel) -> Seq<ChildModel>
    decreases cs, 0nat,
{
    if cs.len() == 0 {
        cs
    } else if first_with_index(nodes_in(cs.drop_last()), i) is Some {
        replace_first_in(cs.drop_last(), i, new).push(cs.last())
    } else {
        match cs.last() {
            ChildModel::Text(_) => cs,
            ChildModel::Node(c) => cs.drop_last().push(ChildModel::Node(replace_first(c, i, new))),
        }
    }
}

/// Whether `a` and `b` are the same accessible element for the purpose of
/// comparing snapshots: same role, name, states, pointer cursor and
/// properties (children, index, visibility and focus aside).
pub open spec fn same_aria(a: NodeModel, b: NodeModel) -> bool {
    &&& a.role == b.role
    &&& a.name == b.name
    &&& a.checked == b.checked
    &&& a.disabled == b.disabled
    &&& a.expanded == b.expanded
    &&& a.level == b.level
    &&& a.pressed == b.pressed
    &&& a.selected == b.selected
    &&& (a.cursor == Some("pointer"@)) == (b.cursor == Some("pointer"@))
    &&& a.props == b.props
}

/// Comparing snapshots element by element is an equivalence: every node
/// equals itself, and the comparison is symmetric and transitive.
pub proof fn lemma_same_aria_equivalence(a: NodeModel, b: NodeModel, c: NodeModel)
    ensures
        same_aria(a, a),
        same_aria(a, b) ==> same_aria(b, a),
        same_aria(a, b) && same_aria(b, c) ==> same_aria(a, c),
{
}

/// The first-match search skips a root that does not carry the index.
pub proof fn lemma_first_of_node(m: NodeModel, i: usize)
    ensures
        first_with_index(nodes(m), i) == (if m.index == Some(i) {
            Some(m)
        } else {
            first_with_index(nodes_in(m.children), i)
        }),
{
    assert(nodes(m)[0] == m);
    assert(nodes(m).drop_first() == nodes_in(m.children));
}

/// Splitting a child list at its first child whose subtree holds index `i`.
pub proof fn lemma_first_split(cs: Seq<ChildModel>, k: int, i: usize)
    requires
        0 <= k < cs.len(),
        first_with_index(nodes_in(cs.take(k)), i) is None,
    ensures
        first_with_index(nodes_in(cs.take(k + 1)), i) == first_with_index(child_nodes(cs[k]), i),
        first_with_index(nodes_in(cs), i) == (match first_with_index(child_nodes(cs[k]), i) {
            Some(m) => Some(m),
            None => first_with_index(nodes_in(cs.skip(k + 1)), i),
        }),
{
    assert(cs.take(k + 1) == cs.take(k).push(cs[k]));
    lemma_nodes_in_push(cs.take(k), cs[k]);
    lemma_first_concat(nodes_in(cs.take(k)), child_nodes(cs[k]), i);
    lemma_nodes_in_concat(cs.take(k + 1), cs.skip(k + 1));
    assert(cs.take(k + 1) + cs.skip(k + 1) == cs);
    lemma_first_concat(nodes_in(cs.take(k + 1)), nodes_in(cs.skip(k + 1)), i);
}

/// Replacing the first match inside the child at `k`, the first child that
/// holds the index.
pub proof fn lemma_replace_at(cs: Seq<ChildModel>, k: int, i: usize, new: NodeModel)
    requires
        0 <= k < cs.len(),
        first_with_index(nodes_in(cs.take(k)), i) is None,
        cs[k] is Node,
        first_with_index(nodes(cs[k]->Node_0), i) is Some,
    ensures
        replace_first_in(cs, i, new) == cs.update(
            k,
            ChildModel::Node(replace_first(cs[k]->Node_0, i, new)),
        ),
    decreases cs.len(),
{
    let pre = cs.drop_last();
    if k == cs.len() - 1 {
        assert(pre == cs.take(k));
        assert(cs.drop_last().push(ChildModel::Node(replace_first(cs[k]->Node_0, i, new)))
            == cs.update(k, ChildModel::Node(replace_first(cs[k]->Node_0, i, new))));
    } else {
        assert(pre.take(k) == cs.take(k));
        assert(pre[k] == cs[k]);
        lemma_first_split(pre, k, i);
        assert(pre.take(k + 1) == cs.take(k + 1));
        lemma_replace_at(pre, k, i, new);
        assert(replace_first_in(pre, i, new).push(cs.last()) == cs.update(
            k,
            ChildModel::Node(replace_first(cs[k]->Node_0, i, new)),
        ));
    }
}

/// A node found by index carries that index.
pub proof fn lemma_first_has_index(s: Seq<NodeModel>, i: usize)
    ensures
        first_with_index(s, i) matches Some(m) ==> m.index == Some(i),
    decreases s.len(),
{
    if s.len() > 0 && s[0].index != Some(i) {
        lemma_first_has_index(s.drop_first(), i);
    }
}

/// Reading back a write: where a node with index `i` exists and is
/// replaced by `new`, itself carrying index `i`, the lookup of `i` finds
/// `new`.
pub proof fn lemma_find_after_replace(m: NodeModel, i: usize, new: NodeModel)
    requires
        first_with_index(nodes(m), i) is Some,
        new.index == Some(i),
    ensures
        first_with_index(nodes(replace_first(m, i, new)), i) == Some(new),
    decreases m, 1nat,
{
    lemma_first_of_node(m, i);
    lemma_first_of_node(new, i);
    if m.index != Some(i) {
        lemma_find_after_replace_in(m.children, i, new);
        lemma_first_of_node(replace_first(m, i, new), i);
    }
}

pub proof fn lemma_find_after_replace_in(cs: Seq<ChildModel>, i: usize, new: NodeModel)
    requires
        first_with_index(nodes_in(cs), i) is Some,
        new.index == Some(i),
    ensures
        first_with_index(nodes_in(replace_first_in(cs, i, new)), i) == Some(new),
    decreases cs, 0nat,
{
    let pre = cs.drop_last();
    lemma_first_concat(nodes_in(pre), child_nodes(cs.last()), i);
    if first_with_index(nodes_in(pre), i) is Some {
        lemma_find_after_replace_in(pre, i, new);
        let r = replace_first_in(pre, i, new);
        lemma_nodes_in_push(r, cs.last());
        lemma_first_concat(nodes_in(r), child_nodes(cs.last()), i);
    } else {
        match cs.last() {
            ChildModel::Text(_) => {},
            ChildModel::Node(c) => {
                lemma_find_after_replace(c, i, new);
                let x = ChildModel::Node(replace_first(c, i, new));
                lemma_nodes_in_push(pre, x);
                lemma_first_concat(nodes_in(pre), child_nodes(x), i);
            },
        }
    }
}

/// Taking a node for update and leaving it as it was changes nothing: the
/// tree with its first node of index `i` replaced by that same node is the
/// tree itself.
pub proof fn lemma_replace_by_found(m: NodeModel, i: usize)
    ensures
        first_with_index(nodes(m), i) matches Some(f) ==> replace_first(m, i, f) == m,
    decreases m, 1nat,
{
    lemma_first_of_node(m, i);
    if m.index != Some(i) {
        lemma_replace_by_found_in(m.children, i);
    }
}

pub proof fn lemma_replace_by_found_in(cs: Seq<ChildModel>, i: usize)
    ensures
        first_with_index(nodes_in(cs), i) matches Some(f) ==> replace_first_in(cs, i, f) == cs,
    decreases cs, 0nat,
{
    if cs.len() > 0 {
        let pre = cs.drop_last();
        lemma_first_concat(nodes_in(pre), child_nodes(cs.last()), i);
        lemma_replace_by_found_in(pre, i);
        assert(pre.push(cs.last()) == cs);
        match cs.last() {
            ChildModel::Text(_) => {},
            ChildModel::Node(c) => {
                lemma_replace_by_found(c, i);
            },
        }
    }
}

pub proof fn lemma_children_model_update(v: Seq<AriaChild>, k: int, x: AriaChild)
    requires
        0 <= k < v.len(),
    ensures
        children_model(v.update(k, x)) == children_model(v).update(k, child_model(x)),
{
    lemma_children_model(v);
    lemma_children_model(v.update(k, x));
    let w = v.update(k, x);
    assert forall|j: int| 0 <= j < v.len() implies children_model(w)[j] == children_model(v).update(
        k,
        child_model(x),
    )[j] by {
        assert(children_model(w)[j] == child_model(w[j]));
        if j != k {
            assert(children_model(v)[j] == child_model(v[j]));
        }
    }
    assert(children_model(w) =~= children_model(v).update(k, child_model(x)));
}

// ── AriaNode operations ──

fn opt_bool_eq(a: Option<bool>, b: Option<bool>) -> (r: bool)
    ensures
        r == (a == b),
{
    match (a, b) {
        (Some(x), Some(y)) => x == y,
        (None, None) => true,
        _ => false,
    }
}

fn opt_u32_eq(a: Option<u32>, b: Option<u32>) -> (r: bool)
    ensures
        r == (a == b),
{
    match (a, b) {
        (Some(x), Some(y)) => x == y,
        (None, None) => true,
        _ => false,
    }
}

fn checked_eq(a: &Option<AriaChecked>, b: &Option<AriaChecked>) -> (r: bool)
    ensures
        r == (checked_model(*a) == checked_model(*b)),
{
    match (a, b) {
        (Some(AriaChecked::Bool(x)), Some(AriaChecked::Bool(y))) => *x == *y,
        (Some(AriaChecked::Mixed(x)), Some(AriaChecked::Mixed(y))) => str_eq(x.as_str(), y.as_str()),
        (None, None) => true,
        _ => false,
    }
}

fn pressed_eq(a: &Option<AriaPressed>, b: &Option<AriaPressed>) -> (r: bool)
    ensures
        r == (pressed_model(*a) == pressed_model(*b)),
{
    match (a, b) {
        (Some(AriaPressed::Bool(x)), Some(AriaPressed::Bool(y))) => *x == *y,
        (Some(AriaPressed::Mixed(x)), Some(AriaPressed::Mixed(y))) => str_eq(x.as_str(), y.as_str()),
        (None, None) => true,
        _ => false,
    }
}

/// A node with the given role and name and nothing else.
pub open spec fn blank(role: Seq<char>, name: Seq<char>) -> NodeModel {
    NodeModel {
        role,
        name,
        index: None,
        children: seq![],
        props: Map::empty(),
        visible: false,
        cursor: None,
        checked: None,
        disabled: None,
        expanded: None,
        level: None,
        pressed: None,
        selected: None,
        active: None,
    }
}

impl AriaNode {
    /// A node with the given role and name, no children, no properties,
    /// invisible, and no state.
    pub fn new(role: &str, name: &str) -> (r: AriaNode)
        ensures
            r@ == blank(role@, name@),
    {
        AriaNode {
            role: String::from_str(role),
            name: String::from_str(name),
            index: None,
            children: Vec::new(),
            props: Props::new(),
            box_info: BoxInfo { visible: false, cursor: None },
            checked: None,
            disabled: None,
            expanded: None,
            level: None,
            pressed: None,
            selected: None,
            active: None,
        }
    }

    /// The position of the first child whose subtree holds a node with
    /// index `index`.
    fn child_holding(&self, index: usize) -> (r: Option<usize>)
        ensures
            match r {
                Some(k) => {
                    &&& k < self.children@.len()
                    &&& first_with_index(nodes_in(self@.children.take(k as int)), index) is None
                    &&& self@.children[k as int] is Node
                    &&& first_with_index(nodes(self@.children[k as int]->Node_0), index) is Some
                },
                None => first_with_index(nodes_in(self@.children), index) is None,
            },
    {
        proof {
            lemma_children_model(self.children@);
        }
        let mut k: usize = 0;
        while k < self.children.len()
            invariant
                k <= self.children@.len(),
                self@.children == children_model(self.children@),
                self@.children.len() == self.children@.len(),
                first_with_index(nodes_in(self@.children.take(k as int)), index) is None,
            decreases self.children.len() - k,
        {
            proof {
                lemma_children_model(self.children@);
                lemma_first_split(self@.children, k as int, index);
            }
            match &self.children[k] {
                AriaChild::Text(_) => {},
                AriaChild::Node(b) => {
                    if b.find_by_index(index).is_some() {
                        return Some(k);
                    }
                },
            }
            k = k + 1;
        }
        assert(self@.children.take(k as int) == self@.children);
        None
    }

    /// The first node of this subtree, in preorder, whose index is `index`.
    pub fn find_by_index(&self, index: usize) -> (r: Option<&AriaNode>)
        ensures
            first_with_index(nodes(self@), index) == (match r {
                Some(m) => Some(m@),
                None => None,
            }),
        decreases *self,
    {
        proof {
            lemma_first_of_node(self@, index);
            lemma_children_model(self.children@);
        }
        if let Some(i) = self.index {
            if i == index {
                return Some(self);
            }
        }
        let mut k: usize = 0;
        while k < self.children.len()
            invariant
                k <= self.children@.len(),
                self@.children == children_model(self.children@),
                self@.children.len() == self.children@.len(),
                first_with_index(nodes_in(self@.children.take(k as int)), index) is None,
                first_with_index(nodes(self@), index) == first_with_index(
                    nodes_in(self@.children),
                    index,
                ),
            decreases self.children.len() - k,
        {
            proof {
                lemma_children_model(self.children@);
                lemma_first_split(self@.children, k as int, index);
            }
            match &self.children[k] {
                AriaChild::Text(_) => {},
                AriaChild::Node(b) => {
                    if let Some(found) = b.find_by_index(index) {
                        return Some(found);
                    }
                },
            }
            k = k + 1;
        }
        assert(self@.children.take(k as int) == self@.children);
        None
    }

    /// The first node of this subtree, in preorder, whose index is
    /// `index`, for update; the tree afterwards is this one with that node
    /// replaced by its final value.
    pub fn find_by_index_mut(&mut self, index: usize) -> (r: Option<&mut AriaNode>)
        ensures
            first_with_index(nodes(old(self)@), index) == (match r {
                Some(m) => Some((*m)@),
                None => None,
            }),
            match r {
                Some(m) => final(self)@ == replace_first(old(self)@, index, (*final(m))@),
                None => final(self)@ == old(self)@,
            },
        decreases *old(self),
    {
        proof {
            lemma_first_of_node(self@, index);
            lemma_children_model(self.children@);
        }
        if let Some(i) = self.index {
            if i == index {
                return Some(self);
            }
        }
        match self.child_holding(index) {
            None => None,
            Some(k) => {
                proof {
                    lemma_first_split(self@.children, k as int, index);
                }
                let ghost old_children = old(self).children@;
                let ghost c = old(self)@.children[k as int]->Node_0;
                proof {
                    assert forall|x: AriaChild|
                        #![trigger old_children.update(k as int, x)]
                        x is Node implies (forall|new: NodeModel|
                            #![trigger replace_first(c, index, new)]
                            node_model(*x->Node_0) == replace_first(c, index, new) ==> children_model(
                                old_children.update(k as int, x),
                            ) == replace_first_in(old(self)@.children, index, new)) by {
                        assert forall|new: NodeModel|
                            #![trigger replace_first(c, index, new)]
                            node_model(*x->Node_0) == replace_first(c, index, new) implies children_model(
                                old_children.update(k as int, x),
                            ) == replace_first_in(old(self)@.children, index, new) by {
                            lemma_replace_at(old(self)@.children, k as int, index, new);
                            lemma_children_model_update(old_children, k as int, x);
                        }
                    }
                }
                assert(c == node_model(*self.children@[k as int]->Node_0));
                match &mut self.children[k] {
                    AriaChild::Text(_) => None,
                    AriaChild::Node(b) => b.find_by_index_mut(index),
                }
            },
        }
    }

    /// An empty fragment: the usual root of a page snapshot.
    pub fn fragment() -> (r: AriaNode)
        ensures
            r@ == blank("fragment"@, ""@),
    {
        AriaNode::new("fragment", "")
    }

    /// This node with index `index`.
    pub fn with_index(self, index: usize) -> (r: AriaNode)
        ensures
            r@ == (NodeModel { index: Some(index), ..self@ }),
    {
        let mut n = self;
        n.index = Some(index);
        n
    }

    /// This node with `child` added after its children.
    pub fn with_child(self, child: AriaChild) -> (r: AriaNode)
        ensures
            r@ == (NodeModel { children: self@.children.push(child_model(child)), ..self@ }),
    {
        let mut n = self;
        let ghost before = n.children@;
        n.children.push(child);
        proof {
            assert(n.children@.drop_last() == before);
            lemma_children_model(before);
        }
        n
    }

    /// This node with `children` in place of its children.
    pub fn with_children(self, children: Vec<AriaChild>) -> (r: AriaNode)
        ensures
            r@ == (NodeModel { children: children_model(children@), ..self@ }),
    {
        let mut n = self;
        n.children = children;
        n
    }

    /// This node with property `key` set to `value`.
    pub fn with_prop(self, key: &str, value: &str) -> (r: AriaNode)
        ensures
            r@ == (NodeModel { props: self@.props.insert(key@, value@), ..self@ }),
    {
        let mut n = self;
        n.props.insert(String::from_str(key), String::from_str(value));
        n
    }

    /// This node with the given visibility and cursor.
    pub fn with_box(self, visible: bool, cursor: Option<String>) -> (r: AriaNode)
        ensures
            r@ == (NodeModel { visible, cursor: opt_chars(cursor), ..self@ }),
    {
        let mut n = self;
        n.box_info = BoxInfo { visible, cursor };
        n
    }

    /// This node checked (or unchecked).
    pub fn with_checked(self, checked: bool) -> (r: AriaNode)
        ensures
            r@ == (NodeModel { checked: Some(TriState::Bool(checked)), ..self@ }),
    {
        let mut n = self;
        n.checked = Some(AriaChecked::Bool(checked));
        n
    }

    /// This node disabled (or enabled).
    pub fn with_disabled(self, disabled: bool) -> (r: AriaNode)
        ensures
            r@ == (NodeModel { disabled: Some(disabled), ..self@ }),
    {
        let mut n = self;
        n.disabled = Some(disabled);
        n
    }

    /// This node expanded (or collapsed).
    pub fn with_expanded(self, expanded: bool) -> (r: AriaNode)
        ensures
            r@ == (NodeModel { expanded: Some(expanded), ..self@ }),
    {
        let mut n = self;
        n.expanded = Some(expanded);
        n
    }

    /// This node at heading/list level `level`.
    pub fn with_level(self, level: u32) -> (r: AriaNode)
        ensures
            r@ == (NodeModel { level: Some(level), ..self@ }),
    {
        let mut n = self;
        n.level = Some(level);
        n
    }

    /// Whether the node can be targeted: it has an index and is visible.
    pub fn is_interactive(&self) -> (r: bool)
        ensures
            r == (self@.index is Some && self@.visible),
    {
        self.index.is_some() && self.box_info.visible
    }

    /// Whether the node's CSS cursor is `pointer`.
    pub fn has_pointer_cursor(&self) -> (r: bool)
        ensures
            r == (self@.cursor == Some("pointer"@)),
    {
        match &self.box_info.cursor {
            Some(c) => str_eq(c.as_str(), "pointer"),
            None => false,
        }
    }

    /// Whether the node only groups others: a fragment or an iframe.
    pub fn is_container(&self) -> (r: bool)
        ensures
            r == (self@.role == "fragment"@ || self@.role == "iframe"@),
    {
        str_eq(self.role.as_str(), "fragment") || str_eq(self.role.as_str(), "iframe")
    }

    /// The text of the subtree: each text child followed by a space, in
    /// document order, then trimmed.
    pub fn get_text_content(&self) -> (r: String)
        ensures
            r@ == trim(text_of(self@)),
    {
        let mut result = String::new();
        self.collect_text(&mut result);
        trim_str(result.as_str())
    }

    fn collect_text(&self, buffer: &mut String)
        ensures
            final(buffer)@ == old(buffer)@ + text_of(self@),
        decreases *self,
    {
        let ghost start = buffer@;
        proof {
            lemma_children_model(self.children@);
        }
        let mut i: usize = 0;
        while i < self.children.len()
            invariant
                i <= self.children@.len(),
                self@.children == children_model(self.children@),
                self@.children.len() == self.children@.len(),
                buffer@ == start + texts_in(self@.children.take(i as int)),
            decreases self.children.len() - i,
        {
            proof {
                lemma_children_model(self.children@);
                assert(self@.children.take(i + 1) == self@.children.take(i as int).push(
                    self@.children[i as int],
                ));
                lemma_texts_in_push(self@.children.take(i as int), self@.children[i as int]);
            }
            match &self.children[i] {
                AriaChild::Text(text) => {
                    append_str(buffer, text.as_str());
                    push_char(buffer, ' ');
                },
                AriaChild::Node(node) => {
                    node.collect_text(buffer);
                },
            }
            i = i + 1;
        }
        assert(self@.children.take(i as int) == self@.children);
    }

    /// The count of nodes of the subtree that carry an index.
    pub fn count_interactive(&self) -> (r: usize)
        requires
            nodes(self@).len() <= usize::MAX,
        ensures
            r == indices_in(nodes(self@)).len(),
    {
        let mut count: usize = 0;
        self.count_interactive_recursive(&mut count);
        count
    }

    proof fn lemma_indices_len_bound(s: Seq<NodeModel>)
        ensures
            indices_in(s).len() <= s.len(),
        decreases s.len(),
    {
        if s.len() > 0 {
            Self::lemma_indices_len_bound(s.drop_last());
        }
    }

    fn count_interactive_recursive(&self, count: &mut usize)
        requires
            *old(count) + nodes(self@).len() <= usize::MAX,
        ensures
            *final(count) == *old(count) + indices_in(nodes(self@)).len(),
        decreases *self,
    {
        let ghost start = *count;
        proof {
            lemma_children_model(self.children@);
            lemma_indices_of_node(self@);
            lemma_nodes_in_concat(seq![], self@.children);
        }
        if self.index.is_some() {
            *count = *count + 1;
        }
        let ghost own: int = if self.index is Some { 1 } else { 0 };
        let mut i: usize = 0;
        while i < self.children.len()
            invariant
                i <= self.children@.len(),
                self@.children == children_model(self.children@),
                self@.children.len() == self.children@.len(),
                start + nodes(self@).len() <= usize::MAX,
                nodes(self@) == seq![self@] + nodes_in(self@.children),
                own == (if self@.index is Some { 1int } else { 0 }),
                *count == start + own + indices_in(nodes_in(self@.children.take(i as int))).len(),
            decreases self.children.len() - i,
        {
            proof {
                lemma_children_model(self.children@);
                let cs = self@.children;
                assert(cs.take(i + 1) == cs.take(i as int).push(cs[i as int]));
                lemma_nodes_in_push(cs.take(i as int), cs[i as int]);
                lemma_indices_concat(nodes_in(cs.take(i as int)), child_nodes(cs[i as int]));
                lemma_nodes_in_concat(cs.take(i + 1), cs.skip(i + 1));
                assert(cs.take(i + 1) + cs.skip(i + 1) == cs);
                Self::lemma_indices_len_bound(nodes_in(cs.take(i as int)));
            }
            match &self.children[i] {
                AriaChild::Text(_) => {},
                AriaChild::Node(node) => {
                    node.count_interactive_recursive(count);
                },
            }
            i = i + 1;
        }
        assert(self@.children.take(i as int) == self@.children);
    }

    /// Whether this node and `other` describe the same accessible element
    /// (see `same_aria`).
    pub fn aria_equals(&self, other: &AriaNode) -> (r: bool)
        ensures
            r == same_aria(self@, other@),
    {
        if !str_eq(self.role.as_str(), other.role.as_str()) || !str_eq(
            self.name.as_str(),
            other.name.as_str(),
        ) {
            return false;
        }
        if !checked_eq(&self.checked, &other.checked) || !opt_bool_eq(self.disabled, other.disabled)
            || !opt_bool_eq(self.expanded, other.expanded) || !opt_u32_eq(self.level, other.level)
            || !pressed_eq(&self.pressed, &other.pressed) || !opt_bool_eq(
            self.selected,
            other.selected,
        ) {
            return false;
        }
        if self.has_pointer_cursor() != other.has_pointer_cursor() {
            return false;
        }
        self.props.same_as(&other.props)
    }

    /// The count of nodes in this subtree.
    pub fn count_nodes(&self) -> (r: usize)
        requires
            nodes(self@).len() <= usize::MAX,
        ensures
            r == nodes(self@).len(),
        decreases *self,
    {
        let mut total: usize = 1;
        let mut i: usize = 0;
        proof {
            lemma_children_model(self.children@);
        }
        while i < self.children.len()
            invariant
                i <= self.children.len(),
                nodes(self@).len() <= usize::MAX,
                self@.children == children_model(self.children@),
                self@.children.len() == self.children@.len(),
                total == 1 + nodes_in(self@.children.take(i as int)).len(),
            decreases self.children.len() - i,
        {
            proof {
                lemma_children_model(self.children@);
                assert(self@.children.take(i + 1) == self@.children.take(i as int).push(
                    self@.children[i as int],
                ));
                lemma_nodes_in_push(self@.children.take(i as int), self@.children[i as int]);
                lemma_nodes_in_concat(self@.children.take(i + 1), self@.children.skip(i + 1));
                assert(self@.children.take(i + 1) + self@.children.skip(i + 1) == self@.children);
            }
            match &self.children[i] {
                AriaChild::Text(_) => {},
                AriaChild::Node(b) => {
                    let c = b.count_nodes();
                    total = total + c;
                },
            }
            i = i + 1;
        }
        assert(self@.children.take(i as int) == self@.children);
        total
    }
}

} // verus!

verus! {

// ── DomTree ──

/// The ARIA snapshot of a web page.
#[derive(Debug, PartialEq)]
pub struct DomTree {
    /// Root node (usually a fragment).
    pub root: AriaNode,
    /// CSS selectors, by element index.
    pub selectors: Vec<String>,
    /// Indices of iframe elements (for multi-frame snapshots).
    pub iframe_indices: Vec<usize>,
}

/// Model of a snapshot.
pub struct TreeModel {
    pub root: NodeModel,
    pub selectors: Seq<Seq<char>>,
    pub iframe_indices: Seq<usize>,
}

pub open spec fn strings_model(v: Seq<String>) -> Seq<Seq<char>> {
    v.map_values(|s: String| s@)
}

impl View for DomTree {
    type V = TreeModel;

    open spec fn view(&self) -> TreeModel {
        TreeModel {
            root: self.root@,
            selectors: strings_model(self.selectors@),
            iframe_indices: self.iframe_indices@,
        }
    }
}

/// The larger of two optional indices.
pub open spec fn max_opt(a: Option<usize>, b: Option<usize>) -> Option<usize> {
    match (a, b) {
        (Some(x), Some(y)) => Some(if x >= y { x } else { y }),
        (Some(x), None) => Some(x),
        (None, y) => y,
    }
}

/// The largest element of `s`, if any.
pub open spec fn max_of(s: Seq<usize>) -> Option<usize>
    decreases s.len(),
{
    if s.len() == 0 {
        None
    } else {
        max_opt(max_of(s.drop_last()), Some(s.last()))
    }
}

/// The number of selector slots a tree needs: one past its largest index.
pub open spec fn slot_count(root: NodeModel) -> nat {
    match max_of(indices_in(nodes(root))) {
        Some(m) => (m + 1) as nat,
        None => 0,
    }
}

/// The non-empty strings of `s`, in order.
pub open spec fn non_empty_only(s: Seq<Seq<char>>) -> Seq<Seq<char>>
    decreases s.len(),
{
    if s.len() == 0 {
        seq![]
    } else if s.last().len() > 0 {
        non_empty_only(s.drop_last()).push(s.last())
    } else {
        non_empty_only(s.drop_last())
    }
}

/// Each element of `s` increased by `off`.
pub open spec fn shifted(s: Seq<usize>, off: nat) -> Seq<usize> {
    Seq::new(s.len(), |j: int| (s[j] + off) as usize)
}

/// The snapshot `t` with `snap` (if any) put into the first node whose
/// index is `k`: that node takes the snapshot's children, the snapshot's
/// non-empty selectors follow `t`'s, and its iframe indices, shifted by
/// the number of selectors `t` had, follow `t`'s. Nothing changes where no
/// node has index `k` or there is no snapshot.
pub open spec fn injected(t: TreeModel, k: usize, snap: Option<TreeModel>) -> TreeModel {
    match snap {
        None => t,
        Some(s) => match first_with_index(nodes(t.root), k) {
            None => t,
            Some(m) => TreeModel {
                root: replace_first(t.root, k, NodeModel { children: s.root.children, ..m }),
                selectors: t.selectors + non_empty_only(s.selectors),
                iframe_indices: t.iframe_indices + shifted(s.iframe_indices, t.selectors.len()),
            },
        },
    }
}

/// Putting a snapshot into iframe `k`: looking `k` up afterwards finds
/// the iframe node holding the snapshot's children (its own role, name and
/// states kept), the old selectors come first, followed by the snapshot's
/// non-empty ones; where no node carries `k`, nothing changes.
pub proof fn lemma_injected_iframe(t: TreeModel, k: usize, s: TreeModel)
    ensures
        match first_with_index(nodes(t.root), k) {
            Some(m) => {
                &&& first_with_index(nodes(injected(t, k, Some(s)).root), k) == Some(
                    NodeModel { children: s.root.children, ..m },
                )
                &&& injected(t, k, Some(s)).selectors == t.selectors + non_empty_only(s.selectors)
                &&& injected(t, k, Some(s)).selectors.take(t.selectors.len() as int) == t.selectors
            },
            None => injected(t, k, Some(s)) == t,
        },
{
    match first_with_index(nodes(t.root), k) {
        Some(m) => {
            lemma_first_has_index(nodes(t.root), k);
            lemma_find_after_replace(t.root, k, NodeModel { children: s.root.children, ..m });
            let sel = t.selectors + non_empty_only(s.selectors);
            assert(sel.take(t.selectors.len() as int) == t.selectors);
        },
        None => {},
    }
}

/// Whether putting `snap` into `t` at `k` shifts no iframe index past
/// `usize::MAX`.
pub open spec fn injection_fits(t: TreeModel, k: usize, snap: Option<TreeModel>) -> bool {
    match snap {
        Some(s) => first_with_index(nodes(t.root), k) is Some ==> forall|j: int|
            0 <= j < s.iframe_indices.len() ==> s.iframe_indices[j] + t.selectors.len()
                <= usize::MAX,
        None => true,
    }
}

/// `t` after putting `snaps[j]` in at `ks[j]`, for each `j` in turn.
pub open spec fn injected_all(t: TreeModel, ks: Seq<usize>, snaps: Seq<Option<TreeModel>>) -> TreeModel
    decreases snaps.len(),
{
    if snaps.len() == 0 {
        t
    } else {
        injected(injected_all(t, ks, snaps.drop_last()), ks[snaps.len() - 1], snaps.last())
    }
}

/// The models of optional snapshots.
pub open spec fn snapshot_models(outs: Seq<Option<DomTree>>) -> Seq<Option<TreeModel>> {
    Seq::new(
        outs.len(),
        |j: int|
            match outs[j] {
                Some(d) => Some(d@),
                None => None,
            },
    )
}

/// Whether `outs` are results that `f` may give to its first calls, made on
/// `ks[0]`, `ks[1]`, and so on.
pub open spec fn possible_results<F: FnMut(usize) -> Option<DomTree>>(
    f: F,
    ks: Seq<usize>,
    outs: Seq<Option<DomTree>>,
) -> bool {
    &&& outs.len() <= ks.len()
    &&& forall|j: int| 0 <= j < outs.len() ==> call_ensures(f, (ks[j],), #[trigger] outs[j])
}

/// `interactive_indices` lists as many indices as `count_interactive`
/// counts: a list holding the same indices as the tree, each as often, is
/// as long as the tree's list of indices.
pub proof fn lemma_listed_indices_counted(listed: Seq<usize>, root: NodeModel)
    requires
        listed.to_multiset() == indices_in(nodes(root)).to_multiset(),
    ensures
        listed.len() == indices_in(nodes(root)).len(),
{
    broadcast use vstd::seq_lib::group_to_multiset_ensures;

    assert(listed.to_multiset().len() == listed.len());
    assert(indices_in(nodes(root)).to_multiset().len() == indices_in(nodes(root)).len());
}

/// Whether `s` is in ascending order.
pub open spec fn ascending(s: Seq<usize>) -> bool {
    forall|i: int, j: int| 0 <= i < j < s.len() ==> s[i] <= s[j]
}

pub proof fn lemma_max_concat(a: Seq<usize>, b: Seq<usize>)
    ensures
        max_of(a + b) == max_opt(max_of(a), max_of(b)),
    decreases b.len(),
{
    if b.len() == 0 {
        assert(a + b == a);
    } else {
        lemma_max_concat(a, b.drop_last());
        assert((a + b).drop_last() == a + b.drop_last());
        assert((a + b).last() == b.last());
    }
}

/// Inserting into a sequence adds the element to its multiset.
pub proof fn lemma_insert_multiset(s: Seq<usize>, p: int, x: usize)
    requires
        0 <= p <= s.len(),
    ensures
        s.insert(p, x).to_multiset() =~= s.to_multiset().insert(x),
{
    broadcast use vstd::seq_lib::group_to_multiset_ensures;
    broadcast use vstd::multiset::group_multiset_axioms;

    let t = s.insert(p, x);
    s.insert_ensures(p, x);
    assert(t.remove(p) =~= s);
    assert(t[p] == x);
    assert(t.contains(x));
}

/// The largest index in a subtree.
fn find_max_index(node: &AriaNode) -> (r: Option<usize>)
    ensures
        r == max_of(indices_in(nodes(node@))),
    decreases *node,
{
    proof {
        lemma_children_model(node.children@);
        lemma_indices_of_node(node@);
    }
    let mut max = node.index;
    let ghost own: Seq<usize> = match node.index {
        Some(i) => seq![i],
        None => Seq::<usize>::empty(),
    };
    proof {
        assert(max_of(own) == node.index) by {
            if node.index is Some {
                assert(own.drop_last() =~= Seq::<usize>::empty());
            }
        }
        assert(nodes_in(node@.children.take(0)) =~= Seq::<NodeModel>::empty()) by {
            assert(node@.children.take(0) =~= Seq::<ChildModel>::empty());
        }
        assert(indices_in(Seq::<NodeModel>::empty()) =~= Seq::<usize>::empty());
        lemma_max_concat(own, Seq::<usize>::empty());
        assert(own + Seq::<usize>::empty() =~= own);
    }
    let mut i: usize = 0;
    while i < node.children.len()
        invariant
            i <= node.children@.len(),
            node@.children == children_model(node.children@),
            node@.children.len() == node.children@.len(),
            indices_in(nodes(node@)) == own + indices_in(nodes_in(node@.children)),
            max == max_of(own + indices_in(nodes_in(node@.children.take(i as int)))),
        decreases node.children.len() - i,
    {
        proof {
            lemma_children_model(node.children@);
            let cs = node@.children;
            assert(cs.take(i + 1) == cs.take(i as int).push(cs[i as int]));
            lemma_nodes_in_push(cs.take(i as int), cs[i as int]);
            lemma_indices_concat(nodes_in(cs.take(i as int)), child_nodes(cs[i as int]));
            let pre = own + indices_in(nodes_in(cs.take(i as int)));
            let add = indices_in(child_nodes(cs[i as int]));
            assert(own + indices_in(nodes_in(cs.take(i + 1))) =~= pre + add);
            lemma_max_concat(pre, add);
            assert(add =~= Seq::<usize>::empty() ==> max_of(add) is None);
        }
        match &node.children[i] {
            AriaChild::Text(_) => {},
            AriaChild::Node(child) => {
                if let Some(child_max) = find_max_index(child) {
                    max = match max {
                        Some(current) => Some(if current >= child_max { current } else { child_max }),
                        None => Some(child_max),
                    };
                }
            },
        }
        i = i + 1;
    }
    assert(node@.children.take(i as int) == node@.children);
    max
}

/// Appends the indices of the iframe nodes of a subtree, in preorder.
fn collect_iframe_indices(out: &mut Vec<usize>, node: &AriaNode)
    ensures
        final(out)@ == old(out)@ + iframe_indices_in(nodes(node@)),
    decreases *node,
{
    proof {
        lemma_children_model(node.children@);
        lemma_indices_of_node(node@);
    }
    let ghost start = out@;
    if let Some(index) = node.index {
        if str_eq(node.role.as_str(), "iframe") {
            out.push(index);
        }
    }
    let ghost own = out@.skip(start.len() as int);
    assert(out@ == start + own);
    let mut i: usize = 0;
    while i < node.children.len()
        invariant
            i <= node.children@.len(),
            node@.children == children_model(node.children@),
            node@.children.len() == node.children@.len(),
            iframe_indices_in(nodes(node@)) == own + iframe_indices_in(nodes_in(node@.children)),
            out@ == start + own + iframe_indices_in(nodes_in(node@.children.take(i as int))),
        decreases node.children.len() - i,
    {
        proof {
            lemma_children_model(node.children@);
            let cs = node@.children;
            assert(cs.take(i + 1) == cs.take(i as int).push(cs[i as int]));
            lemma_nodes_in_push(cs.take(i as int), cs[i as int]);
            lemma_iframes_concat(nodes_in(cs.take(i as int)), child_nodes(cs[i as int]));
        }
        match &node.children[i] {
            AriaChild::Text(_) => {},
            AriaChild::Node(child) => {
                collect_iframe_indices(out, child);
            },
        }
        i = i + 1;
    }
    assert(node@.children.take(i as int) == node@.children);
}

/// Appends the indices of the nodes of a subtree, in preorder.
fn collect_indices(out: &mut Vec<usize>, node: &AriaNode)
    ensures
        final(out)@ == old(out)@ + indices_in(nodes(node@)),
    decreases *node,
{
    proof {
        lemma_children_model(node.children@);
        lemma_indices_of_node(node@);
    }
    let ghost start = out@;
    if let Some(index) = node.index {
        out.push(index);
    }
    let ghost own = out@.skip(start.len() as int);
    assert(out@ == start + own);
    let mut i: usize = 0;
    while i < node.children.len()
        invariant
            i <= node.children@.len(),
            node@.children == children_model(node.children@),
            node@.children.len() == node.children@.len(),
            indices_in(nodes(node@)) == own + indices_in(nodes_in(node@.children)),
            out@ == start + own + indices_in(nodes_in(node@.children.take(i as int))),
        decreases node.children.len() - i,
    {
        proof {
            lemma_children_model(node.children@);
            let cs = node@.children;
            assert(cs.take(i + 1) == cs.take(i as int).push(cs[i as int]));
            lemma_nodes_in_push(cs.take(i as int), cs[i as int]);
            lemma_indices_concat(nodes_in(cs.take(i as int)), child_nodes(cs[i as int]));
        }
        match &node.children[i] {
            AriaChild::Text(_) => {},
            AriaChild::Node(child) => {
                collect_indices(out, child);
            },
        }
        i = i + 1;
    }
    assert(node@.children.take(i as int) == node@.children);
}

/// `v` in ascending order.
fn sort_ascending(v: &Vec<usize>) -> (r: Vec<usize>)
    ensures
        ascending(r@),
        r@.to_multiset() == v@.to_multiset(),
{
    broadcast use vstd::seq_lib::group_to_multiset_ensures;

    let mut r: Vec<usize> = Vec::new();
    let mut i: usize = 0;
    while i < v.len()
        invariant
            i <= v@.len(),
            ascending(r@),
            r@.to_multiset() == v@.take(i as int).to_multiset(),
        decreases v.len() - i,
    {
        let x = v[i];
        let mut p: usize = 0;
        while p < r.len() && r[p] <= x
            invariant
                p <= r@.len(),
                forall|j: int| 0 <= j < p ==> r@[j] <= x,
            decreases r.len() - p,
        {
            p = p + 1;
        }
        let ghost before = r@;
        r.insert(p, x);
        proof {
            before.insert_ensures(p as int, x);
            lemma_insert_multiset(before, p as int, x);
            assert(v@.take(i + 1) == v@.take(i as int).push(x));
            v@.take(i as int).to_multiset_ensures();
            assert(v@.take(i as int).push(x).to_multiset() =~= v@.take(i as int).to_multiset().insert(x));
            assert(r@ == before.insert(p as int, x));
            assert(r@.to_multiset() =~= v@.take(i + 1).to_multiset());
            assert forall|a: int, b: int| 0 <= a < b < r@.len() implies r@[a] <= r@[b] by {
                if b < p {
                } else if b == p {
                    assert(r@[a] == before[a]);
                } else if a < p {
                    assert(r@[b] == before[b - 1]);
                    assert(r@[a] == before[a]);
                    if p < before.len() {
                        assert(before[a] <= before[p as int]);
                        assert(before[p as int] <= before[b - 1]);
                    }
                } else if a == p {
                    assert(r@[b] == before[b - 1]);
                    assert(before[p as int] > x);
                    assert(before[p as int] <= before[b - 1]);
                } else {
                    assert(r@[a] == before[a - 1]);
                    assert(r@[b] == before[b - 1]);
                }
            }
        }
        i = i + 1;
    }
    assert(v@.take(i as int) == v@);
    r
}

impl DomTree {
    /// A snapshot of `root` with an empty selector for every index in the
    /// tree and the iframe indices of the tree.
    pub fn new(root: AriaNode) -> (r: DomTree)
        requires
            max_of(indices_in(nodes(root@))) matches Some(m) ==> m < usize::MAX,
        ensures
            r@ == (TreeModel {
                root: root@,
                selectors: Seq::new(slot_count(root@), |j: int| Seq::<char>::empty()),
                iframe_indices: iframe_indices_in(nodes(root@)),
            }),
    {
        let mut selectors: Vec<String> = Vec::new();
        let max_index = find_max_index(&root);
        if let Some(max_idx) = max_index {
            while selectors.len() <= max_idx
                invariant
                    selectors@.len() <= max_idx + 1,
                    max_idx < usize::MAX,
                    forall|j: int| 0 <= j < selectors@.len() ==> (#[trigger] selectors@[j])@ == Seq::<char>::empty(),
                decreases max_idx + 1 - selectors@.len(),
            {
                selectors.push(String::new());
            }
        }
        let mut iframe_indices: Vec<usize> = Vec::new();
        collect_iframe_indices(&mut iframe_indices, &root);
        let tree = DomTree { root, selectors, iframe_indices };
        assert(tree@.selectors =~= Seq::new(slot_count(root@), |j: int| Seq::<char>::empty()));
        assert(tree@.iframe_indices =~= iframe_indices_in(nodes(root@)));
        tree
    }

    /// The CSS selector of element `index`, if it has a non-empty one.
    pub fn get_selector(&self, index: usize) -> (r: Option<&String>)
        ensures
            match r {
                Some(s) => index < self@.selectors.len() && self@.selectors[index as int] == s@
                    && s@.len() > 0,
                None => !(index < self@.selectors.len() && self@.selectors[index as int].len() > 0),
            },
    {
        if index < self.selectors.len() {
            let s = &self.selectors[index];
            if s.as_str().is_empty() {
                None
            } else {
                Some(s)
            }
        } else {
            None
        }
    }

    /// The indices carried by the nodes of the tree, in ascending order.
    pub fn interactive_indices(&self) -> (r: Vec<usize>)
        ensures
            ascending(r@),
            r@.to_multiset() == indices_in(nodes(self@.root)).to_multiset(),
    {
        let mut indices: Vec<usize> = Vec::new();
        collect_indices(&mut indices, &self.root);
        assert(indices@ =~= indices_in(nodes(self@.root)));
        sort_ascending(&indices)
    }

    /// The count of nodes in the tree.
    pub fn count_nodes(&self) -> (r: usize)
        requires
            nodes(self@.root).len() <= usize::MAX,
        ensures
            r == nodes(self@.root).len(),
    {
        self.root.count_nodes()
    }

    /// The count of nodes of the tree that carry an index.
    pub fn count_interactive(&self) -> (r: usize)
        requires
            nodes(self@.root).len() <= usize::MAX,
        ensures
            r == indices_in(nodes(self@.root)).len(),
    {
        self.root.count_interactive()
    }

    /// The first node of the tree, in preorder, whose index is `index`.
    pub fn find_node_by_index(&self, index: usize) -> (r: Option<&AriaNode>)
        ensures
            first_with_index(nodes(self@.root), index) == (match r {
                Some(m) => Some(m@),
                None => None,
            }),
    {
        self.root.find_by_index(index)
    }

    /// The first node of the tree, in preorder, whose index is `index`, for
    /// update.
    pub fn find_node_by_index_mut(&mut self, index: usize) -> (r: Option<&mut AriaNode>)
        ensures
            first_with_index(nodes(old(self)@.root), index) == (match r {
                Some(m) => Some((*m)@),
                None => None,
            }),
            match r {
                Some(m) => final(self)@ == (TreeModel {
                    root: replace_first(old(self)@.root, index, (*final(m))@),
                    ..old(self)@
                }),
                None => final(self)@ == old(self)@,
            },
    {
        self.root.find_by_index_mut(index)
    }

    /// Puts `iframe_snapshot` into the first node whose index is
    /// `iframe_index` (see `injected`).
    pub fn inject_iframe_content(&mut self, iframe_index: usize, iframe_snapshot: DomTree)
        requires
            injection_fits(old(self)@, iframe_index, Some(iframe_snapshot@)),
        ensures
            final(self)@ == injected(old(self)@, iframe_index, Some(iframe_snapshot@)),
    {
        let ghost snap = iframe_snapshot@;
        let DomTree { root: snap_root, selectors: snap_selectors, iframe_indices: snap_iframes } =
            iframe_snapshot;
        let AriaNode { children: snap_children, .. } = snap_root;
        if let Some(iframe_node) = self.find_node_by_index_mut(iframe_index) {
            let ghost m = (*iframe_node)@;
            iframe_node.children = snap_children;
            assert(snap.root.children == children_model(snap_children@));
            assert((*iframe_node)@ == (NodeModel { children: snap.root.children, ..m }));
            let ghost root_after = self@.root;
            let ghost iframes_before = self@.iframe_indices;
            assert(root_after == replace_first(
                old(self)@.root,
                iframe_index,
                NodeModel { children: snap.root.children, ..m },
            ));
            let offset = self.selectors.len();
            let ghost sel0 = self@.selectors;
            let mut i: usize = 0;
            while i < snap_selectors.len()
                invariant
                    i <= snap_selectors@.len(),
                    strings_model(snap_selectors@) == snap.selectors,
                    self@.selectors == sel0 + non_empty_only(snap.selectors.take(i as int)),
                    self@.root == root_after,
                    self@.iframe_indices == iframes_before,
                decreases snap_selectors.len() - i,
            {
                proof {
                    let t = snap.selectors.take(i + 1);
                    assert(t.drop_last() == snap.selectors.take(i as int));
                    assert(t.last() == snap_selectors@[i as int]@);
                }
                if !snap_selectors[i].as_str().is_empty() {
                    let ghost before = self.selectors@;
                    self.selectors.push(snap_selectors[i].clone());
                    assert(strings_model(self.selectors@) =~= strings_model(before).push(
                        snap_selectors@[i as int]@,
                    ));
                }
                i = i + 1;
            }
            assert(snap.selectors.take(i as int) == snap.selectors);
            let ghost if0 = self@.iframe_indices;
            let mut j: usize = 0;
            while j < snap_iframes.len()
                invariant
                    j <= snap_iframes@.len(),
                    snap_iframes@ == snap.iframe_indices,
                    offset == sel0.len(),
                    forall|q: int|
                        0 <= q < snap.iframe_indices.len() ==> snap.iframe_indices[q] + sel0.len()
                            <= usize::MAX,
                    self@.iframe_indices == if0 + shifted(snap.iframe_indices.take(j as int), offset as nat),
                    self@.root == root_after,
                    self@.selectors == sel0 + non_empty_only(snap.selectors),
                decreases snap_iframes.len() - j,
            {
                let idx = snap_iframes[j];
                self.iframe_indices.push(idx + offset);
                assert(shifted(snap.iframe_indices.take(j + 1), offset as nat) =~= shifted(
                    snap.iframe_indices.take(j as int),
                    offset as nat,
                ).push((idx + offset) as usize));
                j = j + 1;
            }
            assert(snap.iframe_indices.take(j as int) == snap.iframe_indices);
        }
    }

    /// The snapshot with the content of each of its iframes put in, in the
    /// order of its iframe indices: `get_iframe_snapshot` is asked for the
    /// snapshot of each iframe, and the snapshots it gives are put in with
    /// `inject_iframe_content`.
    pub fn assemble_with_iframes<F>(self, get_iframe_snapshot: F) -> (r: DomTree) where
        F: FnMut(usize) -> Option<DomTree>,
        requires
            forall|i: usize| call_requires(get_iframe_snapshot, (i,)),
            forall|outs: Seq<Option<DomTree>>|
                possible_results(get_iframe_snapshot, self@.iframe_indices, outs) && outs.len()
                    > 0 ==> #[trigger] injection_fits(
                    injected_all(
                        self@,
                        self@.iframe_indices,
                        snapshot_models(outs.drop_last()),
                    ),
                    self@.iframe_indices[outs.len() - 1],
                    snapshot_models(outs).last(),
                ),
        ensures
            exists|outs: Seq<Option<DomTree>>|
                possible_results(get_iframe_snapshot, self@.iframe_indices, outs) && outs.len()
                    == self@.iframe_indices.len() && r@ == injected_all(
                    self@,
                    self@.iframe_indices,
                    snapshot_models(outs),
                ),
    {
        broadcast use vstd::function::group_function_axioms;

        let ghost s0 = self@;
        let ghost f0 = get_iframe_snapshot;
        let mut fetch = get_iframe_snapshot;
        let mut tree = self;
        let iframe_indices = tree.iframe_indices.clone();
        let ghost start = tree@;
        let ghost ks = start.iframe_indices;
        let ghost mut outs: Seq<Option<DomTree>> = Seq::empty();
        let mut i: usize = 0;
        while i < iframe_indices.len()
            invariant
                i <= iframe_indices@.len(),
                iframe_indices@ == ks,
                ks == start.iframe_indices,
                fetch == f0,
                outs.len() == i,
                possible_results(fetch, ks, outs),
                tree@ == injected_all(start, ks, snapshot_models(outs)),
                forall|i: usize| call_requires(fetch, (i,)),
                forall|outs: Seq<Option<DomTree>>|
                    possible_results(fetch, ks, outs) && outs.len() > 0
                        ==> #[trigger] injection_fits(
                        injected_all(start, ks, snapshot_models(outs.drop_last())),
                        ks[outs.len() - 1],
                        snapshot_models(outs).last(),
                    ),
            decreases iframe_indices.len() - i,
        {
            let iframe_index = iframe_indices[i];
            let out = fetch(iframe_index);
            let ghost next = outs.push(out);
            proof {
                assert(next.drop_last() == outs);
                assert(possible_results(fetch, ks, next));
                assert(snapshot_models(next).drop_last() =~= snapshot_models(outs));
                assert(injection_fits(
                    injected_all(start, ks, snapshot_models(next.drop_last())),
                    ks[next.len() - 1],
                    snapshot_models(next).last(),
                ));
            }
            if let Some(iframe_snapshot) = out {
                tree.inject_iframe_content(iframe_index, iframe_snapshot);
            }
            proof {
                outs = next;
            }
            i = i + 1;
        }
        assert(possible_results(fetch, ks, outs));
        assert(outs.len() == ks.len() && tree@ == injected_all(start, ks, snapshot_models(outs)));
        assert(s0 == start);
        assert(fetch == f0);
        assert(possible_results(f0, s0.iframe_indices, outs) && outs.len()
            == s0.iframe_indices.len() && tree@ == injected_all(s0, s0.iframe_indices, snapshot_models(outs)));
        tree
    }

    /// The iframe indices.
    pub fn get_iframe_indices(&self) -> (r: &[usize])
        ensures
            r@ == self@.iframe_indices,
    {
        self.iframe_indices.as_slice()
    }
}

impl Clone for DomTree {
    /// A copy of the snapshot.
    fn clone(&self) -> (r: DomTree)
        ensures
            r@ == self@,
    {
        let mut selectors: Vec<String> = Vec::new();
        let mut i: usize = 0;
        while i < self.selectors.len()
            invariant
                i <= self.selectors@.len(),
                selectors@.len() == i,
                forall|j: int| 0 <= j < i ==> (#[trigger] selectors@[j])@ == self.selectors@[j]@,
            decreases self.selectors.len() - i,
        {
            selectors.push(copy_string(&self.selectors[i]));
            i = i + 1;
        }
        assert(strings_model(selectors@) =~= strings_model(self.selectors@));
        let mut frames: Vec<usize> = Vec::new();
        let mut k: usize = 0;
        while k < self.iframe_indices.len()
            invariant
                k <= self.iframe_indices@.len(),
                frames@ == self.iframe_indices@.take(k as int),
            decreases self.iframe_indices.len() - k,
        {
            frames.push(self.iframe_indices[k]);
            k = k + 1;
            assert(frames@ == self.iframe_indices@.take(k as int));
        }
        assert(self.iframe_indices@.take(k as int) == self.iframe_indices@);
        DomTree { root: self.root.deep_copy(), selectors, iframe_indices: frames }
    }
}

} // verus!
