//! Streaming markup-to-tree builder.
//!
//! A markup parser reports what it finds through insertion primitives: create
//! an element, append a node or a run of text, insert before a sibling,
//! move children, add attributes. The builder records the result in an arena
//! [`Tree`] of [`Leaf`] payloads. Adjacent runs of text under one parent are
//! merged into one text node, and runs of nothing but white space are dropped.

use crate::tree::{NodeId, Tree, TreeState};
use vstd::prelude::*;
use vstd::std_specs::iter::IteratorSpec;
use vstd::string::StringExecFns;

verus! {

/// What can go wrong while a tree is built.
#[derive(Debug)]
pub enum TreeBuilderError {
    /// The byte stream could not be read; the text says why.
    Io(String),
    /// A node was to be inserted before a sibling that hangs under no parent.
    SiblingWithoutParent(NodeId),
    /// The node that was to receive attributes is no element.
    NotAnElement(NodeId),
}

/// A tag or attribute name with its namespace.
#[derive(Debug)]
pub struct QualName {
    pub prefix: Option<String>,
    pub ns: String,
    pub local: String,
}

pub struct QualNameView {
    pub prefix: Option<Seq<char>>,
    pub ns: Seq<char>,
    pub local: Seq<char>,
}

impl View for QualName {
    type V = QualNameView;

    open spec fn view(&self) -> QualNameView {
        QualNameView {
            prefix: match self.prefix {
                Some(p) => Some(p@),
                None => None,
            },
            ns: self.ns@,
            local: self.local@,
        }
    }
}

/// One attribute as the parser reports it.
#[derive(Debug)]
pub struct Attribute {
    pub name: QualName,
    pub value: String,
}

/// The key under which an attribute is kept: its namespace and local name.
pub type AttrKey = (Seq<char>, Seq<char>);

pub open spec fn attr_key(a: Attribute) -> AttrKey {
    (a.name.ns@, a.name.local@)
}

/// The attribute map that a list of attributes stands for: where a key
/// occurs more than once, its first entry counts.
pub open spec fn attrs_map(s: Seq<Attribute>) -> Map<AttrKey, Seq<char>>
    decreases s.len(),
{
    if s.len() == 0 {
        Map::empty()
    } else {
        attrs_map(s.drop_first()).insert(attr_key(s[0]), s[0].value@)
    }
}

/// `m` with the attribute `a` added unless its key is taken.
pub open spec fn add_missing(m: Map<AttrKey, Seq<char>>, a: Attribute) -> Map<AttrKey, Seq<char>> {
    if m.contains_key(attr_key(a)) {
        m
    } else {
        m.insert(attr_key(a), a.value@)
    }
}

/// `m` with the attributes of `s` added one after the other, each unless its
/// key is taken by then.
pub open spec fn filled(m: Map<AttrKey, Seq<char>>, s: Seq<Attribute>) -> Map<AttrKey, Seq<char>>
    decreases s.len(),
{
    if s.len() == 0 {
        m
    } else {
        filled(add_missing(m, s[0]), s.drop_first())
    }
}

/// The attribute map of the first `k` attributes that come with a freshly
/// created element: of several attributes with one key the last one counts.
pub open spec fn taken(s: Seq<Attribute>, k: int) -> Map<AttrKey, Seq<char>>
    decreases k,
{
    if k <= 0 {
        Map::empty()
    } else {
        taken(s, k - 1).insert(attr_key(s[k - 1]), s[k - 1].value@)
    }
}

/// The attribute map of a freshly created element.
pub open spec fn collected(s: Seq<Attribute>) -> Map<AttrKey, Seq<char>> {
    taken(s, s.len() as int)
}

/// An element: its name and its attributes, at most one per key.
#[derive(Debug)]
pub struct Element {
    pub name: QualName,
    pub attrs: Vec<Attribute>,
}

pub struct ElementView {
    pub name: QualNameView,
    pub attrs: Map<AttrKey, Seq<char>>,
}

impl View for Element {
    type V = ElementView;

    open spec fn view(&self) -> ElementView {
        ElementView { name: self.name@, attrs: attrs_map(self.attrs@) }
    }
}

/// A run of text.
#[derive(Debug)]
pub struct Text {
    pub t: String,
}

/// What a node of the markup tree holds.
#[derive(Debug)]
pub enum Leaf {
    Element(Element),
    Text(Text),
}

pub enum LeafView {
    Element(ElementView),
    Text(Seq<char>),
}

impl View for Leaf {
    type V = LeafView;

    open spec fn view(&self) -> LeafView {
        match self {
            Leaf::Element(e) => LeafView::Element(e@),
            Leaf::Text(t) => LeafView::Text(t.t@),
        }
    }
}

/// The markup tree with every payload seen as a value.
pub type Doc = TreeState<LeafView>;

pub open spec fn doc_of(s: TreeState<Leaf>) -> Doc {
    s.map_payloads(|l: Leaf| l@)
}

/// Unicode's `White_Space` characters.
pub open spec fn is_white_space(c: char) -> bool {
    let n = c as u32;
    ||| 0x09 <= n <= 0x0d
    ||| n == 0x20
    ||| n == 0x85
    ||| n == 0xa0
    ||| n == 0x1680
    ||| 0x2000 <= n <= 0x200a
    ||| n == 0x2028
    ||| n == 0x2029
    ||| n == 0x202f
    ||| n == 0x205f
    ||| n == 0x3000
}

/// Text that holds nothing but white space; the empty text is blank.
pub open spec fn is_blank(s: Seq<char>) -> bool {
    forall|i: int| 0 <= i < s.len() ==> is_white_space(#[trigger] s[i])
}

pub fn char_is_white_space(c: char) -> (b: bool)
    ensures
        b == is_white_space(c),
{
    let n: u32 = c as u32;
    (0x09 <= n && n <= 0x0d) || n == 0x20 || n == 0x85 || n == 0xa0 || n == 0x1680 || (0x2000 <= n
        && n <= 0x200a) || n == 0x2028 || n == 0x2029 || n == 0x202f || n == 0x205f || n == 0x3000
}

/// Whether `s` holds nothing but white space.
pub fn text_is_blank(s: &str) -> (b: bool)
    ensures
        b == is_blank(s@),
{
    let mut it = s.chars();
    let ghost mut done: int = 0;
    loop
        invariant
            0 <= done <= s@.len(),
            it.remaining() == s@.skip(done),
            it.obeys_prophetic_iter_laws(),
            it.decrease() is Some,
            forall|i: int| 0 <= i < done ==> is_white_space(#[trigger] s@[i]),
        decreases s@.len() - done,
    {
        let ghost before = it;
        match it.next() {
            Some(c) => {
                assert(c == s@[done]);
                if !char_is_white_space(c) {
                    return false;
                }
                proof {
                    assert(it.remaining() =~= s@.skip(done + 1));
                    done = done + 1;
                }
            },
            None => {
                assert(done == s@.len());
                return true;
            },
        }
    }
}

/// The doc after a run of text `t` was appended under `parent`: nothing for a
/// blank run; the run joins the last child where that is a text node; else a
/// new text node becomes the last child.
pub open spec fn text_appended(d: Doc, parent: NodeId, t: Seq<char>) -> Doc {
    if is_blank(t) {
        d
    } else {
        match text_node(d, d.last_child(parent)) {
            Some(last) => d.with_payload(last, LeafView::Text(d.payloads[last.0]->Text_0 + t)),
            None => d.grown().with_payload(NodeId(d.count as u32), LeafView::Text(t)).attached(
                parent,
                NodeId(d.count as u32),
            ),
        }
    }
}

/// The element that `id` names in `d`, if it names one.
pub open spec fn element_of(d: Doc, id: NodeId) -> Option<ElementView> {
    if d.payloads.contains_key(id.0) {
        match d.payloads[id.0] {
            LeafView::Element(e) => Some(e),
            LeafView::Text(_) => None,
        }
    } else {
        None
    }
}

/// `id` where it names a text node of `d`.
pub open spec fn text_node(d: Doc, id: Option<NodeId>) -> Option<NodeId> {
    match id {
        Some(n) => if d.payloads.contains_key(n.0) && d.payloads[n.0] is Text {
            Some(n)
        } else {
            None
        },
        None => None,
    }
}

/// The child that stands just in front of the first occurrence of `sibling`
/// under the sibling's recorded parent; the last child where the sibling is
/// not listed there.
pub open spec fn older_sibling(d: Doc, sibling: NodeId) -> Option<NodeId> {
    if d.parents.contains_key(sibling.0) && d.lists.contains_key(d.parents[sibling.0].0) {
        let list = d.lists[d.parents[sibling.0].0];
        match list.index_of_first(sibling) {
            Some(i) => if i > 0 {
                Some(list[i - 1])
            } else {
                None
            },
            None => if list.len() > 0 {
                Some(list.last())
            } else {
                None
            },
        }
    } else {
        None
    }
}

/// The doc after a run of text `t` was inserted before `sibling`: nothing
/// changes for a blank run and for a sibling without parent; the run joins
/// the child in front of the sibling where that is a text node; else a new
/// text node is created and inserted before the sibling.
pub open spec fn text_inserted(d: Doc, sibling: NodeId, t: Seq<char>) -> Doc {
    if is_blank(t) || !d.parents.contains_key(sibling.0) {
        d
    } else {
        match text_node(d, older_sibling(d, sibling)) {
            Some(prev) => d.with_payload(prev, LeafView::Text(d.payloads[prev.0]->Text_0 + t)),
            None => d.grown().with_payload(
                NodeId(d.count as u32),
                LeafView::Text(t),
            ).attached_before(sibling, NodeId(d.count as u32)),
        }
    }
}

/// Whether appending `child` to `parent` makes a node: it does for a run of
/// text that is not blank and joins no text.
pub open spec fn append_makes_node(d: Doc, parent: NodeId, child: NodeOrText) -> bool {
    match child {
        NodeOrText::AppendNode(_) => false,
        NodeOrText::AppendText(t) => !is_blank(t@) && text_node(d, d.last_child(parent)) is None,
    }
}

/// Whether inserting `child` before `sibling` makes a node: it does for a
/// run of text that is not blank and joins no text, before a sibling that
/// has a parent.
pub open spec fn insert_makes_node(d: Doc, sibling: NodeId, child: NodeOrText) -> bool {
    match child {
        NodeOrText::AppendNode(_) => false,
        NodeOrText::AppendText(t) => !is_blank(t@) && d.parents.contains_key(sibling.0)
            && text_node(d, older_sibling(d, sibling)) is None,
    }
}

/// The doc after every child of `node` was moved, in order, to the end of
/// the list of `new_parent`.
pub open spec fn reparented(d: Doc, children: Seq<NodeId>, new_parent: NodeId) -> Doc
    decreases children.len(),
{
    if children.len() == 0 {
        d
    } else {
        reparented(d.attached(new_parent, children[0]), children.drop_first(), new_parent)
    }
}

/// What the parser hands to an insertion primitive: a node made before, or a
/// run of text.
#[derive(Debug)]
pub enum NodeOrText {
    AppendNode(NodeId),
    AppendText(String),
}

/// Builds a markup tree from the insertion calls of a parser.
pub struct NodeTreeBuilder {
    root: NodeId,
    error: NodeId,
    body: Option<NodeId>,
    tree: Tree<Leaf>,
    parse_errors: Vec<String>,
}

/// A finished markup tree with the diagnostics of its parse.
pub struct NodeTreeResult {
    pub(crate) root: NodeId,
    pub(crate) error: NodeId,
    pub(crate) body: Option<NodeId>,
    pub(crate) tree: Tree<Leaf>,
    pub(crate) parse_errors: Vec<String>,
}

/// Whether an element of this local name is the body container.
pub fn is_body_name(local: &String) -> (b: bool)
    ensures
        b == (local@ == "body"@),
{
    let body = String::from_str("body");
    *local == body
}

/// Whether `attrs` holds an entry with the key of `a`.
fn has_key(attrs: &Vec<Attribute>, a: &Attribute) -> (b: bool)
    ensures
        b == attrs_map(attrs@).contains_key(attr_key(*a)),
{
    let mut i: usize = 0;
    while i < attrs.len()
        invariant
            i <= attrs.len(),
            forall|j: int| 0 <= j < i ==> attr_key(#[trigger] attrs@[j]) != attr_key(*a),
        decreases attrs.len() - i,
    {
        if attrs[i].name.ns == a.name.ns && attrs[i].name.local == a.name.local {
            proof {
                lemma_attrs_map_lookup(attrs@, attr_key(*a));
            }
            return true;
        }
        i = i + 1;
    }
    proof {
        lemma_attrs_map_lookup(attrs@, attr_key(*a));
    }
    false
}

/// The first place of an entry with the key of `a`.
fn key_position(attrs: &Vec<Attribute>, a: &Attribute) -> (r: Option<usize>)
    ensures
        match r {
            Some(i) => i < attrs@.len() && attr_key(attrs@[i as int]) == attr_key(*a) && forall|
                j: int,
            |
                0 <= j < i ==> attr_key(#[trigger] attrs@[j]) != attr_key(*a),
            None => !attrs_map(attrs@).contains_key(attr_key(*a)),
        },
{
    let mut i: usize = 0;
    while i < attrs.len()
        invariant
            i <= attrs.len(),
            forall|j: int| 0 <= j < i ==> attr_key(#[trigger] attrs@[j]) != attr_key(*a),
        decreases attrs.len() - i,
    {
        if attrs[i].name.ns == a.name.ns && attrs[i].name.local == a.name.local {
            return Some(i);
        }
        i = i + 1;
    }
    proof {
        lemma_attrs_map_lookup(attrs@, attr_key(*a));
    }
    None
}

/// The attributes of a freshly created element, in the order in which they
/// came; an attribute whose key came before takes the place of that one.
fn collect_attrs(attrs: Vec<Attribute>) -> (stored: Vec<Attribute>)
    ensures
        attrs_map(stored@) == collected(attrs@),
{
    let mut stack = crate::tree::reversed(attrs);
    let mut stored: Vec<Attribute> = Vec::new();
    let ghost mut k: int = 0;
    assert(attrs_map(stored@) =~= taken(attrs@, 0));
    while stack.len() > 0
        invariant
            0 <= k <= attrs@.len(),
            stack@.len() == attrs@.len() - k,
            stack@ == attrs@.reverse().take(attrs@.len() - k),
            attrs_map(stored@) == taken(attrs@, k),
        decreases stack.len(),
    {
        let ghost before = stack@;
        let a = stack.pop().unwrap();
        assert(a == attrs@[k]);
        assert(stack@ =~= attrs@.reverse().take(attrs@.len() - k - 1));
        match key_position(&stored, &a) {
            Some(i) => {
                proof {
                    lemma_attrs_map_update(stored@, i as int, a);
                }
                stored.set(i, a);
            },
            None => {
                proof {
                    lemma_attrs_map_push(stored@, a);
                }
                stored.push(a);
            },
        }
        proof {
            k = k + 1;
        }
    }
    stored
}

/// Adds the attributes of `stack`, last one first, each unless its key is taken.
fn fill_missing(attrs: &mut Vec<Attribute>, stack: Vec<Attribute>)
    ensures
        attrs_map(final(attrs)@) == filled(attrs_map(old(attrs)@), stack@.reverse()),
{
    let mut stack = stack;
    let ghost target = filled(attrs_map(attrs@), stack@.reverse());
    while stack.len() > 0
        invariant
            filled(attrs_map(attrs@), stack@.reverse()) == target,
        decreases stack.len(),
    {
        let ghost before = stack@;
        let ghost m = attrs_map(attrs@);
        let a = stack.pop().unwrap();
        proof {
            assert(before.reverse().drop_first() =~= stack@.reverse());
            assert(before.reverse()[0] == a);
        }
        if !has_key(attrs, &a) {
            proof {
                lemma_attrs_map_push(attrs@, a);
            }
            attrs.push(a);
        }
    }
}

impl NodeTreeBuilder {
    /// The document node.
    pub closed spec fn root_id(&self) -> NodeId {
        self.root
    }

    /// The node that stands for content that could not be located.
    pub closed spec fn error_id(&self) -> NodeId {
        self.error
    }

    /// The body container, once the parser has created it.
    pub closed spec fn body_id(&self) -> Option<NodeId> {
        self.body
    }

    /// The arena behind the builder.
    pub closed spec fn arena(&self) -> Tree<Leaf> {
        self.tree
    }

    /// The markup tree built so far.
    pub open spec fn doc(&self) -> Doc {
        doc_of(self.arena().state())
    }

    /// The diagnostics reported so far.
    pub closed spec fn diagnostics(&self) -> Seq<String> {
        self.parse_errors@
    }

    /// Root, error node, body and diagnostics are those of `other`.
    pub open spec fn same_frame(&self, other: &Self) -> bool {
        &&& self.root_id() == other.root_id()
        &&& self.error_id() == other.error_id()
        &&& self.body_id() == other.body_id()
        &&& self.diagnostics() == other.diagnostics()
    }

    /// A builder whose tree holds the document node and the error node.
    pub fn new() -> (b: Self)
        ensures
            b.root_id() == NodeId(0),
            b.error_id() == NodeId(1),
            b.body_id() is None,
            b.diagnostics().len() == 0,
            b.doc() == Doc::empty().grown().grown(),
            b.arena().well_formed(),
    {
        let mut tree = Tree::new();
        let root = tree.add_node();
        let error = tree.add_node();
        let _ = tree.node_count();
        let b = Self { root, error, body: None, tree, parse_errors: Vec::new() };
        assert(b.doc() =~= Doc::empty().grown().grown());
        b
    }

    /// Keeps a diagnostic of the parser; the parse goes on.
    pub fn parse_error(&mut self, msg: String)
        ensures
            final(self).diagnostics() == old(self).diagnostics().push(msg),
            final(self).arena() == old(self).arena(),
            final(self).root_id() == old(self).root_id(),
            final(self).error_id() == old(self).error_id(),
            final(self).body_id() == old(self).body_id(),
    {
        self.parse_errors.push(msg);
    }

    pub fn get_document(&self) -> (id: NodeId)
        ensures
            id == self.root_id(),
    {
        self.root
    }

    /// The tree built so far.
    pub fn tree(&self) -> (t: &Tree<Leaf>)
        ensures
            *t == self.arena(),
            t.well_formed(),
    {
        let _ = self.tree.node_count();
        &self.tree
    }

    pub fn body(&self) -> (b: Option<NodeId>)
        ensures
            b == self.body_id(),
    {
        self.body
    }

    /// The name of the element `target`; `None` where `target` is no element.
    pub fn elem_name(&self, target: NodeId) -> (r: Option<&QualName>)
        ensures
            match r {
                Some(name) => element_of(self.doc(), target) is Some && element_of(
                    self.doc(),
                    target,
                )->0.name == name@,
                None => element_of(self.doc(), target) is None,
            },
    {
        match self.tree.get_context(target) {
            Some(Leaf::Element(element)) => Some(&element.name),
            _ => None,
        }
    }

    /// Creates an element node. An element whose local name is `body` becomes
    /// the body container.
    pub fn create_element(&mut self, name: QualName, attrs: Vec<Attribute>) -> (id: NodeId)
        requires
            old(self).doc().count < u32::MAX,
        ensures
            id.0 == old(self).doc().count,
            final(self).doc() == old(self).doc().grown().with_payload(
                id,
                LeafView::Element(ElementView { name: name@, attrs: collected(attrs@) }),
            ),
            final(self).body_id() == (if name.local@ == "body"@ {
                Some(id)
            } else {
                old(self).body_id()
            }),
            final(self).root_id() == old(self).root_id(),
            final(self).error_id() == old(self).error_id(),
            final(self).diagnostics() == old(self).diagnostics(),
    {
        let is_body = is_body_name(&name.local);
        let stored = collect_attrs(attrs);
        let ghost d0 = self.doc();
        let node_id = self.tree.add_node_with_context(Leaf::Element(Element { name, attrs: stored }));
        if is_body {
            self.body = Some(node_id);
        }
        assert(self.doc() =~= d0.grown().with_payload(
            node_id,
            LeafView::Element(ElementView { name: name@, attrs: collected(attrs@) }),
        ));
        node_id
    }

    /// Creates the node of a comment; it holds nothing.
    pub fn create_comment(&mut self, text: &str) -> (id: NodeId)
        requires
            old(self).doc().count < u32::MAX,
        ensures
            id.0 == old(self).doc().count,
            final(self).doc() == old(self).doc().grown(),
            final(self).same_frame(old(self)),
    {
        let ghost d0 = self.doc();
        let id = self.tree.add_node();
        assert(self.doc() =~= d0.grown());
        id
    }

    /// Creates the node of a processing instruction; it holds nothing.
    pub fn create_pi(&mut self, target: &str, data: &str) -> (id: NodeId)
        requires
            old(self).doc().count < u32::MAX,
        ensures
            id.0 == old(self).doc().count,
            final(self).doc() == old(self).doc().grown(),
            final(self).same_frame(old(self)),
    {
        let ghost d0 = self.doc();
        let id = self.tree.add_node();
        assert(self.doc() =~= d0.grown());
        id
    }

    /// Appends a node or a run of text as the last child of `parent`. Where
    /// that makes a node, the tree has a number left for it.
    pub fn append(&mut self, parent: NodeId, child: NodeOrText)
        requires
            append_makes_node(old(self).doc(), parent, child) ==> old(self).doc().count < u32::MAX,
        ensures
            final(self).same_frame(old(self)),
            final(self).doc() == (match child {
                NodeOrText::AppendNode(node_id) => old(self).doc().attached(parent, node_id),
                NodeOrText::AppendText(t) => text_appended(old(self).doc(), parent, t@),
            }),
    {
        let ghost d0 = self.doc();
        match child {
            NodeOrText::AppendNode(node_id) => {
                self.tree.add_child(parent, node_id);
                assert(self.doc() =~= d0.attached(parent, node_id));
            },
            NodeOrText::AppendText(t) => {
                if text_is_blank(t.as_str()) {
                    return ;
                }
                let last_child = match self.tree.children(parent) {
                    Some(v) => if v.len() > 0 {
                        Some(v[v.len() - 1])
                    } else {
                        None
                    },
                    None => None,
                };
                assert(last_child == d0.last_child(parent));
                if !self.push_text(last_child, &t) {
                    let node = self.tree.add_node_with_context(Leaf::Text(Text { t }));
                    self.tree.add_child(parent, node);
                    assert(self.doc() =~= d0.grown().with_payload(
                        node,
                        LeafView::Text(t@),
                    ).attached(parent, node));
                }
            },
        }
    }

    /// Adds `t` to the text of `id` where `id` names a text node, and says
    /// whether it did.
    fn push_text(&mut self, id: Option<NodeId>, t: &String) -> (joined: bool)
        ensures
            final(self).same_frame(old(self)),
            joined == (text_node(old(self).doc(), id) is Some),
            joined ==> final(self).doc() == old(self).doc().with_payload(
                id->0,
                LeafView::Text(old(self).doc().payloads[(id->0).0]->Text_0 + t@),
            ),
            !joined ==> final(self).arena() == old(self).arena(),
    {
        let node_id = match id {
            Some(n) => n,
            None => {
                return false;
            },
        };
        let is_text = match self.tree.get_context(node_id) {
            Some(Leaf::Text(_)) => true,
            _ => false,
        };
        if !is_text {
            return false;
        }
        let ghost d0 = self.doc();
        let _ = self.tree.node_count();
        match self.tree.take_context(node_id) {
            Some(Leaf::Text(text)) => {
                let mut text = text;
                let ghost old_text = text.t@;
                text.t.append(t.as_str());
                self.tree.set_context(node_id, Leaf::Text(text));
                assert(self.doc() =~= d0.with_payload(node_id, LeafView::Text(old_text + t@)));
            },
            _ => {},
        }
        true
    }

    /// Inserts a node or a run of text in front of `sibling`. A sibling that
    /// hangs under no parent is refused when something would have to be
    /// inserted before it, and the tree stays as it was. Where the insertion
    /// makes a node, the tree has a number left for it.
    pub fn append_before_sibling(&mut self, sibling: NodeId, new_node: NodeOrText) -> (r: Result<
        (),
        TreeBuilderError,
    >)
        requires
            insert_makes_node(old(self).doc(), sibling, new_node) ==> old(self).doc().count
                < u32::MAX,
        ensures
            final(self).same_frame(old(self)),
            final(self).doc() == (match new_node {
                NodeOrText::AppendNode(node_id) => old(self).doc().attached_before(
                    sibling,
                    node_id,
                ),
                NodeOrText::AppendText(t) => text_inserted(old(self).doc(), sibling, t@),
            }),
            r is Err <==> !old(self).doc().parents.contains_key(sibling.0) && (match new_node {
                NodeOrText::AppendNode(_) => true,
                NodeOrText::AppendText(t) => !is_blank(t@),
            }),
            r matches Err(e) ==> e == TreeBuilderError::SiblingWithoutParent(sibling),
            r is Err ==> final(self).doc() == old(self).doc(),
    {
        let ghost d0 = self.doc();
        match new_node {
            NodeOrText::AppendNode(node) => {
                let ok = self.tree.add_child_before_sibling(sibling, node);
                assert(self.doc() =~= d0.attached_before(sibling, node));
                if ok {
                    Ok(())
                } else {
                    Err(TreeBuilderError::SiblingWithoutParent(sibling))
                }
            },
            NodeOrText::AppendText(t) => {
                if text_is_blank(t.as_str()) {
                    return Ok(());
                }
                if self.tree.parent(sibling).is_none() {
                    return Err(TreeBuilderError::SiblingWithoutParent(sibling));
                }
                let older = self.older_sibling_of(sibling);
                if !self.push_text(older, &t) {
                    let node = self.tree.add_node_with_context(Leaf::Text(Text { t }));
                    let _ = self.tree.add_child_before_sibling(sibling, node);
                    assert(self.doc() =~= d0.grown().with_payload(
                        node,
                        LeafView::Text(t@),
                    ).attached_before(sibling, node));
                }
                Ok(())
            },
        }
    }

    /// The child in front of `sibling` in the list of the sibling's parent.
    fn older_sibling_of(&self, sibling: NodeId) -> (r: Option<NodeId>)
        ensures
            r == older_sibling(self.doc(), sibling),
    {
        let parent = match self.tree.parent(sibling) {
            Some(p) => p,
            None => {
                return None;
            },
        };
        let children = match self.tree.children(parent) {
            Some(c) => c,
            None => {
                return None;
            },
        };
        proof {
            children@.index_of_first_ensures(sibling);
        }
        match crate::tree::position(children, sibling) {
            Some(i) => if i > 0 {
                Some(children[i - 1])
            } else {
                None
            },
            None => if children.len() > 0 {
                Some(children[children.len() - 1])
            } else {
                None
            },
        }
    }

    /// Inserts `child` before `element` where `element` hangs under a parent,
    /// and appends it to `prev_element` otherwise.
    pub fn append_based_on_parent_node(
        &mut self,
        element: NodeId,
        prev_element: NodeId,
        child: NodeOrText,
    )
        requires
            (if old(self).doc().parents.contains_key(element.0) {
                insert_makes_node(old(self).doc(), element, child)
            } else {
                append_makes_node(old(self).doc(), prev_element, child)
            }) ==> old(self).doc().count < u32::MAX,
        ensures
            final(self).same_frame(old(self)),
            final(self).doc() == (if old(self).doc().parents.contains_key(element.0) {
                match child {
                    NodeOrText::AppendNode(node_id) => old(self).doc().attached_before(
                        element,
                        node_id,
                    ),
                    NodeOrText::AppendText(t) => text_inserted(old(self).doc(), element, t@),
                }
            } else {
                match child {
                    NodeOrText::AppendNode(node_id) => old(self).doc().attached(
                        prev_element,
                        node_id,
                    ),
                    NodeOrText::AppendText(t) => text_appended(old(self).doc(), prev_element, t@),
                }
            }),
    {
        if self.tree.parent(element).is_some() {
            let _ = self.append_before_sibling(element, child);
        } else {
            self.append(prev_element, child)
        }
    }

    /// The node that stands for the contents of the template `target`: its
    /// first child, or the error node where it has none.
    pub fn get_template_contents(&self, target: NodeId) -> (id: NodeId)
        ensures
            id == (if self.doc().lists.contains_key(target.0) && self.doc().lists[target.0].len()
                > 0 {
                self.doc().lists[target.0][0]
            } else {
                self.error_id()
            }),
    {
        match self.tree.children(target) {
            Some(children) => if children.len() > 0 {
                children[0]
            } else {
                self.error
            },
            None => self.error,
        }
    }

    pub fn same_node(&self, x: NodeId, y: NodeId) -> (b: bool)
        ensures
            b == (x == y),
    {
        x == y
    }

    /// Adds to the element `target` each of `add_attrs` whose key it does not
    /// hold yet. A target that is no element is refused and nothing changes.
    pub fn add_attrs_if_missing(&mut self, target: NodeId, add_attrs: Vec<Attribute>) -> (r: Result<
        (),
        TreeBuilderError,
    >)
        ensures
            final(self).same_frame(old(self)),
            match r {
                Ok(()) => element_of(old(self).doc(), target) is Some && final(self).doc() == old(self).doc().with_payload(
                    target,
                    LeafView::Element(
                        ElementView {
                            name: element_of(old(self).doc(), target)->0.name,
                            attrs: filled(element_of(old(self).doc(), target)->0.attrs, add_attrs@),
                        },
                    ),
                ),
                Err(e) => e == TreeBuilderError::NotAnElement(target) && element_of(
                    old(self).doc(),
                    target,
                ) is None && final(self).arena() == old(self).arena(),
            },
    {
        let is_element = match self.tree.get_context(target) {
            Some(Leaf::Element(_)) => true,
            _ => false,
        };
        if !is_element {
            return Err(TreeBuilderError::NotAnElement(target));
        }
        let ghost d0 = self.doc();
        let _ = self.tree.node_count();
        match self.tree.take_context(target) {
            Some(Leaf::Element(element)) => {
                let mut element = element;
                let ghost e0 = element@;
                let stack = crate::tree::reversed(add_attrs);
                assert(stack@.reverse() =~= add_attrs@);
                fill_missing(&mut element.attrs, stack);
                self.tree.set_context(target, Leaf::Element(element));
                assert(self.doc() =~= d0.with_payload(
                    target,
                    LeafView::Element(
                        ElementView { name: e0.name, attrs: filled(e0.attrs, add_attrs@) },
                    ),
                ));
            },
            _ => {},
        }
        Ok(())
    }

    /// Takes `target` out of its parent's child list.
    pub fn remove_from_parent(&mut self, target: NodeId)
        ensures
            final(self).same_frame(old(self)),
            final(self).doc() == old(self).doc().detached(target),
    {
        let ghost d0 = self.doc();
        self.tree.remove_parent(target);
        assert(self.doc() =~= d0.detached(target));
    }

    /// Moves every child of `node`, in order, to the end of the child list of
    /// `new_parent`.
    pub fn reparent_children(&mut self, node: NodeId, new_parent: NodeId)
        ensures
            final(self).same_frame(old(self)),
            final(self).doc() == reparented(
                old(self).doc(),
                crate::tree::list_or_empty(old(self).doc().lists, node.0),
                new_parent,
            ),
    {
        let ghost d0 = self.doc();
        let children: Vec<NodeId> = match self.tree.children(node) {
            Some(c) => c.clone(),
            None => Vec::new(),
        };
        assert(children@ =~= crate::tree::list_or_empty(d0.lists, node.0));
        assert(children@.skip(0) =~= children@);
        let mut i: usize = 0;
        while i < children.len()
            invariant
                i <= children.len(),
                self.same_frame(old(self)),
                reparented(self.doc(), children@.skip(i as int), new_parent) == reparented(
                    d0,
                    children@,
                    new_parent,
                ),
            decreases children.len() - i,
        {
            let ghost d1 = self.doc();
            self.tree.add_child(new_parent, children[i]);
            proof {
                assert(self.doc() =~= d1.attached(new_parent, children@[i as int]));
                assert(children@.skip(i as int).drop_first() =~= children@.skip(i + 1));
            }
            i = i + 1;
        }
    }

    /// Ends the parse and hands the tree out.
    pub fn finish(self) -> (r: NodeTreeResult)
        ensures
            r.arena() == self.arena(),
            r.root_id() == self.root_id(),
            r.error_id() == self.error_id(),
            r.body_id() == self.body_id(),
            r.diagnostics() == self.diagnostics(),
    {
        NodeTreeResult {
            root: self.root,
            error: self.error,
            body: self.body,
            tree: self.tree,
            parse_errors: self.parse_errors,
        }
    }
}

impl NodeTreeResult {
    pub closed spec fn root_id(&self) -> NodeId {
        self.root
    }

    pub closed spec fn error_id(&self) -> NodeId {
        self.error
    }

    pub closed spec fn body_id(&self) -> Option<NodeId> {
        self.body
    }

    pub closed spec fn arena(&self) -> Tree<Leaf> {
        self.tree
    }

    pub open spec fn doc(&self) -> Doc {
        doc_of(self.arena().state())
    }

    pub closed spec fn diagnostics(&self) -> Seq<String> {
        self.parse_errors@
    }

    pub fn root(&self) -> (id: NodeId)
        ensures
            id == self.root_id(),
    {
        self.root
    }

    pub fn body(&self) -> (b: Option<NodeId>)
        ensures
            b == self.body_id(),
    {
        self.body
    }

    pub fn tree(&self) -> (t: &Tree<Leaf>)
        ensures
            *t == self.arena(),
            t.well_formed(),
    {
        let _ = self.tree.node_count();
        &self.tree
    }

    /// The diagnostics that the parser reported; none of them is fatal.
    pub fn parse_errors(&self) -> (e: &Vec<String>)
        ensures
            e@ == self.diagnostics(),
    {
        &self.parse_errors
    }

    /// Clears the tree and hands back a builder that reuses its storage.
    pub fn into_builder(self) -> (b: NodeTreeBuilder)
        ensures
            b.root_id() == NodeId(0),
            b.error_id() == NodeId(1),
            b.body_id() is None,
            b.diagnostics().len() == 0,
            b.doc() == Doc::empty().grown().grown(),
    {
        let mut tree = self.tree;
        let mut parse_errors = self.parse_errors;
        tree.clear();
        parse_errors.clear();
        let root = tree.add_node();
        let error = tree.add_node();
        let b = NodeTreeBuilder { root, error, body: None, tree, parse_errors };
        assert(b.doc() =~= Doc::empty().grown().grown());
        b
    }
}

/// An element of the tree together with its id.
pub struct ElementWrapper<'a> {
    pub id: NodeId,
    pub el: &'a Element,
}

impl<'a> ElementWrapper<'a> {
    pub fn name(&self) -> (n: &'a QualName)
        ensures
            *n == self.el.name,
    {
        &self.el.name
    }

    pub fn namespace(&self) -> (n: &'a String)
        ensures
            *n == self.el.name.ns,
    {
        &self.el.name.ns
    }

    pub fn local_name(&self) -> (n: &'a String)
        ensures
            *n == self.el.name.local,
    {
        &self.el.name.local
    }

    /// The value of the attribute with namespace `ns` and local name `name`.
    pub fn attr_ns(&self, ns: &String, name: &String) -> (r: Option<&'a String>)
        ensures
            match r {
                Some(v) => self.el@.attrs.contains_key((ns@, name@)) && self.el@.attrs[(
                    ns@,
                    name@,
                )] == v@,
                None => !self.el@.attrs.contains_key((ns@, name@)),
            },
    {
        let attrs = &self.el.attrs;
        let mut i: usize = 0;
        while i < attrs.len()
            invariant
                i <= attrs.len(),
                attrs == &self.el.attrs,
                forall|j: int| 0 <= j < i ==> attr_key(#[trigger] attrs@[j]) != (ns@, name@),
            decreases attrs.len() - i,
        {
            if attrs[i].name.ns == *ns && attrs[i].name.local == *name {
                proof {
                    lemma_attrs_map_lookup(attrs@, (ns@, name@));
                }
                return Some(&attrs[i].value);
            }
            i = i + 1;
        }
        proof {
            lemma_attrs_map_lookup(attrs@, (ns@, name@));
        }
        None
    }
}

/// A text node of the tree together with its id.
pub struct TextWrapper<'a> {
    pub id: NodeId,
    pub t: &'a Text,
}

/// One step of a walk through the tree in document order.
pub enum EdgeRef<'a> {
    /// An element is entered.
    OpenElement(ElementWrapper<'a>),
    /// The element of this id and local name is left.
    CloseElement(NodeId, String),
    /// A text node is passed.
    Text(TextWrapper<'a>),
}

/// An [`EdgeRef`] without its references.
pub enum EdgeView {
    Open(NodeId),
    Close(NodeId, Seq<char>),
    Text(NodeId),
}

impl<'a> View for EdgeRef<'a> {
    type V = EdgeView;

    open spec fn view(&self) -> EdgeView {
        match self {
            EdgeRef::OpenElement(w) => EdgeView::Open(w.id),
            EdgeRef::CloseElement(id, name) => EdgeView::Close(*id, name@),
            EdgeRef::Text(w) => EdgeView::Text(w.id),
        }
    }
}

impl<'a> EdgeRef<'a> {
    /// The references of the edge point at the payload that `s` holds for its id.
    pub open spec fn linked(&self, s: TreeState<Leaf>) -> bool {
        match self {
            EdgeRef::OpenElement(w) => s.payloads.contains_key(w.id.0) && s.payloads[w.id.0]
                == Leaf::Element(*w.el),
            EdgeRef::CloseElement(id, name) => true,
            EdgeRef::Text(w) => s.payloads.contains_key(w.id.0) && s.payloads[w.id.0]
                == Leaf::Text(*w.t),
        }
    }
}

/// The edge with which a walk enters or passes the child `id`: none for a
/// node that holds nothing.
pub open spec fn edge_of(s: TreeState<Leaf>, id: NodeId) -> Seq<EdgeView> {
    if s.payloads.contains_key(id.0) {
        match s.payloads[id.0] {
            Leaf::Element(_) => seq![EdgeView::Open(id)],
            Leaf::Text(_) => seq![EdgeView::Text(id)],
        }
    } else {
        Seq::empty()
    }
}

/// The edges of the nodes of `list`, in order.
pub open spec fn edges_of(s: TreeState<Leaf>, list: Seq<NodeId>) -> Seq<EdgeView>
    decreases list.len(),
{
    if list.len() == 0 {
        Seq::empty()
    } else {
        edge_of(s, list[0]) + edges_of(s, list.drop_first())
    }
}

/// The edges of the children of `id`, in order.
pub open spec fn child_edges(s: TreeState<Leaf>, id: NodeId) -> Seq<EdgeView> {
    edges_of(s, crate::tree::list_or_empty(s.lists, id.0))
}

/// The local name of the element `id`.
pub open spec fn local_name_of(s: TreeState<Leaf>, id: NodeId) -> Seq<char> {
    s.payloads[id.0]->Element_0.name.local@
}

/// What is left to walk once the first of `pending` was handed out: an
/// opened element puts its children and its own close in front of the rest.
pub open spec fn after_next(s: TreeState<Leaf>, pending: Seq<EdgeView>) -> Seq<EdgeView> {
    match pending[0] {
        EdgeView::Open(id) => child_edges(s, id) + seq![
            EdgeView::Close(id, local_name_of(s, id)),
        ] + pending.drop_first(),
        _ => pending.drop_first(),
    }
}

/// The walk that starts with `pending` and takes at most `fuel` steps.
pub open spec fn walk(s: TreeState<Leaf>, pending: Seq<EdgeView>, fuel: nat) -> Seq<EdgeView>
    decreases fuel,
{
    if fuel == 0 || pending.len() == 0 {
        Seq::empty()
    } else {
        seq![pending[0]] + walk(s, after_next(s, pending), (fuel - 1) as nat)
    }
}

/// The views of the edges of a stack, the top first.
pub open spec fn top_down<'a>(stack: Seq<EdgeRef<'a>>) -> Seq<EdgeView> {
    Seq::new(stack.len(), |i: int| stack[stack.len() - 1 - i]@)
}

/// Walks a subtree in document order, one edge at a time.
pub struct NodeTreeIter<'a> {
    tree: &'a Tree<Leaf>,
    stack: Vec<EdgeRef<'a>>,
}

/// Pushes the edges of the nodes of `children`, the last one first.
fn push_child_edges_rev<'a>(
    tree: &'a Tree<Leaf>,
    children: Option<&Vec<NodeId>>,
    stack: &mut Vec<EdgeRef<'a>>,
)
    requires
        forall|i: int| 0 <= i < old(stack)@.len() ==> (#[trigger] old(stack)@[i]).linked(tree.state()),
    ensures
        forall|i: int| 0 <= i < final(stack)@.len() ==> (#[trigger] final(stack)@[i]).linked(
            tree.state(),
        ),
        top_down(final(stack)@) == edges_of(
            tree.state(),
            match children {
                Some(c) => c@,
                None => Seq::empty(),
            },
        ) + top_down(old(stack)@),
{
    let ghost s = tree.state();
    let ghost base = stack@;
    let children = match children {
        Some(c) => c,
        None => {
            assert(top_down(stack@) =~= Seq::<EdgeView>::empty() + top_down(base));
            return ;
        },
    };
    let mut i: usize = children.len();
    assert(children@.skip(i as int) =~= Seq::<NodeId>::empty());
    assert(top_down(stack@) =~= edges_of(s, children@.skip(i as int)) + top_down(base));
    while i > 0
        invariant
            i <= children.len(),
            s == tree.state(),
            forall|j: int| 0 <= j < stack@.len() ==> (#[trigger] stack@[j]).linked(s),
            top_down(stack@) == edges_of(s, children@.skip(i as int)) + top_down(base),
        decreases i,
    {
        i = i - 1;
        let child = children[i];
        let ghost before = stack@;
        proof {
            assert(children@.skip(i as int).drop_first() =~= children@.skip(i + 1));
        }
        match tree.get_context(child) {
            Some(Leaf::Element(el)) => {
                stack.push(EdgeRef::OpenElement(ElementWrapper { id: child, el }));
                assert(top_down(stack@) =~= seq![EdgeView::Open(child)] + top_down(before));
            },
            Some(Leaf::Text(t)) => {
                stack.push(EdgeRef::Text(TextWrapper { id: child, t }));
                assert(top_down(stack@) =~= seq![EdgeView::Text(child)] + top_down(before));
            },
            None => {},
        }
        assert(top_down(stack@) =~= edges_of(s, children@.skip(i as int)) + top_down(base));
    }
    assert(children@.skip(0) =~= children@);
}

impl<'a> NodeTreeIter<'a> {
    /// The tree that is walked.
    pub closed spec fn source(&self) -> Tree<Leaf> {
        *self.tree
    }

    /// The edges that are known to come, the next one first. More come in
    /// front of the second when the first opens an element.
    pub closed spec fn pending(&self) -> Seq<EdgeView> {
        top_down(self.stack@)
    }

    #[verifier::type_invariant]
    spec fn inv(&self) -> bool {
        forall|i: int| 0 <= i < self.stack@.len() ==> (#[trigger] self.stack@[i]).linked(
            self.tree.state(),
        )
    }

    /// A walk through what hangs under `id`.
    pub fn new(tree: &'a Tree<Leaf>, id: NodeId) -> (it: Self)
        ensures
            it.source() == *tree,
            it.pending() == child_edges(tree.state(), id),
    {
        let mut stack: Vec<EdgeRef<'a>> = Vec::new();
        assert(top_down(stack@) =~= Seq::<EdgeView>::empty());
        push_child_edges_rev(tree, tree.children(id), &mut stack);
        assert(top_down(stack@) =~= child_edges(tree.state(), id));
        Self { tree, stack }
    }

    /// Hands out the next edge of the walk, until none is left.
    pub fn next(&mut self) -> (r: Option<EdgeRef<'a>>)
        ensures
            final(self).source() == old(self).source(),
            match r {
                Some(e) => old(self).pending().len() > 0 && e@ == old(self).pending()[0]
                    && e.linked(old(self).source().state()) && final(self).pending()
                    == after_next(old(self).source().state(), old(self).pending()),
                None => old(self).pending().len() == 0 && final(self).pending().len() == 0,
            },
    {
        proof {
            use_type_invariant(&*self);
        }
        let ghost s = self.tree.state();
        let ghost pending0 = top_down(self.stack@);
        let mut stack: Vec<EdgeRef<'a>> = Vec::new();
        std::mem::swap(&mut self.stack, &mut stack);
        let ghost before = stack@;
        let node = match stack.pop() {
            Some(n) => n,
            None => {
                return None;
            },
        };
        assert(top_down(stack@) =~= pending0.drop_first());
        assert(node == before[before.len() - 1]);
        if let EdgeRef::OpenElement(w) = &node {
            let id = w.id;
            stack.push(EdgeRef::CloseElement(id, w.el.name.local.clone()));
            assert(top_down(stack@) =~= seq![EdgeView::Close(id, local_name_of(s, id))]
                + pending0.drop_first());
            push_child_edges_rev(self.tree, self.tree.children(id), &mut stack);
            assert(top_down(stack@) =~= after_next(s, pending0));
        }
        self.stack = stack;
        Some(node)
    }
}

impl NodeTreeResult {
    /// A walk through what hangs under the body container; `None` where the
    /// parser met no body.
    pub fn body_iter<'a>(&'a self) -> (r: Option<NodeTreeIter<'a>>)
        ensures
            match r {
                Some(it) => self.body_id() is Some && it.source() == self.arena() && it.pending()
                    == child_edges(self.arena().state(), self.body_id()->0),
                None => self.body_id() is None,
            },
    {
        match self.body {
            Some(id) => Some(NodeTreeIter::new(&self.tree, id)),
            None => None,
        }
    }
}

/// The key `k` is in the map of `s` exactly if an entry of `s` has it, and
/// then the map holds the value of the first such entry.
pub proof fn lemma_attrs_map_lookup(s: Seq<Attribute>, k: AttrKey)
    ensures
        attrs_map(s).contains_key(k) <==> exists|i: int|
            0 <= i < s.len() && attr_key(#[trigger] s[i]) == k,
        forall|i: int|
            0 <= i < s.len() && attr_key(#[trigger] s[i]) == k && (forall|j: int|
                0 <= j < i ==> attr_key(#[trigger] s[j]) != k) ==> attrs_map(s)[k] == s[i].value@,
    decreases s.len(),
{
    if s.len() > 0 {
        let rest = s.drop_first();
        lemma_attrs_map_lookup(rest, k);
        if attrs_map(s).contains_key(k) {
            if attr_key(s[0]) == k {
            } else {
                let i = choose|i: int| 0 <= i < rest.len() && attr_key(#[trigger] rest[i]) == k;
                assert(attr_key(s[i + 1]) == k);
            }
        }
        if exists|i: int| 0 <= i < s.len() && attr_key(#[trigger] s[i]) == k {
            let i = choose|i: int| 0 <= i < s.len() && attr_key(#[trigger] s[i]) == k;
            if i > 0 {
                assert(attr_key(rest[i - 1]) == k);
            }
        }
        assert forall|i: int|
            0 <= i < s.len() && attr_key(#[trigger] s[i]) == k && (forall|j: int|
                0 <= j < i ==> attr_key(#[trigger] s[j]) != k) implies attrs_map(s)[k]
            == s[i].value@ by {
            if i > 0 {
                assert(attr_key(s[0]) != k);
                assert(attr_key(rest[i - 1]) == k);
                assert forall|j: int| 0 <= j < i - 1 implies attr_key(#[trigger] rest[j]) != k by {
                    assert(attr_key(s[j + 1]) != k);
                }
            }
        }
    }
}

/// An attribute put in the place of the first entry with its key changes
/// the value of that key and nothing else.
pub proof fn lemma_attrs_map_update(s: Seq<Attribute>, i: int, a: Attribute)
    requires
        0 <= i < s.len(),
        attr_key(s[i]) == attr_key(a),
        forall|j: int| 0 <= j < i ==> attr_key(#[trigger] s[j]) != attr_key(a),
    ensures
        attrs_map(s.update(i, a)) == attrs_map(s).insert(attr_key(a), a.value@),
    decreases s.len(),
{
    let rest = s.drop_first();
    if i == 0 {
        assert(s.update(0, a).drop_first() =~= rest);
        assert(attrs_map(s.update(0, a)) =~= attrs_map(s).insert(attr_key(a), a.value@));
    } else {
        assert(attr_key(s[0]) != attr_key(a));
        assert forall|j: int| 0 <= j < i - 1 implies attr_key(#[trigger] rest[j]) != attr_key(a) by {
            assert(attr_key(s[j + 1]) != attr_key(a));
        }
        lemma_attrs_map_update(rest, i - 1, a);
        assert(s.update(i, a).drop_first() =~= rest.update(i - 1, a));
        assert(attrs_map(s.update(i, a)) =~= attrs_map(s).insert(attr_key(a), a.value@));
    }
}

/// An attribute whose key is not taken may be added at the end of the list.
pub proof fn lemma_attrs_map_push(s: Seq<Attribute>, a: Attribute)
    requires
        !attrs_map(s).contains_key(attr_key(a)),
    ensures
        attrs_map(s.push(a)) == attrs_map(s).insert(attr_key(a), a.value@),
    decreases s.len(),
{
    if s.len() == 0 {
        assert(s.push(a).drop_first() =~= s);
        assert(attrs_map(s.push(a)) =~= attrs_map(s).insert(attr_key(a), a.value@));
    } else {
        let rest = s.drop_first();
        lemma_attrs_map_push(rest, a);
        assert(s.push(a).drop_first() =~= rest.push(a));
        assert(attrs_map(s.push(a)) =~= attrs_map(s).insert(attr_key(a), a.value@));
    }
}

/// Text that holds a character other than white space stays non-blank when
/// more text follows.
pub proof fn lemma_not_blank_concat(t1: Seq<char>, t2: Seq<char>)
    requires
        !is_blank(t1),
    ensures
        !is_blank(t1 + t2),
{
    let i = choose|i: int| 0 <= i < t1.len() && !is_white_space(#[trigger] t1[i]);
    assert((t1 + t2)[i] == t1[i]);
}

/// Every text node holds a character other than white space.
pub open spec fn texts_hold_text(d: Doc) -> bool {
    forall|k: u32|
        #![trigger d.payloads[k]]
        d.payloads.contains_key(k) && d.payloads[k] is Text ==> !is_blank(d.payloads[k]->Text_0)
}

/// Text of nothing but white space never becomes a node: it leaves the tree
/// as it is, and a tree whose text nodes all hold text stays such a tree
/// whatever text is appended or inserted.
pub proof fn lemma_blank_text_is_no_node(d: Doc, at: NodeId, t: Seq<char>)
    requires
        texts_hold_text(d),
        d.count < u32::MAX,
    ensures
        is_blank(t) ==> text_appended(d, at, t) == d && text_inserted(d, at, t) == d,
        texts_hold_text(text_appended(d, at, t)),
        texts_hold_text(text_inserted(d, at, t)),
{
    if !is_blank(t) {
        match text_node(d, d.last_child(at)) {
            Some(last) => {
                lemma_not_blank_concat(d.payloads[last.0]->Text_0, t);
            },
            None => {},
        }
        match text_node(d, older_sibling(d, at)) {
            Some(prev) => {
                lemma_not_blank_concat(d.payloads[prev.0]->Text_0, t);
            },
            None => {},
        }
    }
}

/// Two runs of text appended one after the other under one parent give the
/// tree that the joined run gives: one text node holds both, however the
/// text arrives in pieces.
pub proof fn lemma_adjacent_text_coalesces(d: Doc, parent: NodeId, t1: Seq<char>, t2: Seq<char>)
    requires
        d.well_formed(),
        d.known(parent),
        d.count + 1 < u32::MAX,
        !is_blank(t1),
        !is_blank(t2),
    ensures
        text_appended(text_appended(d, parent, t1), parent, t2) == text_appended(
            d,
            parent,
            t1 + t2,
        ),
{
    lemma_not_blank_concat(t1, t2);
    let d1 = text_appended(d, parent, t1);
    match text_node(d, d.last_child(parent)) {
        Some(last) => {
            let old_text = d.payloads[last.0]->Text_0;
            assert(d1.last_child(parent) == Some(last));
            assert(text_node(d1, d1.last_child(parent)) == Some(last));
            assert((old_text + t1) + t2 =~= old_text + (t1 + t2));
            assert(text_appended(d1, parent, t2) =~= text_appended(d, parent, t1 + t2));
        },
        None => {
            let n = NodeId(d.count as u32);
            let g = d.grown().with_payload(n, LeafView::Text(t1));
            assert(g.known(n) && g.known(parent));
            assert(d1 == g.attached(parent, n));
            let lists = crate::tree::detach(g.lists, g.parents, n);
            assert(!g.parents.contains_key(n.0));
            assert(lists == g.lists);
            assert(d1.lists[parent.0].last() == n);
            assert(d1.last_child(parent) == Some(n));
            assert(d1.payloads[n.0] == LeafView::Text(t1));
            assert(text_node(d1, d1.last_child(parent)) == Some(n));
            assert(text_appended(d1, parent, t2) =~= text_appended(d, parent, t1 + t2));
        },
    }
}

} // verus!
