use std::borrow::Cow;
use std::cell::{Ref, RefCell};

use html5ever::interface::{ElementFlags, NodeOrText as ParsedNodeOrText, QuirksMode, TreeSink};
use html5ever::parse_document;
use html5ever::tendril::{StrTendril, TendrilSink};

use illustrator::html_parser::{
    Attribute, EdgeRef, Leaf, NodeOrText, NodeTreeBuilder, NodeTreeIter, NodeTreeResult, QualName,
    TreeBuilderError,
};
use illustrator::tree::{NodeId, Tree};

/// Hands the insertion calls of the parser on to a builder.
struct Sink {
    builder: RefCell<NodeTreeBuilder>,
    names: RefCell<Vec<Option<html5ever::QualName>>>,
}

impl Sink {
    fn new(builder: NodeTreeBuilder) -> Self {
        Sink { builder: RefCell::new(builder), names: RefCell::new(Vec::new()) }
    }

    fn remember(&self, id: NodeId, name: Option<html5ever::QualName>) {
        let mut names = self.names.borrow_mut();
        let at = id.value() as usize;
        while names.len() <= at {
            names.push(None);
        }
        names[at] = name;
    }
}

fn plain_name(name: &html5ever::QualName) -> QualName {
    QualName {
        prefix: name.prefix.as_ref().map(|p| p.to_string()),
        ns: name.ns.to_string(),
        local: name.local.to_string(),
    }
}

fn plain_attrs(attrs: Vec<html5ever::Attribute>) -> Vec<Attribute> {
    attrs
        .into_iter()
        .map(|a| Attribute { name: plain_name(&a.name), value: a.value.to_string() })
        .collect()
}

fn plain_child(child: ParsedNodeOrText<NodeId>) -> NodeOrText {
    match child {
        ParsedNodeOrText::AppendNode(id) => NodeOrText::AppendNode(id),
        ParsedNodeOrText::AppendText(t) => NodeOrText::AppendText(t.to_string()),
    }
}

impl TreeSink for Sink {
    type Handle = NodeId;
    type Output = NodeTreeResult;
    type ElemName<'a> = Ref<'a, html5ever::QualName>;

    fn finish(self) -> NodeTreeResult {
        self.builder.into_inner().finish()
    }

    fn parse_error(&self, msg: Cow<'static, str>) {
        self.builder.borrow_mut().parse_error(msg.into_owned());
    }

    fn get_document(&self) -> NodeId {
        self.builder.borrow().get_document()
    }

    fn elem_name<'a>(&'a self, target: &'a NodeId) -> Ref<'a, html5ever::QualName> {
        Ref::map(self.names.borrow(), |names| {
            names[target.value() as usize].as_ref().expect("Not element node")
        })
    }

    fn create_element(
        &self,
        name: html5ever::QualName,
        attrs: Vec<html5ever::Attribute>,
        _flags: ElementFlags,
    ) -> NodeId {
        let id = self.builder.borrow_mut().create_element(plain_name(&name), plain_attrs(attrs));
        self.remember(id, Some(name));
        id
    }

    fn create_comment(&self, text: StrTendril) -> NodeId {
        self.builder.borrow_mut().create_comment(&text)
    }

    fn create_pi(&self, target: StrTendril, data: StrTendril) -> NodeId {
        self.builder.borrow_mut().create_pi(&target, &data)
    }

    fn append(&self, parent: &NodeId, child: ParsedNodeOrText<NodeId>) {
        self.builder.borrow_mut().append(*parent, plain_child(child));
    }

    fn append_based_on_parent_node(
        &self,
        element: &NodeId,
        prev_element: &NodeId,
        child: ParsedNodeOrText<NodeId>,
    ) {
        self.builder.borrow_mut().append_based_on_parent_node(
            *element,
            *prev_element,
            plain_child(child),
        );
    }

    fn append_doctype_to_document(&self, _: StrTendril, _: StrTendril, _: StrTendril) {}

    fn get_template_contents(&self, target: &NodeId) -> NodeId {
        self.builder.borrow().get_template_contents(*target)
    }

    fn same_node(&self, x: &NodeId, y: &NodeId) -> bool {
        self.builder.borrow().same_node(*x, *y)
    }

    fn set_quirks_mode(&self, _mode: QuirksMode) {}

    fn append_before_sibling(&self, sibling: &NodeId, new_node: ParsedNodeOrText<NodeId>) {
        let _ = self.builder.borrow_mut().append_before_sibling(*sibling, plain_child(new_node));
    }

    fn add_attrs_if_missing(&self, target: &NodeId, attrs: Vec<html5ever::Attribute>) {
        let _ = self.builder.borrow_mut().add_attrs_if_missing(*target, plain_attrs(attrs));
    }

    fn remove_from_parent(&self, target: &NodeId) {
        self.builder.borrow_mut().remove_from_parent(*target);
    }

    fn reparent_children(&self, node: &NodeId, new_parent: &NodeId) {
        self.builder.borrow_mut().reparent_children(*node, *new_parent);
    }
}

fn is_element(tree: &Tree<Leaf>, id: NodeId, local: &str) -> bool {
    matches!(tree.get_context(id), Some(Leaf::Element(element)) if element.name.local == local)
}

fn name(local: &str) -> QualName {
    QualName { prefix: None, ns: String::from("http://www.w3.org/1999/xhtml"), local: local.to_string() }
}

fn attr(local: &str, value: &str) -> Attribute {
    Attribute {
        name: QualName { prefix: None, ns: String::new(), local: local.to_string() },
        value: value.to_string(),
    }
}

fn text_of(tree: &Tree<Leaf>, id: NodeId) -> String {
    match tree.get_context(id) {
        Some(Leaf::Text(t)) => t.t.clone(),
        _ => panic!("no text node"),
    }
}

#[test]
fn test_html_parser_text() {
    let input = "testing";

    let parser = parse_document(Sink::new(NodeTreeBuilder::new()), Default::default());
    let tree = parser.one(input);

    let children = tree.tree().children(tree.root()).unwrap();
    let html_id = children
        .iter()
        .find(|n| is_element(tree.tree(), **n, "html"))
        .expect("Missing html element");

    let children = tree.tree().children(*html_id).unwrap();
    children
        .iter()
        .find(|&n| is_element(tree.tree(), *n, "head"))
        .expect("Missing head element");
    children
        .iter()
        .find(|&n| is_element(tree.tree(), *n, "body"))
        .expect("Missing body element");

    assert_eq!(tree.tree().node_count(), 6, "Unpected amount of nodes in tree");
}

#[test]
fn test_html_parser_html() {
    let input = r#"<!DOCTYPE html>
<html lang="en">
  <head>
    <meta charset="utf-8">
    <title>title</title>
    <link rel="stylesheet" href="style.css">
    <script src="script.js"></script>
  </head>
  <body>
    <!-- page content -->
  </body>
</html>
"#;

    let parser = parse_document(Sink::new(NodeTreeBuilder::new()), Default::default());
    parser.one(input);
}

#[test]
fn test_html_parser_basic_iter() {
    let input = "testing";

    let parser = parse_document(Sink::new(NodeTreeBuilder::new()), Default::default());
    let node_tree = parser.one(input);

    let mut has_html = false;
    let mut has_head = false;
    let mut has_body = false;

    let mut node_iter = NodeTreeIter::new(node_tree.tree(), node_tree.root());
    while let Some(n) = node_iter.next() {
        match n {
            EdgeRef::OpenElement(el) => {
                if el.local_name() == "html" {
                    has_html = true;
                }
                if el.local_name() == "head" {
                    has_head = true;
                }
                if el.local_name() == "body" {
                    has_body = true;
                }
            }
            EdgeRef::CloseElement(_, _) => {}
            EdgeRef::Text(illustrator::html_parser::TextWrapper { t, .. }) => {
                let s: &str = &t.t;
                assert_eq!(s, input, "Unexpected text content");
            }
        }
    }

    assert!(has_html, "Missing html element");
    assert!(has_head, "Missing head element");
    assert!(has_body, "Missing body element");
}

#[test]
fn parsed_page_has_body_and_no_blank_text() {
    let input = "<html><body>\n  <p>one <b>two</b>\n</p>\n\n<p>three</p>  </body></html>";
    let tree = parse_document(Sink::new(NodeTreeBuilder::new()), Default::default()).one(input);
    let body = tree.body().expect("body");
    assert!(is_element(tree.tree(), body, "body"));
    let mut texts = Vec::new();
    let mut it = tree.body_iter().unwrap();
    while let Some(edge) = it.next() {
        if let EdgeRef::Text(t) = edge {
            texts.push(t.t.t.clone());
        }
    }
    assert_eq!(texts, vec!["one ", "two", "three"]);
    for n in 0..tree.tree().node_count() {
        if let Some(Leaf::Text(t)) = tree.tree().get_context(NodeId(n)) {
            assert!(!t.t.trim().is_empty());
        }
    }
}

#[test]
fn builder_is_reused_after_reset() {
    let tree = parse_document(Sink::new(NodeTreeBuilder::new()), Default::default()).one("<p>a</p>");
    let count = tree.tree().node_count();
    assert!(count > 2);
    let builder = tree.into_builder();
    assert_eq!(builder.tree().node_count(), 2);
    assert_eq!(builder.body(), None);
    let again = parse_document(Sink::new(builder), Default::default()).one("<p>a</p>");
    assert_eq!(again.tree().node_count(), count);
}

#[test]
fn adjacent_text_is_one_node() {
    let mut b = NodeTreeBuilder::new();
    let p = b.create_element(name("p"), vec![]);
    b.append(b.get_document(), NodeOrText::AppendNode(p));
    let before = b.tree().node_count();
    b.append(p, NodeOrText::AppendText("Hello, ".to_string()));
    b.append(p, NodeOrText::AppendText("world".to_string()));
    b.append(p, NodeOrText::AppendText("!".to_string()));
    assert_eq!(b.tree().node_count(), before + 1);
    let children = b.tree().children(p).unwrap().clone();
    assert_eq!(children.len(), 1);
    assert_eq!(text_of(b.tree(), children[0]), "Hello, world!");

    // The same text in one piece gives the same tree.
    let mut c = NodeTreeBuilder::new();
    let q = c.create_element(name("p"), vec![]);
    c.append(c.get_document(), NodeOrText::AppendNode(q));
    c.append(q, NodeOrText::AppendText("Hello, world!".to_string()));
    assert_eq!(c.tree().node_count(), b.tree().node_count());
    assert_eq!(text_of(c.tree(), c.tree().children(q).unwrap()[0]), "Hello, world!");
}

#[test]
fn text_after_an_element_is_a_new_node() {
    let mut b = NodeTreeBuilder::new();
    let p = b.create_element(name("p"), vec![]);
    b.append(p, NodeOrText::AppendText("a".to_string()));
    let em = b.create_element(name("em"), vec![]);
    b.append(p, NodeOrText::AppendNode(em));
    b.append(p, NodeOrText::AppendText("b".to_string()));
    let children = b.tree().children(p).unwrap().clone();
    assert_eq!(children.len(), 3);
    assert_eq!(text_of(b.tree(), children[0]), "a");
    assert_eq!(children[1], em);
    assert_eq!(text_of(b.tree(), children[2]), "b");
}

#[test]
fn blank_text_makes_no_node() {
    let mut b = NodeTreeBuilder::new();
    let p = b.create_element(name("p"), vec![]);
    let before = b.tree().node_count();
    for blank in ["", " ", "\n\t  \r\n", "\u{a0}\u{2003}\u{3000}", "\u{85}\u{1680}\u{2028}\u{2029}\u{202f}\u{205f}"] {
        b.append(p, NodeOrText::AppendText(blank.to_string()));
        assert!(b.append_before_sibling(p, NodeOrText::AppendText(blank.to_string())).is_ok());
    }
    assert_eq!(b.tree().node_count(), before);
    assert!(b.tree().children(p).is_none());
    // A zero-width space is no white space.
    b.append(p, NodeOrText::AppendText("\u{200b}".to_string()));
    assert_eq!(b.tree().node_count(), before + 1);
    // White space around text stays in the text.
    b.append(p, NodeOrText::AppendText(" x ".to_string()));
    assert_eq!(text_of(b.tree(), b.tree().children(p).unwrap()[0]), "\u{200b} x ");
}

#[test]
fn insert_before_a_sibling() {
    let mut b = NodeTreeBuilder::new();
    let root = b.get_document();
    let ul = b.create_element(name("ul"), vec![]);
    b.append(root, NodeOrText::AppendNode(ul));
    let first = b.create_element(name("li"), vec![]);
    let second = b.create_element(name("li"), vec![]);
    b.append(ul, NodeOrText::AppendNode(second));
    assert!(b.append_before_sibling(second, NodeOrText::AppendNode(first)).is_ok());
    assert_eq!(b.tree().children(ul).unwrap(), &vec![first, second]);
    assert_eq!(b.tree().parent(first), Some(ul));

    // Text in front of a sibling joins the text before it.
    assert!(b.append_before_sibling(second, NodeOrText::AppendText("x".to_string())).is_ok());
    assert!(b.append_before_sibling(second, NodeOrText::AppendText("y".to_string())).is_ok());
    let children = b.tree().children(ul).unwrap().clone();
    assert_eq!(children.len(), 3);
    assert_eq!(children[0], first);
    assert_eq!(text_of(b.tree(), children[1]), "xy");
    assert_eq!(children[2], second);

    // Moving a node takes it out of its old place.
    assert!(b.append_before_sibling(first, NodeOrText::AppendNode(second)).is_ok());
    assert_eq!(b.tree().children(ul).unwrap(), &vec![second, first, children[1]]);
}

#[test]
fn sibling_without_parent_is_an_error() {
    let mut b = NodeTreeBuilder::new();
    let orphan = b.create_element(name("div"), vec![]);
    let node = b.create_element(name("p"), vec![]);
    let before = b.tree().node_count();
    match b.append_before_sibling(orphan, NodeOrText::AppendNode(node)) {
        Err(TreeBuilderError::SiblingWithoutParent(id)) => assert_eq!(id, orphan),
        other => panic!("unexpected {other:?}"),
    }
    assert_eq!(b.tree().node_count(), before);
    assert_eq!(b.tree().parent(node), None);
    assert!(matches!(
        b.append_before_sibling(orphan, NodeOrText::AppendText("t".to_string())),
        Err(TreeBuilderError::SiblingWithoutParent(_))
    ));

    // Without a parent the node goes to the element before.
    let prev = b.create_element(name("section"), vec![]);
    b.append_based_on_parent_node(orphan, prev, NodeOrText::AppendNode(node));
    assert_eq!(b.tree().parent(node), Some(prev));
    b.append(prev, NodeOrText::AppendNode(orphan));
    let other = b.create_element(name("p"), vec![]);
    b.append_based_on_parent_node(orphan, prev, NodeOrText::AppendNode(other));
    assert_eq!(b.tree().children(prev).unwrap(), &vec![node, other, orphan]);
}

#[test]
fn children_move_and_nodes_detach() {
    let mut b = NodeTreeBuilder::new();
    let a = b.create_element(name("div"), vec![]);
    let c = b.create_element(name("div"), vec![]);
    let x = b.create_element(name("p"), vec![]);
    let y = b.create_element(name("p"), vec![]);
    let z = b.create_element(name("p"), vec![]);
    b.append(a, NodeOrText::AppendNode(x));
    b.append(a, NodeOrText::AppendNode(y));
    b.append(c, NodeOrText::AppendNode(z));
    b.reparent_children(a, c);
    assert_eq!(b.tree().children(c).unwrap(), &vec![z, x, y]);
    assert_eq!(b.tree().children(a).unwrap().len(), 0);
    assert_eq!(b.tree().parent(x), Some(c));
    b.remove_from_parent(x);
    assert_eq!(b.tree().children(c).unwrap(), &vec![z, y]);
    // Other ids stay good.
    assert!(is_element(b.tree(), y, "p"));
    assert_eq!(b.get_template_contents(c), z);
    assert_eq!(b.get_template_contents(x), NodeId(1));
    assert_eq!(b.get_template_contents(a), NodeId(1));
    assert!(b.same_node(x, x));
    assert!(!b.same_node(x, y));
}

#[test]
fn attributes_are_kept_once() {
    let mut b = NodeTreeBuilder::new();
    let e = b.create_element(name("a"), vec![attr("href", "one"), attr("id", "x"), attr("href", "two")]);
    assert!(b.add_attrs_if_missing(e, vec![attr("href", "three"), attr("rel", "r"), attr("rel", "s")]).is_ok());
    let wrapper = match b.tree().get_context(e) {
        Some(Leaf::Element(el)) => illustrator::html_parser::ElementWrapper { id: e, el },
        _ => panic!("no element"),
    };
    let ns = String::new();
    assert_eq!(wrapper.attr_ns(&ns, &"href".to_string()).map(|s| s.as_str()), Some("two"));
    assert_eq!(wrapper.attr_ns(&ns, &"id".to_string()).map(|s| s.as_str()), Some("x"));
    assert_eq!(wrapper.attr_ns(&ns, &"rel".to_string()).map(|s| s.as_str()), Some("r"));
    assert_eq!(wrapper.attr_ns(&ns, &"class".to_string()), None);
    // The attributes stand in the order in which their keys came.
    let keys: Vec<_> = wrapper.el.attrs.iter().map(|a| a.name.local.as_str()).collect();
    assert_eq!(keys, vec!["href", "id", "rel"]);
    assert_eq!(wrapper.attr_ns(&"other".to_string(), &"href".to_string()), None);
    assert_eq!(wrapper.local_name(), "a");
    assert_eq!(b.elem_name(e).map(|n| n.local.as_str()), Some("a"));

    let comment = b.create_comment("c");
    assert!(b.elem_name(comment).is_none());
    assert!(matches!(
        b.add_attrs_if_missing(comment, vec![attr("a", "b")]),
        Err(TreeBuilderError::NotAnElement(id)) if id == comment
    ));
}

#[test]
fn body_is_marked_and_errors_are_kept() {
    let mut b = NodeTreeBuilder::new();
    assert_eq!(b.get_document(), NodeId(0));
    assert_eq!(b.body(), None);
    let _div = b.create_element(name("div"), vec![]);
    assert_eq!(b.body(), None);
    let body = b.create_element(name("body"), vec![]);
    assert_eq!(b.body(), Some(body));
    let pi = b.create_pi("xml", "version");
    assert_eq!(pi.value(), body.value() + 1);
    b.parse_error("odd markup".to_string());
    let result = b.finish();
    assert_eq!(result.parse_errors(), &vec!["odd markup".to_string()]);
    assert_eq!(result.body(), Some(body));
    assert_eq!(result.root(), NodeId(0));
}

#[test]
fn tree_ignores_ids_it_did_not_hand_out() {
    let mut tree: Tree<u8> = Tree::new();
    let a = tree.add_node_with_context(1);
    let b = tree.add_node();
    tree.add_child(a, NodeId(7));
    tree.add_child(NodeId(7), b);
    assert!(tree.children(a).is_none());
    assert!(tree.parent(b).is_none());
    assert!(!tree.add_child_before_sibling(b, a));
    tree.add_child(a, b);
    assert!(tree.add_child_before_sibling(b, NodeId(9)));
    assert_eq!(tree.children(a).unwrap(), &vec![b]);
    tree.set_context(NodeId(9), 3);
    assert!(tree.get_context(NodeId(9)).is_none());
    assert_eq!(tree.take_context(a), Some(1));
    assert!(tree.get_context(a).is_none());
    assert!(tree.contains(b));
    tree.clear();
    assert_eq!(tree.node_count(), 0);
    assert!(!tree.contains(a));
}

#[test]
fn text_before_an_orphan_changes_nothing() {
    let mut b = NodeTreeBuilder::new();
    let p = b.create_element(name("p"), vec![]);
    let before = b.tree().node_count();
    match b.append_before_sibling(p, NodeOrText::AppendText("lost".to_string())) {
        Err(TreeBuilderError::SiblingWithoutParent(id)) => assert_eq!(id, p),
        other => panic!("unexpected {other:?}"),
    }
    assert_eq!(b.tree().node_count(), before);
    let em = b.create_element(name("em"), vec![]);
    assert!(b.append_before_sibling(p, NodeOrText::AppendNode(em)).is_err());
    assert!(b.tree().parent(em).is_none());
    assert!(b.tree().children(p).is_none());
    // Before a sibling that has a parent the text is a node of its own.
    b.append(b.get_document(), NodeOrText::AppendNode(p));
    assert!(b.append_before_sibling(p, NodeOrText::AppendText("found".to_string())).is_ok());
    assert_eq!(b.tree().node_count(), before + 2);
    let children = b.tree().children(b.get_document()).unwrap().clone();
    assert_eq!(children.len(), 2);
    assert_eq!(text_of(b.tree(), children[0]), "found");
    assert_eq!(children[1], p);
}
