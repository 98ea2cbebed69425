use illustrator::html_parser::{Attribute, NodeOrText, NodeTreeBuilder, QualName};
use illustrator::serialize::serialize;
use illustrator::tree::NodeId;

fn name(local: &str) -> QualName {
    QualName { prefix: None, ns: String::from("http://www.w3.org/2000/svg"), local: local.to_string() }
}

fn attr(prefix: Option<&str>, local: &str, value: &str) -> Attribute {
    Attribute {
        name: QualName {
            prefix: prefix.map(|p| p.to_string()),
            ns: String::new(),
            local: local.to_string(),
        },
        value: value.to_string(),
    }
}

fn element(b: &mut NodeTreeBuilder, parent: NodeId, local: &str, attrs: Vec<Attribute>) -> NodeId {
    let id = b.create_element(name(local), attrs);
    b.append(parent, NodeOrText::AppendNode(id));
    id
}

#[test]
fn a_drawing_is_written_out_as_markup() {
    let mut b = NodeTreeBuilder::new();
    let root = b.get_document();
    let svg = element(
        &mut b,
        root,
        "svg",
        vec![attr(None, "width", "10"), attr(Some("xmlns"), "xlink", "http://www.w3.org/1999/xlink")],
    );
    let g = element(&mut b, svg, "g", vec![]);
    element(&mut b, g, "image", vec![attr(Some("xlink"), "href", "a&b.png")]);
    let text = element(&mut b, g, "text", vec![attr(None, "title", "say \"<hi>\"")]);
    b.append(text, NodeOrText::AppendText("1 < 2 & 3 > 2".to_string()));
    b.create_comment("left out");
    element(&mut b, svg, "rect", vec![]);
    let tree = b.finish();
    assert_eq!(
        serialize(tree.tree(), svg).as_deref(),
        Some(concat_all(&[
            "<svg width=\"10\" xmlns:xlink=\"http://www.w3.org/1999/xlink\">",
            "<g><image xlink:href=\"a&amp;b.png\"></image>",
            "<text title=\"say &quot;&lt;hi&gt;&quot;\">1 &lt; 2 &amp; 3 &gt; 2</text></g>",
            "<rect></rect></svg>",
        ])
        .as_str())
    );
    assert_eq!(serialize(tree.tree(), g).map(|m| m.len()), Some(118));
    // What is no element has no markup.
    assert_eq!(serialize(tree.tree(), root), None);
    assert_eq!(serialize(tree.tree(), NodeId(99)), None);
    let text_node = tree.tree().children(text).unwrap()[0];
    assert_eq!(serialize(tree.tree(), text_node), None);
}

fn concat_all(parts: &[&str]) -> String {
    parts.iter().map(|p| p.to_string()).collect()
}

#[test]
fn a_subtree_that_runs_in_a_circle_has_no_markup() {
    let mut b = NodeTreeBuilder::new();
    let root = b.get_document();
    let a = element(&mut b, root, "a", vec![]);
    let c = element(&mut b, a, "c", vec![]);
    b.append(c, NodeOrText::AppendNode(a));
    let tree = b.finish();
    assert_eq!(serialize(tree.tree(), a), None);
    assert_eq!(serialize(tree.tree(), c), None);
}
