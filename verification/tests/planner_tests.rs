use illustrator::error::IllustratorRenderError;
use illustrator::html_parser::{NodeOrText, NodeTreeBuilder, QualName};
use illustrator::layout::{BlockKind, LayoutPlan, TextRole, TextSpan, TextStyle};
use illustrator::planner::{classify, plan_layout, text_style, Tag};
use illustrator::tree::NodeId;

const BODY: TextStyle =
    TextStyle { metrics: TextRole::Body, attrs: TextRole::Body, bold: false, italic: false };

fn name(local: &str) -> QualName {
    QualName { prefix: None, ns: String::new(), local: local.to_string() }
}

fn element(b: &mut NodeTreeBuilder, parent: NodeId, local: &str) -> NodeId {
    let id = b.create_element(name(local), vec![]);
    b.append(parent, NodeOrText::AppendNode(id));
    id
}

fn text(b: &mut NodeTreeBuilder, parent: NodeId, t: &str) {
    b.append(parent, NodeOrText::AppendText(t.to_string()));
}

#[test]
fn tags_are_told_apart() {
    assert_eq!(classify("h1"), Tag::H1);
    assert_eq!(classify("h4"), Tag::H4);
    assert_eq!(classify("strong"), Tag::Strong);
    assert_eq!(classify("p"), Tag::P);
    assert_eq!(classify("P"), Tag::Other);
    assert_eq!(classify("div"), Tag::Other);
    assert_eq!(classify(""), Tag::Other);
    for tag in [Tag::H1, Tag::H2, Tag::H3, Tag::H4] {
        assert!(tag.has_text_style() && !tag.is_non_block());
    }
    for tag in [Tag::Strong, Tag::B, Tag::Em, Tag::I] {
        assert!(tag.has_text_style() && tag.is_non_block());
    }
    assert!(!Tag::P.has_text_style() && !Tag::P.is_non_block());
    assert_eq!(Tag::P.element_style(), BlockKind::Paragraph);
    assert_eq!(Tag::H1.element_style(), BlockKind::Plain);
}

#[test]
fn styles_nest() {
    let bold = text_style(BODY, Tag::B);
    assert_eq!(bold, TextStyle { bold: true, ..BODY });
    let both = text_style(bold, Tag::Em);
    assert_eq!(both, TextStyle { bold: true, italic: true, ..BODY });
    let h1 = text_style(both, Tag::H1);
    assert_eq!(
        h1,
        TextStyle { metrics: TextRole::Heading1, attrs: TextRole::Heading1, bold: false, italic: false }
    );
    assert_eq!(text_style(h1, Tag::Strong), TextStyle { bold: true, ..h1 });
    assert_eq!(text_style(BODY, Tag::H3).metrics, TextRole::Heading2);
    assert_eq!(text_style(h1, Tag::P), BODY);
}

#[test]
fn chapter_without_body_has_no_plan() {
    let mut b = NodeTreeBuilder::new();
    let root = b.get_document();
    element(&mut b, root, "html");
    assert!(matches!(plan_layout(&b.finish()), Err(IllustratorRenderError::MissingBody)));
}

#[test]
fn blocks_and_runs_follow_the_document() {
    let mut b = NodeTreeBuilder::new();
    let root = b.get_document();
    let html = element(&mut b, root, "html");
    let body = element(&mut b, html, "body");
    let h1 = element(&mut b, body, "h1");
    text(&mut b, h1, "Title");
    let div = element(&mut b, body, "div");
    let p = element(&mut b, div, "p");
    text(&mut b, p, "one ");
    let strong = element(&mut b, p, "strong");
    text(&mut b, strong, "two");
    text(&mut b, p, " three");
    let empty = element(&mut b, div, "p");
    let tree = b.finish();
    let plan = plan_layout(&tree).unwrap();

    let blocks = plan.blocks();
    assert_eq!(blocks.len(), 4);
    assert_eq!(blocks.iter().map(|b| b.element).collect::<Vec<_>>(), vec![h1, div, p, empty]);
    assert_eq!(blocks.iter().map(|b| b.parent).collect::<Vec<_>>(), vec![None, None, Some(1), Some(1)]);
    assert_eq!(
        blocks.iter().map(|b| b.kind).collect::<Vec<_>>(),
        vec![BlockKind::Plain, BlockKind::Plain, BlockKind::Paragraph, BlockKind::Paragraph]
    );
    assert_eq!(blocks.iter().map(|b| b.run).collect::<Vec<_>>(), vec![Some(0), None, Some(1), None]);
    assert_eq!(plan.current(), None);
    assert_eq!(plan.body_run(), None);

    let runs = plan.runs();
    assert_eq!(runs.len(), 2);
    assert_eq!(runs[0].block, Some(0));
    // The text of a heading is in the heading's style; the run that holds it
    // is made when the heading is left.
    assert_eq!(runs[0].base, BODY);
    assert_eq!(runs[0].spans.len(), 1);
    assert_eq!(runs[0].spans[0].style.metrics, TextRole::Heading1);
    assert_eq!(runs[1].block, Some(2));
    let styles: Vec<_> = runs[1].spans.iter().map(|s| s.style.bold).collect();
    assert_eq!(styles, vec![false, true, false]);
}

#[test]
fn text_of_the_body_is_its_own_run() {
    let mut b = NodeTreeBuilder::new();
    let root = b.get_document();
    let body = element(&mut b, root, "body");
    text(&mut b, body, "loose");
    let p = element(&mut b, body, "p");
    text(&mut b, p, "kept");
    let plan = plan_layout(&b.finish()).unwrap();
    assert_eq!(plan.body_run(), Some(0));
    assert_eq!(plan.runs()[0].block, None);
    assert_eq!(plan.blocks()[0].run, Some(1));
}

#[test]
fn a_tree_that_runs_in_a_circle_is_given_up() {
    let mut b = NodeTreeBuilder::new();
    let root = b.get_document();
    let body = element(&mut b, root, "body");
    let a = element(&mut b, body, "div");
    let c = element(&mut b, a, "div");
    // The body hangs under what hangs under it.
    b.append(c, NodeOrText::AppendNode(body));
    assert!(matches!(plan_layout(&b.finish()), Err(IllustratorRenderError::EndlessWalk)));
}

#[test]
fn a_drawing_is_one_block_whatever_it_holds() {
    let mut b = NodeTreeBuilder::new();
    let root = b.get_document();
    let body = element(&mut b, root, "body");
    let p = element(&mut b, body, "p");
    text(&mut b, p, "before");
    let svg = element(&mut b, body, "svg");
    let g = element(&mut b, svg, "g");
    let label = element(&mut b, g, "text");
    text(&mut b, label, "inside");
    element(&mut b, g, "p");
    element(&mut b, svg, "svg");
    let after = element(&mut b, body, "p");
    text(&mut b, after, "after");
    let plan = plan_layout(&b.finish()).unwrap();
    let blocks = plan.blocks();
    assert_eq!(blocks.iter().map(|b| b.element).collect::<Vec<_>>(), vec![p, svg, after]);
    assert_eq!(
        blocks.iter().map(|b| b.kind).collect::<Vec<_>>(),
        vec![BlockKind::Paragraph, BlockKind::Image, BlockKind::Paragraph]
    );
    assert_eq!(blocks.iter().map(|b| b.parent).collect::<Vec<_>>(), vec![None, None, None]);
    assert_eq!(blocks.iter().map(|b| b.run).collect::<Vec<_>>(), vec![Some(0), None, Some(1)]);
    assert_eq!(plan.runs().len(), 2);
    assert_eq!(classify("svg"), Tag::Svg);
    assert_eq!(Tag::Svg.element_style(), BlockKind::Image);
    assert!(!Tag::Svg.has_text_style() && !Tag::Svg.is_non_block());
}

#[test]
fn plan_is_made_block_by_block() {
    let mut plan = LayoutPlan::new();
    assert_eq!(plan.current(), None);
    assert!(!plan.has_run());
    // The body cannot be closed.
    assert!(!plan.close_block());
    assert!(plan.blocks().is_empty());
    assert!(plan.open_block(NodeId(4), BlockKind::Plain));
    assert!(plan.open_block(NodeId(5), BlockKind::Paragraph));
    assert_eq!(plan.current(), Some(1));
    assert!(plan.attach_run(BODY, vec![TextSpan { node: NodeId(6), style: BODY }]));
    // A block has one run.
    assert!(plan.has_run());
    assert!(!plan.attach_run(BODY, vec![]));
    assert_eq!(plan.runs().len(), 1);
    assert!(plan.close_block());
    assert_eq!(plan.current(), Some(0));
    assert!(plan.open_block(NodeId(7), BlockKind::Image));
    assert_eq!(plan.blocks()[2].parent, Some(0));
    assert!(plan.close_block());
    assert!(plan.close_block());
    assert_eq!(plan.current(), None);
    assert!(plan.attach_run(BODY, vec![]));
    assert_eq!(plan.body_run(), Some(1));
    assert!(plan.has_run());
    assert!(!plan.close_block());
}
