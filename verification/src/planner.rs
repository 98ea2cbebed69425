//! Turns the markup tree of a chapter into the block tree of its layout.
//!
//! The planner walks the body in document order. Block elements become
//! blocks; inline elements only change the style of the text in them. The
//! text that is met is gathered and handed as one run to the block that is
//! open when the next block element opens or closes.

use crate::error::IllustratorRenderError;
use crate::html_parser::{
    after_next, child_edges, local_name_of, EdgeRef, EdgeView, Leaf, NodeTreeResult,
};
use crate::layout::{Block, BlockKind, LayoutPlan, TextRole, TextRun, TextSpan, TextStyle};
use crate::resource::chars_of;
use crate::tree::{NodeId, TreeState};
use vstd::prelude::*;

verus! {

/// The elements that the planner knows by name.
#[derive(Debug, Clone, Copy, PartialEq, Eq, Structural)]
pub enum Tag {
    H1,
    H2,
    H3,
    H4,
    Strong,
    B,
    Em,
    I,
    P,
    Svg,
    Other,
}

/// The tag of a local name.
pub open spec fn tag_of(name: Seq<char>) -> Tag {
    if name == "h1"@ {
        Tag::H1
    } else if name == "h2"@ {
        Tag::H2
    } else if name == "h3"@ {
        Tag::H3
    } else if name == "h4"@ {
        Tag::H4
    } else if name == "strong"@ {
        Tag::Strong
    } else if name == "b"@ {
        Tag::B
    } else if name == "em"@ {
        Tag::Em
    } else if name == "i"@ {
        Tag::I
    } else if name == "p"@ {
        Tag::P
    } else if name == "svg"@ {
        Tag::Svg
    } else {
        Tag::Other
    }
}

/// Whether both hold the same text.
pub(crate) fn same_text(a: &str, b: &str) -> (r: bool)
    ensures
        r == (a@ == b@),
{
    let x = chars_of(a);
    let y = chars_of(b);
    if x.len() != y.len() {
        return false;
    }
    let mut k: usize = 0;
    while k < x.len()
        invariant
            k <= x@.len(),
            x@.len() == y@.len(),
            x@ == a@,
            y@ == b@,
            forall|i: int| 0 <= i < k ==> x@[i] == y@[i],
        decreases x@.len() - k,
    {
        if x[k] != y[k] {
            return false;
        }
        k = k + 1;
    }
    assert(a@ =~= b@);
    true
}

/// The tag of the local name `name`.
pub fn classify(name: &str) -> (t: Tag)
    ensures
        t == tag_of(name@),
{
    if same_text(name, "h1") {
        Tag::H1
    } else if same_text(name, "h2") {
        Tag::H2
    } else if same_text(name, "h3") {
        Tag::H3
    } else if same_text(name, "h4") {
        Tag::H4
    } else if same_text(name, "strong") {
        Tag::Strong
    } else if same_text(name, "b") {
        Tag::B
    } else if same_text(name, "em") {
        Tag::Em
    } else if same_text(name, "i") {
        Tag::I
    } else if same_text(name, "p") {
        Tag::P
    } else if same_text(name, "svg") {
        Tag::Svg
    } else {
        Tag::Other
    }
}

impl Tag {
    pub open spec fn spec_has_text_style(self) -> bool {
        self is H1 || self is H2 || self is H3 || self is H4 || self is Strong || self is B
            || self is Em || self is I
    }

    /// Whether the element changes the style of the text in it.
    #[verifier::when_used_as_spec(spec_has_text_style)]
    pub fn has_text_style(self) -> (b: bool)
        ensures
            b == self.spec_has_text_style(),
    {
        match self {
            Tag::H1 | Tag::H2 | Tag::H3 | Tag::H4 | Tag::Strong | Tag::B | Tag::Em | Tag::I => true,
            Tag::P | Tag::Svg | Tag::Other => false,
        }
    }

    pub open spec fn spec_is_non_block(self) -> bool {
        self is Strong || self is B || self is Em || self is I
    }

    /// Whether the element is set within the line.
    #[verifier::when_used_as_spec(spec_is_non_block)]
    pub fn is_non_block(self) -> (b: bool)
        ensures
            b == self.spec_is_non_block(),
    {
        match self {
            Tag::Strong | Tag::B | Tag::Em | Tag::I => true,
            _ => false,
        }
    }

    pub open spec fn spec_element_style(self) -> BlockKind {
        if self is P {
            BlockKind::Paragraph
        } else if self is Svg {
            BlockKind::Image
        } else {
            BlockKind::Plain
        }
    }

    /// How the block of the element is laid out.
    #[verifier::when_used_as_spec(spec_element_style)]
    pub fn element_style(self) -> (k: BlockKind)
        ensures
            k == self.spec_element_style(),
    {
        match self {
            Tag::P => BlockKind::Paragraph,
            Tag::Svg => BlockKind::Image,
            _ => BlockKind::Plain,
        }
    }
}

/// The style of body text.
pub open spec fn body_style() -> TextStyle {
    TextStyle { metrics: TextRole::Body, attrs: TextRole::Body, bold: false, italic: false }
}

pub fn body_text() -> (s: TextStyle)
    ensures
        s == body_style(),
{
    TextStyle { metrics: TextRole::Body, attrs: TextRole::Body, bold: false, italic: false }
}

/// The style in force: the innermost of `styles`, or that of body text.
pub open spec fn style_in_force(styles: Seq<TextStyle>) -> TextStyle {
    if styles.len() > 0 {
        styles.last()
    } else {
        body_style()
    }
}

/// The style of the text in an element `tag` that stands in text of the
/// style `base`: bold and italic elements switch that on in the style they
/// stand in, a heading has the style of its level, and headings below the
/// second level have that of the second.
pub open spec fn spec_text_style(base: TextStyle, tag: Tag) -> TextStyle {
    match tag {
        Tag::B | Tag::Strong => TextStyle { bold: true, ..base },
        Tag::I | Tag::Em => TextStyle { italic: true, ..base },
        Tag::H1 => TextStyle {
            metrics: TextRole::Heading1,
            attrs: TextRole::Heading1,
            bold: false,
            italic: false,
        },
        Tag::H2 | Tag::H3 | Tag::H4 => TextStyle {
            metrics: TextRole::Heading2,
            attrs: TextRole::Heading2,
            bold: false,
            italic: false,
        },
        _ => body_style(),
    }
}

#[verifier::when_used_as_spec(spec_text_style)]
pub fn text_style(base: TextStyle, tag: Tag) -> (s: TextStyle)
    ensures
        s == spec_text_style(base, tag),
{
    match tag {
        Tag::B | Tag::Strong => TextStyle { bold: true, ..base },
        Tag::I | Tag::Em => TextStyle { italic: true, ..base },
        Tag::H1 => TextStyle {
            metrics: TextRole::Heading1,
            attrs: TextRole::Heading1,
            bold: false,
            italic: false,
        },
        Tag::H2 | Tag::H3 | Tag::H4 => TextStyle {
            metrics: TextRole::Heading2,
            attrs: TextRole::Heading2,
            bold: false,
            italic: false,
        },
        _ => body_text(),
    }
}

/// A text run as a value.
pub struct RunView {
    pub block: Option<usize>,
    pub base: TextStyle,
    pub spans: Seq<TextSpan>,
}

impl View for TextRun {
    type V = RunView;

    open spec fn view(&self) -> RunView {
        RunView { block: self.block, base: self.base, spans: self.spans@ }
    }
}

/// The planner between two edges of the walk.
#[verifier::ext_equal]
pub struct Planning {
    pub blocks: Seq<Block>,
    pub runs: Seq<RunView>,
    pub body_run: Option<usize>,
    /// The block that is open; `None` is the body itself.
    pub cursor: Option<usize>,
    /// The styles of the elements that are open, the innermost last.
    pub styles: Seq<TextStyle>,
    /// The text that no block has taken yet.
    pub pending: Seq<TextSpan>,
    /// How many elements are open inside the drawing that the walk is in,
    /// the drawing counted; 0 outside of drawings.
    pub skip: nat,
}

impl Planning {
    /// The planner before the first edge.
    pub open spec fn start() -> Planning {
        Planning {
            blocks: Seq::empty(),
            runs: Seq::empty(),
            body_run: None,
            cursor: None,
            styles: Seq::empty(),
            pending: Seq::empty(),
            skip: 0,
        }
    }

    /// The number of the run of the open block.
    pub open spec fn cursor_run(self) -> Option<usize> {
        match self.cursor {
            Some(c) => self.blocks[c as int].run,
            None => self.body_run,
        }
    }

    /// The open block takes the pending text as its run, in the style that
    /// is in force. A block that has its run leaves the text pending.
    pub open spec fn flushed(self) -> Planning {
        if self.pending.len() > 0 && self.cursor_run() is None {
            let number = self.runs.len() as usize;
            let run = RunView {
                block: self.cursor,
                base: style_in_force(self.styles),
                spans: self.pending,
            };
            match self.cursor {
                Some(c) => Planning {
                    blocks: self.blocks.update(
                        c as int,
                        Block { run: Some(number), ..self.blocks[c as int] },
                    ),
                    runs: self.runs.push(run),
                    pending: Seq::empty(),
                    ..self
                },
                None => Planning {
                    runs: self.runs.push(run),
                    body_run: Some(number),
                    pending: Seq::empty(),
                    ..self
                },
            }
        } else {
            self
        }
    }

    /// The planner after the element `id` with the tag `tag` was opened.
    pub open spec fn opened(self, id: NodeId, tag: Tag) -> Result<Planning, IllustratorRenderError> {
        let styled = if tag.has_text_style() {
            Planning {
                styles: self.styles.push(spec_text_style(style_in_force(self.styles), tag)),
                ..self
            }
        } else {
            self
        };
        if tag.is_non_block() {
            Ok(styled)
        } else {
            let f = styled.flushed();
            if f.blocks.len() < u32::MAX {
                Ok(
                    Planning {
                        blocks: f.blocks.push(
                            Block {
                                parent: f.cursor,
                                element: id,
                                kind: tag.element_style(),
                                run: None,
                            },
                        ),
                        cursor: Some(f.blocks.len() as usize),
                        ..f
                    },
                )
            } else {
                Err(IllustratorRenderError::TooManyBlocks)
            }
        }
    }

    /// The planner after an element with the tag `tag` was closed.
    pub open spec fn closed(self, tag: Tag) -> Result<Planning, IllustratorRenderError> {
        let styled = if tag.has_text_style() && self.styles.len() > 0 {
            Planning { styles: self.styles.drop_last(), ..self }
        } else {
            self
        };
        if tag.is_non_block() {
            Ok(styled)
        } else {
            let f = styled.flushed();
            match f.cursor {
                Some(c) => Ok(Planning { cursor: f.blocks[c as int].parent, ..f }),
                None => Err(IllustratorRenderError::UnexpectedExtraClose),
            }
        }
    }

    /// The planner after the text node `id` was met.
    pub open spec fn with_text(self, id: NodeId) -> Planning {
        Planning {
            pending: self.pending.push(TextSpan { node: id, style: style_in_force(self.styles) }),
            ..self
        }
    }

    /// The planner after the edge `e` of a walk through the tree `s`.
    ///
    /// A drawing is a block of its own. What it holds is passed over: the
    /// drawing is painted as one image.
    pub open spec fn stepped(self, s: TreeState<Leaf>, e: EdgeView) -> Result<
        Planning,
        IllustratorRenderError,
    > {
        if self.skip > 0 {
            match e {
                EdgeView::Open(id) => Ok(Planning { skip: self.skip + 1, ..self }),
                EdgeView::Close(id, name) => if self.skip == 1 {
                    (Planning { skip: 0, ..self }).closed(Tag::Svg)
                } else {
                    Ok(Planning { skip: (self.skip - 1) as nat, ..self })
                },
                EdgeView::Text(id) => Ok(self),
            }
        } else {
            match e {
                EdgeView::Open(id) => match self.opened(id, tag_of(local_name_of(s, id))) {
                    Ok(p) => Ok(
                        if tag_of(local_name_of(s, id)) is Svg {
                            Planning { skip: 1, ..p }
                        } else {
                            p
                        },
                    ),
                    Err(e) => Err(e),
                },
                EdgeView::Close(id, name) => self.closed(tag_of(name)),
                EdgeView::Text(id) => Ok(self.with_text(id)),
            }
        }
    }
}

/// The plan at the end of the walk that starts with `pending`, or what
/// stopped the walk: an element that cannot be numbered or closed, or, where
/// `fuel` steps are taken and edges are still left, the walk itself.
pub open spec fn planned(
    s: TreeState<Leaf>,
    p: Planning,
    pending: Seq<EdgeView>,
    fuel: nat,
) -> Result<Planning, IllustratorRenderError>
    decreases fuel,
{
    if pending.len() == 0 {
        Ok(p)
    } else if fuel == 0 {
        Err(IllustratorRenderError::EndlessWalk)
    } else {
        match p.stepped(s, pending[0]) {
            Ok(q) => planned(s, q, after_next(s, pending), (fuel - 1) as nat),
            Err(e) => Err(e),
        }
    }
}

/// The number of steps after which a walk is given up: two for each node
/// that the tree can hold.
pub open spec fn walk_limit(s: TreeState<Leaf>) -> nat {
    2 * s.count
}

/// The runs of a plan as values.
pub open spec fn run_views(runs: Seq<TextRun>) -> Seq<RunView> {
    runs.map_values(|r: TextRun| r@)
}

/// What the planner holds while it works.
struct Draft {
    plan: LayoutPlan,
    styles: Vec<TextStyle>,
    pending: Vec<TextSpan>,
    skip: u64,
}

impl View for Draft {
    type V = Planning;

    closed spec fn view(&self) -> Planning {
        Planning {
            blocks: self.plan.block_seq(),
            runs: run_views(self.plan.run_seq()),
            body_run: self.plan.body_run_no(),
            cursor: self.plan.cursor(),
            styles: self.styles@,
            pending: self.pending@,
            skip: self.skip as nat,
        }
    }
}

impl Draft {
    fn style_in_force(&self) -> (s: TextStyle)
        ensures
            s == style_in_force(self@.styles),
    {
        if self.styles.len() > 0 {
            self.styles[self.styles.len() - 1]
        } else {
            body_text()
        }
    }

    fn flush(&mut self)
        ensures
            final(self)@ == old(self)@.flushed(),
    {
        if self.pending.len() > 0 && !self.plan.has_run() {
            let base = self.style_in_force();
            let ghost runs0 = self.plan.run_seq();
            let mut spans: Vec<TextSpan> = Vec::new();
            std::mem::swap(&mut self.pending, &mut spans);
            let ok = self.plan.attach_run(base, spans);
            assert(run_views(self.plan.run_seq()) =~= run_views(runs0).push(
                self.plan.run_seq().last()@,
            )) by {
                assert(self.plan.run_seq().drop_last() == runs0);
                assert forall|i: int| 0 <= i < runs0.len() implies run_views(
                    self.plan.run_seq(),
                )[i] == run_views(runs0)[i] by {
                    assert(self.plan.run_seq().drop_last()[i] == self.plan.run_seq()[i]);
                }
            }
        }
    }

    fn open(&mut self, id: NodeId, tag: Tag) -> (r: Result<(), IllustratorRenderError>)
        ensures
            match r {
                Ok(()) => old(self)@.opened(id, tag) == Ok::<Planning, IllustratorRenderError>(
                    final(self)@,
                ),
                Err(e) => old(self)@.opened(id, tag) == Err::<Planning, IllustratorRenderError>(e),
            },
    {
        if tag.has_text_style() {
            let style = text_style(self.style_in_force(), tag);
            self.styles.push(style);
        }
        if tag.is_non_block() {
            return Ok(());
        }
        self.flush();
        if self.plan.open_block(id, tag.element_style()) {
            Ok(())
        } else {
            Err(IllustratorRenderError::TooManyBlocks)
        }
    }

    fn close(&mut self, tag: Tag) -> (r: Result<(), IllustratorRenderError>)
        ensures
            match r {
                Ok(()) => old(self)@.closed(tag) == Ok::<Planning, IllustratorRenderError>(
                    final(self)@,
                ),
                Err(e) => old(self)@.closed(tag) == Err::<Planning, IllustratorRenderError>(e),
            },
    {
        if tag.has_text_style() {
            let _ = self.styles.pop();
        }
        if tag.is_non_block() {
            return Ok(());
        }
        self.flush();
        if self.plan.close_block() {
            Ok(())
        } else {
            Err(IllustratorRenderError::UnexpectedExtraClose)
        }
    }

    fn text(&mut self, id: NodeId)
        ensures
            final(self)@ == old(self)@.with_text(id),
    {
        let style = self.style_in_force();
        self.pending.push(TextSpan { node: id, style });
    }
}

/// A plan, as far as its blocks and runs go, is what the planner ended with.
pub open spec fn plan_matches(plan: &LayoutPlan, p: Planning) -> bool {
    &&& plan.block_seq() == p.blocks
    &&& run_views(plan.run_seq()) == p.runs
    &&& plan.body_run_no() == p.body_run
    &&& plan.cursor() == p.cursor
}

/// Makes the layout plan of the chapter `tree`.
///
/// The plan is that of the walk through the body in document order. A
/// chapter without body has none, and neither has one whose walk is stopped.
#[verifier::loop_isolation(false)]
pub fn plan_layout(tree: &NodeTreeResult) -> (r: Result<LayoutPlan, IllustratorRenderError>)
    ensures
        match r {
            Ok(plan) => tree.body_id() is Some && (planned(
                tree.arena().state(),
                Planning::start(),
                child_edges(tree.arena().state(), tree.body_id()->0),
                walk_limit(tree.arena().state()),
            ) matches Ok(p) && plan_matches(&plan, p)),
            Err(e) => if tree.body_id() is None {
                e == IllustratorRenderError::MissingBody
            } else {
                planned(
                    tree.arena().state(),
                    Planning::start(),
                    child_edges(tree.arena().state(), tree.body_id()->0),
                    walk_limit(tree.arena().state()),
                ) == Err::<Planning, IllustratorRenderError>(e)
            },
        },
{
    let mut it = match tree.body_iter() {
        Some(it) => it,
        None => {
            return Err(IllustratorRenderError::MissingBody);
        },
    };
    let ghost s = tree.arena().state();
    let ghost goal = planned(s, Planning::start(), it.pending(), walk_limit(s));
    let mut fuel: u64 = 2 * (tree.tree().node_count() as u64);
    let mut draft = Draft {
        plan: LayoutPlan::new(),
        styles: Vec::new(),
        pending: Vec::new(),
        skip: 0,
    };
    let ghost fuel0 = fuel;
    assert(draft@ =~= Planning::start());
    loop
        invariant
            it.source() == tree.arena(),
            s == tree.arena().state(),
            planned(s, draft@, it.pending(), fuel as nat) == goal,
            draft@.skip + fuel <= fuel0,
        decreases fuel,
    {
        let ghost pending0 = it.pending();
        let ghost before = draft@;
        let edge = match it.next() {
            Some(e) => e,
            None => {
                return Ok(draft.plan);
            },
        };
        if fuel == 0 {
            return Err(IllustratorRenderError::EndlessWalk);
        }
        fuel = fuel - 1;
        let step = if draft.skip > 0 {
            match &edge {
                EdgeRef::OpenElement(_) => {
                    draft.skip = draft.skip + 1;
                    Ok(())
                },
                EdgeRef::CloseElement(_id, _name) => {
                    draft.skip = draft.skip - 1;
                    if draft.skip == 0 {
                        draft.close(Tag::Svg)
                    } else {
                        Ok(())
                    }
                },
                EdgeRef::Text(_) => Ok(()),
            }
        } else {
            match &edge {
                EdgeRef::OpenElement(el) => {
                    let tag = classify(el.local_name().as_str());
                    let opened = draft.open(el.id, tag);
                    if opened.is_ok() {
                        if let Tag::Svg = tag {
                            draft.skip = 1;
                        }
                    }
                    opened
                },
                EdgeRef::CloseElement(_id, name) => {
                    let tag = classify(name.as_str());
                    draft.close(tag)
                },
                EdgeRef::Text(t) => {
                    draft.text(t.id);
                    Ok(())
                },
            }
        };
        if let Err(e) = step {
            return Err(e);
        }
        assert(before.stepped(s, pending0[0]) == Ok::<Planning, IllustratorRenderError>(draft@));
    }
}

} // verus!
