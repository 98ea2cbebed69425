//! The block tree that the layout engine works on.
//!
//! Block elements of the markup become blocks; the text between them is
//! gathered into runs, one per block at most. Blocks are numbered in
//! document order, so a block's parent has a smaller number than the block.

use crate::tree::NodeId;
use vstd::prelude::*;

verus! {

/// How the layout engine treats a block.
#[derive(Debug, Clone, Copy, PartialEq, Eq, Structural)]
pub enum BlockKind {
    /// A box without margins of its own.
    Plain,
    /// A paragraph: the configured paragraph gap follows it.
    Paragraph,
    /// A drawing that is painted as one image: it has the size of the
    /// drawing, and what it holds is no part of the layout.
    Image,
}

/// Which of the configured text settings apply.
#[derive(Debug, Clone, Copy, PartialEq, Eq, Structural)]
pub enum TextRole {
    Body,
    Heading1,
    Heading2,
}

/// The style of a stretch of text: where its metrics and its font
/// attributes come from, and what was switched on top of them.
#[derive(Debug, Clone, Copy, PartialEq, Eq, Structural)]
pub struct TextStyle {
    pub metrics: TextRole,
    pub attrs: TextRole,
    pub bold: bool,
    pub italic: bool,
}

/// The text of one text node in the style it is set in.
#[derive(Debug, Clone, Copy, PartialEq, Eq, Structural)]
pub struct TextSpan {
    pub node: NodeId,
    pub style: TextStyle,
}

/// The text that is shaped and measured as one: the spans of a block.
#[derive(Debug)]
pub struct TextRun {
    /// The block that owns the run; `None` is the body itself.
    pub block: Option<usize>,
    pub base: TextStyle,
    pub spans: Vec<TextSpan>,
}

/// One box of the layout.
#[derive(Debug, Clone, Copy, PartialEq, Eq, Structural)]
pub struct Block {
    /// The block that holds this one; `None` is the body itself.
    pub parent: Option<usize>,
    /// The element that the block stands for.
    pub element: NodeId,
    pub kind: BlockKind,
    /// The number of the block's text run.
    pub run: Option<usize>,
}

/// The position of a box relative to its parent, and its size.
#[derive(Debug, Clone, Copy, PartialEq, Eq, Structural)]
pub struct BoxLayout {
    pub x: i32,
    pub y: i32,
    pub width: i32,
    pub height: i32,
}

/// Blocks are numbered so that parents come first.
pub open spec fn blocks_ok(blocks: Seq<Block>) -> bool {
    &&& blocks.len() <= u32::MAX
    &&& forall|i: int|
        0 <= i < blocks.len() && (#[trigger] blocks[i]).parent is Some ==> blocks[i].parent->0 < i
}

/// Whether the block `a` is the block `b` or holds it.
pub open spec fn holds(blocks: Seq<Block>, a: int, b: int) -> bool
    decreases b,
{
    if a == b {
        true
    } else if 0 <= b < blocks.len() && blocks[b].parent is Some && blocks[b].parent->0 < b {
        holds(blocks, a, blocks[b].parent->0 as int)
    } else {
        false
    }
}

/// Whether a block may follow the block `last` as a child of `parent`: the
/// parent is the body, or the block `last`, or a block that holds it.
pub open spec fn follows(blocks: Seq<Block>, parent: Option<usize>, last: int) -> bool {
    match parent {
        Some(p) => holds(blocks, p as int, last),
        None => true,
    }
}

/// The blocks are numbered in document order: each block stands under the
/// body or under a block that was open when the block before it was made.
/// Going through the blocks by their numbers is going through the tree of
/// blocks from the top down and from first to last.
pub open spec fn in_document_order(blocks: Seq<Block>) -> bool {
    forall|i: int| 1 <= i < blocks.len() ==> follows(blocks, (#[trigger] blocks[i]).parent, i - 1)
}

/// Whether the blocks of `a` hang under the same blocks as those of `b`.
pub open spec fn same_parents(a: Seq<Block>, b: Seq<Block>) -> bool {
    a.len() == b.len() && forall|i: int| 0 <= i < a.len() ==> (#[trigger] a[i]).parent == b[i].parent
}

/// Which block holds which is a matter of the parents alone.
pub proof fn lemma_holds_by_parents(a: Seq<Block>, b: Seq<Block>, x: int, y: int)
    requires
        same_parents(a, b),
    ensures
        holds(a, x, y) == holds(b, x, y),
    decreases y,
{
    if x != y && 0 <= y < a.len() && a[y].parent is Some && a[y].parent->0 < y {
        assert(b[y].parent == a[y].parent);
        lemma_holds_by_parents(a, b, x, a[y].parent->0 as int);
    } else if x != y && 0 <= y < a.len() {
        assert(b[y].parent == a[y].parent);
    }
}

/// A block that is held by a block is held by that block's parent.
pub proof fn lemma_parent_holds(blocks: Seq<Block>, a: int, b: int)
    requires
        blocks_ok(blocks),
        0 <= a < blocks.len(),
        0 <= b < blocks.len(),
        holds(blocks, a, b),
        blocks[a].parent is Some,
    ensures
        holds(blocks, blocks[a].parent->0 as int, b),
    decreases b,
{
    if a == b {
        let p = blocks[b].parent->0 as int;
        assert(holds(blocks, p, p));
    } else {
        lemma_parent_holds(blocks, a, blocks[b].parent->0 as int);
    }
}

/// Blocks that are added do not change which of the blocks before them
/// holds which.
pub proof fn lemma_holds_in_longer(blocks: Seq<Block>, more: Seq<Block>, a: int, b: int)
    requires
        blocks.len() <= more.len(),
        forall|i: int| 0 <= i < blocks.len() ==> blocks[i] == more[i],
        0 <= b < blocks.len(),
    ensures
        holds(blocks, a, b) == holds(more, a, b),
    decreases b,
{
    if a != b && blocks[b].parent is Some && blocks[b].parent->0 < b {
        lemma_holds_in_longer(blocks, more, a, blocks[b].parent->0 as int);
    }
}

/// The block tree under the body of one chapter with its text runs, and
/// the block that is open while the plan is made.
pub struct LayoutPlan {
    blocks: Vec<Block>,
    runs: Vec<TextRun>,
    body_run: Option<usize>,
    current: Option<usize>,
}

impl LayoutPlan {
    pub closed spec fn block_seq(&self) -> Seq<Block> {
        self.blocks@
    }

    pub closed spec fn run_seq(&self) -> Seq<TextRun> {
        self.runs@
    }

    /// The number of the run of the text that lies in the body itself.
    pub closed spec fn body_run_no(&self) -> Option<usize> {
        self.body_run
    }

    /// The block that is open; `None` is the body itself.
    pub closed spec fn cursor(&self) -> Option<usize> {
        self.current
    }

    pub open spec fn well_formed(&self) -> bool {
        &&& blocks_ok(self.block_seq())
        &&& in_document_order(self.block_seq())
        &&& self.cursor() is Some ==> self.cursor()->0 < self.block_seq().len()
        &&& follows(self.block_seq(), self.cursor(), self.block_seq().len() - 1)
    }

    /// The number of the run of the open block.
    pub open spec fn cursor_run(&self) -> Option<usize> {
        match self.cursor() {
            Some(c) => self.block_seq()[c as int].run,
            None => self.body_run_no(),
        }
    }

    #[verifier::type_invariant]
    spec fn inv(&self) -> bool {
        &&& blocks_ok(self.blocks@)
        &&& in_document_order(self.blocks@)
        &&& self.current is Some ==> self.current->0 < self.blocks@.len()
        &&& follows(self.blocks@, self.current, self.blocks@.len() - 1)
    }

    /// The plan of an empty chapter: the body alone, open.
    pub fn new() -> (p: Self)
        ensures
            p.block_seq().len() == 0,
            p.run_seq().len() == 0,
            p.body_run_no() is None,
            p.cursor() is None,
    {
        LayoutPlan { blocks: Vec::new(), runs: Vec::new(), body_run: None, current: None }
    }

    pub fn blocks(&self) -> (b: &Vec<Block>)
        ensures
            b@ == self.block_seq(),
            self.well_formed(),
    {
        proof {
            use_type_invariant(self);
        }
        &self.blocks
    }

    pub fn runs(&self) -> (r: &Vec<TextRun>)
        ensures
            r@ == self.run_seq(),
    {
        &self.runs
    }

    pub fn body_run(&self) -> (r: Option<usize>)
        ensures
            r == self.body_run_no(),
    {
        self.body_run
    }

    pub fn current(&self) -> (c: Option<usize>)
        ensures
            c == self.cursor(),
            self.well_formed(),
    {
        proof {
            use_type_invariant(self);
        }
        self.current
    }

    /// Opens a block under the open block. This fails, and changes nothing,
    /// where the plan holds as many blocks as it can number.
    pub fn open_block(&mut self, element: NodeId, kind: BlockKind) -> (ok: bool)
        ensures
            ok == (old(self).block_seq().len() < u32::MAX),
            final(self).run_seq() == old(self).run_seq(),
            final(self).body_run_no() == old(self).body_run_no(),
            ok ==> final(self).block_seq() == old(self).block_seq().push(
                Block { parent: old(self).cursor(), element, kind, run: None },
            ) && final(self).cursor() == Some(old(self).block_seq().len() as usize),
            !ok ==> final(self).block_seq() == old(self).block_seq() && final(self).cursor()
                == old(self).cursor(),
    {
        proof {
            use_type_invariant(&*self);
        }
        if self.blocks.len() >= u32::MAX as usize {
            return false;
        }
        let parent = self.current;
        self.current = None;
        let mut blocks = Vec::new();
        std::mem::swap(&mut self.blocks, &mut blocks);
        let ghost before = blocks@;
        let index = blocks.len();
        blocks.push(Block { parent, element, kind, run: None });
        proof {
            assert forall|i: int| 1 <= i < blocks@.len() implies follows(
                blocks@,
                (#[trigger] blocks@[i]).parent,
                i - 1,
            ) by {
                if blocks@[i].parent is Some {
                    let p = blocks@[i].parent->0 as int;
                    if i < index {
                        assert(follows(before, before[i].parent, i - 1));
                    }
                    lemma_holds_in_longer(before, blocks@, p, i - 1);
                }
            }
            assert(holds(blocks@, index as int, index as int));
        }
        self.blocks = blocks;
        self.current = Some(index);
        true
    }

    /// Closes the open block; its parent is open again. The body cannot be
    /// closed: that fails, and changes nothing.
    pub fn close_block(&mut self) -> (ok: bool)
        ensures
            ok == (old(self).cursor() is Some),
            final(self).run_seq() == old(self).run_seq(),
            final(self).body_run_no() == old(self).body_run_no(),
            final(self).block_seq() == old(self).block_seq(),
            ok ==> final(self).cursor() == old(self).block_seq()[old(self).cursor()->0 as int].parent,
            !ok ==> final(self).cursor() == old(self).cursor(),
    {
        proof {
            use_type_invariant(&*self);
        }
        match self.current {
            Some(c) => {
                proof {
                    if self.blocks@[c as int].parent is Some {
                        lemma_parent_holds(self.blocks@, c as int, self.blocks@.len() - 1);
                    }
                }
                self.current = self.blocks[c].parent;
                true
            },
            None => false,
        }
    }

    /// Whether the open block has its text run.
    pub fn has_run(&self) -> (b: bool)
        ensures
            b == (self.cursor_run() is Some),
    {
        proof {
            use_type_invariant(self);
        }
        match self.current {
            Some(c) => self.blocks[c].run.is_some(),
            None => self.body_run.is_some(),
        }
    }

    /// Gives the open block the text run of `spans` with the base style
    /// `base`. A block that has its run keeps it: that fails, and changes
    /// nothing.
    pub fn attach_run(&mut self, base: TextStyle, spans: Vec<TextSpan>) -> (ok: bool)
        ensures
            ok == (old(self).cursor_run() is None),
            final(self).cursor() == old(self).cursor(),
            ok ==> {
                &&& final(self).run_seq().len() == old(self).run_seq().len() + 1
                &&& final(self).run_seq().last().block == old(self).cursor()
                &&& final(self).run_seq().last().base == base
                &&& final(self).run_seq().last().spans@ == spans@
                &&& final(self).run_seq().drop_last() == old(self).run_seq()
                &&& final(self).cursor_run() == Some(old(self).run_seq().len() as usize)
                &&& match old(self).cursor() {
                    Some(c) => final(self).block_seq() == old(self).block_seq().update(
                        c as int,
                        Block {
                            run: Some(old(self).run_seq().len() as usize),
                            ..old(self).block_seq()[c as int]
                        },
                    ) && final(self).body_run_no() == old(self).body_run_no(),
                    None => final(self).block_seq() == old(self).block_seq(),
                }
            },
            !ok ==> final(self).run_seq() == old(self).run_seq() && final(self).block_seq() == old(self).block_seq() && final(self).body_run_no() == old(self).body_run_no(),
    {
        proof {
            use_type_invariant(&*self);
        }
        if self.has_run() {
            return false;
        }
        let ghost runs0 = self.runs@;
        let number = self.runs.len();
        let current = self.current;
        let mut runs = Vec::new();
        std::mem::swap(&mut self.runs, &mut runs);
        runs.push(TextRun { block: current, base, spans });
        assert(runs@.drop_last() =~= runs0);
        self.runs = runs;
        match current {
            Some(c) => {
                self.current = None;
                let mut blocks = Vec::new();
                std::mem::swap(&mut self.blocks, &mut blocks);
                let ghost before = blocks@;
                let block = blocks[c];
                blocks.set(c, Block { run: Some(number), ..block });
                proof {
                    assert(same_parents(before, blocks@));
                    assert forall|i: int| 1 <= i < blocks@.len() implies follows(
                        blocks@,
                        (#[trigger] blocks@[i]).parent,
                        i - 1,
                    ) by {
                        assert(follows(before, before[i].parent, i - 1));
                        if blocks@[i].parent is Some {
                            lemma_holds_by_parents(before, blocks@, blocks@[i].parent->0 as int, i - 1);
                        }
                    }
                    lemma_holds_by_parents(before, blocks@, c as int, blocks@.len() - 1);
                }
                self.blocks = blocks;
                self.current = current;
            },
            None => {
                self.body_run = Some(number);
            },
        }
        true
    }
}

} // verus!
