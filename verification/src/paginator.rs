//! Slices a laid-out chapter into pages.
//!
//! The layout is one tall column. The paginator goes through the blocks in
//! document order, resolves each block's position into the column's
//! coordinates, and starts a new page whenever a text run would reach below
//! the page. A run is never split.

use crate::error::IllustratorRenderError;
use crate::layout::{Block, BlockKind, BoxLayout, LayoutPlan};
use crate::page::{
    covers, page_views, BookSpineItem, DisplayImage, DisplayItem, DisplayText, ElementRange,
    PageContent, PagePosition, PageView, Point, Size,
};
use vstd::prelude::*;

verus! {

/// The part of a page that holds content.
#[derive(Debug, Clone, Copy, PartialEq, Eq, Structural)]
pub struct PageFrame {
    /// Height of the page without its top and bottom padding.
    pub page_height: i64,
    /// Width of the page without its left and right padding.
    pub page_width: i64,
    pub padding_left: i64,
    pub padding_top: i64,
}

/// Horizontal position of block `i` in the column: the positions of the
/// block and of all that hold it, added up.
pub open spec fn abs_x(blocks: Seq<Block>, layouts: Seq<BoxLayout>, i: int) -> int
    decreases i,
{
    if 0 <= i < blocks.len() && i < layouts.len() {
        match blocks[i].parent {
            Some(p) => if (p as int) < i {
                abs_x(blocks, layouts, p as int) + layouts[i].x
            } else {
                layouts[i].x as int
            },
            None => layouts[i].x as int,
        }
    } else {
        0
    }
}

/// Vertical position of block `i` in the column.
pub open spec fn abs_y(blocks: Seq<Block>, layouts: Seq<BoxLayout>, i: int) -> int
    decreases i,
{
    if 0 <= i < blocks.len() && i < layouts.len() {
        match blocks[i].parent {
            Some(p) => if (p as int) < i {
                abs_y(blocks, layouts, p as int) + layouts[i].y
            } else {
                layouts[i].y as int
            },
            None => layouts[i].y as int,
        }
    } else {
        0
    }
}

/// The end of a page's element range once the element numbered `number` in
/// its chapter was met: the element's place in the book's numbering, but not
/// beyond the chapter nor behind what the page covers already.
pub open spec fn advanced_end(end: u32, number: u32, elements: ElementRange) -> u32 {
    let e = if elements.start + number < elements.end {
        (elements.start + number) as u32
    } else {
        elements.end
    };
    if e > end {
        e
    } else {
        end
    }
}

/// A length of a drawing as far as it counts: nothing where it is below zero.
pub open spec fn at_least_zero(v: int) -> int {
    if v < 0 {
        0
    } else {
        v
    }
}

/// The room that is left for a drawing as far as it counts: nothing where
/// none is left, and no more than a drawing can be large.
pub open spec fn room(v: int) -> int {
    if v < 0 {
        0
    } else if v > i32::MAX {
        i32::MAX as int
    } else {
        v
    }
}

/// The size at which a drawing of `width` by `height` is painted where
/// `room_w` by `room_h` is left: its own size where that fits, else the
/// largest size of its proportions that fits, rounded down. A drawing is
/// never made larger than it is.
pub open spec fn fitted(width: int, height: int, room_w: int, room_h: int) -> (int, int) {
    let w = at_least_zero(width);
    let h = at_least_zero(height);
    let rw = room(room_w);
    let rh = room(room_h);
    if w <= rw && h <= rh {
        (w, h)
    } else if w > 0 && rw * h <= rh * w {
        (rw, h * rw / w)
    } else if h > 0 {
        (w * rh / h, rh)
    } else {
        (rw, 0)
    }
}

/// The paginator between two blocks: the finished pages, the page that is
/// being filled, and the column position of that page's top.
pub struct Pager {
    pub done: Seq<PageView>,
    pub page: PageView,
    pub top: int,
}

/// The paginator before the first block.
pub open spec fn pager_start(spine: u32, elements: ElementRange) -> Pager {
    Pager {
        done: Seq::empty(),
        page: PageView {
            position: PagePosition { first: true, last: false },
            spine,
            index: 0,
            elements: ElementRange { start: elements.start, end: elements.start },
            items: Seq::empty(),
        },
        top: 0,
    }
}

/// The paginator after the block numbered `index` at column position
/// (`ax`, `ay`).
///
/// The block's element extends the range of the page. A block with a text
/// run places the run. Where the run would end below the page, the page's
/// top is pinned to the run's top; the page that was being filled is
/// finished first if it holds anything, and the run opens the next page. A
/// drawing is placed like a run of text, but never opens a page: it is
/// painted at a size that fits into what is left of the page to its right
/// and below.
pub open spec fn placed(
    pg: Pager,
    index: usize,
    block: Block,
    ax: int,
    ay: int,
    l: BoxLayout,
    frame: PageFrame,
    elements: ElementRange,
) -> Pager {
    let end = advanced_end(pg.page.elements.end, block.element.0, elements);
    let page = PageView {
        elements: ElementRange { start: pg.page.elements.start, end },
        ..pg.page
    };
    if block.kind is Image {
        let size = fitted(
            l.width as int,
            l.height as int,
            frame.page_width - ax,
            frame.page_height - (ay - pg.top),
        );
        let item = DisplayItem::Image(
            DisplayImage {
                pos: Point {
                    x: (frame.padding_left + ax) as i128,
                    y: (frame.padding_top + ay - pg.top) as i128,
                },
                size: Size { width: size.0 as i32, height: size.1 as i32 },
                block: index,
            },
        );
        Pager { page: PageView { items: page.items.push(item), ..page }, ..pg }
    } else {
        placed_text(pg, page, end, block, ax, ay, l, frame)
    }
}

/// The paginator after a block that is no drawing.
pub open spec fn placed_text(
    pg: Pager,
    page: PageView,
    end: u32,
    block: Block,
    ax: int,
    ay: int,
    l: BoxLayout,
    frame: PageFrame,
) -> Pager {
    match block.run {
        None => Pager { page, ..pg },
        Some(run) => {
            let overflow = ay + l.height - pg.top > frame.page_height;
            let top = if overflow {
                ay
            } else {
                pg.top
            };
            let item = DisplayItem::Text(
                DisplayText {
                    pos: Point {
                        x: (frame.padding_left + ax) as i128,
                        y: (frame.padding_top + ay - top) as i128,
                    },
                    size: Size { width: l.width, height: l.height },
                    run,
                },
            );
            if overflow && page.items.len() > 0 {
                Pager {
                    done: pg.done.push(page),
                    page: PageView {
                        position: PagePosition { first: false, last: false },
                        spine: page.spine,
                        index: (page.index + 1) as u32,
                        elements: ElementRange { start: end, end },
                        items: seq![item],
                    },
                    top,
                }
            } else {
                Pager { done: pg.done, page: PageView { items: page.items.push(item), ..page }, top }
            }
        },
    }
}

/// The paginator after the first `k` blocks.
pub open spec fn paged(
    blocks: Seq<Block>,
    layouts: Seq<BoxLayout>,
    frame: PageFrame,
    spine: u32,
    elements: ElementRange,
    k: int,
) -> Pager
    decreases k,
{
    if k <= 0 {
        pager_start(spine, elements)
    } else {
        placed(
            paged(blocks, layouts, frame, spine, elements, k - 1),
            (k - 1) as usize,
            blocks[k - 1],
            abs_x(blocks, layouts, k - 1),
            abs_y(blocks, layouts, k - 1),
            layouts[k - 1],
            frame,
            elements,
        )
    }
}

/// The pages once the last block is done: the page that was being filled is
/// the chapter's last page and covers what is left of the chapter.
pub open spec fn finished(pg: Pager, elements: ElementRange) -> Seq<PageView> {
    pg.done.push(
        PageView {
            position: PagePosition { first: pg.page.position.first, last: true },
            elements: ElementRange { start: pg.page.elements.start, end: elements.end },
            ..pg.page
        },
    )
}

/// The pages of a chapter.
pub open spec fn paged_chapter(
    blocks: Seq<Block>,
    layouts: Seq<BoxLayout>,
    frame: PageFrame,
    spine: u32,
    elements: ElementRange,
) -> Seq<PageView> {
    finished(paged(blocks, layouts, frame, spine, elements, blocks.len() as int), elements)
}

/// The blocks stand for elements that are numbered upwards in document
/// order and all lie in the chapter.
pub open spec fn elements_ascend(blocks: Seq<Block>, elements: ElementRange) -> bool {
    &&& forall|i: int, j: int|
        0 <= i < j < blocks.len() ==> (#[trigger] blocks[i]).element.0 < (
        #[trigger] blocks[j]).element.0
    &&& forall|i: int|
        0 <= i < blocks.len() ==> elements.start + (#[trigger] blocks[i]).element.0 < elements.end
}

/// Every page starts behind the start of the page before it.
pub open spec fn starts_ascend(pages: Seq<PageView>) -> bool {
    forall|i: int, j: int|
        0 <= i < j < pages.len() ==> (#[trigger] pages[i]).elements.start < (
        #[trigger] pages[j]).elements.start
}

/// What holds of the paginator between any two blocks.
pub open spec fn covers_so_far(pg: Pager, spine: u32, elements: ElementRange) -> bool {
    &&& forall|i: int|
        0 <= i < pg.done.len() ==> {
            &&& (#[trigger] pg.done[i]).elements.start <= pg.done[i].elements.end
            &&& pg.done[i].spine == spine
            &&& pg.done[i].index == i
            &&& pg.done[i].position.first == (i == 0)
            &&& !pg.done[i].position.last
            &&& pg.done[i].items.len() > 0
        }
    &&& forall|i: int, j: int|
        0 <= i && j == i + 1 && j < pg.done.len() ==> (#[trigger] pg.done[i]).elements.end == (
        #[trigger] pg.done[j]).elements.start
    &&& pg.page.index == pg.done.len()
    &&& pg.page.spine == spine
    &&& pg.page.position.first == (pg.done.len() == 0)
    &&& !pg.page.position.last
    &&& pg.page.elements.start <= pg.page.elements.end <= elements.end
    &&& pg.done.len() > 0 ==> pg.done[0].elements.start == elements.start
        && pg.done.last().elements.end == pg.page.elements.start && pg.page.items.len() > 0
    &&& pg.done.len() == 0 ==> pg.page.elements.start == elements.start
}

/// The pages of a chapter divide its elements among them.
pub proof fn lemma_paged_covers(
    blocks: Seq<Block>,
    layouts: Seq<BoxLayout>,
    frame: PageFrame,
    spine: u32,
    elements: ElementRange,
    k: int,
)
    requires
        elements.start <= elements.end,
        0 <= k <= blocks.len() <= u32::MAX,
    ensures
        covers_so_far(paged(blocks, layouts, frame, spine, elements, k), spine, elements),
        paged(blocks, layouts, frame, spine, elements, k).done.len() <= k,
        k == blocks.len() ==> covers(
            paged_chapter(blocks, layouts, frame, spine, elements),
            spine,
            elements,
        ),
    decreases k,
{
    if k > 0 {
        lemma_paged_covers(blocks, layouts, frame, spine, elements, k - 1);
        let before = paged(blocks, layouts, frame, spine, elements, k - 1);
        let after = paged(blocks, layouts, frame, spine, elements, k);
        if after.done.len() > before.done.len() {
            assert(after.done.drop_last() =~= before.done);
            assert forall|i: int| 0 <= i < after.done.len() implies {
                &&& (#[trigger] after.done[i]).elements.start <= after.done[i].elements.end
                &&& after.done[i].spine == spine
                &&& after.done[i].index == i
                &&& after.done[i].position.first == (i == 0)
                &&& !after.done[i].position.last
                &&& after.done[i].items.len() > 0
            } by {
                if i < before.done.len() {
                    assert(after.done[i] == before.done[i]);
                }
            }
            assert forall|i: int, j: int|
                0 <= i && j == i + 1 && j < after.done.len() implies (
            #[trigger] after.done[i]).elements.end == (#[trigger] after.done[j]).elements.start by {
                if j < before.done.len() {
                    assert(after.done[i] == before.done[i]);
                    assert(after.done[j] == before.done[j]);
                } else {
                    if i >= 0 && before.done.len() > 0 {
                        assert(after.done[i] == before.done[i]);
                    }
                }
            }
        }
    }
    if k == blocks.len() {
        let pg = paged(blocks, layouts, frame, spine, elements, k);
        let pages = finished(pg, elements);
        assert(pages.drop_last() =~= pg.done);
        assert forall|i: int| 0 <= i < pages.len() implies {
            &&& (#[trigger] pages[i]).elements.start <= pages[i].elements.end
            &&& pages[i].spine == spine
            &&& pages[i].index == i
            &&& pages[i].position.first == (i == 0)
            &&& pages[i].position.last == (i == pages.len() - 1)
        } by {
            if i < pg.done.len() {
                assert(pages[i] == pg.done[i]);
            }
        }
        assert forall|i: int, j: int| 0 <= i && j == i + 1 && j < pages.len() implies (
        #[trigger] pages[i]).elements.end == (#[trigger] pages[j]).elements.start by {
            assert(pages[i] == pg.done[i]);
            if j < pg.done.len() {
                assert(pages[j] == pg.done[j]);
            }
        }
        if pg.done.len() > 0 {
            assert(pages[0] == pg.done[0]);
        }
    }
}

/// Where the elements are numbered upwards, every page starts behind the
/// start of the page before it.
pub proof fn lemma_paged_starts_ascend(
    blocks: Seq<Block>,
    layouts: Seq<BoxLayout>,
    frame: PageFrame,
    spine: u32,
    elements: ElementRange,
    k: int,
)
    requires
        elements.start <= elements.end,
        0 <= k <= blocks.len() <= u32::MAX,
        elements_ascend(blocks, elements),
    ensures
        ({
            let pg = paged(blocks, layouts, frame, spine, elements, k);
            &&& starts_ascend(pg.done)
            &&& pg.done.len() > 0 ==> pg.done.last().elements.start < pg.page.elements.start
            &&& k > 0 ==> pg.page.elements.end == elements.start + blocks[k - 1].element.0
            &&& k == 0 ==> pg.page.elements.end == elements.start
            &&& pg.page.items.len() > 0 ==> k > 0 && pg.page.elements.start <= elements.start
                + blocks[k - 1].element.0
            &&& pg.page.elements.start < elements.end || k == 0
        }),
        k == blocks.len() ==> starts_ascend(
            paged_chapter(blocks, layouts, frame, spine, elements),
        ),
    decreases k,
{
    lemma_paged_covers(blocks, layouts, frame, spine, elements, k);
    if k > 0 {
        lemma_paged_starts_ascend(blocks, layouts, frame, spine, elements, k - 1);
        lemma_paged_covers(blocks, layouts, frame, spine, elements, k - 1);
        let before = paged(blocks, layouts, frame, spine, elements, k - 1);
        let after = paged(blocks, layouts, frame, spine, elements, k);
        if k > 1 {
            assert(blocks[k - 2].element.0 < blocks[k - 1].element.0);
        }
        assert(elements.start + blocks[k - 1].element.0 < elements.end);
        if after.done.len() > before.done.len() {
            assert(after.done.drop_last() =~= before.done);
            assert forall|i: int, j: int| 0 <= i < j < after.done.len() implies (
            #[trigger] after.done[i]).elements.start < (
            #[trigger] after.done[j]).elements.start by {
                if j < before.done.len() {
                    assert(after.done[i] == before.done[i]);
                    assert(after.done[j] == before.done[j]);
                } else {
                    assert(after.done[i] == before.done[i]);
                    if i < before.done.len() - 1 {
                        assert(before.done[i].elements.start
                            < before.done.last().elements.start);
                    }
                }
            }
        }
    }
    if k == blocks.len() {
        let pg = paged(blocks, layouts, frame, spine, elements, k);
        let pages = finished(pg, elements);
        assert(pages.drop_last() =~= pg.done);
        assert forall|i: int, j: int| 0 <= i < j < pages.len() implies (
        #[trigger] pages[i]).elements.start < (#[trigger] pages[j]).elements.start by {
            assert(pages[i] == pg.done[i]);
            if j < pg.done.len() {
                assert(pages[j] == pg.done[j]);
            } else {
                if i < pg.done.len() - 1 {
                    assert(pg.done[i].elements.start < pg.done.last().elements.start);
                }
            }
        }
    }
}

/// The size at which a drawing is painted.
fn fit(width: i32, height: i32, room_w: i128, room_h: i128) -> (r: (i32, i32))
    ensures
        r.0 == fitted(width as int, height as int, room_w as int, room_h as int).0,
        r.1 == fitted(width as int, height as int, room_w as int, room_h as int).1,
{
    let w: i64 = if width < 0 {
        0
    } else {
        width as i64
    };
    let h: i64 = if height < 0 {
        0
    } else {
        height as i64
    };
    let rw: i64 = if room_w < 0 {
        0
    } else if room_w > i32::MAX as i128 {
        i32::MAX as i64
    } else {
        room_w as i64
    };
    let rh: i64 = if room_h < 0 {
        0
    } else if room_h > i32::MAX as i128 {
        i32::MAX as i64
    } else {
        room_h as i64
    };
    assert(rw * h <= 0x7fff_ffff * 0x7fff_ffff && rh * w <= 0x7fff_ffff * 0x7fff_ffff && h * rw >= 0
        && w * rh >= 0) by (nonlinear_arith)
        requires
            0 <= w <= 0x7fff_ffff,
            0 <= h <= 0x7fff_ffff,
            0 <= rw <= 0x7fff_ffff,
            0 <= rh <= 0x7fff_ffff,
    ;
    if w <= rw && h <= rh {
        (w as i32, h as i32)
    } else if w > 0 && rw * h <= rh * w {
        assert(h * rw / (w as int) <= rh) by (nonlinear_arith)
            requires
                w > 0,
                rw * h <= rh * w,
                h * rw >= 0,
        ;
        assert(h * rw / (w as int) >= 0) by (nonlinear_arith)
            requires
                w > 0,
                h * rw >= 0,
        ;
        (rw as i32, (h * rw / w) as i32)
    } else if h > 0 {
        assert(w * rh / (h as int) <= rw || w <= rw) by (nonlinear_arith)
            requires
                h > 0,
                w == 0 || rw * h > rh * w,
                w * rh >= 0,
                w >= 0,
                rw >= 0,
        ;
        assert(w * rh / (h as int) >= 0) by (nonlinear_arith)
            requires
                h > 0,
                w * rh >= 0,
        ;
        assert(w * rh / (h as int) <= w) by (nonlinear_arith)
            requires
                h > 0,
                h > rh || w > rw,
                w * rh >= 0,
                w >= 0,
                rh >= 0,
                !(w <= rw && h <= rh),
                w == 0 || rw * h > rh * w,
        ;
        ((w * rh / h) as i32, rh as i32)
    } else {
        (rw as i32, 0)
    }
}

/// The end of a page's range after the element numbered `number`.
fn advance_end(end: u32, number: u32, elements: ElementRange) -> (r: u32)
    ensures
        r == advanced_end(end, number, elements),
{
    let place: u64 = elements.start as u64 + number as u64;
    let e: u32 = if place < elements.end as u64 {
        place as u32
    } else {
        elements.end
    };
    if e > end {
        e
    } else {
        end
    }
}

/// Slices the laid-out blocks of the chapter `item` into pages.
///
/// `layouts` holds the box of each block of `plan`, in the plan's order. The
/// pages divide the chapter's elements among them, whatever the layout is; a
/// chapter without text gives one empty page.
pub fn paginate(
    plan: &LayoutPlan,
    layouts: &Vec<BoxLayout>,
    frame: &PageFrame,
    item: &BookSpineItem,
) -> (r: Result<Vec<PageContent>, IllustratorRenderError>)
    requires
        item.elements.start <= item.elements.end,
    ensures
        match r {
            Ok(pages) => {
                &&& layouts@.len() == plan.block_seq().len()
                &&& page_views(pages@) == paged_chapter(
                    plan.block_seq(),
                    layouts@,
                    *frame,
                    item.index,
                    item.elements,
                )
                &&& covers(page_views(pages@), item.index, item.elements)
                &&& elements_ascend(plan.block_seq(), item.elements) ==> starts_ascend(
                    page_views(pages@),
                )
            },
            Err(e) => e == IllustratorRenderError::LayoutMismatch && layouts@.len()
                != plan.block_seq().len(),
        },
{
    let blocks = plan.blocks();
    let n = blocks.len();
    if layouts.len() != n {
        return Err(IllustratorRenderError::LayoutMismatch);
    }
    let spine = item.index;
    let elements = item.elements;
    let mut abs: Vec<Point> = Vec::new();
    let mut pages: Vec<PageContent> = Vec::new();
    let mut position = PagePosition::first();
    let mut index: u32 = 0;
    let mut start: u32 = elements.start;
    let mut end: u32 = elements.start;
    let mut items: Vec<DisplayItem> = Vec::new();
    let mut top: i128 = 0;
    let mut i: usize = 0;
    assert(page_views(pages@) =~= Seq::<PageView>::empty());
    while i < n
        invariant
            i <= n,
            n == blocks@.len(),
            n == layouts@.len(),
            n <= u32::MAX,
            crate::layout::blocks_ok(blocks@),
            elements.start <= elements.end,
            abs@.len() == i,
            forall|j: int|
                0 <= j < i ==> (#[trigger] abs@[j]).x == abs_x(blocks@, layouts@, j) && abs@[j].y
                    == abs_y(blocks@, layouts@, j),
            forall|j: int|
                0 <= j < i ==> -(j + 1) * 0x8000_0000 <= (#[trigger] abs@[j]).x <= (j + 1)
                    * 0x8000_0000 && -(j + 1) * 0x8000_0000 <= abs@[j].y <= (j + 1) * 0x8000_0000,
            -(i as int) * 0x8000_0000 <= top <= (i as int) * 0x8000_0000,
            ({
                let pg = paged(blocks@, layouts@, *frame, spine, elements, i as int);
                &&& pg.done == page_views(pages@)
                &&& pg.page == PageView {
                    position,
                    spine,
                    index,
                    elements: ElementRange { start, end },
                    items: items@,
                }
                &&& pg.top == top
            }),
        decreases n - i,
    {
        let block = blocks[i];
        let l = layouts[i];
        let ghost pg0 = paged(blocks@, layouts@, *frame, spine, elements, i as int);
        proof {
            lemma_paged_covers(blocks@, layouts@, *frame, spine, elements, i as int);
        }
        let (ax, ay): (i128, i128) = match block.parent {
            Some(p) => {
                assert(p < i);
                assert(-(p + 1) * 0x8000_0000 <= abs@[p as int].x <= (p + 1) * 0x8000_0000);
                assert((p + 1) * 0x8000_0000 <= i * 0x8000_0000) by (nonlinear_arith)
                    requires
                        p + 1 <= i,
                ;
                (abs[p].x + l.x as i128, abs[p].y + l.y as i128)
            },
            None => (l.x as i128, l.y as i128),
        };
        assert(ax == abs_x(blocks@, layouts@, i as int));
        assert(ay == abs_y(blocks@, layouts@, i as int));
        assert((i + 1) * 0x8000_0000 == i * 0x8000_0000 + 0x8000_0000) by (nonlinear_arith);
        assert(i * 0x8000_0000 <= 0xffff_ffff * 0x8000_0000) by (nonlinear_arith)
            requires
                i <= 0xffff_ffff,
        ;
        abs.push(Point { x: ax, y: ay });
        end = advance_end(end, block.element.0, elements);
        if let BlockKind::Image = block.kind {
            let size = fit(
                l.width,
                l.height,
                frame.page_width as i128 - ax,
                frame.page_height as i128 - (ay - top),
            );
            items.push(
                DisplayItem::Image(
                    DisplayImage {
                        pos: Point {
                            x: frame.padding_left as i128 + ax,
                            y: frame.padding_top as i128 + ay - top,
                        },
                        size: Size { width: size.0, height: size.1 },
                        block: i,
                    },
                ),
            );
        } else if let Some(run) = block.run {
            let overflow = ay + l.height as i128 - top > frame.page_height as i128;
            if overflow {
                if items.len() > 0 {
                    let ghost done0 = pages@;
                    let full = PageContent {
                        position,
                        spine,
                        index,
                        elements: ElementRange { start, end },
                        items,
                    };
                    pages.push(full);
                    assert(page_views(pages@) =~= page_views(done0).push(full@));
                    position = PagePosition::empty();
                    index = index + 1;
                    start = end;
                    items = Vec::new();
                }
                top = ay;
            }
            items.push(
                DisplayItem::Text(
                    DisplayText {
                        pos: Point {
                            x: frame.padding_left as i128 + ax,
                            y: frame.padding_top as i128 + ay - top,
                        },
                        size: Size { width: l.width, height: l.height },
                        run,
                    },
                ),
            );
        }
        i = i + 1;
        proof {
            let pg = paged(blocks@, layouts@, *frame, spine, elements, i as int);
            assert(pg == placed(
                pg0,
                (i - 1) as usize,
                block,
                ax as int,
                ay as int,
                l,
                *frame,
                elements,
            ));
            assert(pg.page.items =~= items@);
        }
    }
    proof {
        lemma_paged_covers(blocks@, layouts@, *frame, spine, elements, n as int);
        if elements_ascend(blocks@, elements) {
            lemma_paged_starts_ascend(blocks@, layouts@, *frame, spine, elements, n as int);
        }
    }
    let ghost done0 = pages@;
    position.last = true;
    let closing = PageContent {
        position,
        spine,
        index,
        elements: ElementRange { start, end: elements.end },
        items,
    };
    pages.push(closing);
    assert(page_views(pages@) =~= page_views(done0).push(closing@));
    Ok(pages)
}

} // verus!
