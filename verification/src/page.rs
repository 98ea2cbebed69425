//! Pages: what the paginator emits and the page cache keeps.

use vstd::prelude::*;

verus! {

/// A length or position on the page, in layout units.
pub type Coord = i128;

/// A half-open range of element indices, `start` included and `end` not.
#[derive(Debug, Clone, Copy, PartialEq, Eq, Structural)]
pub struct ElementRange {
    pub start: u32,
    pub end: u32,
}

impl ElementRange {
    pub open spec fn spec_contains(&self, element: u32) -> bool {
        self.start <= element < self.end
    }

    #[verifier::when_used_as_spec(spec_contains)]
    pub fn contains(&self, element: u32) -> (b: bool)
        ensures
            b == self.spec_contains(element),
    {
        self.start <= element && element < self.end
    }
}

/// Where a page stands in its chapter.
#[derive(Debug, Clone, Copy, PartialEq, Eq, Structural)]
pub struct PagePosition {
    pub first: bool,
    pub last: bool,
}

impl PagePosition {
    /// Neither first nor last.
    pub fn empty() -> (p: Self)
        ensures
            !p.first,
            !p.last,
    {
        PagePosition { first: false, last: false }
    }

    /// The flag of a chapter's first page.
    pub fn first() -> (p: Self)
        ensures
            p.first,
            !p.last,
    {
        PagePosition { first: true, last: false }
    }

    /// The flag of a chapter's last page.
    pub fn last() -> (p: Self)
        ensures
            !p.first,
            p.last,
    {
        PagePosition { first: false, last: true }
    }

    pub open spec fn spec_contains(&self, flags: PagePosition) -> bool {
        (flags.first ==> self.first) && (flags.last ==> self.last)
    }

    /// Whether every flag of `flags` is set in `self`.
    #[verifier::when_used_as_spec(spec_contains)]
    pub fn contains(&self, flags: PagePosition) -> (b: bool)
        ensures
            b == self.spec_contains(flags),
    {
        (!flags.first || self.first) && (!flags.last || self.last)
    }

    /// Sets or clears the flags of `flags`.
    pub fn set(&mut self, flags: PagePosition, value: bool)
        ensures
            final(self).first == (if flags.first {
                value
            } else {
                old(self).first
            }),
            final(self).last == (if flags.last {
                value
            } else {
                old(self).last
            }),
    {
        if flags.first {
            self.first = value;
        }
        if flags.last {
            self.last = value;
        }
    }
}

#[derive(Debug, Clone, Copy, PartialEq, Eq, Structural)]
pub struct Point {
    pub x: Coord,
    pub y: Coord,
}

#[derive(Debug, Clone, Copy, PartialEq, Eq, Structural)]
pub struct Size {
    pub width: i32,
    pub height: i32,
}

/// A run of text placed on a page. `run` names the shaped text: it is the
/// number that the layout plan gave the run.
#[derive(Debug, Clone, Copy, PartialEq, Eq, Structural)]
pub struct DisplayText {
    pub pos: Point,
    pub size: Size,
    pub run: usize,
}

/// A drawing placed on a page, at the size at which it is to be painted.
/// `block` names the drawing: it is the number that the layout plan gave its
/// block.
#[derive(Debug, Clone, Copy, PartialEq, Eq, Structural)]
pub struct DisplayImage {
    pub pos: Point,
    pub size: Size,
    pub block: usize,
}

/// Something to paint on a page.
#[derive(Debug, Clone, Copy, PartialEq, Eq, Structural)]
pub enum DisplayItem {
    Text(DisplayText),
    Image(DisplayImage),
}

/// One page of a chapter.
#[derive(Debug)]
pub struct PageContent {
    pub position: PagePosition,
    /// The chapter that owns the page, by its place in the spine.
    pub spine: u32,
    /// The number of the page in its chapter, counted from 0.
    pub index: u32,
    /// The elements that the page covers.
    pub elements: ElementRange,
    /// What to paint, in document order.
    pub items: Vec<DisplayItem>,
}

/// A page as a value.
pub struct PageView {
    pub position: PagePosition,
    pub spine: u32,
    pub index: u32,
    pub elements: ElementRange,
    pub items: Seq<DisplayItem>,
}

impl View for PageContent {
    type V = PageView;

    open spec fn view(&self) -> PageView {
        PageView {
            position: self.position,
            spine: self.spine,
            index: self.index,
            elements: self.elements,
            items: self.items@,
        }
    }
}

/// The pages of a list as values.
pub open spec fn page_views(pages: Seq<PageContent>) -> Seq<PageView> {
    pages.map_values(|p: PageContent| p@)
}

/// One chapter of the book: its place in the spine, the resource that holds
/// it, and the element indices that belong to it alone.
#[derive(Debug)]
pub struct BookSpineItem {
    pub index: u32,
    pub idref: String,
    pub elements: ElementRange,
}

/// The pages of one chapter divide its elements among them: the first page
/// starts where the chapter starts, each page starts where the one before it
/// ends, the last page ends where the chapter ends, the first page alone is
/// flagged first and the last page alone is flagged last.
pub open spec fn covers(pages: Seq<PageView>, spine: u32, elements: ElementRange) -> bool {
    &&& pages.len() > 0
    &&& pages[0].elements.start == elements.start
    &&& pages.last().elements.end == elements.end
    &&& forall|i: int|
        0 <= i < pages.len() ==> {
            &&& (#[trigger] pages[i]).elements.start <= pages[i].elements.end
            &&& pages[i].spine == spine
            &&& pages[i].index == i
            &&& pages[i].position.first == (i == 0)
            &&& pages[i].position.last == (i == pages.len() - 1)
        }
    &&& forall|i: int, j: int|
        0 <= i && j == i + 1 && j < pages.len() ==> (#[trigger] pages[i]).elements.end == (
        #[trigger] pages[j]).elements.start
}

/// Where the pages of a chapter divide its elements, every element of the
/// chapter lies on exactly one page.
pub proof fn lemma_cover_is_partition(
    pages: Seq<PageView>,
    spine: u32,
    elements: ElementRange,
    element: u32,
)
    requires
        covers(pages, spine, elements),
        elements.contains(element),
    ensures
        exists|i: int| 0 <= i < pages.len() && (#[trigger] pages[i]).elements.contains(element),
        forall|i: int, j: int|
            0 <= i < pages.len() && 0 <= j < pages.len() && (#[trigger] pages[i]).elements.contains(
                element,
            ) && (#[trigger] pages[j]).elements.contains(element) ==> i == j,
        forall|i: int|
            0 <= i < pages.len() && (#[trigger] pages[i]).elements.contains(element)
                ==> elements.contains(element),
{
    lemma_starts_ascend(pages, spine, elements);
    lemma_find_page(pages, spine, elements, element, pages.len() - 1);
    assert forall|i: int, j: int|
        0 <= i < pages.len() && 0 <= j < pages.len() && (#[trigger] pages[i]).elements.contains(
            element,
        ) && (#[trigger] pages[j]).elements.contains(element) implies i == j by {
        if i < j {
            assert(pages[i].elements.end <= pages[j].elements.start);
        }
        if j < i {
            assert(pages[j].elements.end <= pages[i].elements.start);
        }
    }
}

/// In a cover, a later page starts no earlier than an earlier page ends.
pub proof fn lemma_starts_ascend(pages: Seq<PageView>, spine: u32, elements: ElementRange)
    requires
        covers(pages, spine, elements),
    ensures
        forall|i: int, j: int|
            0 <= i < j < pages.len() ==> (#[trigger] pages[i]).elements.end <= (
            #[trigger] pages[j]).elements.start,
        forall|i: int|
            0 <= i < pages.len() ==> elements.start <= (#[trigger] pages[i]).elements.start
                && pages[i].elements.end <= elements.end,
{
    assert forall|i: int, j: int| 0 <= i < j < pages.len() implies (
    #[trigger] pages[i]).elements.end <= (#[trigger] pages[j]).elements.start by {
        lemma_ascend_step(pages, spine, elements, i, j);
    }
    assert forall|i: int| 0 <= i < pages.len() implies elements.start <= (
    #[trigger] pages[i]).elements.start && pages[i].elements.end <= elements.end by {
        if 0 < i {
            lemma_ascend_step(pages, spine, elements, 0, i);
        }
        if i < pages.len() - 1 {
            lemma_ascend_step(pages, spine, elements, i, pages.len() - 1);
        }
    }
}

proof fn lemma_ascend_step(
    pages: Seq<PageView>,
    spine: u32,
    elements: ElementRange,
    i: int,
    j: int,
)
    requires
        covers(pages, spine, elements),
        0 <= i < j < pages.len(),
    ensures
        pages[i].elements.end <= pages[j].elements.start,
    decreases j - i,
{
    if i + 1 < j {
        lemma_ascend_step(pages, spine, elements, i, j - 1);
        assert(pages[j - 1].elements.start <= pages[j - 1].elements.end);
        assert(pages[j - 1].elements.end == pages[j].elements.start);
    } else {
        assert(pages[i].elements.end == pages[i + 1].elements.start);
    }
}

proof fn lemma_find_page(
    pages: Seq<PageView>,
    spine: u32,
    elements: ElementRange,
    element: u32,
    k: int,
)
    requires
        covers(pages, spine, elements),
        0 <= k < pages.len(),
        elements.start <= element < pages[k].elements.end,
    ensures
        exists|i: int| 0 <= i <= k && (#[trigger] pages[i]).elements.contains(element),
    decreases k,
{
    if pages[k].elements.start <= element {
        assert(pages[k].elements.contains(element));
    } else {
        assert(k > 0);
        assert(pages[k - 1].elements.end == pages[k].elements.start);
        lemma_find_page(pages, spine, elements, element, k - 1);
    }
}

} // verus!
