//! The spine of a book and its table of contents.

use crate::cache::BookMeta;
use crate::library::Location;
use crate::page::{BookSpineItem, ElementRange};
use vstd::prelude::*;

verus! {

/// One entry of the navigation document of a book.
#[derive(Debug)]
pub struct NavPoint {
    pub id: String,
    /// The title that the reader sees.
    pub label: String,
    /// The resource that the entry leads to.
    pub src: String,
}

/// The navigation document of a book.
#[derive(Debug)]
pub struct Navigation {
    pub nav_points: Vec<NavPoint>,
}

/// An entry of the table of contents.
#[derive(Debug)]
pub struct IllustratorToCItem {
    pub title: String,
    pub location: Location,
}

/// The table of contents.
#[derive(Debug)]
pub struct IllustratorToC {
    pub items: Vec<IllustratorToCItem>,
}

/// The last chapter in front of `upto` whose resource is `src`.
pub open spec fn last_chapter_of(spine: Seq<BookSpineItem>, src: Seq<char>, upto: int) -> Option<int>
    decreases upto,
{
    if upto <= 0 || upto > spine.len() {
        None
    } else if spine[upto - 1].idref@ == src {
        Some(upto - 1)
    } else {
        last_chapter_of(spine, src, upto - 1)
    }
}

/// A title with the place it leads to.
pub type TocView = (Seq<char>, Location);

/// The table of contents of the first `k` entries of the navigation: each
/// entry that leads to a chapter of the spine, with the start of that
/// chapter. Entries that lead elsewhere are left out.
pub open spec fn toc_of(nav: Seq<NavPoint>, spine: Seq<BookSpineItem>, k: int) -> Seq<TocView>
    decreases k,
{
    if k <= 0 {
        Seq::empty()
    } else {
        let rest = toc_of(nav, spine, k - 1);
        match last_chapter_of(spine, nav[k - 1].src@, spine.len() as int) {
            Some(i) => rest.push((nav[k - 1].label@, Location { spine: i as u32, element: 0 })),
            None => rest,
        }
    }
}

/// The entries of a table of contents as values.
pub open spec fn toc_views(items: Seq<IllustratorToCItem>) -> Seq<TocView> {
    items.map_values(|i: IllustratorToCItem| (i.title@, i.location))
}

/// The last chapter of `spine` whose resource is `src`.
fn find_chapter(spine: &Vec<BookSpineItem>, src: &String) -> (r: Option<usize>)
    ensures
        match r {
            Some(i) => last_chapter_of(spine@, src@, spine@.len() as int) == Some(i as int) && i
                < spine@.len(),
            None => last_chapter_of(spine@, src@, spine@.len() as int) is None,
        },
{
    let mut i: usize = spine.len();
    while i > 0
        invariant
            i <= spine@.len(),
            last_chapter_of(spine@, src@, spine@.len() as int) == last_chapter_of(
                spine@,
                src@,
                i as int,
            ),
        decreases i,
    {
        if spine[i - 1].idref == *src {
            return Some(i - 1);
        }
        i = i - 1;
    }
    None
}

impl Navigation {
    /// The table of contents of a book with the spine `spine`. A spine
    /// holds as many chapters as can be numbered.
    pub fn into_toc(self, spine: &Vec<BookSpineItem>) -> (toc: IllustratorToC)
        requires
            spine@.len() <= u32::MAX,
        ensures
            toc_views(toc.items@) == toc_of(self.nav_points@, spine@, self.nav_points@.len() as int),
    {
        let mut items: Vec<IllustratorToCItem> = Vec::new();
        let nav = &self.nav_points;
        let mut k: usize = 0;
        assert(toc_views(items@) =~= toc_of(nav@, spine@, 0));
        while k < nav.len()
            invariant
                k <= nav@.len(),
                spine@.len() <= u32::MAX,
                toc_views(items@) == toc_of(nav@, spine@, k as int),
            decreases nav@.len() - k,
        {
            if let Some(i) = find_chapter(spine, &nav[k].src) {
                let ghost before = items@;
                let item = IllustratorToCItem {
                    title: nav[k].label.clone(),
                    location: Location { spine: i as u32, element: 0 },
                };
                items.push(item);
                assert(toc_views(items@) =~= toc_views(before).push(
                    (nav@[k as int].label@, Location { spine: i as u32, element: 0 }),
                ));
            }
            k = k + 1;
        }
        IllustratorToC { items }
    }
}

/// The end of a chapter that starts at `start` and holds `count` elements;
/// the numbering stops at the largest index.
pub open spec fn chapter_end(start: u32, count: u32) -> u32 {
    if start + count > u32::MAX {
        u32::MAX
    } else {
        (start + count) as u32
    }
}

/// The start of chapter `k` where the chapters hold `counts` elements: the
/// end of the chapter before it.
pub open spec fn chapter_start(counts: Seq<u32>, k: int) -> u32
    decreases k,
{
    if k <= 0 {
        0
    } else {
        chapter_end(chapter_start(counts, k - 1), counts[k - 1])
    }
}

/// The chapters of a spine number their elements through: the first
/// chapter starts at 0, each chapter starts where the one before it ends.
pub open spec fn numbered_through(spine: Seq<BookSpineItem>) -> bool {
    &&& forall|i: int|
        0 <= i < spine.len() ==> (#[trigger] spine[i]).index == i && spine[i].elements.start
            <= spine[i].elements.end
    &&& spine.len() > 0 ==> spine[0].elements.start == 0
    &&& forall|i: int, j: int|
        0 <= i && j == i + 1 && j < spine.len() ==> (#[trigger] spine[i]).elements.end == (
        #[trigger] spine[j]).elements.start
}

impl BookMeta {
    /// The reading order of a book whose chapters are the resources of
    /// `chapters`, each with the number of elements it holds. A book holds as
    /// many chapters as can be numbered.
    pub fn create(chapters: Vec<(String, u32)>, cover_id: Option<String>) -> (meta: Self)
        requires
            chapters@.len() <= u32::MAX,
        ensures
            meta.cover_id == cover_id,
            meta.spine@.len() == chapters@.len(),
            forall|i: int|
                0 <= i < chapters@.len() ==> {
                    &&& (#[trigger] meta.spine@[i]).index == i
                    &&& meta.spine@[i].idref@ == chapters@[i].0@
                    &&& meta.spine@[i].elements.start == chapter_start(counts_of(chapters@), i)
                    &&& meta.spine@[i].elements.end == chapter_start(counts_of(chapters@), i + 1)
                },
            numbered_through(meta.spine@),
    {
        let ghost counts = counts_of(chapters@);
        let mut spine: Vec<BookSpineItem> = Vec::new();
        let mut start: u32 = 0;
        let mut i: usize = 0;
        while i < chapters.len()
            invariant
                i <= chapters@.len(),
                chapters@.len() <= u32::MAX,
                counts == counts_of(chapters@),
                spine@.len() == i,
                start == chapter_start(counts, i as int),
                forall|j: int|
                    0 <= j < i ==> {
                        &&& (#[trigger] spine@[j]).index == j
                        &&& spine@[j].idref@ == chapters@[j].0@
                        &&& spine@[j].elements.start == chapter_start(counts, j)
                        &&& spine@[j].elements.end == chapter_start(counts, j + 1)
                    },
            decreases chapters@.len() - i,
        {
            let count = chapters[i].1;
            assert(counts[i as int] == count);
            let end = if count > u32::MAX - start {
                u32::MAX
            } else {
                start + count
            };
            spine.push(
                BookSpineItem {
                    index: i as u32,
                    idref: chapters[i].0.clone(),
                    elements: ElementRange { start, end },
                },
            );
            start = end;
            i = i + 1;
        }
        proof {
            assert forall|j: int| 0 <= j < spine@.len() implies (#[trigger] spine@[j]).index == j
                && spine@[j].elements.start <= spine@[j].elements.end by {}
        }
        BookMeta { spine, cover_id }
    }
}

/// The numbers of elements of the chapters.
pub open spec fn counts_of(chapters: Seq<(String, u32)>) -> Seq<u32> {
    chapters.map_values(|c: (String, u32)| c.1)
}

} // verus!
