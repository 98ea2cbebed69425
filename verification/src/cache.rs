//! The page cache: the rendered pages of the chapters read last.
//!
//! The cache has room for the pages of five chapters. A chapter that is put
//! in takes the slot that follows the one taken before it, whatever was read
//! meanwhile: the chapter put in longest ago gives way.

use crate::library::Location;
use crate::page::{
    covers, page_views, BookSpineItem, ElementRange, PageContent, PagePosition, PageView,
};
use crate::paginator::starts_ascend;
use vstd::prelude::*;

verus! {

/// The number of chapters that the cache holds.
pub const CACHE_CHAPTERS: usize = 5;

/// The pages of one chapter.
#[derive(Debug)]
pub struct PageCacheEntry {
    pub spine: u32,
    pub elements: ElementRange,
    pub pages: Vec<PageContent>,
}

/// A cache entry as a value.
pub struct EntryView {
    pub spine: u32,
    pub elements: ElementRange,
    pub pages: Seq<PageView>,
}

impl View for PageCacheEntry {
    type V = EntryView;

    open spec fn view(&self) -> EntryView {
        EntryView { spine: self.spine, elements: self.elements, pages: page_views(self.pages@) }
    }
}

/// The cache as a value: five slots, and the slot that is filled next.
pub struct CacheView {
    pub next: int,
    pub slots: Seq<Option<EntryView>>,
}

/// The linear reading order of the book.
#[derive(Debug)]
pub struct BookMeta {
    pub spine: Vec<BookSpineItem>,
    pub cover_id: Option<String>,
}

/// The first slot at or behind `from` that holds the chapter `spine`.
pub open spec fn first_slot(slots: Seq<Option<EntryView>>, spine: u32, from: int) -> Option<int>
    decreases slots.len() - from,
{
    if from < 0 || from >= slots.len() {
        None
    } else if slots[from] is Some && slots[from]->0.spine == spine {
        Some(from)
    } else {
        first_slot(slots, spine, from + 1)
    }
}

/// The first page at or behind `from` whose range holds `element`.
pub open spec fn first_containing(pages: Seq<PageView>, element: u32, from: int) -> Option<int>
    decreases pages.len() - from,
{
    if from < 0 || from >= pages.len() {
        None
    } else if pages[from].elements.contains(element) {
        Some(from)
    } else {
        first_containing(pages, element, from + 1)
    }
}

/// The first page at or behind `from` that starts behind `start`.
pub open spec fn first_after(pages: Seq<PageView>, start: u32, from: int) -> Option<int>
    decreases pages.len() - from,
{
    if from < 0 || from >= pages.len() {
        None
    } else if pages[from].elements.start > start {
        Some(from)
    } else {
        first_after(pages, start, from + 1)
    }
}

/// The last page in front of `upto` that starts before `start`.
pub open spec fn last_before(pages: Seq<PageView>, start: u32, upto: int) -> Option<int>
    decreases upto,
{
    if upto <= 0 || upto > pages.len() {
        None
    } else if pages[upto - 1].elements.start < start {
        Some(upto - 1)
    } else {
        last_before(pages, start, upto - 1)
    }
}

/// The page of a chapter on which `element` is shown: the first page for an
/// element at or before the start of the first page, the last page for one
/// at or behind the start of the last page, else the page whose range holds
/// the element.
pub open spec fn page_no(pages: Seq<PageView>, element: u32) -> Option<int> {
    if pages.len() == 0 {
        None
    } else if element <= pages[0].elements.start {
        Some(0)
    } else if element >= pages.last().elements.start {
        Some(pages.len() - 1)
    } else {
        first_containing(pages, element, 0)
    }
}

/// The slot and the page that show `loc`.
pub open spec fn resolved(c: CacheView, loc: Location) -> Option<(int, int)> {
    match first_slot(c.slots, loc.spine, 0) {
        Some(s) => match page_no(c.slots[s]->0.pages, loc.element) {
            Some(p) => Some((s, p)),
            None => None,
        },
        None => None,
    }
}

/// The cache entry that shows `loc`.
pub open spec fn resolved_entry(c: CacheView, loc: Location) -> EntryView {
    let found = resolved(c, loc)->0;
    c.slots[found.0]->0
}

/// The page that shows `loc`.
pub open spec fn resolved_page(c: CacheView, loc: Location) -> PageView {
    let found = resolved(c, loc)->0;
    resolved_entry(c, loc).pages[found.1]
}

/// The cache after the chapter `e` was put in: it takes the slot that is
/// next in turn, and the turn moves on.
pub open spec fn inserted(c: CacheView, e: EntryView) -> CacheView {
    CacheView { next: (c.next + 1) % 5, slots: c.slots.update(c.next, Some(e)) }
}

/// The cache after the chapters of `es` were put in one after the other.
pub open spec fn inserted_all(c: CacheView, es: Seq<EntryView>) -> CacheView
    decreases es.len(),
{
    if es.len() == 0 {
        c
    } else {
        inserted(inserted_all(c, es.drop_last()), es.last())
    }
}

/// The number of chapters that the cache holds.
pub open spec fn held(slots: Seq<Option<EntryView>>) -> nat
    decreases slots.len(),
{
    if slots.len() == 0 {
        0
    } else {
        held(slots.drop_last()) + (if slots.last() is Some {
            1nat
        } else {
            0nat
        })
    }
}

/// Where the reader stands after turning the page at `loc`.
///
/// From the last page of a chapter the way leads to the first element of the
/// chapter that follows in the spine; at the end of the book, and where the
/// pages of `loc` are not cached, the position stays.
pub open spec fn next_location(c: CacheView, spine: Seq<BookSpineItem>, loc: Location) -> Location {
    match resolved(c, loc) {
        Some((s, p)) => {
            let entry = c.slots[s]->0;
            let page = entry.pages[p];
            if page.position.last {
                if entry.spine + 1 < spine.len() {
                    Location {
                        spine: spine[entry.spine + 1].index,
                        element: spine[entry.spine + 1].elements.start,
                    }
                } else {
                    loc
                }
            } else {
                let q = match first_after(entry.pages, page.elements.start, 0) {
                    Some(q) => q,
                    None => entry.pages.len() - 1,
                };
                Location { spine: entry.spine, element: entry.pages[q].elements.start }
            }
        },
        None => loc,
    }
}

/// Where the reader stands after turning back the page at `loc`.
///
/// From the first page of a chapter the way leads to the last element of the
/// chapter before it in the spine; at the start of the book, and where the
/// pages of `loc` are not cached, the position stays.
pub open spec fn previous_location(
    c: CacheView,
    spine: Seq<BookSpineItem>,
    loc: Location,
) -> Location {
    match resolved(c, loc) {
        Some((s, p)) => {
            let entry = c.slots[s]->0;
            let page = entry.pages[p];
            if page.position.first {
                if 0 < entry.spine && entry.spine - 1 < spine.len() {
                    Location {
                        spine: spine[entry.spine - 1].index,
                        element: spine[entry.spine - 1].elements.end,
                    }
                } else {
                    loc
                }
            } else {
                match last_before(entry.pages, page.elements.start, entry.pages.len() as int) {
                    Some(q) => Location {
                        spine: entry.spine,
                        element: entry.pages[q].elements.start,
                    },
                    None => loc,
                }
            }
        },
        None => loc,
    }
}

/// The rendered pages of the chapters read last.
#[derive(Debug)]
pub struct PageContentCache {
    index: usize,
    entries: [Option<PageCacheEntry>; 5],
}

/// The slots as values.
pub open spec fn slot_views(entries: Seq<Option<PageCacheEntry>>) -> Seq<Option<EntryView>> {
    entries.map_values(
        |e: Option<PageCacheEntry>|
            match e {
                Some(e) => Some(e@),
                None => None,
            },
    )
}

impl View for PageContentCache {
    type V = CacheView;

    closed spec fn view(&self) -> CacheView {
        CacheView { next: (self.index % 5) as int, slots: slot_views(self.entries@) }
    }
}

impl Default for PageContentCache {
    fn default() -> (c: Self)
        ensures
            c@.next == 0,
            c@.slots == Seq::new(5, |i: int| None::<EntryView>),
    {
        let c = PageContentCache { index: 0, entries: [None, None, None, None, None] };
        assert(c@.slots =~= Seq::new(5, |i: int| None::<EntryView>));
        c
    }
}

impl PageContentCache {
    /// The cache always has five slots, and the next slot is one of them.
    pub proof fn lemma_shape(&self)
        ensures
            self@.slots.len() == 5,
            0 <= self@.next < 5,
    {
    }

    /// The slot that holds the chapter `spine`.
    fn slot_of(&self, spine: u32) -> (r: Option<usize>)
        ensures
            match r {
                Some(s) => first_slot(self@.slots, spine, 0) == Some(s as int) && s < 5
                    && self.entries@[s as int] is Some,
                None => first_slot(self@.slots, spine, 0) is None,
            },
    {
        let mut i: usize = 0;
        while i < 5
            invariant
                i <= 5,
                first_slot(self@.slots, spine, 0) == first_slot(self@.slots, spine, i as int),
            decreases 5 - i,
        {
            match &self.entries[i] {
                Some(e) => {
                    if e.spine == spine {
                        return Some(i);
                    }
                },
                None => {},
            }
            i = i + 1;
        }
        None
    }

    /// The cached entry and page that show `loc`.
    pub fn entry(&self, loc: Location) -> (r: Option<(&PageCacheEntry, &PageContent)>)
        ensures
            match r {
                Some((entry, page)) => resolved(self@, loc) is Some && entry@ == resolved_entry(
                    self@,
                    loc,
                ) && page@ == resolved_page(self@, loc),
                None => resolved(self@, loc) is None,
            },
    {
        let s = match self.slot_of(loc.spine) {
            Some(s) => s,
            None => {
                return None;
            },
        };
        match &self.entries[s] {
            Some(entry) => {
                match find_page(&entry.pages, loc.element) {
                    Some(p) => {
                        assert(page_views(entry.pages@)[p as int] == entry.pages@[p as int]@);
                        Some((entry, &entry.pages[p]))
                    },
                    None => None,
                }
            },
            None => None,
        }
    }

    /// The cached page that shows `loc`.
    pub fn page(&self, loc: Location) -> (r: Option<&PageContent>)
        ensures
            match r {
                Some(page) => resolved(self@, loc) is Some && page@ == resolved_page(self@, loc),
                None => resolved(self@, loc) is None,
            },
    {
        match self.entry(loc) {
            Some((_, page)) => Some(page),
            None => None,
        }
    }

    /// Where the reader stands after turning the page at `loc`.
    #[verifier::loop_isolation(false)]
    pub fn next_page(&self, book_meta: &BookMeta, loc: Location) -> (r: Location)
        ensures
            r == next_location(self@, book_meta.spine@, loc),
    {
        let (entry, page) = match self.entry(loc) {
            Some(found) => found,
            None => {
                return loc;
            },
        };
        if page.position.last {
            if (entry.spine as usize) < book_meta.spine.len()
                && entry.spine as usize + 1 < book_meta.spine.len() {
                let item = &book_meta.spine[entry.spine as usize + 1];
                Location { spine: item.index, element: item.elements.start }
            } else {
                loc
            }
        } else {
            let pages = &entry.pages;
            let ghost views = page_views(pages@);
            let mut q: usize = 0;
            while q < pages.len()
                invariant
                    q <= pages.len(),
                    views == page_views(pages@),
                    first_after(views, page.elements.start, 0) == first_after(
                        views,
                        page.elements.start,
                        q as int,
                    ),
                decreases pages.len() - q,
            {
                assert(views[q as int] == pages@[q as int]@);
                if pages[q].elements.start > page.elements.start {
                    return Location { spine: entry.spine, element: pages[q].elements.start };
                }
                q = q + 1;
            }
            let last = pages.len() - 1;
            assert(views[last as int] == pages@[last as int]@);
            Location { spine: entry.spine, element: pages[last].elements.start }
        }
    }

    /// Where the reader stands after turning back the page at `loc`.
    #[verifier::loop_isolation(false)]
    pub fn previous_page(&self, book_meta: &BookMeta, loc: Location) -> (r: Location)
        ensures
            r == previous_location(self@, book_meta.spine@, loc),
    {
        let (entry, page) = match self.entry(loc) {
            Some(found) => found,
            None => {
                return loc;
            },
        };
        if page.position.first {
            if 0 < entry.spine && ((entry.spine - 1) as usize) < book_meta.spine.len() {
                let item = &book_meta.spine[(entry.spine - 1) as usize];
                Location { spine: item.index, element: item.elements.end }
            } else {
                loc
            }
        } else {
            let pages = &entry.pages;
            let ghost views = page_views(pages@);
            let mut q: usize = pages.len();
            while q > 0
                invariant
                    q <= pages.len(),
                    views == page_views(pages@),
                    last_before(views, page.elements.start, views.len() as int) == last_before(
                        views,
                        page.elements.start,
                        q as int,
                    ),
                decreases q,
            {
                assert(views[q - 1] == pages@[q - 1]@);
                if pages[q - 1].elements.start < page.elements.start {
                    return Location { spine: entry.spine, element: pages[q - 1].elements.start };
                }
                q = q - 1;
            }
            loc
        }
    }

    /// Whether the pages of the chapter `spine_item` are cached.
    pub fn is_cached(&self, spine_item: &BookSpineItem) -> (b: bool)
        ensures
            b == (first_slot(self@.slots, spine_item.index, 0) is Some),
    {
        self.slot_of(spine_item.index).is_some()
    }

    /// Puts the pages of the chapter `spine_item` into the slot that is next
    /// in turn; what the slot held is dropped.
    pub fn insert(&mut self, spine_item: &BookSpineItem, pages: Vec<PageContent>)
        ensures
            final(self)@ == inserted(
                old(self)@,
                EntryView {
                    spine: spine_item.index,
                    elements: spine_item.elements,
                    pages: page_views(pages@),
                },
            ),
    {
        let slot = self.index % 5;
        let entry = PageCacheEntry {
            spine: spine_item.index,
            elements: spine_item.elements,
            pages,
        };
        let ghost entries0 = self.entries@;
        self.entries[slot] = Some(entry);
        self.index = (slot + 1) % 5;
        assert(slot_views(self.entries@) =~= slot_views(entries0).update(
            slot as int,
            Some(entry@),
        ));
    }

    /// Drops every chapter. The turn of the slots stays where it is.
    pub fn clear(&mut self)
        ensures
            final(self)@.next == old(self)@.next,
            final(self)@.slots == Seq::new(5, |i: int| None::<EntryView>),
    {
        self.entries = [None, None, None, None, None];
        assert(self@.slots =~= Seq::new(5, |i: int| None::<EntryView>));
    }

    /// The number of chapters that the cache holds: five at most.
    pub fn len(&self) -> (n: usize)
        ensures
            n == held(self@.slots),
            n <= 5,
    {
        let mut n: usize = 0;
        let mut i: usize = 0;
        let ghost slots = self@.slots;
        assert(slots.take(0) =~= Seq::<Option<EntryView>>::empty());
        while i < 5
            invariant
                i <= 5,
                n <= i,
                slots == self@.slots,
                slots.len() == 5,
                n == held(slots.take(i as int)),
            decreases 5 - i,
        {
            assert(slots.take(i + 1).drop_last() =~= slots.take(i as int));
            if self.entries[i].is_some() {
                n = n + 1;
            }
            i = i + 1;
        }
        assert(slots.take(5) =~= slots);
        n
    }
}

/// The page of `pages` on which `element` is shown.
#[verifier::loop_isolation(false)]
fn find_page(pages: &Vec<PageContent>, element: u32) -> (r: Option<usize>)
    ensures
        match r {
            Some(p) => page_no(page_views(pages@), element) == Some(p as int) && p < pages.len(),
            None => page_no(page_views(pages@), element) is None,
        },
{
    let ghost views = page_views(pages@);
    if pages.len() == 0 {
        return None;
    }
    let last = pages.len() - 1;
    assert(views[0] == pages@[0]@);
    assert(views[last as int] == pages@[last as int]@);
    if element <= pages[0].elements.start {
        return Some(0);
    }
    if element >= pages[last].elements.start {
        return Some(last);
    }
    let mut i: usize = 0;
    while i < pages.len()
        invariant
            i <= pages.len(),
            views == page_views(pages@),
            first_containing(views, element, 0) == first_containing(views, element, i as int),
        decreases pages.len() - i,
    {
        assert(views[i as int] == pages@[i as int]@);
        if pages[i].elements.contains(element) {
            return Some(i);
        }
        i = i + 1;
    }
    None
}

impl BookMeta {
    /// The chapter of `loc`, where the spine has it.
    pub fn spine_item(&self, loc: Location) -> (r: Option<&BookSpineItem>)
        ensures
            match r {
                Some(item) => loc.spine < self.spine@.len() && *item == self.spine@[loc.spine as int],
                None => loc.spine >= self.spine@.len(),
            },
    {
        if (loc.spine as usize) < self.spine.len() {
            Some(&self.spine[loc.spine as usize])
        } else {
            None
        }
    }
}

/// However many chapters are put into the cache, it holds the five put in
/// last, each in the slot of its turn, and what a slot held before gives
/// way: the chapter put in sixth takes the place of the one put in first,
/// whether or not that one was read in between. Slots whose turn did not
/// come keep what they held.
pub proof fn lemma_cache_holds_last_five(c: CacheView, es: Seq<EntryView>)
    requires
        c.slots.len() == 5,
        0 <= c.next < 5,
    ensures
        inserted_all(c, es).slots.len() == 5,
        inserted_all(c, es).next == (c.next + es.len()) % 5,
        forall|j: int|
            0 <= j < es.len() && es.len() - 5 <= j ==> #[trigger] inserted_all(c, es).slots[(c.next
                + j) % 5] == Some(es[j]),
        forall|s: int|
            0 <= s < 5 && es.len() < 5 && (s - c.next) % 5 >= es.len() ==> #[trigger] inserted_all(
                c,
                es,
            ).slots[s] == c.slots[s],
    decreases es.len(),
{
    if es.len() > 0 {
        let front = es.drop_last();
        lemma_cache_holds_last_five(c, front);
        let mid = inserted_all(c, front);
        let r = inserted_all(c, es);
        assert(r == inserted(mid, es.last()));
        assert forall|j: int| 0 <= j < es.len() && es.len() - 5 <= j implies #[trigger] r.slots[(
        c.next + j) % 5] == Some(es[j]) by {
            if j < es.len() - 1 {
                assert(front[j] == es[j]);
                assert(mid.slots[(c.next + j) % 5] == Some(front[j]));
                assert((c.next + j) % 5 != mid.next);
            }
        }
        assert forall|s: int|
            0 <= s < 5 && es.len() < 5 && (s - c.next) % 5 >= es.len() implies #[trigger] r.slots[s]
            == c.slots[s] by {
            assert(mid.slots[s] == c.slots[s]);
            assert(s != mid.next);
        }
    }
}

/// The cache never holds more than five chapters.
pub proof fn lemma_never_more_than_five(slots: Seq<Option<EntryView>>)
    ensures
        held(slots) <= slots.len(),
    decreases slots.len(),
{
    if slots.len() > 0 {
        lemma_never_more_than_five(slots.drop_last());
    }
}

proof fn lemma_first_containing(pages: Seq<PageView>, element: u32, from: int, at: int)
    requires
        0 <= from <= at < pages.len(),
        pages[at].elements.contains(element),
        forall|i: int| from <= i < at ==> !(#[trigger] pages[i]).elements.contains(element),
    ensures
        first_containing(pages, element, from) == Some(at),
    decreases at - from,
{
    if from < at {
        assert(!pages[from].elements.contains(element));
        lemma_first_containing(pages, element, from + 1, at);
    }
}

proof fn lemma_first_after(pages: Seq<PageView>, start: u32, from: int, at: int)
    requires
        0 <= from <= at < pages.len(),
        pages[at].elements.start > start,
        forall|i: int| from <= i < at ==> (#[trigger] pages[i]).elements.start <= start,
    ensures
        first_after(pages, start, from) == Some(at),
    decreases at - from,
{
    if from < at {
        assert(pages[from].elements.start <= start);
        lemma_first_after(pages, start, from + 1, at);
    }
}

proof fn lemma_last_before(pages: Seq<PageView>, start: u32, upto: int, at: int)
    requires
        0 <= at < upto <= pages.len(),
        pages[at].elements.start < start,
        forall|i: int| at < i < upto ==> (#[trigger] pages[i]).elements.start >= start,
    ensures
        last_before(pages, start, upto) == Some(at),
    decreases upto - at,
{
    if at + 1 < upto {
        assert(pages[upto - 1].elements.start >= start);
        lemma_last_before(pages, start, upto - 1, at);
    }
}

/// In a chapter whose pages divide its elements and start one behind the
/// other, the start of a page is shown on that page.
pub proof fn lemma_page_start_resolves(
    pages: Seq<PageView>,
    spine: u32,
    elements: ElementRange,
    k: int,
)
    requires
        covers(pages, spine, elements),
        starts_ascend(pages),
        0 <= k < pages.len(),
    ensures
        page_no(pages, pages[k].elements.start) == Some(k),
{
    let e = pages[k].elements.start;
    if k == 0 {
    } else if k == pages.len() - 1 {
        assert(pages[0].elements.start < e);
    } else {
        assert(pages[0].elements.start < e);
        assert(e < pages.last().elements.start);
        assert(pages[k].elements.end == pages[k + 1].elements.start);
        assert(pages[k].elements.start < pages[k + 1].elements.start);
        crate::page::lemma_starts_ascend(pages, spine, elements);
        assert forall|i: int| 0 <= i < k implies !(#[trigger] pages[i]).elements.contains(e) by {
            assert(pages[i].elements.end <= pages[k].elements.start);
        }
        lemma_first_containing(pages, e, 0, k);
    }
}

/// Turning the page and turning it back leads to where the reader stood.
///
/// This holds of a position at the start of a page that is not the last of
/// its chapter, in a cached chapter whose pages divide its elements and
/// start one behind the other.
pub proof fn lemma_next_then_previous(
    c: CacheView,
    spine: Seq<BookSpineItem>,
    loc: Location,
    k: int,
)
    requires
        first_slot(c.slots, loc.spine, 0) is Some,
        ({
            let entry = c.slots[first_slot(c.slots, loc.spine, 0)->0]->0;
            &&& covers(entry.pages, entry.spine, entry.elements)
            &&& starts_ascend(entry.pages)
            &&& 0 <= k < entry.pages.len() - 1
            &&& loc.element == entry.pages[k].elements.start
        }),
    ensures
        next_location(c, spine, loc) == (Location {
            spine: loc.spine,
            element: c.slots[first_slot(c.slots, loc.spine, 0)->0]->0.pages[k + 1].elements.start,
        }),
        previous_location(c, spine, next_location(c, spine, loc)) == loc,
{
    let s = first_slot(c.slots, loc.spine, 0)->0;
    lemma_first_slot_found(c.slots, loc.spine, 0);
    let entry = c.slots[s]->0;
    let pages = entry.pages;
    lemma_page_start_resolves(pages, entry.spine, entry.elements, k);
    lemma_page_start_resolves(pages, entry.spine, entry.elements, k + 1);
    assert(resolved(c, loc) == Some((s, k)));
    assert(!pages[k].position.last);
    assert forall|i: int| 0 <= i < k + 1 implies (#[trigger] pages[i]).elements.start
        <= pages[k].elements.start by {
        if i < k {
            assert(pages[i].elements.start < pages[k].elements.start);
        }
    }
    assert(pages[k].elements.start < pages[k + 1].elements.start);
    lemma_first_after(pages, pages[k].elements.start, 0, k + 1);
    let there = Location { spine: entry.spine, element: pages[k + 1].elements.start };
    assert(next_location(c, spine, loc) == there);
    assert(resolved(c, there) == Some((s, k + 1)));
    assert(!pages[k + 1].position.first);
    assert forall|i: int| k < i < pages.len() implies (#[trigger] pages[i]).elements.start
        >= pages[k + 1].elements.start by {
        if k + 1 < i {
            assert(pages[k + 1].elements.start < pages[i].elements.start);
        }
    }
    lemma_last_before(pages, pages[k + 1].elements.start, pages.len() as int, k);
}

/// Turning the page leads forward by one page and stays in the chapter: from
/// the start of a page that is not the last of its chapter the way leads to
/// the start of the page behind it, which lies further on and not beyond the
/// end of the chapter, so that the last page is reached after as many turns
/// as there are pages behind.
///
/// This holds in a cached chapter whose pages divide its elements and start
/// one behind the other.
pub proof fn lemma_next_page_goes_forward(
    c: CacheView,
    spine: Seq<BookSpineItem>,
    loc: Location,
    k: int,
)
    requires
        first_slot(c.slots, loc.spine, 0) is Some,
        ({
            let entry = c.slots[first_slot(c.slots, loc.spine, 0)->0]->0;
            &&& covers(entry.pages, entry.spine, entry.elements)
            &&& starts_ascend(entry.pages)
            &&& 0 <= k < entry.pages.len() - 1
            &&& loc.element == entry.pages[k].elements.start
        }),
    ensures
        next_location(c, spine, loc).spine == loc.spine,
        next_location(c, spine, loc).element == c.slots[first_slot(
            c.slots,
            loc.spine,
            0,
        )->0]->0.pages[k + 1].elements.start,
        loc.element < next_location(c, spine, loc).element,
        next_location(c, spine, loc).element <= c.slots[first_slot(
            c.slots,
            loc.spine,
            0,
        )->0]->0.elements.end,
        k + 1 < c.slots[first_slot(c.slots, loc.spine, 0)->0]->0.pages.len() - 1
            ==> next_location(c, spine, loc).element < c.slots[first_slot(
            c.slots,
            loc.spine,
            0,
        )->0]->0.elements.end,
{
    let s = first_slot(c.slots, loc.spine, 0)->0;
    let entry = c.slots[s]->0;
    let pages = entry.pages;
    lemma_next_then_previous(c, spine, loc, k);
    crate::page::lemma_starts_ascend(pages, entry.spine, entry.elements);
    assert(pages[k].elements.start < pages[k + 1].elements.start);
    assert(pages[k + 1].elements.end <= entry.elements.end);
    if k + 1 < pages.len() - 1 {
        assert(pages[k + 1].elements.start < pages[k + 2].elements.start);
        assert(pages[k + 2].elements.start <= pages[k + 2].elements.end);
        assert(pages[k + 2].elements.end <= entry.elements.end);
    }
}

/// The pages stand in a row: none is empty, and each starts where the one
/// before it ends. Nothing is asked of their flags and numbers.
pub open spec fn in_a_row(pages: Seq<PageView>) -> bool {
    &&& forall|i: int|
        0 <= i < pages.len() ==> (#[trigger] pages[i]).elements.start < pages[i].elements.end
    &&& forall|i: int, j: int|
        0 <= i && j == i + 1 && j < pages.len() ==> (#[trigger] pages[i]).elements.end == (
        #[trigger] pages[j]).elements.start
}

/// Of pages in a row a later one starts where an earlier one ends, or
/// behind it.
pub proof fn lemma_row_ascends(pages: Seq<PageView>, i: int, j: int)
    requires
        in_a_row(pages),
        0 <= i < j < pages.len(),
    ensures
        pages[i].elements.end <= pages[j].elements.start,
        pages[i].elements.start < pages[j].elements.start,
    decreases j - i,
{
    if i + 1 < j {
        lemma_row_ascends(pages, i, j - 1);
        assert(pages[j - 1].elements.end == pages[j].elements.start);
        assert(pages[j - 1].elements.start < pages[j - 1].elements.end);
    } else {
        assert(pages[i].elements.end == pages[j].elements.start);
    }
}

/// Of pages in a row, an element is shown on the page whose range holds it.
pub proof fn lemma_row_resolves(pages: Seq<PageView>, k: int, element: u32)
    requires
        in_a_row(pages),
        0 <= k < pages.len(),
        pages[k].elements.contains(element),
    ensures
        page_no(pages, element) == Some(k),
{
    if 0 < k {
        lemma_row_ascends(pages, 0, k);
    }
    if k < pages.len() - 1 {
        lemma_row_ascends(pages, k, pages.len() - 1);
    }
    assert forall|i: int| 0 <= i < k implies !(#[trigger] pages[i]).elements.contains(element) by {
        lemma_row_ascends(pages, i, k);
    }
    lemma_first_containing(pages, element, 0, k);
}

/// Turning the page leads to the start of the page behind, wherever on the
/// page the reader stands: further on, and before the end of the chapter
/// where the pages end in the chapter.
///
/// This holds in a cached chapter whose pages stand in a row, of a page
/// that is not flagged as the last and has a page behind it.
pub proof fn lemma_next_page_in_a_row(
    c: CacheView,
    spine: Seq<BookSpineItem>,
    loc: Location,
    k: int,
)
    requires
        first_slot(c.slots, loc.spine, 0) is Some,
        ({
            let entry = c.slots[first_slot(c.slots, loc.spine, 0)->0]->0;
            &&& in_a_row(entry.pages)
            &&& 0 <= k < entry.pages.len() - 1
            &&& entry.pages[k].elements.contains(loc.element)
            &&& !entry.pages[k].position.last
        }),
    ensures
        next_location(c, spine, loc) == (Location {
            spine: loc.spine,
            element: c.slots[first_slot(c.slots, loc.spine, 0)->0]->0.pages[k + 1].elements.start,
        }),
        loc.element < next_location(c, spine, loc).element,
        c.slots[first_slot(c.slots, loc.spine, 0)->0]->0.pages.last().elements.end <= c.slots[first_slot(
            c.slots,
            loc.spine,
            0,
        )->0]->0.elements.end ==> next_location(c, spine, loc).element < c.slots[first_slot(
            c.slots,
            loc.spine,
            0,
        )->0]->0.elements.end,
{
    let s = first_slot(c.slots, loc.spine, 0)->0;
    lemma_first_slot_found(c.slots, loc.spine, 0);
    let entry = c.slots[s]->0;
    let pages = entry.pages;
    lemma_row_resolves(pages, k, loc.element);
    assert(resolved(c, loc) == Some((s, k)));
    assert forall|i: int| 0 <= i < k + 1 implies (#[trigger] pages[i]).elements.start
        <= pages[k].elements.start by {
        if i < k {
            lemma_row_ascends(pages, i, k);
        }
    }
    lemma_row_ascends(pages, k, k + 1);
    lemma_first_after(pages, pages[k].elements.start, 0, k + 1);
    if k + 1 < pages.len() - 1 {
        lemma_row_ascends(pages, k + 1, pages.len() - 1);
    }
    assert(pages[k + 1].elements.start < pages[k + 1].elements.end);
    assert(pages.last().elements.start < pages.last().elements.end);
}

/// Turning the page and turning it back leads to where the reader stood.
///
/// This holds of a position at the start of a page, in a cached chapter
/// whose pages stand in a row, where the page is not flagged as the last
/// and the page behind it is not flagged as the first.
pub proof fn lemma_round_trip_in_a_row(
    c: CacheView,
    spine: Seq<BookSpineItem>,
    loc: Location,
    k: int,
)
    requires
        first_slot(c.slots, loc.spine, 0) is Some,
        ({
            let entry = c.slots[first_slot(c.slots, loc.spine, 0)->0]->0;
            &&& in_a_row(entry.pages)
            &&& 0 <= k < entry.pages.len() - 1
            &&& loc.element == entry.pages[k].elements.start
            &&& !entry.pages[k].position.last
            &&& !entry.pages[k + 1].position.first
        }),
    ensures
        previous_location(c, spine, next_location(c, spine, loc)) == loc,
{
    let s = first_slot(c.slots, loc.spine, 0)->0;
    lemma_first_slot_found(c.slots, loc.spine, 0);
    let entry = c.slots[s]->0;
    let pages = entry.pages;
    lemma_next_page_in_a_row(c, spine, loc, k);
    let there = Location { spine: entry.spine, element: pages[k + 1].elements.start };
    assert(next_location(c, spine, loc) == there);
    lemma_row_resolves(pages, k + 1, there.element);
    assert(resolved(c, there) == Some((s, k + 1)));
    lemma_row_ascends(pages, k, k + 1);
    assert forall|i: int| k < i < pages.len() implies (#[trigger] pages[i]).elements.start
        >= pages[k + 1].elements.start by {
        if k + 1 < i {
            lemma_row_ascends(pages, k + 1, i);
        }
    }
    lemma_last_before(pages, pages[k + 1].elements.start, pages.len() as int, k);
}

/// The slot that a search finds holds the chapter that was searched.
pub proof fn lemma_first_slot_found(slots: Seq<Option<EntryView>>, spine: u32, from: int)
    requires
        first_slot(slots, spine, from) is Some,
    ensures
        from <= first_slot(slots, spine, from)->0 < slots.len(),
        slots[first_slot(slots, spine, from)->0] is Some,
        slots[first_slot(slots, spine, from)->0]->0.spine == spine,
    decreases slots.len() - from,
{
    if 0 <= from < slots.len() {
        if slots[from] is Some && slots[from]->0.spine == spine {
        } else {
            lemma_first_slot_found(slots, spine, from + 1);
        }
    }
}

} // verus!
