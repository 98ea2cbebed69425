//! The decisions of the worker that serves one open book.
//!
//! The worker takes requests one after the other. When none is waiting it
//! makes sure that the chapter of the current position is rendered, tells
//! the host that content is ready, and waits. The host side of it, the
//! [`Illustrator`], holds the render settings and asks for a refresh when
//! they have changed.

use crate::cache::{
    first_slot, held, next_location, previous_location, BookMeta, CacheView, EntryView,
    PageContentCache,
};
use crate::library::Location;
use crate::page::BookSpineItem;
use crate::settings::RenderSettings;
use vstd::prelude::*;

verus! {

/// What the host asks of the worker.
#[derive(Debug, Clone, Copy, PartialEq, Eq, Structural)]
pub enum Request {
    Goto(Location),
    NextPage,
    PreviousPage,
    RefreshCache,
}

/// What the worker does when no request is waiting.
#[derive(Debug, Clone, Copy, PartialEq, Eq, Structural)]
pub enum Action {
    /// Render the chapter at this place of the spine and put its pages into
    /// the cache; then ask again.
    Render(u32),
    /// The pages of the position are cached: record the position, tell the
    /// host that its content is ready, and wait for the next request.
    Notify(Location),
    /// The book has no chapter for the position: close it.
    Close,
    /// The chapter of the position could not be rendered: tell the host
    /// nothing, and wait for the next request.
    Wait,
}

/// The position after a request.
pub open spec fn location_after(
    loc: Location,
    c: CacheView,
    spine: Seq<BookSpineItem>,
    req: Request,
) -> Location {
    match req {
        Request::NextPage => next_location(c, spine, loc),
        Request::PreviousPage => previous_location(c, spine, loc),
        Request::Goto(target) => if target.spine < spine.len() {
            target
        } else {
            loc
        },
        Request::RefreshCache => loc,
    }
}

/// The cache after a request: a refresh empties it, nothing else touches it.
pub open spec fn cache_after(c: CacheView, req: Request) -> CacheView {
    match req {
        Request::RefreshCache => CacheView {
            next: c.next,
            slots: Seq::new(5, |i: int| None::<EntryView>),
        },
        _ => c,
    }
}

/// What is to be done for the position `loc` when no request is waiting.
pub open spec fn idle_action(loc: Location, c: CacheView, spine: Seq<BookSpineItem>) -> Action {
    if loc.spine >= spine.len() {
        Action::Close
    } else if first_slot(c.slots, spine[loc.spine as int].index, 0) is Some {
        Action::Notify(loc)
    } else {
        Action::Render(loc.spine)
    }
}

/// What is to be done for the position `loc` when no request is waiting and
/// the chapter `failed`, if any, could not be rendered since the last
/// request: a chapter that failed is not rendered again before the host asks
/// for something.
pub open spec fn next_action(
    failed: Option<u32>,
    loc: Location,
    c: CacheView,
    spine: Seq<BookSpineItem>,
) -> Action {
    match idle_action(loc, c, spine) {
        Action::Render(n) => if failed == Some(n) {
            Action::Wait
        } else {
            Action::Render(n)
        },
        other => other,
    }
}

/// Position and cache after the first `k` requests of a burst, served one
/// after the other in the order in which they came.
pub open spec fn served(
    loc: Location,
    c: CacheView,
    spine: Seq<BookSpineItem>,
    burst: Seq<Request>,
    k: int,
) -> (Location, CacheView)
    decreases k,
{
    if k <= 0 {
        (loc, c)
    } else {
        let before = served(loc, c, spine, burst, k - 1);
        (location_after(before.0, before.1, spine, burst[k - 1]), cache_after(before.1, burst[k - 1]))
    }
}

/// The position at which a book opens: the stored one where the book has
/// its chapter, else the first page of the first chapter.
pub open spec fn opening_location(spine: Seq<BookSpineItem>, stored: Location) -> Location {
    if stored.spine < spine.len() {
        stored
    } else {
        Location { spine: 0, element: 0 }
    }
}

/// The worker of one open book.
#[derive(Debug)]
pub struct Worker {
    current: Location,
    failed: Option<u32>,
}

impl Worker {
    /// The current position.
    pub closed spec fn position(&self) -> Location {
        self.current
    }

    /// The chapter that could not be rendered since the last request, if
    /// there is one.
    pub closed spec fn failed_chapter(&self) -> Option<u32> {
        self.failed
    }

    /// The worker of a book that was last read at `stored`.
    pub fn open(book_meta: &BookMeta, stored: Location) -> (w: Self)
        ensures
            w.position() == opening_location(book_meta.spine@, stored),
            w.failed_chapter() is None,
    {
        if (stored.spine as usize) < book_meta.spine.len() {
            Worker { current: stored, failed: None }
        } else {
            Worker { current: Location { spine: 0, element: 0 }, failed: None }
        }
    }

    /// Takes note that the chapter `spine` could not be rendered, and says
    /// what is to be done now. The position stays, and the cache is not
    /// touched: what was rendered before is still there. The worker goes on:
    /// where the failed chapter is that of the position, it waits for the
    /// next request without telling the host anything.
    pub fn render_failed(
        &mut self,
        cache: &PageContentCache,
        book_meta: &BookMeta,
        spine: u32,
    ) -> (a: Action)
        ensures
            final(self).position() == old(self).position(),
            final(self).failed_chapter() == Some(spine),
            a == next_action(Some(spine), old(self).position(), cache@, book_meta.spine@),
    {
        self.failed = Some(spine);
        self.idle(cache, book_meta)
    }

    pub fn location(&self) -> (l: Location)
        ensures
            l == self.position(),
    {
        self.current
    }

    /// Serves one request. With it a chapter that failed may be rendered
    /// again.
    pub fn handle(&mut self, cache: &mut PageContentCache, book_meta: &BookMeta, req: Request)
        ensures
            final(self).failed_chapter() is None,
            final(self).position() == location_after(
                old(self).position(),
                old(cache)@,
                book_meta.spine@,
                req,
            ),
            final(cache)@ == cache_after(old(cache)@, req),
    {
        self.failed = None;
        match req {
            Request::NextPage => {
                self.current = cache.next_page(book_meta, self.current);
            },
            Request::PreviousPage => {
                self.current = cache.previous_page(book_meta, self.current);
            },
            Request::Goto(target) => {
                if (target.spine as usize) < book_meta.spine.len() {
                    self.current = target;
                }
            },
            Request::RefreshCache => {
                cache.clear();
            },
        }
    }

    /// Serves the requests that have come in, in their order, and says what
    /// is to be done then. Nothing is rendered and the host is told nothing
    /// while requests are waiting.
    pub fn serve(
        &mut self,
        cache: &mut PageContentCache,
        book_meta: &BookMeta,
        burst: &Vec<Request>,
    ) -> (a: Action)
        ensures
            final(self).position() == served(
                old(self).position(),
                old(cache)@,
                book_meta.spine@,
                burst@,
                burst@.len() as int,
            ).0,
            final(cache)@ == served(
                old(self).position(),
                old(cache)@,
                book_meta.spine@,
                burst@,
                burst@.len() as int,
            ).1,
            final(self).failed_chapter() == (if burst@.len() > 0 {
                None
            } else {
                old(self).failed_chapter()
            }),
            a == next_action(
                final(self).failed_chapter(),
                final(self).position(),
                final(cache)@,
                book_meta.spine@,
            ),
    {
        let mut k: usize = 0;
        while k < burst.len()
            invariant
                k <= burst@.len(),
                self.failed_chapter() == (if k > 0 {
                    None
                } else {
                    old(self).failed_chapter()
                }),
                self.position() == served(
                    old(self).position(),
                    old(cache)@,
                    book_meta.spine@,
                    burst@,
                    k as int,
                ).0,
                cache@ == served(
                    old(self).position(),
                    old(cache)@,
                    book_meta.spine@,
                    burst@,
                    k as int,
                ).1,
            decreases burst@.len() - k,
        {
            self.handle(cache, book_meta, burst[k]);
            k = k + 1;
        }
        self.idle(cache, book_meta)
    }

    /// Says what is to be done now that no request is waiting.
    pub fn idle(&self, cache: &PageContentCache, book_meta: &BookMeta) -> (a: Action)
        ensures
            a == next_action(self.failed_chapter(), self.position(), cache@, book_meta.spine@),
    {
        match book_meta.spine_item(self.current) {
            Some(item) => if cache.is_cached(item) {
                Action::Notify(self.current)
            } else {
                match self.failed {
                    Some(n) => if n == self.current.spine {
                        Action::Wait
                    } else {
                        Action::Render(self.current.spine)
                    },
                    None => Action::Render(self.current.spine),
                }
            },
            None => Action::Close,
        }
    }
}

/// The host's side of the rendering: the settings, and whether they have
/// changed since the worker was last told.
#[derive(Debug)]
pub struct Illustrator {
    settings: RenderSettings,
    settings_changed: bool,
}

impl Illustrator {
    pub closed spec fn current_settings(&self) -> RenderSettings {
        self.settings
    }

    /// Whether the worker has yet to be told of a change.
    pub closed spec fn stale(&self) -> bool {
        self.settings_changed
    }

    pub fn new(settings: RenderSettings) -> (i: Self)
        ensures
            i.current_settings() == settings,
            !i.stale(),
    {
        Illustrator { settings, settings_changed: false }
    }

    pub fn settings(&self) -> (s: &RenderSettings)
        ensures
            *s == self.current_settings(),
    {
        &self.settings
    }

    /// The page has a new size.
    pub fn resize(&mut self, width: u32, height: u32)
        ensures
            final(self).current_settings() == (RenderSettings {
                page_width: width,
                page_height: height,
                ..old(self).current_settings()
            }),
            final(self).stale(),
    {
        self.settings.page_width = width;
        self.settings.page_height = height;
        self.settings_changed = true;
    }

    /// The device has a new scale factor, given in 64ths.
    pub fn rescale(&mut self, scale: u16)
        ensures
            final(self).current_settings() == (RenderSettings {
                scale,
                ..old(self).current_settings()
            }),
            final(self).stale(),
    {
        self.settings.scale = scale;
        self.settings_changed = true;
    }

    /// The request to send to the worker, if the settings have changed since
    /// it was last told.
    pub fn refresh_if_needed(&mut self) -> (r: Option<Request>)
        ensures
            r == (if old(self).stale() {
                Some(Request::RefreshCache)
            } else {
                None
            }),
            !final(self).stale(),
            final(self).current_settings() == old(self).current_settings(),
    {
        if self.settings_changed {
            self.settings_changed = false;
            Some(Request::RefreshCache)
        } else {
            None
        }
    }
}

/// After a refresh the cache is empty, the reader stands where they stood,
/// and the next thing the worker does is to render the chapter of that
/// position: no notification goes out before.
pub proof fn lemma_refresh_forces_render(loc: Location, c: CacheView, spine: Seq<BookSpineItem>)
    requires
        loc.spine < spine.len(),
    ensures
        location_after(loc, c, spine, Request::RefreshCache) == loc,
        held(cache_after(c, Request::RefreshCache).slots) == 0,
        idle_action(loc, cache_after(c, Request::RefreshCache), spine) == Action::Render(loc.spine),
        next_action(None, loc, cache_after(c, Request::RefreshCache), spine) == Action::Render(
            loc.spine,
        ),
{
    let c2 = cache_after(c, Request::RefreshCache);
    lemma_empty_holds_none(c2.slots, spine[loc.spine as int].index, 0);
    lemma_empty_counts_zero(c2.slots);
}

/// The worker tells the host that content is ready only when the pages of
/// the chapter of the position are in the cache.
pub proof fn lemma_notify_only_when_cached(
    failed: Option<u32>,
    loc: Location,
    c: CacheView,
    spine: Seq<BookSpineItem>,
)
    requires
        next_action(failed, loc, c, spine) is Notify,
    ensures
        next_action(failed, loc, c, spine) == Action::Notify(loc),
        loc.spine < spine.len(),
        first_slot(c.slots, spine[loc.spine as int].index, 0) is Some,
{
}

/// A render that failed does not end the worker: for the position whose
/// chapter failed it waits, telling the host nothing and rendering nothing,
/// and once a request has come the chapter is rendered again. A failure
/// never closes the book.
pub proof fn lemma_failed_render_waits(
    before: Option<u32>,
    loc: Location,
    c: CacheView,
    spine: Seq<BookSpineItem>,
    n: u32,
)
    requires
        next_action(before, loc, c, spine) == Action::Render(n),
    ensures
        n == loc.spine,
        next_action(Some(n), loc, c, spine) == Action::Wait,
        next_action(None, loc, c, spine) == Action::Render(n),
        forall|failed: Option<u32>| !(#[trigger] next_action(failed, loc, c, spine) is Close),
{
}

proof fn lemma_empty_holds_none(slots: Seq<Option<EntryView>>, spine: u32, from: int)
    requires
        forall|i: int| 0 <= i < slots.len() ==> slots[i] is None,
    ensures
        first_slot(slots, spine, from) is None,
    decreases slots.len() - from,
{
    if 0 <= from < slots.len() {
        lemma_empty_holds_none(slots, spine, from + 1);
    }
}

proof fn lemma_empty_counts_zero(slots: Seq<Option<EntryView>>)
    requires
        forall|i: int| 0 <= i < slots.len() ==> slots[i] is None,
    ensures
        held(slots) == 0,
    decreases slots.len(),
{
    if slots.len() > 0 {
        lemma_empty_counts_zero(slots.drop_last());
    }
}

} // verus!
