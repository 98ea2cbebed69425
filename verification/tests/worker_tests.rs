use illustrator::cache::{BookMeta, PageContentCache};
use illustrator::library::Location;
use illustrator::page::{BookSpineItem, ElementRange, PageContent, PagePosition};
use illustrator::settings::{RenderSettings, RenderTextSettings};
use illustrator::worker::{Action, Illustrator, Request, Worker};

fn chapter(index: u32, start: u32, end: u32) -> BookSpineItem {
    BookSpineItem { index, idref: format!("c{index}"), elements: ElementRange { start, end } }
}

fn page(spine: u32, index: u32, start: u32, end: u32, first: bool, last: bool) -> PageContent {
    PageContent {
        position: PagePosition { first, last },
        spine,
        index,
        elements: ElementRange { start, end },
        items: Vec::new(),
    }
}

fn render(cache: &mut PageContentCache, meta: &BookMeta, spine: u32) {
    let item = &meta.spine[spine as usize];
    let middle = (item.elements.start + item.elements.end) / 2;
    cache.insert(
        item,
        vec![
            page(spine, 0, item.elements.start, middle, true, false),
            page(spine, 1, middle, item.elements.end, false, true),
        ],
    );
}

fn settings() -> RenderSettings {
    let text = RenderTextSettings { font_size: 16 * 64, line_height: 20 * 64 };
    RenderSettings {
        page_width: 600,
        page_height: 800,
        scale: 128,
        padding_top_em: 64,
        padding_left_em: 32,
        padding_right_em: 32,
        padding_bottom_em: 96,
        padding_paragraph_em: 16,
        body_text: text,
        h1_text: RenderTextSettings { font_size: 32 * 64, line_height: 40 * 64 },
        h2_text: RenderTextSettings { font_size: 24 * 64, line_height: 30 * 64 },
    }
}

#[test]
fn book_opens_at_the_stored_place_or_at_the_start() {
    let meta = BookMeta { spine: vec![chapter(0, 0, 10), chapter(1, 10, 18)], cover_id: None };
    let stored = Location { spine: 1, element: 12 };
    assert_eq!(Worker::open(&meta, stored).location(), stored);
    let gone = Location { spine: 2, element: 0 };
    assert_eq!(Worker::open(&meta, gone).location(), Location { spine: 0, element: 0 });
    let empty = BookMeta { spine: vec![], cover_id: None };
    let worker = Worker::open(&empty, stored);
    assert_eq!(worker.idle(&PageContentCache::default(), &empty), Action::Close);
}

#[test]
fn worker_renders_then_notifies() {
    let meta = BookMeta { spine: vec![chapter(0, 0, 10), chapter(1, 10, 18)], cover_id: None };
    let mut cache = PageContentCache::default();
    let mut worker = Worker::open(&meta, Location { spine: 0, element: 0 });
    assert_eq!(worker.idle(&cache, &meta), Action::Render(0));
    render(&mut cache, &meta, 0);
    assert_eq!(worker.idle(&cache, &meta), Action::Notify(Location { spine: 0, element: 0 }));

    // A burst of requests is served before anything is rendered.
    worker.handle(&mut cache, &meta, Request::NextPage);
    worker.handle(&mut cache, &meta, Request::NextPage);
    assert_eq!(worker.location(), Location { spine: 1, element: 10 });
    assert_eq!(worker.idle(&cache, &meta), Action::Render(1));
    render(&mut cache, &meta, 1);
    assert_eq!(worker.idle(&cache, &meta), Action::Notify(Location { spine: 1, element: 10 }));
    worker.handle(&mut cache, &meta, Request::PreviousPage);
    assert_eq!(worker.location(), Location { spine: 0, element: 10 });
    worker.handle(&mut cache, &meta, Request::Goto(Location { spine: 1, element: 15 }));
    assert_eq!(worker.location(), Location { spine: 1, element: 15 });
    // A place that the book does not have is no place to go.
    worker.handle(&mut cache, &meta, Request::Goto(Location { spine: 9, element: 0 }));
    assert_eq!(worker.location(), Location { spine: 1, element: 15 });
}

#[test]
fn resize_clears_the_cache_and_renders_again() {
    let meta = BookMeta { spine: vec![chapter(0, 0, 10), chapter(1, 10, 18)], cover_id: None };
    let mut cache = PageContentCache::default();
    let mut worker = Worker::open(&meta, Location { spine: 1, element: 14 });
    render(&mut cache, &meta, 0);
    render(&mut cache, &meta, 1);
    assert!(matches!(worker.idle(&cache, &meta), Action::Notify(_)));

    let mut host = Illustrator::new(settings());
    assert_eq!(host.refresh_if_needed(), None);
    host.resize(480, 800);
    assert_eq!(host.settings().page_width, 480);
    let request = host.refresh_if_needed().expect("a refresh");
    assert_eq!(request, Request::RefreshCache);
    assert_eq!(host.refresh_if_needed(), None);

    worker.handle(&mut cache, &meta, request);
    assert_eq!(cache.len(), 0);
    assert_eq!(worker.location(), Location { spine: 1, element: 14 });
    assert_eq!(worker.idle(&cache, &meta), Action::Render(1));
    render(&mut cache, &meta, 1);
    assert_eq!(worker.idle(&cache, &meta), Action::Notify(Location { spine: 1, element: 14 }));

    host.rescale(64);
    assert_eq!(host.settings().scale, 64);
    assert_eq!(host.refresh_if_needed(), Some(Request::RefreshCache));
}

#[test]
fn settings_give_the_frame_of_the_page() {
    let s = settings();
    // 16 px at scale 2 is an em of 32 px.
    assert_eq!(s.em(), 32 * 64);
    assert_eq!(s.body_text.metrics(s.scale), (32 * 64, 40 * 64));
    assert_eq!(s.h1_text.metrics(64), (32 * 64, 40 * 64));
    // 800 px less 1 em above and 1.5 em below.
    assert_eq!(s.page_height_padded(), (800 - 32 - 48) * 64);
    assert_eq!(s.page_width_padded(), (600 - 16 - 16) * 64);
    assert_eq!(s.paragraph_padding(), 8 * 64);
    let frame = s.frame();
    assert_eq!(frame.page_height, 720 * 64);
    assert_eq!(frame.page_width, 568 * 64);
    assert_eq!(frame.padding_top, 32 * 64);
    assert_eq!(frame.padding_left, 16 * 64);
    // Sizes are rounded down.
    assert_eq!(illustrator::settings::scale_by(3, 33), 1);
    let mut tiny = s;
    tiny.page_height = 0;
    assert_eq!(tiny.page_height_padded(), -80 * 64);
}

#[test]
fn a_burst_of_requests_is_served_in_order() {
    let meta = BookMeta { spine: vec![chapter(0, 0, 10), chapter(1, 10, 18)], cover_id: None };
    let mut cache = PageContentCache::default();
    render(&mut cache, &meta, 0);
    render(&mut cache, &meta, 1);
    let mut worker = Worker::open(&meta, Location { spine: 0, element: 0 });
    let burst = vec![Request::NextPage, Request::NextPage, Request::NextPage, Request::PreviousPage];
    let action = worker.serve(&mut cache, &meta, &burst);
    assert_eq!(action, Action::Notify(Location { spine: 1, element: 10 }));
    assert_eq!(worker.location(), Location { spine: 1, element: 10 });
    // A refresh in a burst empties the cache; what comes behind it finds no pages.
    let burst = vec![Request::PreviousPage, Request::RefreshCache, Request::NextPage];
    let action = worker.serve(&mut cache, &meta, &burst);
    assert_eq!(worker.location(), Location { spine: 0, element: 10 });
    assert_eq!(action, Action::Render(0));
    assert_eq!(cache.len(), 0);
    assert_eq!(worker.serve(&mut cache, &meta, &vec![]), Action::Render(0));
}

#[test]
fn a_failed_render_leaves_the_worker_waiting() {
    let meta = BookMeta { spine: vec![chapter(0, 0, 10), chapter(1, 10, 18)], cover_id: None };
    let mut cache = PageContentCache::default();
    render(&mut cache, &meta, 0);
    let mut worker = Worker::open(&meta, Location { spine: 0, element: 5 });
    assert_eq!(worker.serve(&mut cache, &meta, &vec![Request::NextPage]), Action::Render(1));
    let stood = worker.location();
    assert_eq!(stood.spine, 1);

    // The chapter cannot be rendered: the worker waits, where it stood,
    // and what was rendered before is still there.
    assert_eq!(worker.render_failed(&cache, &meta, 1), Action::Wait);
    assert_eq!(worker.location(), stood);
    assert_eq!(cache.len(), 1);
    assert!(cache.is_cached(&meta.spine[0]));
    assert_eq!(worker.idle(&cache, &meta), Action::Wait);
    assert_eq!(worker.serve(&mut cache, &meta, &vec![]), Action::Wait);

    // The next request is served as ever. From pages that are not there no
    // page can be turned back: the chapter is tried again.
    assert_eq!(worker.serve(&mut cache, &meta, &vec![Request::PreviousPage]), Action::Render(1));
    assert_eq!(worker.render_failed(&cache, &meta, 1), Action::Wait);
    let back = Location { spine: 0, element: 5 };
    assert_eq!(worker.serve(&mut cache, &meta, &vec![Request::Goto(back)]), Action::Notify(back));
    // Back at the failed chapter it is rendered again.
    assert_eq!(worker.serve(&mut cache, &meta, &vec![Request::NextPage]), Action::Render(1));
    assert_eq!(worker.render_failed(&cache, &meta, 1), Action::Wait);
    assert_eq!(worker.serve(&mut cache, &meta, &vec![Request::RefreshCache]), Action::Render(1));
    render(&mut cache, &meta, 1);
    assert_eq!(worker.serve(&mut cache, &meta, &vec![]), Action::Notify(stood));

    // A failure of another chapter than that of the position changes nothing.
    assert_eq!(worker.render_failed(&cache, &meta, 0), Action::Notify(stood));
}
