use illustrator::cache::{BookMeta, PageContentCache};
use illustrator::library::Location;
use illustrator::page::{BookSpineItem, ElementRange, PageContent, PagePosition};

fn page(spine: u32, index: u32, start: u32, end: u32, first: bool, last: bool) -> PageContent {
    PageContent {
        position: PagePosition { first, last },
        spine,
        index,
        elements: ElementRange { start, end },
        items: Vec::new(),
    }
}

fn chapter(index: u32, start: u32, end: u32) -> BookSpineItem {
    BookSpineItem { index, idref: format!("chapter-{index}"), elements: ElementRange { start, end } }
}

#[test]
fn cache_keeps_five_chapters() {
    let mut cache = PageContentCache::default();
    for i in 0..6 {
        let item = chapter(i, i * 10, i * 10 + 10);
        cache.insert(&item, vec![page(i, 0, i * 10, i * 10 + 10, true, true)]);
    }
    assert_eq!(cache.len(), 5);
    assert!(!cache.is_cached(&chapter(0, 0, 10)));
    for i in 1..6 {
        assert!(cache.is_cached(&chapter(i, i * 10, i * 10 + 10)));
    }
}

#[test]
fn next_page_walks_through_two_chapters() {
    let meta = BookMeta { spine: vec![chapter(0, 0, 10), chapter(1, 10, 18)], cover_id: None };
    let mut cache = PageContentCache::default();
    cache.insert(
        &meta.spine[0],
        vec![page(0, 0, 0, 4, true, false), page(0, 1, 4, 7, false, false), page(0, 2, 7, 10, false, true)],
    );
    cache.insert(
        &meta.spine[1],
        vec![page(1, 0, 10, 14, true, false), page(1, 1, 14, 18, false, true)],
    );
    let mut loc = Location { spine: 0, element: 0 };
    let mut seen = vec![loc];
    for _ in 0..10 {
        loc = cache.next_page(&meta, loc);
        assert!(loc.element <= 18);
        seen.push(loc);
    }
    assert!(seen.contains(&Location { spine: 1, element: 10 }));
    assert_eq!(loc, Location { spine: 1, element: 14 });
}

#[test]
fn sixth_chapter_takes_the_place_of_the_first_however_it_was_read() {
    let meta = BookMeta {
        spine: (0..7).map(|i| chapter(i, i * 10, i * 10 + 10)).collect(),
        cover_id: None,
    };
    let mut cache = PageContentCache::default();
    assert_eq!(cache.len(), 0);
    for i in 0..5 {
        cache.insert(&meta.spine[i], vec![page(i as u32, 0, i as u32 * 10, i as u32 * 10 + 10, true, true)]);
        assert_eq!(cache.len(), i + 1);
    }
    // Reading the first chapter again and again does not keep it.
    for _ in 0..3 {
        assert!(cache.page(Location { spine: 0, element: 3 }).is_some());
    }
    cache.insert(&meta.spine[5], vec![page(5, 0, 50, 60, true, true)]);
    assert_eq!(cache.len(), 5);
    assert!(cache.page(Location { spine: 0, element: 3 }).is_none());
    for i in 1..6 {
        assert!(cache.page(Location { spine: i, element: i * 10 }).is_some());
    }
    cache.insert(&meta.spine[6], vec![page(6, 0, 60, 70, true, true)]);
    assert!(!cache.is_cached(&meta.spine[1]));
    assert!(cache.is_cached(&meta.spine[2]));
    cache.clear();
    assert_eq!(cache.len(), 0);
    // The turn of the slots goes on behind a clear.
    cache.insert(&meta.spine[0], vec![page(0, 0, 0, 10, true, true)]);
    assert_eq!(cache.len(), 1);
}

#[test]
fn lookup_finds_the_page_of_an_element() {
    let meta = BookMeta { spine: vec![chapter(0, 0, 10)], cover_id: None };
    let mut cache = PageContentCache::default();
    cache.insert(
        &meta.spine[0],
        vec![page(0, 0, 2, 4, true, false), page(0, 1, 4, 7, false, false), page(0, 2, 7, 10, false, true)],
    );
    let index = |e: u32| cache.page(Location { spine: 0, element: e }).map(|p| p.index);
    assert_eq!(index(0), Some(0));
    assert_eq!(index(2), Some(0));
    assert_eq!(index(3), Some(0));
    assert_eq!(index(4), Some(1));
    assert_eq!(index(6), Some(1));
    assert_eq!(index(7), Some(2));
    assert_eq!(index(9), Some(2));
    assert_eq!(index(10), Some(2));
    assert_eq!(index(u32::MAX), Some(2));
    assert!(cache.page(Location { spine: 1, element: 0 }).is_none());
    let (entry, found) = cache.entry(Location { spine: 0, element: 5 }).unwrap();
    assert_eq!(entry.spine, 0);
    assert_eq!(found.index, 1);

    // A chapter without pages shows nothing.
    let mut empty = PageContentCache::default();
    empty.insert(&meta.spine[0], vec![]);
    assert!(empty.is_cached(&meta.spine[0]));
    assert!(empty.page(Location { spine: 0, element: 0 }).is_none());
    let loc = Location { spine: 0, element: 0 };
    assert_eq!(empty.next_page(&meta, loc), loc);
    assert_eq!(empty.previous_page(&meta, loc), loc);
}

#[test]
fn next_then_previous_returns() {
    let meta = BookMeta { spine: vec![chapter(0, 0, 10), chapter(1, 10, 18)], cover_id: None };
    let mut cache = PageContentCache::default();
    cache.insert(
        &meta.spine[0],
        vec![
            page(0, 0, 0, 4, true, false),
            page(0, 1, 4, 7, false, false),
            page(0, 2, 7, 9, false, false),
            page(0, 3, 9, 10, false, true),
        ],
    );
    cache.insert(&meta.spine[1], vec![page(1, 0, 10, 18, true, true)]);
    for start in [0u32, 4, 7] {
        let loc = Location { spine: 0, element: start };
        let next = cache.next_page(&meta, loc);
        assert_ne!(next, loc);
        assert_eq!(cache.previous_page(&meta, next), loc);
    }
    for start in [4u32, 7, 9] {
        let loc = Location { spine: 0, element: start };
        let previous = cache.previous_page(&meta, loc);
        assert_ne!(previous, loc);
        assert_eq!(cache.next_page(&meta, previous), loc);
    }
    // The ends of chapters and of the book.
    assert_eq!(
        cache.next_page(&meta, Location { spine: 0, element: 9 }),
        Location { spine: 1, element: 10 }
    );
    assert_eq!(
        cache.previous_page(&meta, Location { spine: 1, element: 10 }),
        Location { spine: 0, element: 10 }
    );
    let start = Location { spine: 0, element: 0 };
    assert_eq!(cache.previous_page(&meta, start), start);
    let end = Location { spine: 1, element: 12 };
    assert_eq!(cache.next_page(&meta, end), end);
    // A chapter that is not cached leaves the reader where they are.
    let unknown = Location { spine: 4, element: 1 };
    assert_eq!(cache.next_page(&meta, unknown), unknown);
    assert_eq!(meta.spine_item(unknown).map(|i| i.index), None);
    assert_eq!(meta.spine_item(end).map(|i| i.index), Some(1));
}
