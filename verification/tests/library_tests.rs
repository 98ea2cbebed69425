use illustrator::cache::BookMeta;
use illustrator::error::{IllustratorRenderError, IllustratorRequestError};
use illustrator::fps_calculator::FpsCalculator;
use illustrator::library::{
    BookId, Location, SecretThumbnail, SortDirection, SortField, SortOrder, Thumbnail,
};
use illustrator::page::{ElementRange, PagePosition};
use illustrator::scribe::{ScribeAssistant, ScribeRequest, ScribeState, ScribeTicket};
use illustrator::toc::{NavPoint, Navigation};

fn nav(id: &str, label: &str, src: &str) -> NavPoint {
    NavPoint { id: id.to_string(), label: label.to_string(), src: src.to_string() }
}

#[test]
fn chapters_number_their_elements_through() {
    let meta = BookMeta::create(
        vec![("cover".to_string(), 10), ("one".to_string(), 8), ("empty".to_string(), 0), ("two".to_string(), 5)],
        Some("cover-image".to_string()),
    );
    let ranges: Vec<_> = meta.spine.iter().map(|s| (s.index, s.elements.start, s.elements.end)).collect();
    assert_eq!(ranges, vec![(0, 0, 10), (1, 10, 18), (2, 18, 18), (3, 18, 23)]);
    assert_eq!(meta.spine[1].idref, "one");
    assert_eq!(meta.cover_id.as_deref(), Some("cover-image"));
    // The numbering stops at the largest index.
    let full = BookMeta::create(vec![("a".to_string(), u32::MAX - 1), ("b".to_string(), 7)], None);
    assert_eq!(full.spine[1].elements, ElementRange { start: u32::MAX - 1, end: u32::MAX });
    assert!(BookMeta::create(vec![], None).spine.is_empty());
}

#[test]
fn contents_lead_to_chapters_of_the_spine() {
    let meta = BookMeta::create(
        vec![("cover.xhtml".to_string(), 3), ("ch1.xhtml".to_string(), 9), ("cover.xhtml".to_string(), 2)],
        None,
    );
    let navigation = Navigation {
        nav_points: vec![
            nav("n1", "Cover", "cover.xhtml"),
            nav("n2", "Nowhere", "missing.xhtml"),
            nav("n3", "Chapter 1", "ch1.xhtml"),
        ],
    };
    let toc = navigation.into_toc(&meta.spine);
    let items: Vec<_> = toc.items.iter().map(|i| (i.title.as_str(), i.location)).collect();
    assert_eq!(
        items,
        vec![
            ("Cover", Location { spine: 2, element: 0 }),
            ("Chapter 1", Location { spine: 1, element: 0 }),
        ]
    );
    assert!(Navigation { nav_points: vec![] }.into_toc(&meta.spine).items.is_empty());
}

#[test]
fn tickets_are_open_until_they_are_done() {
    let mut scribe = ScribeAssistant::new();
    assert_eq!(scribe.poke_scan(), ScribeState::Working);
    assert_eq!(scribe.poke_list(&vec![BookId(7), BookId(9)]), ScribeState::Working);
    assert_eq!(scribe.send(ScribeRequest::Sort(SortOrder::default())), ScribeState::Working);
    let sent = scribe.take_outbox();
    assert_eq!(
        sent,
        vec![
            (ScribeTicket(0), ScribeRequest::Scan),
            (ScribeTicket(1), ScribeRequest::Show(BookId(7))),
            (ScribeTicket(2), ScribeRequest::Show(BookId(9))),
            (ScribeTicket(3), ScribeRequest::Sort(SortOrder(SortField::Added, SortDirection::Ascending))),
        ]
    );
    assert!(scribe.take_outbox().is_empty());
    assert_eq!(scribe.complete_ticket(ScribeTicket(2)), ScribeState::Working);
    assert_eq!(scribe.complete_ticket(ScribeTicket(2)), ScribeState::Working);
    assert_eq!(scribe.complete_ticket(ScribeTicket(0)), ScribeState::Working);
    assert_eq!(scribe.complete_ticket(ScribeTicket(3)), ScribeState::Working);
    assert_eq!(scribe.complete_ticket(ScribeTicket(1)), ScribeState::Idle);
    assert_eq!(scribe.complete_ticket(ScribeTicket(1)), ScribeState::Idle);
    // A list of no books is a request all the same.
    assert_eq!(scribe.poke_list(&vec![]), ScribeState::Working);
    assert!(scribe.take_outbox().is_empty());
    assert_eq!(ScribeState::default(), ScribeState::Idle);
    assert_eq!(BookId(-3).value(), -3);
}

#[test]
fn frames_are_averaged() {
    let mut fps = FpsCalculator::new();
    assert_eq!(fps.fps(), 0);
    fps.tick(16);
    assert_eq!(fps.total_ms, 16);
    assert_eq!(fps.fps(), 500);
    for _ in 0..200 {
        fps.tick(16);
    }
    // The total settles at eight frames.
    assert_eq!(fps.total_ms, 128);
    assert_eq!(fps.fps(), 62);
    fps.tick(u64::MAX);
    assert_eq!(fps.total_ms, u64::MAX);
    assert_eq!(fps.fps(), 0);
}

#[test]
fn flags_and_ranges() {
    let range = ElementRange { start: 3, end: 5 };
    assert!(!range.contains(2) && range.contains(3) && range.contains(4) && !range.contains(5));
    assert!(!ElementRange { start: 5, end: 5 }.contains(5));
    let mut position = PagePosition::empty();
    assert!(!position.contains(PagePosition::first()) && !position.contains(PagePosition::last()));
    assert!(position.contains(PagePosition::empty()));
    position.set(PagePosition::last(), true);
    assert!(position.contains(PagePosition::last()) && !position.first);
    position.set(PagePosition { first: true, last: true }, true);
    assert!(position.contains(PagePosition { first: true, last: true }));
    position.set(PagePosition::first(), false);
    assert_eq!(position, PagePosition::last());
    assert_eq!(IllustratorRenderError::MissingBody.message(), "Missing body");
    assert_eq!(IllustratorRenderError::UnexpectedExtraClose.message(), "Unexpected extra close");
    assert_eq!(IllustratorRequestError::NotRunning.message(), "Illustrator not running");
}

#[test]
fn stored_covers_become_thumbnails() {
    assert!(matches!(Thumbnail::from(None), Thumbnail::Absent));
    match Thumbnail::from(Some(SecretThumbnail(vec![1, 2, 3]))) {
        Thumbnail::Bytes { bytes } => assert_eq!(bytes, vec![1, 2, 3]),
        Thumbnail::Absent => panic!("a cover was stored"),
    }
    assert_eq!(SortField::default(), SortField::Added);
    assert_eq!(SortDirection::default(), SortDirection::Ascending);
}
