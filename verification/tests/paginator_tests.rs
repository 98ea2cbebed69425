use illustrator::cache::{BookMeta, PageContentCache};
use illustrator::error::IllustratorRenderError;
use illustrator::layout::{BlockKind, BoxLayout, LayoutPlan, TextRole, TextSpan, TextStyle};
use illustrator::library::Location;
use illustrator::page::{BookSpineItem, DisplayItem, ElementRange, PageContent};
use illustrator::paginator::{paginate, PageFrame};
use illustrator::tree::NodeId;

const BODY: TextStyle =
    TextStyle { metrics: TextRole::Body, attrs: TextRole::Body, bold: false, italic: false };

fn chapter(index: u32, start: u32, end: u32) -> BookSpineItem {
    BookSpineItem { index, idref: format!("c{index}"), elements: ElementRange { start, end } }
}

fn boxed(y: i32, height: i32) -> BoxLayout {
    BoxLayout { x: 0, y, width: 300, height }
}

/// A chapter of paragraphs under the body, one run each, numbered from 0.
fn paragraphs(n: u32) -> LayoutPlan {
    let mut plan = LayoutPlan::new();
    for i in 0..n {
        assert!(plan.open_block(NodeId(i), BlockKind::Paragraph));
        assert!(plan.attach_run(BODY, vec![TextSpan { node: NodeId(100 + i), style: BODY }]));
        assert!(plan.close_block());
    }
    plan
}

fn check_cover(pages: &[PageContent], item: &BookSpineItem) {
    assert!(!pages.is_empty());
    assert_eq!(pages[0].elements.start, item.elements.start);
    assert_eq!(pages[pages.len() - 1].elements.end, item.elements.end);
    for (i, page) in pages.iter().enumerate() {
        assert_eq!(page.index as usize, i);
        assert_eq!(page.spine, item.index);
        assert!(page.elements.start <= page.elements.end);
        assert_eq!(page.position.first, i == 0);
        assert_eq!(page.position.last, i == pages.len() - 1);
        if i > 0 {
            assert_eq!(pages[i - 1].elements.end, page.elements.start);
        }
    }
}

fn text(item: &DisplayItem) -> (i128, i128, usize) {
    match item {
        DisplayItem::Text(t) => (t.pos.x, t.pos.y, t.run),
        DisplayItem::Image(i) => panic!("a drawing: {i:?}"),
    }
}

fn image(item: &DisplayItem) -> (i128, i128, i32, i32, usize) {
    match item {
        DisplayItem::Image(i) => (i.pos.x, i.pos.y, i.size.width, i.size.height, i.block),
        DisplayItem::Text(t) => panic!("a run: {t:?}"),
    }
}

#[test]
fn empty_chapter_gives_one_empty_page() {
    let plan = LayoutPlan::new();
    let item = chapter(3, 10, 18);
    let frame = PageFrame { page_height: 100, page_width: 400, padding_left: 0, padding_top: 0 };
    let pages = paginate(&plan, &vec![], &frame, &item).unwrap();
    assert_eq!(pages.len(), 1);
    assert!(pages[0].position.first && pages[0].position.last);
    assert_eq!(pages[0].elements, ElementRange { start: 10, end: 18 });
    assert!(pages[0].items.is_empty());
    assert_eq!(pages[0].spine, 3);
}

#[test]
fn runs_that_fit_stay_on_one_page() {
    let plan = paragraphs(3);
    let layouts = vec![boxed(0, 30), boxed(30, 30), boxed(60, 40)];
    let frame = PageFrame { page_height: 100, page_width: 400, padding_left: 7, padding_top: 5 };
    let item = chapter(0, 0, 3);
    let pages = paginate(&plan, &layouts, &frame, &item).unwrap();
    assert_eq!(pages.len(), 1);
    check_cover(&pages, &item);
    let items: Vec<_> = pages[0].items.iter().map(text).collect();
    assert_eq!(items, vec![(7, 5, 0), (7, 35, 1), (7, 65, 2)]);
}

#[test]
fn a_run_that_reaches_below_the_page_opens_the_next() {
    let plan = paragraphs(5);
    let layouts =
        vec![boxed(0, 40), boxed(40, 40), boxed(80, 40), boxed(120, 40), boxed(160, 40)];
    let frame = PageFrame { page_height: 100, page_width: 400, padding_left: 0, padding_top: 10 };
    let item = chapter(2, 0, 5);
    let pages = paginate(&plan, &layouts, &frame, &item).unwrap();
    check_cover(&pages, &item);
    assert_eq!(pages.len(), 3);
    let ranges: Vec<_> = pages.iter().map(|p| (p.elements.start, p.elements.end)).collect();
    assert_eq!(ranges, vec![(0, 2), (2, 4), (4, 5)]);
    // The top of a page is pinned to the top of its first run.
    assert_eq!(pages[1].items.iter().map(text).collect::<Vec<_>>(), vec![(0, 10, 2), (0, 50, 3)]);
    assert_eq!(pages[2].items.iter().map(text).collect::<Vec<_>>(), vec![(0, 10, 4)]);
}

#[test]
fn a_run_taller_than_the_page_gets_a_page_of_its_own() {
    let plan = paragraphs(1);
    let frame = PageFrame { page_height: 100, page_width: 400, padding_left: 0, padding_top: 0 };
    let item = chapter(0, 0, 1);
    let pages = paginate(&plan, &vec![boxed(20, 500)], &frame, &item).unwrap();
    assert_eq!(pages.len(), 1);
    check_cover(&pages, &item);
    assert_eq!(pages[0].items.iter().map(text).collect::<Vec<_>>(), vec![(0, 0, 0)]);

    let plan = paragraphs(3);
    let layouts = vec![boxed(0, 10), boxed(10, 500), boxed(510, 10)];
    let item = chapter(0, 0, 3);
    let pages = paginate(&plan, &layouts, &frame, &item).unwrap();
    check_cover(&pages, &item);
    assert_eq!(pages.len(), 3);
    assert_eq!(pages.iter().map(|p| p.items.len()).collect::<Vec<_>>(), vec![1, 1, 1]);
}

#[test]
fn positions_add_up_through_the_blocks() {
    let mut plan = LayoutPlan::new();
    assert!(plan.open_block(NodeId(0), BlockKind::Plain));
    assert!(plan.open_block(NodeId(1), BlockKind::Plain));
    assert!(plan.open_block(NodeId(2), BlockKind::Paragraph));
    assert!(plan.attach_run(BODY, vec![]));
    assert!(plan.close_block());
    assert!(plan.close_block());
    assert!(plan.open_block(NodeId(3), BlockKind::Paragraph));
    assert!(plan.attach_run(BODY, vec![]));
    let layouts = vec![
        BoxLayout { x: 10, y: 100, width: 200, height: 50 },
        BoxLayout { x: 1, y: 2, width: 190, height: 40 },
        BoxLayout { x: 3, y: 4, width: 180, height: 30 },
        BoxLayout { x: -5, y: 45, width: 180, height: 5 },
    ];
    let frame = PageFrame { page_height: 1000, page_width: 400, padding_left: 0, padding_top: 0 };
    let item = chapter(0, 0, 4);
    let pages = paginate(&plan, &layouts, &frame, &item).unwrap();
    assert_eq!(pages.len(), 1);
    assert_eq!(pages[0].items.iter().map(text).collect::<Vec<_>>(), vec![(14, 106, 0), (5, 145, 1)]);
}

#[test]
fn elements_out_of_order_or_range_never_break_the_cover() {
    let mut plan = LayoutPlan::new();
    for id in [5u32, 2, 900, 3, 0] {
        assert!(plan.open_block(NodeId(id), BlockKind::Paragraph));
        assert!(plan.attach_run(BODY, vec![]));
        assert!(plan.close_block());
    }
    let layouts =
        vec![boxed(0, 60), boxed(60, 60), boxed(120, 60), boxed(180, 60), boxed(240, 60)];
    let frame = PageFrame { page_height: 100, page_width: 400, padding_left: 0, padding_top: 0 };
    let item = chapter(1, 20, 30);
    let pages = paginate(&plan, &layouts, &frame, &item).unwrap();
    check_cover(&pages, &item);
    assert_eq!(pages.len(), 5);
    let ranges: Vec<_> = pages.iter().map(|p| (p.elements.start, p.elements.end)).collect();
    assert_eq!(ranges, vec![(20, 25), (25, 30), (30, 30), (30, 30), (30, 30)]);
}

#[test]
fn layout_must_hold_a_box_for_each_block() {
    let plan = paragraphs(2);
    let frame = PageFrame { page_height: 100, page_width: 400, padding_left: 0, padding_top: 0 };
    let item = chapter(0, 0, 2);
    assert!(matches!(
        paginate(&plan, &vec![boxed(0, 1)], &frame, &item),
        Err(IllustratorRenderError::LayoutMismatch)
    ));
}

#[test]
fn the_largest_boxes_do_not_overflow() {
    let mut plan = LayoutPlan::new();
    for i in 0..4 {
        assert!(plan.open_block(NodeId(i), BlockKind::Plain));
        assert!(plan.attach_run(BODY, vec![]));
    }
    let big = BoxLayout { x: i32::MAX, y: i32::MAX, width: i32::MAX, height: i32::MAX };
    let frame = PageFrame {
        page_height: i64::MAX,
        page_width: i64::MAX,
        padding_left: i64::MAX,
        padding_top: i64::MAX,
    };
    let item = chapter(0, 0, 4);
    let pages = paginate(&plan, &vec![big, big, big, big], &frame, &item).unwrap();
    check_cover(&pages, &item);
    let last = pages[0].items.iter().map(text).last().unwrap();
    assert_eq!(last.0, i64::MAX as i128 + 4 * i32::MAX as i128);
}

#[test]
fn two_chapters_are_read_to_the_end() {
    let meta = BookMeta { spine: vec![chapter(0, 0, 10), chapter(1, 10, 18)], cover_id: None };
    let frame = PageFrame { page_height: 100, page_width: 400, padding_left: 0, padding_top: 0 };
    let mut cache = PageContentCache::default();
    for item in &meta.spine {
        let n = item.elements.end - item.elements.start;
        let plan = paragraphs(n);
        let layouts: Vec<_> = (0..n as i32).map(|i| boxed(i * 40, 40)).collect();
        let pages = paginate(&plan, &layouts, &frame, item).unwrap();
        check_cover(&pages, item);
        assert!(pages.len() > 1);
        cache.insert(item, pages);
    }
    let mut loc = Location { spine: 0, element: 0 };
    let mut reached = false;
    for _ in 0..40 {
        let next = cache.next_page(&meta, loc);
        assert!(next.element <= 18);
        assert!(next.spine > loc.spine || next.element >= loc.element);
        if next == (Location { spine: 1, element: 10 }) {
            reached = true;
        }
        loc = next;
    }
    assert!(reached);
    assert_eq!(loc.spine, 1);
    assert_eq!(cache.next_page(&meta, loc), loc);
    // And back to the first page of the book.
    for _ in 0..40 {
        loc = cache.previous_page(&meta, loc);
    }
    assert_eq!(loc, Location { spine: 0, element: 0 });
}

#[test]
fn drawings_are_made_to_fit_what_is_left_of_the_page() {
    let mut plan = LayoutPlan::new();
    assert!(plan.open_block(NodeId(0), BlockKind::Paragraph));
    assert!(plan.attach_run(BODY, vec![]));
    assert!(plan.close_block());
    for i in 1..5 {
        assert!(plan.open_block(NodeId(i), BlockKind::Image));
        assert!(plan.close_block());
    }
    let frame = PageFrame { page_height: 1000, page_width: 400, padding_left: 10, padding_top: 20 };
    let item = chapter(0, 0, 5);
    let layouts = vec![
        boxed(0, 100),
        // Fits as it is.
        BoxLayout { x: 0, y: 100, width: 300, height: 200 },
        // Too wide: 800 by 200 in a width of 400.
        BoxLayout { x: 0, y: 300, width: 800, height: 200 },
        // Too high: 100 by 900 where 600 are left.
        BoxLayout { x: 0, y: 400, width: 100, height: 900 },
        // Too wide and too high, to the right of the left edge.
        BoxLayout { x: 200, y: 900, width: 1000, height: 1000 },
    ];
    let pages = paginate(&plan, &layouts, &frame, &item).unwrap();
    check_cover(&pages, &item);
    assert_eq!(pages.len(), 1);
    assert_eq!(text(&pages[0].items[0]), (10, 20, 0));
    let images: Vec<_> = pages[0].items[1..].iter().map(image).collect();
    assert_eq!(
        images,
        vec![
            (10, 120, 300, 200, 1),
            (10, 320, 400, 100, 2),
            (10, 420, 66, 600, 3),
            (210, 920, 100, 100, 4),
        ]
    );

    // A drawing is never made larger, and nothing is left of it where no room is.
    let mut plan = LayoutPlan::new();
    for i in 0..3 {
        assert!(plan.open_block(NodeId(i), BlockKind::Image));
        assert!(plan.close_block());
    }
    let layouts = vec![
        BoxLayout { x: 0, y: 0, width: 3, height: 2 },
        BoxLayout { x: 500, y: 0, width: 30, height: 20 },
        BoxLayout { x: 0, y: 0, width: -30, height: 20 },
    ];
    let pages = paginate(&plan, &layouts, &frame, &item).unwrap();
    let images: Vec<_> = pages[0].items.iter().map(image).collect();
    assert_eq!(images, vec![(10, 20, 3, 2, 0), (510, 20, 0, 0, 1), (10, 20, 0, 20, 2)]);
}
