use illustrator::library::{BookId, Location, SortDirection, SortField, SortOrder};
use illustrator::shelf::{book_before, sort_books, sort_order, Book, SecretLibrary};

fn book(id: i64, title: Option<&str>, added_at: i64, modified_at: i64) -> Book {
    Book {
        id: BookId(id),
        path: format!("/books/{id}.epub"),
        title: title.map(|t| t.to_string()),
        author: None,
        size: 1,
        modified_at,
        added_at,
        opened_at: None,
        spine: None,
        element: None,
    }
}

fn books() -> Vec<Book> {
    vec![
        book(4, Some("Zebra"), 30, 5),
        book(1, Some("apple"), 10, 9),
        book(3, None, 20, 9),
        book(2, Some("Apple"), 10, 1),
        book(5, Some("App"), 40, 7),
    ]
}

fn ids(sorted: Vec<BookId>) -> Vec<i64> {
    sorted.into_iter().map(|id| id.value()).collect()
}

#[test]
fn books_are_sorted_by_each_field() {
    let books = books();
    assert_eq!(ids(sort_books(&books, SortField::Added, SortDirection::Ascending)), vec![1, 2, 3, 4, 5]);
    assert_eq!(ids(sort_books(&books, SortField::Added, SortDirection::Descending)), vec![5, 4, 3, 2, 1]);
    assert_eq!(ids(sort_books(&books, SortField::Modified, SortDirection::Ascending)), vec![2, 4, 5, 1, 3]);
    // No title comes first, capitals come before small letters, a text before what it starts.
    assert_eq!(ids(sort_books(&books, SortField::Title, SortDirection::Ascending)), vec![3, 5, 2, 4, 1]);
    assert_eq!(ids(sort_books(&books, SortField::Title, SortDirection::Descending)), vec![1, 4, 2, 5, 3]);
    assert_eq!(sort_order(&books, SortField::Added, SortDirection::Ascending), vec![1, 3, 2, 0, 4]);
    assert!(sort_books(&vec![], SortField::Title, SortDirection::Ascending).is_empty());
    let same = vec![book(2, Some("x"), 1, 1), book(1, Some("x"), 1, 1), book(2, Some("x"), 1, 1)];
    assert_eq!(ids(sort_books(&same, SortField::Title, SortDirection::Ascending)), vec![1, 2, 2]);
    assert!(book_before(&same[0], &same[2], SortField::Modified));
    assert!(!book_before(&same[0], &same[1], SortField::Modified));
    assert!(book_before(&book(1, Some("é"), 0, 0), &book(0, Some("z\u{10000}"), 0, 0), SortField::Title) == false);
}

#[test]
fn the_library_shows_its_books_in_order() {
    let mut library = SecretLibrary {
        books: vec![],
        order: SortOrder(SortField::Title, SortDirection::Ascending),
        sorted: vec![],
        thumbnails: vec![],
    };
    library.load(books());
    assert_eq!(ids(library.sorted.clone()), vec![3, 5, 2, 4, 1]);
    let shown: Vec<_> = library.books(1, 3).iter().map(|b| b.id.value()).collect();
    assert_eq!(shown, vec![5, 2]);
    let shown: Vec<_> = library.books(3, 100).iter().map(|b| b.id.value()).collect();
    assert_eq!(shown, vec![4, 1]);
    assert!(library.books(5, 9).is_empty());
    assert!(library.books(3, 2).is_empty());
    assert_eq!(library.book(BookId(3)).map(|b| b.added_at), Some(20));
    assert!(library.book(BookId(9)).is_none());
    library.sort(SortOrder(SortField::Added, SortDirection::Descending));
    assert_eq!(ids(library.sorted.clone()), vec![5, 4, 3, 2, 1]);
    // A number in the order that the library has no book for is passed over.
    library.sorted.insert(1, BookId(77));
    let shown: Vec<_> = library.books(0, 3).iter().map(|b| b.id.value()).collect();
    assert_eq!(shown, vec![5, 4]);
}

#[test]
fn a_book_is_opened_where_it_was_read() {
    let mut b = book(1, None, 0, 0);
    assert_eq!(b.location(), Location { spine: 0, element: 0 });
    b.spine = Some(3);
    assert_eq!(b.location(), Location { spine: 3, element: 0 });
    b.element = Some(44);
    assert_eq!(b.location(), Location { spine: 3, element: 44 });
}

#[test]
fn descending_is_ascending_read_from_its_end() {
    // Books in the same place keep the order in which they come.
    let twins = vec![
        book(7, Some("b"), 3, 3),
        book(7, None, 3, 3),
        book(2, Some("a"), 3, 1),
        book(7, Some("b"), 3, 3),
        book(9, None, 1, 3),
    ];
    assert_eq!(sort_order(&twins, SortField::Added, SortDirection::Ascending), vec![4, 2, 0, 1, 3]);
    assert_eq!(sort_order(&twins, SortField::Title, SortDirection::Ascending), vec![1, 4, 2, 0, 3]);
    for list in [books(), twins, vec![], vec![book(1, None, 0, 0)]] {
        for field in [SortField::Added, SortField::Modified, SortField::Title] {
            let up = sort_order(&list, field, SortDirection::Ascending);
            let mut down = sort_order(&list, field, SortDirection::Descending);
            down.reverse();
            assert_eq!(up, down);
            let mut seen = up.clone();
            seen.sort();
            assert_eq!(seen, (0..list.len()).collect::<Vec<usize>>());
            let up_ids = ids(sort_books(&list, field, SortDirection::Ascending));
            let mut down_ids = ids(sort_books(&list, field, SortDirection::Descending));
            down_ids.reverse();
            assert_eq!(up_ids, down_ids);
            assert_eq!(up_ids, up.iter().map(|&i| list[i].id.value()).collect::<Vec<i64>>());
        }
    }
}
