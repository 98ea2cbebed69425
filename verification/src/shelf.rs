//! The books of the library and the order in which they are shown.

use crate::library::{BookId, Location, SortDirection, SortField, Thumbnail};
use vstd::prelude::*;
use vstd::string::StrSliceExecFns;

verus! {

/// What the records know of a book. Times are seconds since 1970.
#[derive(Debug, Clone)]
pub struct Book {
    pub id: BookId,
    pub path: String,
    pub title: Option<String>,
    pub author: Option<String>,
    pub size: u64,
    pub modified_at: i64,
    pub added_at: i64,
    pub opened_at: Option<i64>,
    pub spine: Option<u32>,
    pub element: Option<u32>,
}

impl Book {
    /// Where the book was last read: at its start, where it was not read yet.
    pub fn location(&self) -> (l: Location)
        ensures
            l.spine == (match self.spine {
                Some(s) => s,
                None => 0,
            }),
            l.element == (match self.element {
                Some(e) => e,
                None => 0,
            }),
    {
        Location {
            spine: match self.spine {
                Some(s) => s,
                None => 0,
            },
            element: match self.element {
                Some(e) => e,
                None => 0,
            },
        }
    }
}

/// Whether the text `a` stands before the text `b`, or is the same text, in
/// the order of the dictionary, from place `k` on: the first character in
/// which they differ decides, and a text stands before the texts that it
/// starts.
pub open spec fn text_le(a: Seq<char>, b: Seq<char>, k: int) -> bool
    decreases a.len() - k,
{
    if k < 0 || k >= a.len() {
        true
    } else if k >= b.len() {
        false
    } else if a[k] != b[k] {
        (a[k] as u32) < (b[k] as u32)
    } else {
        text_le(a, b, k + 1)
    }
}

/// Whether the title `a` stands before the title `b` or is the same: no
/// title stands before every title.
pub open spec fn title_le(a: Option<String>, b: Option<String>) -> bool {
    match (a, b) {
        (None, _) => true,
        (Some(_), None) => false,
        (Some(x), Some(y)) => text_le(x@, y@, 0),
    }
}

/// Whether the titles are the same.
pub open spec fn same_title(a: Option<String>, b: Option<String>) -> bool {
    match (a, b) {
        (None, None) => true,
        (Some(x), Some(y)) => x@ == y@,
        _ => false,
    }
}

/// Whether the book `a` stands before the book `b`, or in the same place,
/// where books are ordered by `field`: the field decides, and the number of
/// the book where the field is the same.
pub open spec fn book_le(a: Book, b: Book, field: SortField) -> bool {
    match field {
        SortField::Added => a.added_at < b.added_at || (a.added_at == b.added_at && a.id.0
            <= b.id.0),
        SortField::Modified => a.modified_at < b.modified_at || (a.modified_at == b.modified_at
            && a.id.0 <= b.id.0),
        SortField::Title => if same_title(a.title, b.title) {
            a.id.0 <= b.id.0
        } else {
            title_le(a.title, b.title)
        },
    }
}

fn text_before(a: &str, b: &str) -> (r: bool)
    ensures
        r == text_le(a@, b@, 0),
{
    let n = a.unicode_len();
    let m = b.unicode_len();
    let mut k: usize = 0;
    while k < n
        invariant
            k <= n,
            n == a@.len(),
            m == b@.len(),
            text_le(a@, b@, 0) == text_le(a@, b@, k as int),
        decreases n - k,
    {
        if k >= m {
            return false;
        }
        let x = a.get_char(k);
        let y = b.get_char(k);
        if x != y {
            return (x as u32) < (y as u32);
        }
        k = k + 1;
    }
    true
}

fn titles_equal(a: &Option<String>, b: &Option<String>) -> (r: bool)
    ensures
        r == same_title(*a, *b),
{
    match (a, b) {
        (None, None) => true,
        (Some(x), Some(y)) => *x == *y,
        _ => false,
    }
}

fn title_before(a: &Option<String>, b: &Option<String>) -> (r: bool)
    ensures
        r == title_le(*a, *b),
{
    match (a, b) {
        (None, _) => true,
        (Some(_), None) => false,
        (Some(x), Some(y)) => text_before(x.as_str(), y.as_str()),
    }
}

/// Whether the book `a` stands before the book `b` or in the same place.
pub fn book_before(a: &Book, b: &Book, field: SortField) -> (r: bool)
    ensures
        r == book_le(*a, *b, field),
{
    match field {
        SortField::Added => a.added_at < b.added_at || (a.added_at == b.added_at && a.id.0
            <= b.id.0),
        SortField::Modified => a.modified_at < b.modified_at || (a.modified_at == b.modified_at
            && a.id.0 <= b.id.0),
        SortField::Title => if titles_equal(&a.title, &b.title) {
            a.id.0 <= b.id.0
        } else {
            title_before(&a.title, &b.title)
        },
    }
}

/// Of two texts one stands before the other, or they are the same.
pub proof fn lemma_text_le_total(a: Seq<char>, b: Seq<char>, k: int)
    requires
        0 <= k,
        forall|i: int| 0 <= i < k ==> i < a.len() && i < b.len() && a[i] == b[i],
    ensures
        text_le(a, b, k) || text_le(b, a, k),
        text_le(a, b, k) && text_le(b, a, k) ==> a =~= b,
    decreases a.len() + b.len() - k,
{
    if k < a.len() && k < b.len() {
        if a[k] == b[k] {
            lemma_text_le_total(a, b, k + 1);
        } else {
            assert(a[k] as u32 != b[k] as u32) by {
                vstd::utf8::char_u32_cast(a[k], a[k] as u32);
                vstd::utf8::char_u32_cast(b[k], b[k] as u32);
            }
        }
    } else if text_le(a, b, k) && text_le(b, a, k) {
        assert(k >= a.len() && k >= b.len());
        if k > 0 {
            assert(a[k - 1] == b[k - 1]);
        }
        assert(a =~= b);
    }
}

/// Of two books one stands before the other.
pub proof fn lemma_book_le_total(a: Book, b: Book, field: SortField)
    ensures
        book_le(a, b, field) || book_le(b, a, field),
{
    if field is Title {
        match (a.title, b.title) {
            (Some(x), Some(y)) => {
                lemma_text_le_total(x@, y@, 0);
            },
            _ => {},
        }
    }
}

/// The places of `order` name books in ascending order.
pub open spec fn ascending(order: Seq<usize>, books: Seq<Book>, field: SortField) -> bool {
    forall|i: int, j: int|
        0 <= i && j == i + 1 && j < order.len() ==> book_le(
            books[(#[trigger] order[i]) as int],
            books[(#[trigger] order[j]) as int],
            field,
        )
}

/// The places 0 to `n`, `n` left out.
pub open spec fn places(n: nat) -> Seq<usize> {
    Seq::new(n, |i: int| i as usize)
}

/// `order` names every book once, in the order of `field` and `dir`.
pub open spec fn is_sorted_order(
    order: Seq<usize>,
    books: Seq<Book>,
    field: SortField,
    dir: SortDirection,
) -> bool {
    &&& order.to_multiset() == places(books.len()).to_multiset()
    &&& forall|i: int| 0 <= i < order.len() ==> (#[trigger] order[i]) < books.len()
    &&& match dir {
        SortDirection::Ascending => ascending(order, books, field),
        SortDirection::Descending => ascending(order.reverse(), books, field),
    }
}

/// The place in `order` at which the book at place `n` goes in, looked for
/// from `from` on: behind the books at the front that stand before it or in
/// the same place.
pub open spec fn slot_for(
    order: Seq<usize>,
    books: Seq<Book>,
    field: SortField,
    n: int,
    from: int,
) -> int
    decreases order.len() - from,
{
    if from < 0 || from >= order.len() || !book_le(books[order[from] as int], books[n], field) {
        from
    } else {
        slot_for(order, books, field, n, from + 1)
    }
}

/// The places of the first `n` books in ascending order. Of books that
/// stand in the same place, the one that comes first among the books comes
/// first.
pub open spec fn ascending_places(books: Seq<Book>, field: SortField, n: int) -> Seq<usize>
    decreases n,
{
    if n <= 0 {
        Seq::empty()
    } else {
        let before = ascending_places(books, field, n - 1);
        before.insert(slot_for(before, books, field, n - 1, 0), (n - 1) as usize)
    }
}

/// The places of the books in the order of `field` and `dir`: the
/// descending order is the ascending order read from its end.
pub open spec fn sorted_places(books: Seq<Book>, field: SortField, dir: SortDirection) -> Seq<
    usize,
> {
    match dir {
        SortDirection::Ascending => ascending_places(books, field, books.len() as int),
        SortDirection::Descending => ascending_places(books, field, books.len() as int).reverse(),
    }
}

/// The places of the books in the order of `field` and `dir`.
pub fn sort_order(books: &Vec<Book>, field: SortField, dir: SortDirection) -> (order: Vec<usize>)
    ensures
        order@ == sorted_places(books@, field, dir),
        is_sorted_order(order@, books@, field, dir),
{
    let mut order: Vec<usize> = Vec::new();
    let mut n: usize = 0;
    assert(order@.to_multiset() =~= places(0).to_multiset()) by {
        assert(order@ =~= places(0));
    }
    while n < books.len()
        invariant
            n <= books@.len(),
            order@.len() == n,
            order@.to_multiset() == places(n as nat).to_multiset(),
            forall|i: int| 0 <= i < order@.len() ==> (#[trigger] order@[i]) < books@.len(),
            ascending(order@, books@, field),
            order@ == ascending_places(books@, field, n as int),
        decreases books@.len() - n,
    {
        let mut p: usize = 0;
        while p < order.len() && book_before(&books[order[p]], &books[n], field)
            invariant
                p <= order@.len(),
                n < books@.len(),
                forall|i: int| 0 <= i < order@.len() ==> (#[trigger] order@[i]) < books@.len(),
                slot_for(order@, books@, field, n as int, 0) == slot_for(
                    order@,
                    books@,
                    field,
                    n as int,
                    p as int,
                ),
                forall|i: int|
                    0 <= i < p ==> book_le(
                        books@[(#[trigger] order@[i]) as int],
                        books@[n as int],
                        field,
                    ),
            decreases order@.len() - p,
        {
            p = p + 1;
        }
        let ghost before = order@;
        proof {
            if p < before.len() {
                lemma_book_le_total(books@[before[p as int] as int], books@[n as int], field);
            }
            vstd::seq_lib::to_multiset_insert(before, p as int, n);
            vstd::seq_lib::to_multiset_build(places(n as nat), n);
            assert(places(n as nat).push(n) =~= places((n + 1) as nat));
        }
        order.insert(p, n);
        proof {
            assert forall|i: int, j: int| 0 <= i && j == i + 1 && j < order@.len() implies book_le(
                books@[(#[trigger] order@[i]) as int],
                books@[(#[trigger] order@[j]) as int],
                field,
            ) by {
                if j < p {
                    assert(order@[i] == before[i] && order@[j] == before[j]);
                } else if j == p {
                    assert(order@[i] == before[i]);
                } else if i == p {
                    assert(order@[j] == before[p as int]);
                } else {
                    assert(order@[i] == before[i - 1] && order@[j] == before[j - 1]);
                }
            }
        }
        n = n + 1;
    }
    match dir {
        SortDirection::Ascending => order,
        SortDirection::Descending => {
            let ghost up = order@;
            let down = crate::tree::reversed(order);
            proof {
                up.lemma_reverse_to_multiset();
                assert(down@.reverse() =~= up);
                assert(down@ =~= up.reverse());
            }
            down
        },
    }
}

/// The numbers of the books at the places of `order`.
pub open spec fn ids_at(books: Seq<Book>, order: Seq<usize>) -> Seq<BookId> {
    order.map_values(|i: usize| books[i as int].id)
}

/// The numbers of the books in the order of `field` and `dir`.
pub open spec fn sorted_ids(books: Seq<Book>, field: SortField, dir: SortDirection) -> Seq<BookId> {
    ids_at(books, sorted_places(books, field, dir))
}

/// The numbers of the books in the order of `field` and `dir`: every book
/// once, each before the books that stand behind it.
pub fn sort_books(books: &Vec<Book>, field: SortField, dir: SortDirection) -> (sorted: Vec<BookId>)
    ensures
        sorted@ == sorted_ids(books@, field, dir),
        is_sorted_order(sorted_places(books@, field, dir), books@, field, dir),
{
    let order = sort_order(books, field, dir);
    let mut sorted: Vec<BookId> = Vec::new();
    let mut k: usize = 0;
    while k < order.len()
        invariant
            k <= order@.len(),
            forall|i: int| 0 <= i < order@.len() ==> (#[trigger] order@[i]) < books@.len(),
            sorted@ == ids_at(books@, order@.take(k as int)),
        decreases order@.len() - k,
    {
        sorted.push(books[order[k]].id);
        k = k + 1;
        assert(sorted@ =~= ids_at(books@, order@.take(k as int)));
    }
    assert(order@.take(order@.len() as int) =~= order@);
    sorted
}

/// The descending order is the ascending order read from its end, and both
/// hold every book once.
pub proof fn lemma_descending_is_reverse(books: Seq<Book>, field: SortField)
    ensures
        sorted_ids(books, field, SortDirection::Descending) == sorted_ids(
            books,
            field,
            SortDirection::Ascending,
        ).reverse(),
        sorted_ids(books, field, SortDirection::Ascending).len() == books.len(),
        sorted_ids(books, field, SortDirection::Descending).len() == books.len(),
{
    let up = sorted_places(books, field, SortDirection::Ascending);
    lemma_ascending_places_len(books, field, books.len() as int);
    assert(ids_at(books, up.reverse()) =~= ids_at(books, up).reverse());
}

/// The numbers of the books as they come.
pub open spec fn ids_of(books: Seq<Book>, n: int) -> Seq<BookId> {
    ids_at(books, places(n as nat))
}

/// Sorting loses no book and adds none: the numbers that come out are the
/// numbers of the books, each as often as it stands among them.
pub proof fn lemma_sorted_ids_hold_every_book(
    books: Seq<Book>,
    field: SortField,
    dir: SortDirection,
)
    requires
        books.len() <= usize::MAX,
    ensures
        sorted_ids(books, field, dir).to_multiset() == ids_of(books, books.len() as int).to_multiset(),
{
    lemma_ascending_ids(books, field, books.len() as int);
    let up = ascending_places(books, field, books.len() as int);
    if dir is Descending {
        assert(ids_at(books, up.reverse()) =~= ids_at(books, up).reverse());
        ids_at(books, up).lemma_reverse_to_multiset();
    }
}

proof fn lemma_ascending_ids(books: Seq<Book>, field: SortField, n: int)
    requires
        0 <= n <= books.len(),
        books.len() <= usize::MAX,
    ensures
        ids_at(books, ascending_places(books, field, n)).to_multiset() == ids_of(
            books,
            n,
        ).to_multiset(),
    decreases n,
{
    if n == 0 {
        assert(ids_at(books, ascending_places(books, field, 0)) =~= ids_of(books, 0));
    } else {
        lemma_ascending_ids(books, field, n - 1);
        lemma_ascending_places_len(books, field, n - 1);
        let before = ascending_places(books, field, n - 1);
        let p = slot_for(before, books, field, n - 1, 0);
        lemma_slot_in_range(before, books, field, n - 1, 0);
        let id = books[n - 1].id;
        assert(ids_at(books, before.insert(p, (n - 1) as usize)) =~= ids_at(books, before).insert(
            p,
            id,
        ));
        vstd::seq_lib::to_multiset_insert(ids_at(books, before), p, id);
        assert(ids_of(books, n) =~= ids_of(books, n - 1).push(id));
        vstd::seq_lib::to_multiset_build(ids_of(books, n - 1), id);
    }
}

/// The first `n` books have `n` places.
pub proof fn lemma_ascending_places_len(books: Seq<Book>, field: SortField, n: int)
    requires
        0 <= n,
    ensures
        ascending_places(books, field, n).len() == n,
    decreases n,
{
    if n > 0 {
        lemma_ascending_places_len(books, field, n - 1);
        lemma_slot_in_range(ascending_places(books, field, n - 1), books, field, n - 1, 0);
    }
}

/// The place at which a book goes in lies in the order or at its end.
pub proof fn lemma_slot_in_range(
    order: Seq<usize>,
    books: Seq<Book>,
    field: SortField,
    n: int,
    from: int,
)
    requires
        0 <= from <= order.len(),
    ensures
        from <= slot_for(order, books, field, n, from) <= order.len(),
    decreases order.len() - from,
{
    if from < order.len() && book_le(books[order[from] as int], books[n], field) {
        lemma_slot_in_range(order, books, field, n, from + 1);
    }
}

/// The first book at or behind `from` with the number `id`.
pub open spec fn first_with_id(books: Seq<Book>, id: BookId, from: int) -> Option<int>
    decreases books.len() - from,
{
    if from < 0 || from >= books.len() {
        None
    } else if books[from].id == id {
        Some(from)
    } else {
        first_with_id(books, id, from + 1)
    }
}

/// The books of `sorted` from place `from` up to place `to`, as far as the
/// library has them.
pub open spec fn shown(books: Seq<Book>, sorted: Seq<BookId>, from: int, to: int) -> Seq<Book>
    decreases to - from,
{
    if from >= to || to > sorted.len() || from < 0 {
        Seq::empty()
    } else {
        let rest = shown(books, sorted, from, to - 1);
        match first_with_id(books, sorted[to - 1], 0) {
            Some(i) => rest.push(books[i]),
            None => rest,
        }
    }
}

/// The books of the library, their order, and their covers.
#[derive(Debug)]
pub struct SecretLibrary {
    pub books: Vec<Book>,
    pub order: crate::library::SortOrder,
    pub sorted: Vec<BookId>,
    pub thumbnails: Vec<(BookId, Thumbnail)>,
}

/// The smaller of the two.
pub open spec fn at_most(a: int, b: int) -> int {
    if a <= b {
        a
    } else {
        b
    }
}

impl SecretLibrary {
    /// The place of the book `id`.
    fn find(&self, id: BookId) -> (r: Option<usize>)
        ensures
            match r {
                Some(i) => first_with_id(self.books@, id, 0) == Some(i as int) && i
                    < self.books@.len(),
                None => first_with_id(self.books@, id, 0) is None,
            },
    {
        let mut i: usize = 0;
        while i < self.books.len()
            invariant
                i <= self.books@.len(),
                first_with_id(self.books@, id, 0) == first_with_id(self.books@, id, i as int),
            decreases self.books@.len() - i,
        {
            if self.books[i].id == id {
                return Some(i);
            }
            i = i + 1;
        }
        None
    }

    /// The book `id`, if the library has it.
    pub fn book(&self, id: BookId) -> (r: Option<&Book>)
        ensures
            match r {
                Some(b) => first_with_id(self.books@, id, 0) is Some && *b == self.books@[first_with_id(
                    self.books@,
                    id,
                    0,
                )->0],
                None => first_with_id(self.books@, id, 0) is None,
            },
    {
        match self.find(id) {
            Some(i) => Some(&self.books[i]),
            None => None,
        }
    }

    /// The books at the places `start` to `end` of the order in which
    /// the books are shown, `end` left out; fewer where the order is shorter.
    pub fn books(&self, start: u32, end: u32) -> (r: Vec<&Book>)
        ensures
            r@.len() == shown(
                self.books@,
                self.sorted@,
                start as int,
                at_most(end as int, self.sorted@.len() as int),
            ).len(),
            forall|i: int|
                0 <= i < r@.len() ==> *(#[trigger] r@[i]) == shown(
                    self.books@,
                    self.sorted@,
                    start as int,
                    at_most(end as int, self.sorted@.len() as int),
                )[i],
    {
        let to = if (end as usize) < self.sorted.len() {
            end as usize
        } else {
            self.sorted.len()
        };
        let mut r: Vec<&Book> = Vec::new();
        let mut k: usize = start as usize;
        while k < to
            invariant
                to <= self.sorted@.len(),
                start <= k,
                r@.len() == shown(self.books@, self.sorted@, start as int, at_most(k as int, to as int)).len(),
                forall|i: int|
                    0 <= i < r@.len() ==> *(#[trigger] r@[i]) == shown(
                        self.books@,
                        self.sorted@,
                        start as int,
                        at_most(k as int, to as int),
                    )[i],
            decreases to - k,
        {
            let ghost before = shown(self.books@, self.sorted@, start as int, k as int);
            if let Some(i) = self.find(self.sorted[k]) {
                r.push(&self.books[i]);
            }
            k = k + 1;
        }
        r
    }

    /// Takes in the books that the records hold, in the order of the library.
    pub fn load(&mut self, books: Vec<Book>)
        ensures
            final(self).books@ == books@,
            final(self).order == old(self).order,
            final(self).thumbnails == old(self).thumbnails,
            final(self).sorted@ == sorted_ids(books@, old(self).order.0, old(self).order.1),
    {
        let sorted = sort_books(&books, self.order.0, self.order.1);
        self.books = books;
        self.sorted = sorted;
    }

    /// Puts the books into the order `order`.
    pub fn sort(&mut self, order: crate::library::SortOrder)
        ensures
            final(self).books == old(self).books,
            final(self).order == order,
            final(self).thumbnails == old(self).thumbnails,
            final(self).sorted@ == sorted_ids(old(self).books@, order.0, order.1),
    {
        let sorted = sort_books(&self.books, order.0, order.1);
        self.order = order;
        self.sorted = sorted;
    }
}

} // verus!
