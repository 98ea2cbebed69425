//! The requests that the host puts to the keeper of the library.
//!
//! Every request gets a ticket. A ticket is open until the keeper reports
//! that the request is done; while a ticket is open the scribe is working.

use crate::library::{BookId, Location, SortOrder};
use std::collections::BTreeSet;
use vstd::prelude::*;

verus! {

/// The number of a request.
#[derive(Debug, Clone, Copy, PartialEq, Eq, Structural, PartialOrd, Ord)]
pub struct ScribeTicket(pub usize);

/// Whether a request is open.
#[derive(Debug, Clone, Copy, PartialEq, Eq, Structural)]
pub enum ScribeState {
    Idle,
    Working,
}

impl Default for ScribeState {
    fn default() -> (s: Self)
        ensures
            s == ScribeState::Idle,
    {
        ScribeState::Idle
    }
}

/// What is asked of the keeper of the library.
#[derive(Debug, Clone, Copy, PartialEq, Eq, Structural)]
pub enum ScribeRequest {
    /// Look through the library for books.
    Scan,
    /// Load what is shown of a book.
    Show(BookId),
    /// Put the books in another order.
    Sort(SortOrder),
}

/// What wakes the application.
#[derive(Debug, Clone, Copy, PartialEq, Eq, Structural)]
pub enum AppPoke {
    LibraryLoad,
    LibrarySorted,
    LibraryUpdated(BookId),
    NextPage,
    PreviousPage,
    Goto(Location),
    OpenBook(BookId),
    ToggleToC,
    LibraryOpen,
    ScanLibrary,
    BookContentReady(BookId, Location),
    Completed(ScribeTicket),
}

/// Numbers the requests of the host, keeps those that are to be sent, and
/// knows which are open.
#[derive(Debug)]
pub struct ScribeAssistant {
    ticket_cnt: usize,
    ticket_set: BTreeSet<usize>,
    outbox: Vec<(ScribeTicket, ScribeRequest)>,
}

/// The number that follows `n`; the numbers start over behind the largest.
pub open spec fn following(n: usize) -> usize {
    if n < usize::MAX {
        (n + 1) as usize
    } else {
        0
    }
}

/// The requests for what is shown of each of `ids`, numbered from `first` on.
pub open spec fn shows(ids: Seq<BookId>, first: usize, k: int) -> Seq<(ScribeTicket, ScribeRequest)>
    decreases k,
{
    if k <= 0 {
        Seq::empty()
    } else {
        shows(ids, first, k - 1).push(
            (ScribeTicket(numbered(first, k - 1)), ScribeRequest::Show(ids[k - 1])),
        )
    }
}

/// The `k`th number from `first` on.
pub open spec fn numbered(first: usize, k: int) -> usize
    decreases k,
{
    if k <= 0 {
        first
    } else {
        following(numbered(first, k - 1))
    }
}

/// The first `k` numbers from `first` on.
pub open spec fn numbers(first: usize, k: int) -> Set<usize>
    decreases k,
{
    if k <= 0 {
        Set::empty()
    } else {
        numbers(first, k - 1).insert(numbered(first, k - 1))
    }
}

impl ScribeAssistant {
    /// The number of the next request.
    pub closed spec fn next_ticket(&self) -> usize {
        self.ticket_cnt
    }

    /// The numbers of the open tickets.
    pub closed spec fn open_tickets(&self) -> Set<usize> {
        self.ticket_set@
    }

    /// The requests that are to be sent, the oldest first.
    pub closed spec fn unsent(&self) -> Seq<(ScribeTicket, ScribeRequest)> {
        self.outbox@
    }

    pub fn new() -> (a: Self)
        ensures
            a.next_ticket() == 0,
            a.open_tickets() == Set::<usize>::empty(),
            a.unsent().len() == 0,
    {
        Self { ticket_cnt: 0, ticket_set: BTreeSet::new(), outbox: Vec::new() }
    }

    fn new_ticket(&mut self) -> (t: ScribeTicket)
        ensures
            t == ScribeTicket(old(self).next_ticket()),
            final(self).next_ticket() == following(old(self).next_ticket()),
            final(self).open_tickets() == old(self).open_tickets(),
            final(self).unsent() == old(self).unsent(),
    {
        let ticket_id = self.ticket_cnt;
        self.ticket_cnt = if ticket_id < usize::MAX {
            ticket_id + 1
        } else {
            0
        };
        ScribeTicket(ticket_id)
    }

    /// Gives the request `order` a ticket and keeps it to be sent.
    pub fn send(&mut self, order: ScribeRequest) -> (state: ScribeState)
        ensures
            state == ScribeState::Working,
            final(self).next_ticket() == following(old(self).next_ticket()),
            final(self).open_tickets() == old(self).open_tickets().insert(old(self).next_ticket()),
            final(self).unsent() == old(self).unsent().push(
                (ScribeTicket(old(self).next_ticket()), order),
            ),
    {
        let ticket = self.new_ticket();
        self.outbox.push((ticket, order));
        self.ticket_set.insert(ticket.0);
        ScribeState::Working
    }

    /// Asks for a look through the library.
    pub fn poke_scan(&mut self) -> (state: ScribeState)
        ensures
            state == ScribeState::Working,
            final(self).next_ticket() == following(old(self).next_ticket()),
            final(self).open_tickets() == old(self).open_tickets().insert(old(self).next_ticket()),
            final(self).unsent() == old(self).unsent().push(
                (ScribeTicket(old(self).next_ticket()), ScribeRequest::Scan),
            ),
    {
        self.send(ScribeRequest::Scan)
    }

    /// Asks for what is shown of each of the books `ids`, one request a book.
    pub fn poke_list(&mut self, ids: &Vec<BookId>) -> (state: ScribeState)
        ensures
            state == ScribeState::Working,
            final(self).next_ticket() == numbered(old(self).next_ticket(), ids@.len() as int),
            final(self).unsent() == old(self).unsent() + shows(
                ids@,
                old(self).next_ticket(),
                ids@.len() as int,
            ),
            final(self).open_tickets() == old(self).open_tickets().union(
                numbers(old(self).next_ticket(), ids@.len() as int),
            ),
    {
        let ghost first = self.ticket_cnt;
        let mut k: usize = 0;
        assert(self.unsent() =~= old(self).unsent() + shows(ids@, first, 0));
        assert(self.open_tickets() =~= old(self).open_tickets().union(numbers(first, 0)));
        while k < ids.len()
            invariant
                k <= ids@.len(),
                first == old(self).next_ticket(),
                self.next_ticket() == numbered(first, k as int),
                self.unsent() == old(self).unsent() + shows(ids@, first, k as int),
                self.open_tickets() == old(self).open_tickets().union(numbers(first, k as int)),
            decreases ids@.len() - k,
        {
            let _ = self.send(ScribeRequest::Show(ids[k]));
            k = k + 1;
            assert(self.unsent() =~= old(self).unsent() + shows(ids@, first, k as int));
            assert(self.open_tickets() =~= old(self).open_tickets().union(numbers(first, k as int)));
        }
        ScribeState::Working
    }

    /// Hands out the requests that are to be sent, the oldest first.
    pub fn take_outbox(&mut self) -> (requests: Vec<(ScribeTicket, ScribeRequest)>)
        ensures
            requests@ == old(self).unsent(),
            final(self).unsent().len() == 0,
            final(self).open_tickets() == old(self).open_tickets(),
            final(self).next_ticket() == old(self).next_ticket(),
    {
        let mut requests = Vec::new();
        std::mem::swap(&mut self.outbox, &mut requests);
        requests
    }

    /// The request with the ticket `ticket` is done. The scribe is idle once
    /// no ticket is open.
    pub fn complete_ticket(&mut self, ticket: ScribeTicket) -> (state: ScribeState)
        ensures
            final(self).open_tickets() == old(self).open_tickets().remove(ticket.0),
            final(self).unsent() == old(self).unsent(),
            final(self).next_ticket() == old(self).next_ticket(),
            state == (if final(self).open_tickets().is_empty() {
                ScribeState::Idle
            } else {
                ScribeState::Working
            }),
    {
        self.ticket_set.remove(&ticket.0);
        if self.ticket_set.is_empty() {
            ScribeState::Idle
        } else {
            ScribeState::Working
        }
    }
}

} // verus!
