//! The lifecycle coordinator: the persistent store of books and rentals and
//! the operations over it.
//!
//! The store owns two durable counters and two durable entity tables, one
//! pair per entity kind.  Its abstract state is a `StoreV`: the two counter
//! values and two maps from id to record value.  `wf` ties the serialized
//! table contents to those maps through the codec and states the lifecycle
//! invariants: ids never exceed their counter, a book is unavailable exactly
//! when an open rental references it, and at most one open rental references
//! a book at a time.

use vstd::prelude::*;
use crate::backing::{
    backing_new, counter_get, counter_reopen, counter_set, counter_val, table_bytes, table_get,
    table_insert, table_remove, table_reopen, DurableCounter, DurableTable,
};
use crate::codec::{
    book_fits, decode_book, decode_rental, enc_book_len, enc_rental_len, encode_book,
    encode_rental, rental_fits, spec_enc_book, spec_enc_rental, utf8_bytes, utf8_of,
    MAX_RECORD_BYTES,
};
use crate::model::{Book, BookM, BookPayload, Error, Rental, RentalM};

verus! {

/// Abstract state of the whole store.
pub ghost struct StoreV {
    pub book_ctr: u64,
    pub rental_ctr: u64,
    pub books: Map<u64, BookM>,
    pub rentals: Map<u64, RentalM>,
}

/// Rental `rid` is open and references book `book_id`.
pub open spec fn open_rental_for(v: StoreV, rid: u64, book_id: u64) -> bool {
    &&& v.rentals.dom().contains(rid)
    &&& v.rentals[rid].returned_at is None
    &&& v.rentals[rid].book_id == book_id
}

/// The lifecycle invariants, over the abstract state.
pub open spec fn wf_v(v: StoreV) -> bool {
    &&& forall|id: u64|
        #[trigger] v.books.dom().contains(id) ==> {
            &&& v.books[id].id == id
            &&& 1 <= id <= v.book_ctr
            &&& book_fits(v.books[id])
        }
    &&& forall|rid: u64|
        #[trigger] v.rentals.dom().contains(rid) ==> {
            &&& v.rentals[rid].id == rid
            &&& 1 <= rid <= v.rental_ctr
            &&& 1 <= v.rentals[rid].book_id <= v.book_ctr
            &&& rental_fits(v.rentals[rid])
        }
    &&& forall|id: u64|
        #[trigger] v.books.dom().contains(id) ==> (v.books[id].available == false <==> exists|
            rid: u64,
        | open_rental_for(v, rid, id))
    &&& forall|r1: u64, r2: u64, b: u64|
        open_rental_for(v, r1, b) && open_rental_for(v, r2, b) ==> r1 == r2
}

/// The stored message of each error, as data.
pub open spec fn msg_book_not_found() -> Seq<char> {
    "book not found"@
}

pub open spec fn msg_rental_not_found() -> Seq<char> {
    "rental not found"@
}

pub open spec fn msg_unavailable() -> Seq<char> {
    "the book is not available for rent"@
}

pub open spec fn msg_already_returned() -> Seq<char> {
    "the rental has already been returned"@
}

pub open spec fn msg_storage() -> Seq<char> {
    "record too large or id space exhausted"@
}

pub open spec fn is_book_not_found(e: Error) -> bool {
    e matches Error::NotFound { msg } && msg@ == msg_book_not_found()
}

pub open spec fn is_rental_not_found(e: Error) -> bool {
    e matches Error::NotFound { msg } && msg@ == msg_rental_not_found()
}

pub open spec fn is_unavailable(e: Error) -> bool {
    e matches Error::BookUnavailable { msg } && msg@ == msg_unavailable()
}

pub open spec fn is_already_returned(e: Error) -> bool {
    e matches Error::AlreadyReturned { msg } && msg@ == msg_already_returned()
}

pub open spec fn is_storage_exhausted(e: Error) -> bool {
    e matches Error::StorageExhausted { msg } && msg@ == msg_storage()
}

/// A book record with this title and author is within the size ceiling.
pub open spec fn payload_fits(title: Seq<char>, author: Seq<char>) -> bool {
    34 + utf8_of(title).len() as int + utf8_of(author).len() as int <= MAX_RECORD_BYTES
}

/// A rental record with this borrower is within the size ceiling.
pub open spec fn borrower_fits(user: Seq<char>) -> bool {
    41 + utf8_of(user).len() as int <= MAX_RECORD_BYTES
}

/// A book with its availability flag flipped and its mutation time stamped.
pub open spec fn with_avail(b: BookM, avail: bool, now: u64) -> BookM {
    BookM { available: avail, updated_at: Some(now), ..b }
}

/// One successful `add_book`: the next book id is issued, durably, and the
/// new book is stored under it, available, with `created_at = now`.
pub open spec fn book_created(
    pre: StoreV,
    post: StoreV,
    b: BookM,
    title: Seq<char>,
    author: Seq<char>,
    now: u64,
) -> bool {
    &&& pre.book_ctr < u64::MAX
    &&& b.id == pre.book_ctr + 1
    &&& b.title == title
    &&& b.author == author
    &&& b.available == true
    &&& b.created_at == now
    &&& b.updated_at is None
    &&& post.book_ctr == b.id
    &&& post.rental_ctr == pre.rental_ctr
    &&& post.books == pre.books.insert(b.id, b)
    &&& post.rentals == pre.rentals
}

/// One successful `update_book`: the descriptive fields are replaced and the
/// mutation time stamped; id, availability and creation time are untouched.
pub open spec fn book_updated(
    pre: StoreV,
    post: StoreV,
    b: BookM,
    id: u64,
    title: Seq<char>,
    author: Seq<char>,
    now: u64,
) -> bool {
    &&& pre.books.dom().contains(id)
    &&& b == (BookM { title, author, updated_at: Some(now), ..pre.books[id] })
    &&& post.books == pre.books.insert(id, b)
    &&& post.rentals == pre.rentals
    &&& post.book_ctr == pre.book_ctr
    &&& post.rental_ctr == pre.rental_ctr
}

/// One successful `delete_book`: the record is removed and returned; open
/// rentals referencing it are left alone, deliberately.
pub open spec fn book_deleted(pre: StoreV, post: StoreV, b: BookM, id: u64) -> bool {
    &&& pre.books.dom().contains(id)
    &&& b == pre.books[id]
    &&& post.books == pre.books.remove(id)
    &&& post.rentals == pre.rentals
    &&& post.book_ctr == pre.book_ctr
    &&& post.rental_ctr == pre.rental_ctr
}

/// One successful `rent_book`: the book was available and is flipped to
/// unavailable before the new open rental is recorded under the next rental
/// id.
pub open spec fn rental_begun(
    pre: StoreV,
    post: StoreV,
    rn: RentalM,
    book_id: u64,
    user: Seq<char>,
    due: u64,
    now: u64,
) -> bool {
    &&& pre.books.dom().contains(book_id)
    &&& pre.books[book_id].available
    &&& pre.rental_ctr < u64::MAX
    &&& rn.id == pre.rental_ctr + 1
    &&& rn.book_id == book_id
    &&& rn.user_id == user
    &&& rn.rented_at == now
    &&& rn.due_date == due
    &&& rn.returned_at is None
    &&& post.book_ctr == pre.book_ctr
    &&& post.rental_ctr == rn.id
    &&& post.books == pre.books.insert(book_id, with_avail(pre.books[book_id], false, now))
    &&& post.rentals == pre.rentals.insert(rn.id, rn)
}

/// One successful `return_book`: the open rental is closed, once and for all,
/// and the referenced book, if still present, is made available again; a
/// dangling reference to a deleted book is tolerated in silence.
pub open spec fn rental_closed(pre: StoreV, post: StoreV, rn: RentalM, rid: u64, now: u64) -> bool {
    &&& pre.rentals.dom().contains(rid)
    &&& pre.rentals[rid].returned_at is None
    &&& rn == (RentalM { returned_at: Some(now), ..pre.rentals[rid] })
    &&& post.rentals == pre.rentals.insert(rid, rn)
    &&& post.books == (if pre.books.dom().contains(rn.book_id) {
        pre.books.insert(rn.book_id, with_avail(pre.books[rn.book_id], true, now))
    } else {
        pre.books
    })
    &&& post.book_ctr == pre.book_ctr
    &&& post.rental_ctr == pre.rental_ctr
}

/// What every operation's `wf` ensures means for the abstract state: the
/// lifecycle invariants hold of it.  This is the bridge from the operation
/// contracts to the laws stated over `wf_v`.
pub proof fn lemma_wf_gives_wf_v(s: Store)
    requires
        s.wf(),
    ensures
        wf_v(s@),
{
}

/// Creating a book preserves the lifecycle invariants: the fresh id collides
/// with nothing, and the new book, being available, is referenced by no open
/// rental.
pub proof fn lemma_wf_book_created(
    pre: StoreV,
    post: StoreV,
    b: BookM,
    title: Seq<char>,
    author: Seq<char>,
    now: u64,
)
    requires
        wf_v(pre),
        book_fits(b),
        book_created(pre, post, b, title, author, now),
    ensures
        wf_v(post),
{
    assert forall|i: u64| #[trigger] post.books.dom().contains(i) implies {
        &&& post.books[i].id == i
        &&& 1 <= i <= post.book_ctr
        &&& book_fits(post.books[i])
    } by {
        if i != b.id {
            assert(pre.books.dom().contains(i));
        }
    }
    assert forall|rid: u64| #[trigger] post.rentals.dom().contains(rid) implies {
        &&& post.rentals[rid].id == rid
        &&& 1 <= rid <= post.rental_ctr
        &&& 1 <= post.rentals[rid].book_id <= post.book_ctr
        &&& rental_fits(post.rentals[rid])
    } by {
        assert(pre.rentals.dom().contains(rid));
    }
    assert forall|i: u64| #[trigger] post.books.dom().contains(i) implies (post.books[i].available
        == false <==> exists|rid: u64| open_rental_for(post, rid, i)) by {
        if i == b.id {
            assert forall|rid: u64| !open_rental_for(post, rid, i) by {
                if open_rental_for(post, rid, i) {
                    assert(pre.rentals.dom().contains(rid));
                    assert(pre.rentals[rid].book_id <= pre.book_ctr);
                }
            }
        } else {
            assert(pre.books.dom().contains(i));
            if pre.books[i].available == false {
                let rid = choose|rid: u64| open_rental_for(pre, rid, i);
                assert(open_rental_for(post, rid, i));
            }
            if exists|rid: u64| open_rental_for(post, rid, i) {
                let rid = choose|rid: u64| open_rental_for(post, rid, i);
                assert(open_rental_for(pre, rid, i));
            }
        }
    }
    assert forall|r1: u64, r2: u64, bk: u64|
        open_rental_for(post, r1, bk) && open_rental_for(post, r2, bk) implies r1 == r2 by {
        assert(open_rental_for(pre, r1, bk));
        assert(open_rental_for(pre, r2, bk));
    }
}

/// Editing a book's descriptive fields preserves the lifecycle invariants:
/// availability and the rentals are untouched.
pub proof fn lemma_wf_book_updated(
    pre: StoreV,
    post: StoreV,
    b: BookM,
    id: u64,
    title: Seq<char>,
    author: Seq<char>,
    now: u64,
)
    requires
        wf_v(pre),
        book_fits(b),
        book_updated(pre, post, b, id, title, author, now),
    ensures
        wf_v(post),
{
    assert forall|i: u64| #[trigger] post.books.dom().contains(i) implies {
        &&& post.books[i].id == i
        &&& 1 <= i <= post.book_ctr
        &&& book_fits(post.books[i])
    } by {
        assert(pre.books.dom().contains(i));
    }
    assert forall|i: u64| #[trigger] post.books.dom().contains(i) implies (post.books[i].available
        == false <==> exists|rid: u64| open_rental_for(post, rid, i)) by {
        assert(pre.books.dom().contains(i));
        assert(post.books[i].available == pre.books[i].available);
        if pre.books[i].available == false {
            let rid = choose|rid: u64| open_rental_for(pre, rid, i);
            assert(open_rental_for(post, rid, i));
        }
        if exists|rid: u64| open_rental_for(post, rid, i) {
            let rid = choose|rid: u64| open_rental_for(post, rid, i);
            assert(open_rental_for(pre, rid, i));
        }
    }
    assert forall|r1: u64, r2: u64, bk: u64|
        open_rental_for(post, r1, bk) && open_rental_for(post, r2, bk) implies r1 == r2 by {
        assert(open_rental_for(pre, r1, bk));
        assert(open_rental_for(pre, r2, bk));
    }
}

/// Deleting a book preserves the lifecycle invariants; a rental referencing
/// it may be left dangling, which the invariants tolerate.
pub proof fn lemma_wf_book_deleted(pre: StoreV, post: StoreV, b: BookM, id: u64)
    requires
        wf_v(pre),
        book_deleted(pre, post, b, id),
    ensures
        wf_v(post),
{
    assert forall|i: u64| #[trigger] post.books.dom().contains(i) implies (post.books[i].available
        == false <==> exists|rid: u64| open_rental_for(post, rid, i)) by {
        assert(pre.books.dom().contains(i));
        if pre.books[i].available == false {
            let rid = choose|rid: u64| open_rental_for(pre, rid, i);
            assert(open_rental_for(post, rid, i));
        }
        if exists|rid: u64| open_rental_for(post, rid, i) {
            let rid = choose|rid: u64| open_rental_for(post, rid, i);
            assert(open_rental_for(pre, rid, i));
        }
    }
    assert forall|r1: u64, r2: u64, bk: u64|
        open_rental_for(post, r1, bk) && open_rental_for(post, r2, bk) implies r1 == r2 by {
        assert(open_rental_for(pre, r1, bk));
        assert(open_rental_for(pre, r2, bk));
    }
}

/// Beginning a rental preserves the lifecycle invariants: the book was
/// available, so no other open rental references it, and the fresh rental id
/// collides with nothing.
pub proof fn lemma_wf_rental_begun(
    pre: StoreV,
    post: StoreV,
    rn: RentalM,
    book_id: u64,
    user: Seq<char>,
    due: u64,
    now: u64,
)
    requires
        wf_v(pre),
        rental_fits(rn),
        rental_begun(pre, post, rn, book_id, user, due, now),
    ensures
        wf_v(post),
{
    assert(rn.id > pre.rental_ctr);
    assert forall|i: u64| #[trigger] post.books.dom().contains(i) implies {
        &&& post.books[i].id == i
        &&& 1 <= i <= post.book_ctr
        &&& book_fits(post.books[i])
    } by {
        assert(pre.books.dom().contains(i));
    }
    assert forall|rid: u64| #[trigger] post.rentals.dom().contains(rid) implies {
        &&& post.rentals[rid].id == rid
        &&& 1 <= rid <= post.rental_ctr
        &&& 1 <= post.rentals[rid].book_id <= post.book_ctr
        &&& rental_fits(post.rentals[rid])
    } by {
        if rid != rn.id {
            assert(pre.rentals.dom().contains(rid));
        }
    }
    assert forall|i: u64| #[trigger] post.books.dom().contains(i) implies (post.books[i].available
        == false <==> exists|rid: u64| open_rental_for(post, rid, i)) by {
        assert(pre.books.dom().contains(i));
        if i == book_id {
            assert(open_rental_for(post, rn.id, i));
        } else {
            if pre.books[i].available == false {
                let rid = choose|rid: u64| open_rental_for(pre, rid, i);
                assert(rid <= pre.rental_ctr);
                assert(open_rental_for(post, rid, i));
            }
            if exists|rid: u64| open_rental_for(post, rid, i) {
                let rid = choose|rid: u64| open_rental_for(post, rid, i);
                assert(rid != rn.id);
                assert(open_rental_for(pre, rid, i));
            }
        }
    }
    assert forall|r1: u64, r2: u64, bk: u64|
        open_rental_for(post, r1, bk) && open_rental_for(post, r2, bk) implies r1 == r2 by {
        if r1 != rn.id && r2 != rn.id {
            assert(open_rental_for(pre, r1, bk));
            assert(open_rental_for(pre, r2, bk));
        } else {
            assert forall|rr: u64| rr != rn.id && open_rental_for(post, rr, book_id) implies false by {
                assert(open_rental_for(pre, rr, book_id));
                assert(pre.books[book_id].available == false);
            }
        }
    }
}

/// Closing a rental preserves the lifecycle invariants: it was the only open
/// rental of its book, so the book, if still present, is rightly available
/// again.
pub proof fn lemma_wf_rental_closed(pre: StoreV, post: StoreV, rn: RentalM, rid: u64, now: u64)
    requires
        wf_v(pre),
        rental_closed(pre, post, rn, rid, now),
    ensures
        wf_v(post),
{
    let b_id = rn.book_id;
    assert(pre.rentals[rid].book_id == b_id);
    assert forall|i: u64| #[trigger] post.books.dom().contains(i) implies {
        &&& post.books[i].id == i
        &&& 1 <= i <= post.book_ctr
        &&& book_fits(post.books[i])
    } by {
        assert(pre.books.dom().contains(i));
    }
    assert forall|r2: u64| #[trigger] post.rentals.dom().contains(r2) implies {
        &&& post.rentals[r2].id == r2
        &&& 1 <= r2 <= post.rental_ctr
        &&& 1 <= post.rentals[r2].book_id <= post.book_ctr
        &&& rental_fits(post.rentals[r2])
    } by {
        assert(pre.rentals.dom().contains(r2));
    }
    assert forall|i: u64| #[trigger] post.books.dom().contains(i) implies (post.books[i].available
        == false <==> exists|r2: u64| open_rental_for(post, r2, i)) by {
        assert(pre.books.dom().contains(i));
        if i == b_id && pre.books.dom().contains(b_id) {
            assert(post.books[i].available);
            assert forall|r2: u64| !open_rental_for(post, r2, i) by {
                if open_rental_for(post, r2, i) {
                    assert(r2 != rid);
                    assert(open_rental_for(pre, r2, i));
                    assert(open_rental_for(pre, rid, b_id));
                }
            }
        } else {
            assert(post.books[i].available == pre.books[i].available);
            if pre.books[i].available == false {
                let r2 = choose|r2: u64| open_rental_for(pre, r2, i);
                assert(r2 != rid);
                assert(open_rental_for(post, r2, i));
            }
            if exists|r2: u64| open_rental_for(post, r2, i) {
                let r2 = choose|r2: u64| open_rental_for(post, r2, i);
                assert(r2 != rid);
                assert(open_rental_for(pre, r2, i));
            }
        }
    }
    assert forall|r1: u64, r2: u64, bk: u64|
        open_rental_for(post, r1, bk) && open_rental_for(post, r2, bk) implies r1 == r2 by {
        assert(r1 != rid && r2 != rid);
        assert(open_rental_for(pre, r1, bk));
        assert(open_rental_for(pre, r2, bk));
    }
}

/// The persistent store: the four segments plus the abstract contents of the
/// two tables.
pub struct Store {
    book_ids: DurableCounter,
    rental_ids: DurableCounter,
    books: DurableTable,
    rentals: DurableTable,
    books_m: Ghost<Map<u64, BookM>>,
    rentals_m: Ghost<Map<u64, RentalM>>,
}

impl View for Store {
    type V = StoreV;

    closed spec fn view(&self) -> StoreV {
        StoreV {
            book_ctr: counter_val(self.book_ids),
            rental_ctr: counter_val(self.rental_ids),
            books: self.books_m@,
            rentals: self.rentals_m@,
        }
    }
}

proof fn lemma_map_values_insert<K, A, B>(m: Map<K, A>, f: spec_fn(A) -> B, k: K, a: A)
    ensures
        m.insert(k, a).map_values(f) == m.map_values(f).insert(k, f(a)),
{
    assert(m.insert(k, a).map_values(f) =~= m.map_values(f).insert(k, f(a)));
}

proof fn lemma_map_values_remove<K, A, B>(m: Map<K, A>, f: spec_fn(A) -> B, k: K)
    ensures
        m.remove(k).map_values(f) == m.map_values(f).remove(k),
{
    assert(m.remove(k).map_values(f) =~= m.map_values(f).remove(k));
}

impl Store {
    /// Each table holds exactly the serialized form of its abstract map.
    pub closed spec fn tables_ok(self) -> bool {
        &&& table_bytes(self.books) == self.books_m@.map_values(|b: BookM| spec_enc_book(b))
        &&& table_bytes(self.rentals) == self.rentals_m@.map_values(
            |r: RentalM| spec_enc_rental(r),
        )
    }

    /// Well-formedness: the tables match their abstract maps and the
    /// lifecycle invariants hold.
    pub closed spec fn wf(self) -> bool {
        &&& self.tables_ok()
        &&& wf_v(self@)
    }

    /// Open a store over four fresh segments: empty tables, zeroed counters.
    pub fn new() -> (s: Store)
        ensures
            s.wf(),
            s@ == (StoreV {
                book_ctr: 0,
                rental_ctr: 0,
                books: Map::<u64, BookM>::empty(),
                rentals: Map::<u64, RentalM>::empty(),
            }),
    {
        let b = backing_new();
        let s = Store {
            book_ids: b.book_ids,
            rental_ids: b.rental_ids,
            books: b.books,
            rentals: b.rentals,
            books_m: Ghost(Map::empty()),
            rentals_m: Ghost(Map::empty()),
        };
        proof {
            assert(table_bytes(s.books) =~= s.books_m@.map_values(|b: BookM| spec_enc_book(b)));
            assert(table_bytes(s.rentals) =~= s.rentals_m@.map_values(
                |r: RentalM| spec_enc_rental(r),
            ));
        }
        s
    }

    /// Simulate a restart: drop the in-memory structures and reattach to the
    /// same four segments.  The whole state survives unchanged.
    pub fn reopen(self) -> (s: Store)
        ensures
            s@ == self@,
            self.wf() ==> s.wf(),
    {
        let Store { book_ids, rental_ids, books, rentals, books_m, rentals_m } = self;
        Store {
            book_ids: counter_reopen(book_ids),
            rental_ids: counter_reopen(rental_ids),
            books: table_reopen(books),
            rentals: table_reopen(rentals),
            books_m,
            rentals_m,
        }
    }

    /// Insert or overwrite one book record, serialized, under its id.  The
    /// record must be within the encoded-size ceiling; writing one over the
    /// ceiling is a programmer error, not a runtime condition.
    pub fn do_insert_book(&mut self, book: &Book)
        requires
            old(self).tables_ok(),
            book_fits(book@),
        ensures
            final(self).tables_ok(),
            final(self)@.books == old(self)@.books.insert(book.id, book@),
            final(self)@.rentals == old(self)@.rentals,
            final(self)@.book_ctr == old(self)@.book_ctr,
            final(self)@.rental_ctr == old(self)@.rental_ctr,
    {
        let bytes = encode_book(book);
        let ghost m = self.books_m@;
        table_insert(&mut self.books, book.id, bytes);
        self.books_m = Ghost(m.insert(book.id, book@));
        proof {
            lemma_map_values_insert(m, |b: BookM| spec_enc_book(b), book.id, book@);
        }
    }

    /// Insert or overwrite one rental record, serialized, under its id.  The
    /// record must be within the encoded-size ceiling.
    pub fn do_insert_rental(&mut self, rental: &Rental)
        requires
            old(self).tables_ok(),
            rental_fits(rental@),
        ensures
            final(self).tables_ok(),
            final(self)@.rentals == old(self)@.rentals.insert(rental.id, rental@),
            final(self)@.books == old(self)@.books,
            final(self)@.book_ctr == old(self)@.book_ctr,
            final(self)@.rental_ctr == old(self)@.rental_ctr,
    {
        let bytes = encode_rental(rental);
        let ghost m = self.rentals_m@;
        table_insert(&mut self.rentals, rental.id, bytes);
        self.rentals_m = Ghost(m.insert(rental.id, rental@));
        proof {
            lemma_map_values_insert(m, |r: RentalM| spec_enc_rental(r), rental.id, rental@);
        }
    }

    /// Point lookup of a book, absence as absence.
    pub fn _get_book(&self, id: u64) -> (r: Option<Book>)
        requires
            self.wf(),
        ensures
            match r {
                Some(b) => self@.books.dom().contains(id) && b@ == self@.books[id],
                None => !self@.books.dom().contains(id),
            },
    {
        match table_get(&self.books, id) {
            None => None,
            Some(bytes) => {
                proof {
                    assert(table_bytes(self.books)[id] == spec_enc_book(self.books_m@[id]));
                }
                let b = decode_book(&bytes);
                Some(b.unwrap())
            },
        }
    }

    /// Look one book up.  Fails `NotFound` exactly when no book is stored
    /// under the id; nothing changes either way.
    pub fn get_book(&self, id: u64) -> (r: Result<Book, Error>)
        requires
            self.wf(),
        ensures
            match r {
                Ok(b) => self@.books.dom().contains(id) && b@ == self@.books[id],
                Err(e) => !self@.books.dom().contains(id) && is_book_not_found(e),
            },
            r is Ok <==> self@.books.dom().contains(id),
    {
        match self._get_book(id) {
            Some(b) => Ok(b),
            None => Err(Error::NotFound { msg: "book not found".to_owned() }),
        }
    }

    /// Create a book under the next book id.  Fails, with nothing changed,
    /// exactly when the record would exceed the size ceiling or the id space
    /// is exhausted.
    pub fn add_book(&mut self, book: BookPayload, now: u64) -> (r: Option<Book>)
        requires
            old(self).wf(),
        ensures
            final(self).wf(),
            final(self)@.book_ctr >= old(self)@.book_ctr,
            final(self)@.rental_ctr == old(self)@.rental_ctr,
            match r {
                Some(b) => book_created(
                    old(self)@,
                    final(self)@,
                    b@,
                    book.title@,
                    book.author@,
                    now,
                ),
                None => final(self)@ == old(self)@,
            },
            r is None <==> (old(self)@.book_ctr == u64::MAX || !payload_fits(
                book.title@,
                book.author@,
            )),
    {
        let ghost title_v = book.title@;
        let ghost author_v = book.author@;
        let tb = utf8_bytes(book.title.clone());
        let ab = utf8_bytes(book.author.clone());
        if tb.len() > MAX_RECORD_BYTES - 34 || ab.len() > MAX_RECORD_BYTES - 34 - tb.len() {
            return None;
        }
        let ctr = counter_get(&self.book_ids);
        if ctr == u64::MAX {
            return None;
        }
        let id = ctr + 1;
        counter_set(&mut self.book_ids, id);
        let b = Book {
            id,
            title: book.title,
            author: book.author,
            available: true,
            created_at: now,
            updated_at: None,
        };
        proof {
            assert(enc_book_len(b@) == 34 + tb@.len() + ab@.len());
        }
        self.do_insert_book(&b);
        proof {
            lemma_wf_book_created(old(self)@, self@, b@, title_v, author_v, now);
        }
        Some(b)
    }

    /// Replace a book's descriptive fields and stamp the mutation time; the
    /// availability flag is untouched.  Fails `NotFound` exactly when the id
    /// holds no book, and `StorageExhausted` exactly when the new record
    /// would exceed the size ceiling; nothing changes on failure.
    pub fn update_book(&mut self, id: u64, book: BookPayload, now: u64) -> (r: Result<Book, Error>)
        requires
            old(self).wf(),
        ensures
            final(self).wf(),
            final(self)@.book_ctr == old(self)@.book_ctr,
            final(self)@.rental_ctr == old(self)@.rental_ctr,
            match r {
                Ok(b) => book_updated(
                    old(self)@,
                    final(self)@,
                    b@,
                    id,
                    book.title@,
                    book.author@,
                    now,
                ),
                Err(e) => final(self)@ == old(self)@ && ((is_book_not_found(e) && !old(
                    self,
                )@.books.dom().contains(id)) || (is_storage_exhausted(e) && old(
                    self,
                )@.books.dom().contains(id) && !payload_fits(book.title@, book.author@))),
            },
            r is Ok <==> (old(self)@.books.dom().contains(id) && payload_fits(
                book.title@,
                book.author@,
            )),
    {
        let ghost title_v = book.title@;
        let ghost author_v = book.author@;
        let cur = match self._get_book(id) {
            None => {
                return Err(Error::NotFound { msg: "book not found".to_owned() });
            },
            Some(c) => c,
        };
        let tb = utf8_bytes(book.title.clone());
        let ab = utf8_bytes(book.author.clone());
        if tb.len() > MAX_RECORD_BYTES - 34 || ab.len() > MAX_RECORD_BYTES - 34 - tb.len() {
            return Err(
                Error::StorageExhausted {
                    msg: "record too large or id space exhausted".to_owned(),
                },
            );
        }
        let b = Book {
            id: cur.id,
            title: book.title,
            author: book.author,
            available: cur.available,
            created_at: cur.created_at,
            updated_at: Some(now),
        };
        proof {
            assert(enc_book_len(b@) == 34 + tb@.len() + ab@.len());
            assert(b.id == id);
        }
        self.do_insert_book(&b);
        proof {
            lemma_wf_book_updated(old(self)@, self@, b@, id, title_v, author_v, now);
        }
        Ok(b)
    }

    /// Remove a book and return it.  Fails `NotFound` exactly when the id
    /// holds no book.  An open rental referencing the book is neither checked
    /// nor cascaded to, by design; `return_book` tolerates the dangling
    /// reference.
    pub fn delete_book(&mut self, id: u64) -> (r: Result<Book, Error>)
        requires
            old(self).wf(),
        ensures
            final(self).wf(),
            final(self)@.book_ctr == old(self)@.book_ctr,
            final(self)@.rental_ctr == old(self)@.rental_ctr,
            match r {
                Ok(b) => book_deleted(old(self)@, final(self)@, b@, id),
                Err(e) => final(self)@ == old(self)@ && !old(self)@.books.dom().contains(id)
                    && is_book_not_found(e),
            },
            r is Ok <==> old(self)@.books.dom().contains(id),
    {
        let ghost m = self.books_m@;
        match table_remove(&mut self.books, id) {
            None => {
                proof {
                    assert(table_bytes(self.books) =~= m.map_values(|b: BookM| spec_enc_book(b)));
                }
                Err(Error::NotFound { msg: "book not found".to_owned() })
            },
            Some(bytes) => {
                self.books_m = Ghost(m.remove(id));
                proof {
                    lemma_map_values_remove(m, |b: BookM| spec_enc_book(b), id);
                    assert(bytes@ == spec_enc_book(m[id]));
                    lemma_wf_book_deleted(old(self)@, self@, m[id], id);
                }
                let b = decode_book(&bytes);
                Ok(b.unwrap())
            },
        }
    }

    /// Lend a book out: flip it to unavailable, durably, then record the new
    /// open rental under the next rental id.  Fails `NotFound` exactly when
    /// the id holds no book, `BookUnavailable` exactly when the book is
    /// already on loan, and `StorageExhausted` exactly when the rental record
    /// would exceed the size ceiling or the rental id space is exhausted;
    /// nothing changes on failure.
    pub fn rent_book(&mut self, book_id: u64, user_id: String, due_date: u64, now: u64) -> (r:
        Result<Rental, Error>)
        requires
            old(self).wf(),
        ensures
            final(self).wf(),
            final(self)@.book_ctr == old(self)@.book_ctr,
            final(self)@.rental_ctr >= old(self)@.rental_ctr,
            match r {
                Ok(rn) => rental_begun(
                    old(self)@,
                    final(self)@,
                    rn@,
                    book_id,
                    user_id@,
                    due_date,
                    now,
                ),
                Err(e) => final(self)@ == old(self)@ && ((is_book_not_found(e) && !old(
                    self,
                )@.books.dom().contains(book_id)) || (is_unavailable(e) && old(
                    self,
                )@.books.dom().contains(book_id) && !old(self)@.books[book_id].available) || (
                is_storage_exhausted(e) && old(self)@.books.dom().contains(book_id) && old(
                    self,
                )@.books[book_id].available && (old(self)@.rental_ctr == u64::MAX
                    || !borrower_fits(user_id@)))),
            },
            r is Ok <==> (old(self)@.books.dom().contains(book_id) && old(
                self,
            )@.books[book_id].available && old(self)@.rental_ctr < u64::MAX && borrower_fits(
                user_id@,
            )),
    {
        let ghost user_v = user_id@;
        let book = match self._get_book(book_id) {
            None => {
                return Err(Error::NotFound { msg: "book not found".to_owned() });
            },
            Some(b) => b,
        };
        if !book.available {
            return Err(
                Error::BookUnavailable { msg: "the book is not available for rent".to_owned() },
            );
        }
        let ub = utf8_bytes(user_id.clone());
        if ub.len() > MAX_RECORD_BYTES - 41 {
            return Err(
                Error::StorageExhausted {
                    msg: "record too large or id space exhausted".to_owned(),
                },
            );
        }
        let rctr = counter_get(&self.rental_ids);
        if rctr == u64::MAX {
            return Err(
                Error::StorageExhausted {
                    msg: "record too large or id space exhausted".to_owned(),
                },
            );
        }
        let rental_id = rctr + 1;
        counter_set(&mut self.rental_ids, rental_id);
        let flipped = Book { available: false, updated_at: Some(now), ..book };
        proof {
            assert(flipped.id == book_id);
            assert(enc_book_len(flipped@) == enc_book_len(old(self)@.books[book_id]));
        }
        self.do_insert_book(&flipped);
        let rental = Rental {
            id: rental_id,
            book_id,
            user_id,
            rented_at: now,
            due_date,
            returned_at: None,
        };
        proof {
            assert(enc_rental_len(rental@) == 41 + ub@.len());
        }
        self.do_insert_rental(&rental);
        proof {
            lemma_wf_rental_begun(
                old(self)@,
                self@,
                rental@,
                book_id,
                user_v,
                due_date,
                now,
            );
        }
        Ok(rental)
    }

    /// Close a rental: stamp `returned_at`, make the referenced book, if
    /// still present, available again, then store the closed rental.  Fails
    /// `NotFound` exactly when the id holds no rental, and `AlreadyReturned`
    /// exactly when the rental is already closed; nothing changes on failure,
    /// so a closing time, once set, is never changed.
    pub fn return_book(&mut self, rental_id: u64, now: u64) -> (r: Result<Rental, Error>)
        requires
            old(self).wf(),
        ensures
            final(self).wf(),
            final(self)@.book_ctr == old(self)@.book_ctr,
            final(self)@.rental_ctr == old(self)@.rental_ctr,
            match r {
                Ok(rn) => rental_closed(old(self)@, final(self)@, rn@, rental_id, now),
                Err(e) => final(self)@ == old(self)@ && ((is_rental_not_found(e) && !old(
                    self,
                )@.rentals.dom().contains(rental_id)) || (is_already_returned(e) && old(
                    self,
                )@.rentals.dom().contains(rental_id) && old(
                    self,
                )@.rentals[rental_id].returned_at is Some)),
            },
            r is Ok <==> (old(self)@.rentals.dom().contains(rental_id) && old(
                self,
            )@.rentals[rental_id].returned_at is None),
    {
        let rental = match self.get_rental(rental_id) {
            None => {
                return Err(Error::NotFound { msg: "rental not found".to_owned() });
            },
            Some(rn) => rn,
        };
        if rental.returned_at.is_some() {
            return Err(
                Error::AlreadyReturned {
                    msg: "the rental has already been returned".to_owned(),
                },
            );
        }
        let closed = Rental { returned_at: Some(now), ..rental };
        proof {
            assert(closed.id == rental_id);
            assert(enc_rental_len(closed@) == enc_rental_len(old(self)@.rentals[rental_id]));
        }
        match self._get_book(closed.book_id) {
            Some(book) => {
                let flipped = Book { available: true, updated_at: Some(now), ..book };
                proof {
                    assert(flipped.id == closed.book_id);
                    assert(enc_book_len(flipped@) == enc_book_len(
                        old(self)@.books[closed.book_id],
                    ));
                }
                self.do_insert_book(&flipped);
            },
            None => {},
        }
        self.do_insert_rental(&closed);
        proof {
            lemma_wf_rental_closed(old(self)@, self@, closed@, rental_id, now);
        }
        Ok(closed)
    }

    /// Point lookup of a rental, absence as absence.
    fn get_rental(&self, rid: u64) -> (r: Option<Rental>)
        requires
            self.wf(),
        ensures
            match r {
                Some(rn) => self@.rentals.dom().contains(rid) && rn@ == self@.rentals[rid],
                None => !self@.rentals.dom().contains(rid),
            },
    {
        match table_get(&self.rentals, rid) {
            None => None,
            Some(bytes) => {
                proof {
                    assert(table_bytes(self.rentals)[rid] == spec_enc_rental(self.rentals_m@[rid]));
                }
                let rn = decode_rental(&bytes);
                Some(rn.unwrap())
            },
        }
    }
}

} // verus!
