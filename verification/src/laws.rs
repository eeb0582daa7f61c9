//! The store's laws, proved once and for all over the abstract state.
//!
//! Each statement below composes the operation contracts in `store`: the
//! transition predicates (`book_created`, `rental_begun`, ...) are exactly
//! what those contracts establish on success, and `wf_v` is what every
//! operation preserves.

use vstd::prelude::*;
use crate::model::{BookM, RentalM};
use crate::store::{
    book_created, book_deleted, open_rental_for, rental_begun, rental_closed, wf_v, StoreV,
};

verus! {

/// Book-id monotonicity: of two successful creations, the one run from the
/// later state (every operation's contract keeps the counters from
/// decreasing) returns the strictly larger id, so book ids never repeat.
pub proof fn lemma_book_ids_monotonic(
    pre1: StoreV,
    post1: StoreV,
    b1: BookM,
    t1: Seq<char>,
    a1: Seq<char>,
    n1: u64,
    pre2: StoreV,
    post2: StoreV,
    b2: BookM,
    t2: Seq<char>,
    a2: Seq<char>,
    n2: u64,
)
    requires
        book_created(pre1, post1, b1, t1, a1, n1),
        book_created(pre2, post2, b2, t2, a2, n2),
        post1.book_ctr <= pre2.book_ctr,
    ensures
        b1.id < b2.id,
{
}

/// Rental-id monotonicity: as for books, rental ids strictly increase over
/// any run of operations and never repeat.
pub proof fn lemma_rental_ids_monotonic(
    pre1: StoreV,
    post1: StoreV,
    r1: RentalM,
    bk1: u64,
    u1: Seq<char>,
    d1: u64,
    n1: u64,
    pre2: StoreV,
    post2: StoreV,
    r2: RentalM,
    bk2: u64,
    u2: Seq<char>,
    d2: u64,
    n2: u64,
)
    requires
        rental_begun(pre1, post1, r1, bk1, u1, d1, n1),
        rental_begun(pre2, post2, r2, bk2, u2, d2, n2),
        post1.rental_ctr <= pre2.rental_ctr,
    ensures
        r1.id < r2.id,
{
}

/// An id above the book counter was never issued, so no stored book carries
/// it; by their contracts, `get_book`, `update_book` and `delete_book` on
/// such an id all fail `NotFound` and change nothing.
pub proof fn lemma_unissued_book_id_absent(v: StoreV, id: u64)
    requires
        wf_v(v),
        id > v.book_ctr,
    ensures
        !v.books.dom().contains(id),
{
    assert(v.books.dom().contains(id) ==> v.books[id].id == id);
}

/// An id above the rental counter was never issued, so no stored rental
/// carries it; by its contract, `return_book` on such an id fails `NotFound`
/// and changes nothing.
pub proof fn lemma_unissued_rental_id_absent(v: StoreV, rid: u64)
    requires
        wf_v(v),
        rid > v.rental_ctr,
    ensures
        !v.rentals.dom().contains(rid),
{
    assert(v.rentals.dom().contains(rid) ==> v.rentals[rid].id == rid);
}

/// A deleted book is gone: lookups and mutations under its id fail
/// `NotFound` from then on, until nothing, since ids are never reissued.
pub proof fn lemma_deleted_book_absent(pre: StoreV, post: StoreV, b: BookM, id: u64)
    requires
        book_deleted(pre, post, b, id),
    ensures
        !post.books.dom().contains(id),
{
}

/// The availability invariant: in every well-formed state, a book is
/// unavailable exactly when an open rental references it.  Every operation
/// requires and re-establishes `wf`, so this holds after each of them.
pub proof fn lemma_availability_invariant(v: StoreV, id: u64)
    requires
        wf_v(v),
        v.books.dom().contains(id),
    ensures
        v.books[id].available == false <==> exists|rid: u64| open_rental_for(v, rid, id),
{
}

/// At most one open rental references a book at any time.
pub proof fn lemma_single_open_rental(v: StoreV, r1: u64, r2: u64, book_id: u64)
    requires
        wf_v(v),
        open_rental_for(v, r1, book_id),
        open_rental_for(v, r2, book_id),
    ensures
        r1 == r2,
{
}

/// Double-loan rejection: right after a successful loan the book stands
/// unavailable, so a second `rent_book` without an intervening return fails
/// `BookUnavailable` and, by `rent_book`'s contract, leaves both tables
/// unchanged.
pub proof fn lemma_double_loan_rejected(
    pre: StoreV,
    post: StoreV,
    rn: RentalM,
    book_id: u64,
    user: Seq<char>,
    due: u64,
    now: u64,
)
    requires
        rental_begun(pre, post, rn, book_id, user, due, now),
    ensures
        post.books.dom().contains(book_id),
        !post.books[book_id].available,
{
}

/// Double-close rejection: right after a successful return the rental stands
/// closed with the time the call stamped, so a second `return_book` fails
/// `AlreadyReturned` and, by `return_book`'s contract, changes nothing — the
/// recorded closing time stays what the first call set.
pub proof fn lemma_double_return_rejected(
    pre: StoreV,
    post: StoreV,
    rn: RentalM,
    rid: u64,
    now: u64,
)
    requires
        rental_closed(pre, post, rn, rid, now),
    ensures
        post.rentals.dom().contains(rid),
        post.rentals[rid].returned_at == Some(now),
{
}

} // verus!
