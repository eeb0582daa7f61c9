//! The serialized form of the two record kinds.
//!
//! Each entity table stores one record per key as a byte string.  The layout
//! is fixed-width except for the text fields: a book is
//! `id (8) | created_at (8) | available (1) | updated_at (9) | title length (8)
//! | title bytes | author bytes`, a rental is
//! `id (8) | book_id (8) | rented_at (8) | due_date (8) | returned_at (9)
//! | user bytes`, with all integers little-endian and an optional timestamp as
//! one tag byte followed by eight payload bytes (zero when absent).  Text is
//! UTF-8.  Every record kind has a fixed ceiling on its encoded size,
//! `MAX_RECORD_BYTES`; a record over the ceiling is never written.

use vstd::prelude::*;
use vstd::bytes::{
    lemma_auto_spec_u64_to_from_le_bytes, spec_u64_to_le_bytes, u64_from_le_bytes, u64_to_le_bytes,
};
use vstd::slice::{slice_subrange, slice_to_vec};
use crate::model::{Book, BookM, Rental, RentalM};

verus! {

/// Ceiling on the encoded size of one record, in bytes.
pub const MAX_RECORD_BYTES: usize = 512;

/// The UTF-8 encoding of a sequence of characters.  What the byte sequence is
/// on given characters is left unstated; the trusted items below say only that
/// `String::into_bytes` computes it and that `String::from_utf8` inverts it.
pub uninterp spec fn utf8_of(s: Seq<char>) -> Seq<u8>;

/// Relies on `String::into_bytes`: it returns the UTF-8 encoding of the
/// string's characters, a function of the characters alone.
#[verifier::external_body]
pub fn utf8_bytes(s: String) -> (r: Vec<u8>)
    ensures
        r@ == utf8_of(s@),
{
    s.into_bytes()
}

/// Relies on `String::from_utf8`: it succeeds exactly when the bytes are valid
/// UTF-8, that is, exactly when they are the encoding of some character
/// sequence, and then returns that sequence; UTF-8 is an injective code, so
/// the sequence is unique.
#[verifier::external_body]
pub fn utf8_string(v: Vec<u8>) -> (r: Option<String>)
    ensures
        match r {
            Some(s) => v@ == utf8_of(s@) && (forall|t: Seq<char>| utf8_of(t) == v@ ==> t == s@),
            None => forall|t: Seq<char>| utf8_of(t) != v@,
        },
{
    match String::from_utf8(v) {
        Ok(s) => Some(s),
        Err(_) => None,
    }
}

/// One optional timestamp, as one tag byte and eight payload bytes.
pub open spec fn spec_enc_opt_u64(o: Option<u64>) -> Seq<u8> {
    match o {
        None => seq![0u8] + spec_u64_to_le_bytes(0),
        Some(t) => seq![1u8] + spec_u64_to_le_bytes(t),
    }
}

/// The encoded form of a book.
pub open spec fn spec_enc_book(b: BookM) -> Seq<u8> {
    spec_u64_to_le_bytes(b.id) + spec_u64_to_le_bytes(b.created_at) + seq![
        (if b.available {
            1u8
        } else {
            0u8
        }),
    ] + spec_enc_opt_u64(b.updated_at) + spec_u64_to_le_bytes(utf8_of(b.title).len() as u64)
        + utf8_of(b.title) + utf8_of(b.author)
}

/// The encoded length of a book; only the text fields are variable.
pub open spec fn enc_book_len(b: BookM) -> int {
    34 + utf8_of(b.title).len() as int + utf8_of(b.author).len() as int
}

/// A book within the encoded-size ceiling.
pub open spec fn book_fits(b: BookM) -> bool {
    enc_book_len(b) <= MAX_RECORD_BYTES
}

/// The encoded form of a rental.
pub open spec fn spec_enc_rental(r: RentalM) -> Seq<u8> {
    spec_u64_to_le_bytes(r.id) + spec_u64_to_le_bytes(r.book_id) + spec_u64_to_le_bytes(
        r.rented_at,
    ) + spec_u64_to_le_bytes(r.due_date) + spec_enc_opt_u64(r.returned_at) + utf8_of(r.user_id)
}

/// The encoded length of a rental.
pub open spec fn enc_rental_len(r: RentalM) -> int {
    41 + utf8_of(r.user_id).len() as int
}

/// A rental within the encoded-size ceiling.
pub open spec fn rental_fits(r: RentalM) -> bool {
    enc_rental_len(r) <= MAX_RECORD_BYTES
}

fn push_opt_u64(out: &mut Vec<u8>, o: Option<u64>)
    ensures
        final(out)@ == old(out)@ + spec_enc_opt_u64(o),
{
    match o {
        None => {
            out.push(0u8);
            let mut z = u64_to_le_bytes(0u64);
            out.append(&mut z);
        },
        Some(t) => {
            out.push(1u8);
            let mut z = u64_to_le_bytes(t);
            out.append(&mut z);
        },
    }
    proof {
        assert(out@ =~= old(out)@ + spec_enc_opt_u64(o));
    }
}

/// Serialize a book.  The result is exactly `spec_enc_book` of its value.
pub fn encode_book(b: &Book) -> (r: Vec<u8>)
    ensures
        r@ == spec_enc_book(b@),
        r@.len() == enc_book_len(b@),
{
    proof {
        lemma_auto_spec_u64_to_from_le_bytes();
    }
    let mut out: Vec<u8> = u64_to_le_bytes(b.id);
    let mut created = u64_to_le_bytes(b.created_at);
    out.append(&mut created);
    out.push(if b.available { 1u8 } else { 0u8 });
    push_opt_u64(&mut out, b.updated_at);
    let mut tb = utf8_bytes(b.title.clone());
    let mut tl = u64_to_le_bytes(tb.len() as u64);
    out.append(&mut tl);
    out.append(&mut tb);
    let mut ab = utf8_bytes(b.author.clone());
    out.append(&mut ab);
    proof {
        assert(out@ =~= spec_enc_book(b@));
    }
    out
}

/// Every subrange of an encoded book, named by its offsets.
proof fn lemma_book_pieces(v: Seq<u8>, bm: BookM)
    requires
        v == spec_enc_book(bm),
    ensures
        v.len() == enc_book_len(bm),
        v.subrange(0, 8) == spec_u64_to_le_bytes(bm.id),
        v.subrange(8, 16) == spec_u64_to_le_bytes(bm.created_at),
        v[16] == (if bm.available {
            1u8
        } else {
            0u8
        }),
        v[17] == (if bm.updated_at is Some {
            1u8
        } else {
            0u8
        }),
        v.subrange(18, 26) == spec_u64_to_le_bytes(
            match bm.updated_at {
                Some(t) => t,
                None => 0u64,
            },
        ),
        v.subrange(26, 34) == spec_u64_to_le_bytes(utf8_of(bm.title).len() as u64),
        v.subrange(34, 34 + utf8_of(bm.title).len() as int) == utf8_of(bm.title),
        v.subrange(34 + utf8_of(bm.title).len() as int, v.len() as int) == utf8_of(bm.author),
{
    lemma_auto_spec_u64_to_from_le_bytes();
    let tl = utf8_of(bm.title).len() as int;
    assert(v.subrange(0, 8) =~= spec_u64_to_le_bytes(bm.id));
    assert(v.subrange(8, 16) =~= spec_u64_to_le_bytes(bm.created_at));
    assert(v.subrange(18, 26) =~= spec_u64_to_le_bytes(
        match bm.updated_at {
            Some(t) => t,
            None => 0u64,
        },
    ));
    assert(v.subrange(26, 34) =~= spec_u64_to_le_bytes(utf8_of(bm.title).len() as u64));
    assert(v.subrange(34, 34 + tl) =~= utf8_of(bm.title));
    assert(v.subrange(34 + tl, v.len() as int) =~= utf8_of(bm.author));
}

/// Parse a book.  Exactly the encodings of books within the size ceiling are
/// accepted, and parsing inverts `encode_book`.
pub fn decode_book(v: &Vec<u8>) -> (r: Option<Book>)
    ensures
        r matches Some(bk) ==> v@ == spec_enc_book(bk@) && book_fits(bk@),
        forall|bm: BookM|
            book_fits(bm) && v@ == spec_enc_book(bm) ==> (r matches Some(bk) && bk@ == bm),
{
    proof {
        lemma_auto_spec_u64_to_from_le_bytes();
    }
    let n = v.len();
    if n < 34 || n > MAX_RECORD_BYTES {
        proof {
            assert forall|bm: BookM| !(book_fits(bm) && v@ == spec_enc_book(bm)) by {
                if book_fits(bm) && v@ == spec_enc_book(bm) {
                    lemma_book_pieces(v@, bm);
                }
            }
        }
        return None;
    }
    let s = v.as_slice();
    let id = u64_from_le_bytes(slice_subrange(s, 0, 8));
    let created_at = u64_from_le_bytes(slice_subrange(s, 8, 16));
    let avail_b = s[16];
    let tag = s[17];
    let upd = u64_from_le_bytes(slice_subrange(s, 18, 26));
    let tl64 = u64_from_le_bytes(slice_subrange(s, 26, 34));
    if !(tl64 <= (n - 34) as u64) || !(avail_b == 0 || avail_b == 1) || !(tag == 0 || tag == 1) || (
    tag == 0 && upd != 0) {
        proof {
            assert forall|bm: BookM| !(book_fits(bm) && v@ == spec_enc_book(bm)) by {
                if book_fits(bm) && v@ == spec_enc_book(bm) {
                    lemma_book_pieces(v@, bm);
                    assert(tl64 == utf8_of(bm.title).len());
                }
            }
        }
        return None;
    }
    let tl = tl64 as usize;
    let title_b = slice_to_vec(slice_subrange(s, 34, 34 + tl));
    let author_b = slice_to_vec(slice_subrange(s, 34 + tl, n));
    let available = avail_b == 1;
    let updated_at = if tag == 1 {
        Some(upd)
    } else {
        None
    };
    let title_o = utf8_string(title_b);
    let author_o = utf8_string(author_b);
    if title_o.is_none() || author_o.is_none() {
        proof {
            assert forall|bm: BookM| !(book_fits(bm) && v@ == spec_enc_book(bm)) by {
                if book_fits(bm) && v@ == spec_enc_book(bm) {
                    lemma_book_pieces(v@, bm);
                    assert(tl == utf8_of(bm.title).len());
                }
            }
        }
        return None;
    }
    let title = title_o.unwrap();
    let author = author_o.unwrap();
    let bk = Book { id, title, author, available, created_at, updated_at };
    proof {
        assert(v@ =~= v@.subrange(0, 8) + v@.subrange(8, 16) + seq![v@[16]] + (seq![v@[17]]
            + v@.subrange(18, 26)) + v@.subrange(26, 34) + v@.subrange(34, 34 + tl as int)
            + v@.subrange(34 + tl as int, n as int));
        assert(v@ == spec_enc_book(bk@));
        assert forall|bm: BookM| book_fits(bm) && v@ == spec_enc_book(bm) implies bk@ == bm by {
            lemma_book_pieces(v@, bm);
            assert(tl == utf8_of(bm.title).len());
            assert(bm.title == bk.title@);
            assert(bm.author == bk.author@);
        }
    }
    Some(bk)
}

/// Serialize a rental.  The result is exactly `spec_enc_rental` of its value.
pub fn encode_rental(r: &Rental) -> (out: Vec<u8>)
    ensures
        out@ == spec_enc_rental(r@),
        out@.len() == enc_rental_len(r@),
{
    proof {
        lemma_auto_spec_u64_to_from_le_bytes();
    }
    let mut out: Vec<u8> = u64_to_le_bytes(r.id);
    let mut bid = u64_to_le_bytes(r.book_id);
    out.append(&mut bid);
    let mut ra = u64_to_le_bytes(r.rented_at);
    out.append(&mut ra);
    let mut dd = u64_to_le_bytes(r.due_date);
    out.append(&mut dd);
    push_opt_u64(&mut out, r.returned_at);
    let mut ub = utf8_bytes(r.user_id.clone());
    out.append(&mut ub);
    proof {
        assert(out@ =~= spec_enc_rental(r@));
    }
    out
}

/// Every subrange of an encoded rental, named by its offsets.
proof fn lemma_rental_pieces(v: Seq<u8>, rm: RentalM)
    requires
        v == spec_enc_rental(rm),
    ensures
        v.len() == enc_rental_len(rm),
        v.subrange(0, 8) == spec_u64_to_le_bytes(rm.id),
        v.subrange(8, 16) == spec_u64_to_le_bytes(rm.book_id),
        v.subrange(16, 24) == spec_u64_to_le_bytes(rm.rented_at),
        v.subrange(24, 32) == spec_u64_to_le_bytes(rm.due_date),
        v[32] == (if rm.returned_at is Some {
            1u8
        } else {
            0u8
        }),
        v.subrange(33, 41) == spec_u64_to_le_bytes(
            match rm.returned_at {
                Some(t) => t,
                None => 0u64,
            },
        ),
        v.subrange(41, v.len() as int) == utf8_of(rm.user_id),
{
    lemma_auto_spec_u64_to_from_le_bytes();
    assert(v.subrange(0, 8) =~= spec_u64_to_le_bytes(rm.id));
    assert(v.subrange(8, 16) =~= spec_u64_to_le_bytes(rm.book_id));
    assert(v.subrange(16, 24) =~= spec_u64_to_le_bytes(rm.rented_at));
    assert(v.subrange(24, 32) =~= spec_u64_to_le_bytes(rm.due_date));
    assert(v.subrange(33, 41) =~= spec_u64_to_le_bytes(
        match rm.returned_at {
            Some(t) => t,
            None => 0u64,
        },
    ));
    assert(v.subrange(41, v.len() as int) =~= utf8_of(rm.user_id));
}

/// Parse a rental.  Exactly the encodings of rentals within the size ceiling
/// are accepted, and parsing inverts `encode_rental`.
pub fn decode_rental(v: &Vec<u8>) -> (r: Option<Rental>)
    ensures
        r matches Some(rn) ==> v@ == spec_enc_rental(rn@) && rental_fits(rn@),
        forall|rm: RentalM|
            rental_fits(rm) && v@ == spec_enc_rental(rm) ==> (r matches Some(rn) && rn@ == rm),
{
    proof {
        lemma_auto_spec_u64_to_from_le_bytes();
    }
    let n = v.len();
    if n < 41 || n > MAX_RECORD_BYTES {
        proof {
            assert forall|rm: RentalM| !(rental_fits(rm) && v@ == spec_enc_rental(rm)) by {
                if rental_fits(rm) && v@ == spec_enc_rental(rm) {
                    lemma_rental_pieces(v@, rm);
                }
            }
        }
        return None;
    }
    let s = v.as_slice();
    let id = u64_from_le_bytes(slice_subrange(s, 0, 8));
    let book_id = u64_from_le_bytes(slice_subrange(s, 8, 16));
    let rented_at = u64_from_le_bytes(slice_subrange(s, 16, 24));
    let due_date = u64_from_le_bytes(slice_subrange(s, 24, 32));
    let tag = s[32];
    let ret = u64_from_le_bytes(slice_subrange(s, 33, 41));
    if !(tag == 0 || tag == 1) || (tag == 0 && ret != 0) {
        proof {
            assert forall|rm: RentalM| !(rental_fits(rm) && v@ == spec_enc_rental(rm)) by {
                if rental_fits(rm) && v@ == spec_enc_rental(rm) {
                    lemma_rental_pieces(v@, rm);
                }
            }
        }
        return None;
    }
    let user_b = slice_to_vec(slice_subrange(s, 41, n));
    let returned_at = if tag == 1 {
        Some(ret)
    } else {
        None
    };
    let user_o = utf8_string(user_b);
    if user_o.is_none() {
        proof {
            assert forall|rm: RentalM| !(rental_fits(rm) && v@ == spec_enc_rental(rm)) by {
                if rental_fits(rm) && v@ == spec_enc_rental(rm) {
                    lemma_rental_pieces(v@, rm);
                }
            }
        }
        return None;
    }
    let user_id = user_o.unwrap();
    let rn = Rental { id, book_id, user_id, rented_at, due_date, returned_at };
    proof {
        assert(v@ =~= v@.subrange(0, 8) + v@.subrange(8, 16) + v@.subrange(16, 24) + v@.subrange(
            24,
            32,
        ) + (seq![v@[32]] + v@.subrange(33, 41)) + v@.subrange(41, n as int));
        assert(v@ == spec_enc_rental(rn@));
        assert forall|rm: RentalM| rental_fits(rm) && v@ == spec_enc_rental(rm) implies rn@ == rm by {
            lemma_rental_pieces(v@, rm);
            assert(rm.user_id == rn.user_id@);
        }
    }
    Some(rn)
}

} // verus!
