use vstd::prelude::*;

verus! {

/// A catalog entry: one book that can be lent out.
///
/// `available` is a stored flag that is kept equal to "no open rental
/// references this book" by the operations in `store`.
#[derive(Clone, Debug, PartialEq)]
pub struct Book {
    pub id: u64,
    pub title: String,
    pub author: String,
    pub available: bool,
    pub created_at: u64,
    pub updated_at: Option<u64>,
}

/// One lending period of one book.  `returned_at == None` means the rental is
/// still open; once set, it is never changed again.
#[derive(Clone, Debug, PartialEq)]
pub struct Rental {
    pub id: u64,
    pub book_id: u64,
    pub user_id: String,
    pub rented_at: u64,
    pub due_date: u64,
    pub returned_at: Option<u64>,
}

/// The caller-supplied descriptive fields of a book.
#[derive(Clone, Debug, PartialEq)]
pub struct BookPayload {
    pub title: String,
    pub author: String,
}

/// Mathematical value of a `Book`: the same fields, with the strings as
/// character sequences.
pub ghost struct BookM {
    pub id: u64,
    pub title: Seq<char>,
    pub author: Seq<char>,
    pub available: bool,
    pub created_at: u64,
    pub updated_at: Option<u64>,
}

/// Mathematical value of a `Rental`.
pub ghost struct RentalM {
    pub id: u64,
    pub book_id: u64,
    pub user_id: Seq<char>,
    pub rented_at: u64,
    pub due_date: u64,
    pub returned_at: Option<u64>,
}

impl View for Book {
    type V = BookM;

    open spec fn view(&self) -> BookM {
        BookM {
            id: self.id,
            title: self.title@,
            author: self.author@,
            available: self.available,
            created_at: self.created_at,
            updated_at: self.updated_at,
        }
    }
}

impl View for Rental {
    type V = RentalM;

    open spec fn view(&self) -> RentalM {
        RentalM {
            id: self.id,
            book_id: self.book_id,
            user_id: self.user_id@,
            rented_at: self.rented_at,
            due_date: self.due_date,
            returned_at: self.returned_at,
        }
    }
}

/// The caller-recoverable business errors, plus the fatal storage error.
///
/// The message is data only; which variant comes back is pinned by the
/// contracts of the operations in `store`.
#[derive(Clone, Debug, PartialEq)]
pub enum Error {
    NotFound { msg: String },
    BookUnavailable { msg: String },
    AlreadyReturned { msg: String },
    StorageExhausted { msg: String },
}

} // verus!
