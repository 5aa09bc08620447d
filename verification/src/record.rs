//! The store record: the field-mapping form of a book, as written to the
//! key-value store.
//!
//! A record is a list of named string-valued fields. The mapping between a
//! book and its record is total and lossless over the three field names
//! `id`, `name` and `author`; reading a record back fails if a required
//! field is absent.

use vstd::prelude::*;

use crate::bytes::{bytes_eq, key_author, key_author_vec, key_id, key_id_vec, key_name,
    key_name_vec};
use crate::json::push_all;
use crate::resource::{Book, BookView};

verus! {

/// One field of a store record: a name and a string-valued attribute.
pub struct StoreField {
    pub key: Vec<u8>,
    pub value: Vec<u8>,
}

impl View for StoreField {
    type V = (Seq<u8>, Seq<u8>);

    open spec fn view(&self) -> (Seq<u8>, Seq<u8>) {
        (self.key@, self.value@)
    }
}

/// A store record, carried as its list of fields.
pub struct StoreRecord {
    pub fields: Vec<StoreField>,
}

impl View for StoreRecord {
    type V = Seq<(Seq<u8>, Seq<u8>)>;

    open spec fn view(&self) -> Seq<(Seq<u8>, Seq<u8>)> {
        self.fields@.map_values(|f: StoreField| f@)
    }
}

/// Value of the first field named `key` from index `i` on, if any.
pub open spec fn lookup_from(r: Seq<(Seq<u8>, Seq<u8>)>, key: Seq<u8>, i: int) -> Option<Seq<u8>>
    decreases r.len() - i,
{
    if 0 <= i < r.len() {
        if r[i].0 == key {
            Some(r[i].1)
        } else {
            lookup_from(r, key, i + 1)
        }
    } else {
        None
    }
}

/// Value of the first field named `key`, if any.
pub open spec fn lookup(r: Seq<(Seq<u8>, Seq<u8>)>, key: Seq<u8>) -> Option<Seq<u8>> {
    lookup_from(r, key, 0)
}

/// The record of a book whose identifier has been assigned: one field for
/// each of `id`, `name` and `author`, no more, no less.
pub open spec fn book_record(b: BookView) -> Seq<(Seq<u8>, Seq<u8>)>
    recommends
        b.id is Some,
{
    seq![(key_id(), b.id->0), (key_name(), b.name), (key_author(), b.author)]
}

/// Failure of reading a record back as a book: a required field is absent.
#[derive(Debug, PartialEq, Eq, Structural, Clone, Copy)]
pub enum MappingError {
    MissingId,
    MissingName,
    MissingAuthor,
}

/// The book a record describes, or the first of its required fields found
/// absent, in the order `id`, `name`, `author`.
pub open spec fn record_book(r: Seq<(Seq<u8>, Seq<u8>)>) -> Result<BookView, MappingError> {
    match lookup(r, key_id()) {
        None => Err(MappingError::MissingId),
        Some(id) => match lookup(r, key_name()) {
            None => Err(MappingError::MissingName),
            Some(name) => match lookup(r, key_author()) {
                None => Err(MappingError::MissingAuthor),
                Some(author) => Ok(BookView { id: Some(id), name, author }),
            },
        },
    }
}

/// A fresh copy of a byte string.
fn copy_bytes(src: &Vec<u8>) -> (r: Vec<u8>)
    ensures
        r@ == src@,
{
    let mut out: Vec<u8> = Vec::new();
    push_all(src, &mut out);
    proof {
        assert(out@ =~= src@);
    }
    out
}

impl StoreRecord {
    /// Value of the first field named `key`, if any.
    pub fn get(&self, key: &Vec<u8>) -> (r: Option<&Vec<u8>>)
        ensures
            r is None <==> lookup(self@, key@) is None,
            r matches Some(v) ==> lookup(self@, key@) == Some(v@),
    {
        let mut i: usize = 0;
        while i < self.fields.len()
            invariant
                i <= self.fields.len(),
                lookup(self@, key@) == lookup_from(self@, key@, i as int),
            decreases self.fields.len() - i,
        {
            if bytes_eq(&self.fields[i].key, key) {
                return Some(&self.fields[i].value);
            }
            i = i + 1;
        }
        None
    }
}

/// Maps a book, with its assigned identifier, to its store record.
pub fn book_to_record(b: &Book) -> (r: StoreRecord)
    requires
        b@.id is Some,
    ensures
        r@ == book_record(b@),
{
    let mut fields: Vec<StoreField> = Vec::new();
    fields.push(StoreField { key: key_id_vec(), value: copy_bytes(b.id.as_ref().unwrap()) });
    fields.push(StoreField { key: key_name_vec(), value: copy_bytes(&b.name) });
    fields.push(StoreField { key: key_author_vec(), value: copy_bytes(&b.author) });
    let r = StoreRecord { fields };
    proof {
        assert(r@ =~= book_record(b@));
    }
    r
}

/// Maps a store record back to the book it describes, or reports the first
/// required field found absent.
pub fn record_to_book(r: &StoreRecord) -> (res: Result<Book, MappingError>)
    ensures
        match record_book(r@) {
            Ok(b) => res matches Ok(rb) && rb@ == b,
            Err(e) => res matches Err(re) && re == e,
        },
{
    let id = match r.get(&key_id_vec()) {
        Some(v) => v,
        None => {
            return Err(MappingError::MissingId);
        },
    };
    let name = match r.get(&key_name_vec()) {
        Some(v) => v,
        None => {
            return Err(MappingError::MissingName);
        },
    };
    let author = match r.get(&key_author_vec()) {
        Some(v) => v,
        None => {
            return Err(MappingError::MissingAuthor);
        },
    };
    Ok(Book { id: Some(copy_bytes(id)), name: copy_bytes(name), author: copy_bytes(author) })
}

/// Law: mapping a book to its store record and reading the record back
/// yields the same book, field for field, for every book whose identifier
/// has been assigned.
pub proof fn lemma_record_round_trip(b: BookView)
    requires
        b.id is Some,
    ensures
        record_book(book_record(b)) == Ok::<BookView, MappingError>(b),
{
    let r = book_record(b);
    assert(key_id().len() == 2 && key_name().len() == 4 && key_author().len() == 6);
    assert(lookup_from(r, key_id(), 0) == Some(b.id->0));
    assert(lookup_from(r, key_name(), 0) == lookup_from(r, key_name(), 1));
    assert(lookup_from(r, key_name(), 1) == Some(b.name));
    assert(lookup_from(r, key_author(), 0) == lookup_from(r, key_author(), 1));
    assert(lookup_from(r, key_author(), 1) == lookup_from(r, key_author(), 2));
    assert(lookup_from(r, key_author(), 2) == Some(b.author));
}

} // verus!
