//! The domain entity: a book, as exchanged with callers and persisted.

use vstd::prelude::*;

verus! {

/// Mathematical model of a book: its fields as byte strings.
pub struct BookView {
    pub id: Option<Seq<u8>>,
    pub name: Seq<u8>,
    pub author: Seq<u8>,
}

/// A book as handled at run time. `id` is optional on input and always
/// populated on output; `name` and `author` are required.
#[derive(Debug, PartialEq, Eq)]
pub struct Book {
    pub id: Option<Vec<u8>>,
    pub name: Vec<u8>,
    pub author: Vec<u8>,
}

impl View for Book {
    type V = BookView;

    open spec fn view(&self) -> BookView {
        BookView {
            id: match self.id {
                Some(v) => Some(v@),
                None => None,
            },
            name: self.name@,
            author: self.author@,
        }
    }
}

/// The model of a book after a fresh identifier has been assigned to it:
/// any caller-supplied identifier is discarded.
pub open spec fn assigned(b: BookView, fresh: Seq<u8>) -> BookView {
    BookView { id: Some(fresh), name: b.name, author: b.author }
}

impl Book {
    /// Overwrites the identifier with a freshly generated one,
    /// unconditionally: whatever the caller supplied is discarded.
    pub fn assign_id(&mut self, fresh: Vec<u8>)
        ensures
            final(self)@ == assigned(old(self)@, fresh@),
    {
        self.id = Some(fresh);
    }
}

} // verus!
