//! The resource handler: validation, identifier assignment, record
//! construction and response shaping for one invocation.
//!
//! The store write itself suspends the invocation and is performed by the
//! surrounding binary: `handle_event` decides everything up to that write,
//! and `finish` decides everything after it. The contracts pin both
//! decisions for every input, so the swallow-and-log treatment of a failed
//! write is stated, not accidental.

use vstd::prelude::*;

use crate::json::{json_of_book, parse_book, parse_book_x, push_all, to_json};
use crate::record::{book_record, book_to_record, StoreRecord};
use crate::resource::{assigned, Book, BookView};

verus! {

/// The body of one inbound HTTP-shaped event: textual, binary, or absent.
pub enum EventBody {
    Text(Vec<u8>),
    Binary(Vec<u8>),
    Empty,
}

/// An event body the handler accepts: textual and non-empty.
pub open spec fn accepted_body(body: EventBody) -> bool {
    body matches EventBody::Text(t) && t@.len() > 0
}

/// Model of an outbound response.
pub struct ResponseView {
    pub status: int,
    pub body: Seq<u8>,
}

/// An outbound response: a status code and a body.
pub struct Response {
    pub status: u16,
    pub body: Vec<u8>,
}

impl View for Response {
    type V = ResponseView;

    open spec fn view(&self) -> ResponseView {
        ResponseView { status: self.status as int, body: self.body@ }
    }
}

/// The fixed body of a rejection: `Empty body`.
pub open spec fn empty_body_text() -> Seq<u8> {
    seq![
        'E' as u8,
        'm' as u8,
        'p' as u8,
        't' as u8,
        'y' as u8,
        ' ' as u8,
        'b' as u8,
        'o' as u8,
        'd' as u8,
        'y' as u8,
    ]
}

/// The rejection of a body that is not non-empty text: status 400.
pub open spec fn reject_response() -> ResponseView {
    ResponseView { status: 400, body: empty_body_text() }
}

/// A non-empty textual body that does not describe a book: a fatal
/// condition for the invocation, not answered with a response of its own.
#[derive(Debug, PartialEq, Eq, Structural, Clone, Copy)]
pub struct ParseError;

/// A failed store write, carrying the underlying cause's description.
pub struct StoreError {
    pub message: Vec<u8>,
}

/// What one invocation must do next, once the body has been examined:
/// answer a rejection at once, or persist a record and then answer with
/// the enriched book.
pub enum HandlerStep {
    Reject(Response),
    Persist { book: Book, record: StoreRecord },
}

/// Shape of one byte of a rendered identifier: a lowercase hexadecimal
/// digit or a hyphen.
pub open spec fn is_uuid_byte(b: u8) -> bool {
    48 <= b <= 57 || 97 <= b <= 102 || b == 45
}

/// Relies on `uuid::Uuid::new_v4` and its `Display` rendering: a fresh
/// random version-4 identifier in hyphenated form, 36 ASCII bytes of
/// lowercase hexadecimal digits and hyphens. Nothing is assumed about
/// which identifier comes back: the result is random.
#[verifier::external_body]
fn generate_id() -> (r: Vec<u8>)
    ensures
        r@.len() == 36,
        forall|k: int| 0 <= k < 36 ==> is_uuid_byte(r@[k]),
{
    uuid::Uuid::new_v4().to_string().into_bytes()
}

fn reject_response_x() -> (r: Response)
    ensures
        r@ == reject_response(),
{
    let mut body: Vec<u8> = Vec::new();
    body.push('E' as u8);
    body.push('m' as u8);
    body.push('p' as u8);
    body.push('t' as u8);
    body.push('y' as u8);
    body.push(' ' as u8);
    body.push('b' as u8);
    body.push('o' as u8);
    body.push('d' as u8);
    body.push('y' as u8);
    proof {
        assert(body@ =~= empty_body_text());
    }
    Response { status: 400, body }
}

/// Examines one inbound body, with the identifier to assign on success.
///
/// A body that is not non-empty text is rejected with status 400 and the
/// fixed explanation, and nothing is persisted. A valid book body yields
/// the book enriched with `fresh` — any supplied identifier is discarded —
/// and the exact record the store must receive. A non-empty text body that
/// does not describe a book aborts the invocation.
pub fn start_with_id(body: EventBody, fresh: Vec<u8>) -> (r: Result<HandlerStep, ParseError>)
    ensures
        !accepted_body(body) ==> (r matches Ok(s) && s matches HandlerStep::Reject(resp) && resp@
            == reject_response()),
        accepted_body(body) ==> (match body {
            EventBody::Text(t) => match parse_book(t@) {
                Some(b) => r matches Ok(s) && s matches HandlerStep::Persist { book, record }
                    && book@ == assigned(b, fresh@) && record@ == book_record(assigned(b, fresh@)),
                None => r is Err,
            },
            _ => true,
        }),
{
    match body {
        EventBody::Text(t) => {
            if t.len() == 0 {
                Ok(HandlerStep::Reject(reject_response_x()))
            } else {
                match parse_book_x(&t) {
                    Some(book) => {
                        let mut book = book;
                        book.assign_id(fresh);
                        let record = book_to_record(&book);
                        Ok(HandlerStep::Persist { book, record })
                    },
                    None => Err(ParseError),
                }
            }
        },
        _ => Ok(HandlerStep::Reject(reject_response_x())),
    }
}

/// Handles one inbound event up to the store write, generating and
/// assigning a fresh identifier. The identifier is random; everything
/// stated here holds of every identifier the generator can return.
pub fn handle_event(body: EventBody) -> (r: Result<HandlerStep, ParseError>)
    ensures
        !accepted_body(body) ==> (r matches Ok(s) && s matches HandlerStep::Reject(resp) && resp@
            == reject_response()),
        accepted_body(body) ==> (match body {
            EventBody::Text(t) => match parse_book(t@) {
                Some(b) => r matches Ok(s) && s matches HandlerStep::Persist { book, record }
                    && book@.id matches Some(g) && g.len() == 36 && (forall|k: int|
                    0 <= k < 36 ==> is_uuid_byte(g[k])) && book@ == assigned(b, g) && record@
                    == book_record(book@),
                None => r is Err,
            },
            _ => true,
        }),
{
    let fresh = generate_id();
    start_with_id(body, fresh)
}

/// The prefix of the observability line for a failed write.
pub open spec fn log_prefix() -> Seq<u8> {
    seq![
        'C' as u8,
        'a' as u8,
        'n' as u8,
        'n' as u8,
        'o' as u8,
        't' as u8,
        ' ' as u8,
        's' as u8,
        'a' as u8,
        'v' as u8,
        'e' as u8,
        ' ' as u8,
        'b' as u8,
        'o' as u8,
        'o' as u8,
        'k' as u8,
        ' ' as u8,
    ]
}

/// The middle of the observability line for a failed write.
pub open spec fn log_mid() -> Seq<u8> {
    seq![',' as u8, ' ' as u8, 'd' as u8, 'u' as u8, 'e' as u8, ' ' as u8, 't' as u8, 'o' as u8, ' ' as u8]
}

/// The observability line for a failed write of the book `id`:
/// `Cannot save book <id>, due to <cause>`.
pub open spec fn log_line(id: Seq<u8>, cause: Seq<u8>) -> Seq<u8> {
    log_prefix() + id + log_mid() + cause
}

fn log_line_x(id: &Vec<u8>, cause: &Vec<u8>) -> (r: Vec<u8>)
    ensures
        r@ == log_line(id@, cause@),
{
    let mut out: Vec<u8> = Vec::new();
    out.push('C' as u8);
    out.push('a' as u8);
    out.push('n' as u8);
    out.push('n' as u8);
    out.push('o' as u8);
    out.push('t' as u8);
    out.push(' ' as u8);
    out.push('s' as u8);
    out.push('a' as u8);
    out.push('v' as u8);
    out.push('e' as u8);
    out.push(' ' as u8);
    out.push('b' as u8);
    out.push('o' as u8);
    out.push('o' as u8);
    out.push('k' as u8);
    out.push(' ' as u8);
    push_all(id, &mut out);
    out.push(',' as u8);
    out.push(' ' as u8);
    out.push('d' as u8);
    out.push('u' as u8);
    out.push('e' as u8);
    out.push(' ' as u8);
    out.push('t' as u8);
    out.push('o' as u8);
    out.push(' ' as u8);
    push_all(cause, &mut out);
    proof {
        assert(out@ =~= log_line(id@, cause@));
    }
    out
}

/// The success response for a created book: status 201, the book rendered
/// as JSON.
pub open spec fn success_response(b: BookView) -> ResponseView
    recommends
        b.id is Some,
{
    ResponseView { status: 201, body: json_of_book(b) }
}

/// Shapes the success response once the store write has been attempted.
///
/// Whatever the write's outcome, the response is 201 with the enriched
/// book as its body: a failure is recorded as exactly one observability
/// line and deliberately not surfaced to the caller. On success no line is
/// produced.
pub fn finish(book: &Book, outcome: &Result<(), StoreError>) -> (r: (Response, Option<Vec<u8>>))
    requires
        book@.id is Some,
    ensures
        r.0@ == success_response(book@),
        outcome is Ok ==> r.1 is None,
        outcome matches Err(e) ==> r.1 matches Some(m) && m@ == log_line(
            book@.id->0,
            e.message@,
        ),
{
    let body = to_json(book);
    let note = match outcome {
        Ok(_) => None,
        Err(e) => Some(log_line_x(book.id.as_ref().unwrap(), &e.message)),
    };
    (Response { status: 201, body }, note)
}

/// Law: for every valid body and every assigned identifier, creation keeps
/// the parsed name and author and carries exactly the fresh identifier,
/// which is present and non-empty; `finish` then answers 201 with that
/// book rendered as the body, and the body reparses to exactly the
/// created book.
pub proof fn lemma_valid_input_created(s: Seq<u8>, fresh: Seq<u8>)
    requires
        parse_book(s) is Some,
        fresh.len() > 0,
    ensures
        ({
            let created = assigned(parse_book(s)->0, fresh);
            &&& created.id is Some
            &&& created.id->0 == fresh
            &&& created.id->0.len() > 0
            &&& created.name == parse_book(s)->0.name
            &&& created.author == parse_book(s)->0.author
            &&& success_response(created).status == 201
            &&& parse_book(success_response(created).body) == Some(created)
        }),
{
    crate::json::lemma_json_round_trip(assigned(parse_book(s)->0, fresh));
}

/// Law: a caller-supplied identifier is never kept. Whenever the supplied
/// value differs from the freshly generated one, the created book's
/// identifier differs from the supplied value; a supplied value equal to
/// the fresh identifier itself is the one input this cannot exclude.
pub proof fn lemma_supplied_id_overwritten(s: Seq<u8>, fresh: Seq<u8>, supplied: Seq<u8>)
    requires
        parse_book(s) matches Some(b) && b.id == Some(supplied),
        supplied != fresh,
    ensures
        assigned(parse_book(s)->0, fresh).id == Some(fresh),
        assigned(parse_book(s)->0, fresh).id != Some(supplied),
{
}

} // verus!
