use bookstore::handler::{
    finish, handle_event, start_with_id, EventBody, HandlerStep, ParseError, StoreError,
};

fn text(s: &[u8]) -> EventBody {
    EventBody::Text(s.to_vec())
}

fn persist(step: Result<HandlerStep, ParseError>) -> (bookstore::resource::Book, bookstore::record::StoreRecord) {
    match step.unwrap() {
        HandlerStep::Persist { book, record } => (book, record),
        HandlerStep::Reject(_) => panic!("expected a persist step"),
    }
}

#[test]
fn creates_book_with_status_201() {
    let body = text(b"{\"name\": \"Dune\", \"author\": \"Frank Herbert\"}");
    let (book, record) = persist(start_with_id(body, b"u-17".to_vec()));
    assert_eq!(book.id, Some(b"u-17".to_vec()));
    assert_eq!(book.name, b"Dune".to_vec());
    assert_eq!(book.author, b"Frank Herbert".to_vec());

    // The record submitted to the store carries the same three fields.
    assert_eq!(record.fields.len(), 3);
    assert_eq!(record.fields[0].key, b"id".to_vec());
    assert_eq!(record.fields[0].value, b"u-17".to_vec());
    assert_eq!(record.fields[1].key, b"name".to_vec());
    assert_eq!(record.fields[1].value, b"Dune".to_vec());
    assert_eq!(record.fields[2].key, b"author".to_vec());
    assert_eq!(record.fields[2].value, b"Frank Herbert".to_vec());

    let (response, note) = finish(&book, &Ok(()));
    assert_eq!(response.status, 201);
    assert_eq!(
        response.body,
        b"{\"id\":\"u-17\",\"name\":\"Dune\",\"author\":\"Frank Herbert\"}".to_vec()
    );
    assert_eq!(note, None);
}

#[test]
fn generates_a_36_byte_identifier() {
    let body = text(b"{\"name\":\"n\",\"author\":\"a\"}");
    let (book, _) = persist(handle_event(body));
    let id = book.id.unwrap();
    assert_eq!(id.len(), 36);
    assert!(id.iter().all(|b| b.is_ascii_hexdigit() || *b == b'-'));
}

#[test]
fn two_invocations_get_distinct_identifiers() {
    let one = persist(handle_event(text(b"{\"name\":\"n\",\"author\":\"a\"}"))).0;
    let two = persist(handle_event(text(b"{\"name\":\"n\",\"author\":\"a\"}"))).0;
    assert_ne!(one.id, two.id);
}

#[test]
fn supplied_identifier_is_overwritten() {
    let body = text(b"{\"id\":\"caller-chosen\",\"name\":\"n\",\"author\":\"a\"}");
    let (book, record) = persist(handle_event(body));
    let id = book.id.clone().unwrap();
    assert_ne!(id, b"caller-chosen".to_vec());
    assert_eq!(id.len(), 36);
    // The store never receives the caller-chosen identifier either.
    assert_eq!(record.fields[0].key, b"id".to_vec());
    assert_eq!(record.fields[0].value, id);
}

#[test]
fn rejects_absent_body() {
    match handle_event(EventBody::Empty).unwrap() {
        HandlerStep::Reject(response) => {
            assert_eq!(response.status, 400);
            assert_eq!(response.body, b"Empty body".to_vec());
        }
        HandlerStep::Persist { .. } => panic!("nothing may be persisted for an absent body"),
    }
}

#[test]
fn rejects_binary_and_empty_text_bodies() {
    for body in [EventBody::Binary(b"\x00\x01".to_vec()), text(b"")] {
        match handle_event(body).unwrap() {
            HandlerStep::Reject(response) => {
                assert_eq!(response.status, 400);
                assert_eq!(response.body, b"Empty body".to_vec());
            }
            HandlerStep::Persist { .. } => panic!("nothing may be persisted"),
        }
    }
}

#[test]
fn malformed_body_aborts_the_invocation() {
    assert!(matches!(start_with_id(text(b"not json"), b"u".to_vec()), Err(ParseError)));
    assert!(matches!(
        start_with_id(text(b"{\"name\":\"n\"}"), b"u".to_vec()),
        Err(ParseError)
    ));
}

#[test]
fn store_failure_still_answers_201_with_one_note() {
    let body = text(b"{\"name\":\"n\",\"author\":\"a\"}");
    let (book, _) = persist(start_with_id(body, b"u-9".to_vec()));
    let outcome = Err(StoreError { message: b"connection reset".to_vec() });
    let (response, note) = finish(&book, &outcome);
    assert_eq!(response.status, 201);
    assert_eq!(response.body, b"{\"id\":\"u-9\",\"name\":\"n\",\"author\":\"a\"}".to_vec());
    assert_eq!(
        note,
        Some(b"Cannot save book u-9, due to connection reset".to_vec())
    );
}
