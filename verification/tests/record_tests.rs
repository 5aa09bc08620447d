use bookstore::record::{book_to_record, record_to_book, MappingError, StoreField, StoreRecord};
use bookstore::resource::Book;

fn field(key: &[u8], value: &[u8]) -> StoreField {
    StoreField { key: key.to_vec(), value: value.to_vec() }
}

#[test]
fn maps_book_to_three_fields() {
    let b = Book {
        id: Some(b"u-1".to_vec()),
        name: b"Dune".to_vec(),
        author: b"Frank Herbert".to_vec(),
    };
    let r = book_to_record(&b);
    assert_eq!(r.fields.len(), 3);
    assert_eq!(r.fields[0].key, b"id".to_vec());
    assert_eq!(r.fields[0].value, b"u-1".to_vec());
    assert_eq!(r.fields[1].key, b"name".to_vec());
    assert_eq!(r.fields[1].value, b"Dune".to_vec());
    assert_eq!(r.fields[2].key, b"author".to_vec());
    assert_eq!(r.fields[2].value, b"Frank Herbert".to_vec());
}

#[test]
fn round_trips_field_for_field() {
    let b = Book {
        id: Some(b"some-id".to_vec()),
        name: b"Name".to_vec(),
        author: b"Author".to_vec(),
    };
    let back = record_to_book(&book_to_record(&b)).unwrap();
    assert_eq!(back.id, b.id);
    assert_eq!(back.name, b.name);
    assert_eq!(back.author, b.author);
}

#[test]
fn reads_handmade_record() {
    let r = StoreRecord {
        fields: vec![field(b"author", b"a"), field(b"name", b"n"), field(b"id", b"i")],
    };
    let b = record_to_book(&r).unwrap();
    assert_eq!(b.id, Some(b"i".to_vec()));
    assert_eq!(b.name, b"n".to_vec());
    assert_eq!(b.author, b"a".to_vec());
}

#[test]
fn first_field_wins_on_a_repeated_name() {
    let r = StoreRecord {
        fields: vec![
            field(b"id", b"first"),
            field(b"id", b"second"),
            field(b"name", b"n"),
            field(b"author", b"a"),
        ],
    };
    assert_eq!(record_to_book(&r).unwrap().id, Some(b"first".to_vec()));
}

#[test]
fn get_finds_a_field_by_name() {
    let r = StoreRecord { fields: vec![field(b"name", b"n"), field(b"author", b"a")] };
    assert_eq!(r.get(&b"author".to_vec()), Some(&b"a".to_vec()));
    assert_eq!(r.get(&b"id".to_vec()), None);
}

#[test]
fn the_store_collection_is_book() {
    assert_eq!(bookstore::bytes::table_book_vec(), b"book".to_vec());
}

#[test]
fn reports_the_first_absent_field() {
    let empty = StoreRecord { fields: vec![] };
    assert_eq!(record_to_book(&empty), Err(MappingError::MissingId));

    let only_id = StoreRecord { fields: vec![field(b"id", b"i")] };
    assert_eq!(record_to_book(&only_id), Err(MappingError::MissingName));

    let no_author = StoreRecord { fields: vec![field(b"name", b"n"), field(b"id", b"i")] };
    assert_eq!(record_to_book(&no_author), Err(MappingError::MissingAuthor));
}
