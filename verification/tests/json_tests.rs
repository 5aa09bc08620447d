use bookstore::json::{parse_book_x, to_json};
use bookstore::resource::Book;

fn parse(s: &[u8]) -> Option<Book> {
    parse_book_x(&s.to_vec())
}

#[test]
fn parses_name_and_author() {
    let b = parse(b"{\"name\":\"Dune\",\"author\":\"Frank Herbert\"}").unwrap();
    assert_eq!(b.id, None);
    assert_eq!(b.name, b"Dune".to_vec());
    assert_eq!(b.author, b"Frank Herbert".to_vec());
}

#[test]
fn parses_supplied_id() {
    let b = parse(b"{\"id\":\"abc\",\"name\":\"n\",\"author\":\"a\"}").unwrap();
    assert_eq!(b.id, Some(b"abc".to_vec()));
}

#[test]
fn parses_any_member_order_and_whitespace() {
    let b = parse(b" { \"author\" : \"a\" ,\n\t\"name\" : \"n\" } ").unwrap();
    assert_eq!(b.id, None);
    assert_eq!(b.name, b"n".to_vec());
    assert_eq!(b.author, b"a".to_vec());
}

#[test]
fn parses_simple_escapes() {
    let b = parse(b"{\"name\":\"a\\\"b\\\\c\\/d\\be\\ff\\ng\\rh\\ti\",\"author\":\"x\"}").unwrap();
    assert_eq!(b.name, b"a\"b\\c/d\x08e\x0Cf\ng\rh\ti".to_vec());
}

#[test]
fn parses_unicode_escapes() {
    let b = parse(b"{\"name\":\"\\u0041\\u00e9\\u20ac\",\"author\":\"x\"}").unwrap();
    // "A", e-acute, euro sign, in UTF-8.
    assert_eq!(b.name, vec![0x41, 0xC3, 0xA9, 0xE2, 0x82, 0xAC]);
}

#[test]
fn parses_surrogate_pair() {
    let b = parse(b"{\"name\":\"\\uD83D\\uDE00\",\"author\":\"x\"}").unwrap();
    assert_eq!(b.name, vec![0xF0, 0x9F, 0x98, 0x80]);
}

#[test]
fn parses_raw_utf8_content() {
    let b = parse("{\"name\":\"héllo\",\"author\":\"x\"}".as_bytes()).unwrap();
    assert_eq!(b.name, "héllo".as_bytes().to_vec());
}

#[test]
fn parses_escaped_key() {
    let b = parse(b"{\"nam\\u0065\":\"n\",\"author\":\"a\"}").unwrap();
    assert_eq!(b.name, b"n".to_vec());
}

#[test]
fn rejects_bodies_that_describe_no_book() {
    for bad in [
        &b""[..],
        b"   ",
        b"{}",
        b"null",
        b"[]",
        b"\"name\"",
        b"{\"name\":\"n\"}",
        b"{\"author\":\"a\"}",
        b"{\"id\":\"x\"}",
        b"{\"name\":\"n\",\"author\":\"a\"",
        b"{\"name\":\"n\",\"author\":\"a\"} x",
        b"{\"name\":\"n\",\"author\":\"a\",}",
        b"{\"name\":\"n\" \"author\":\"a\"}",
        b"{\"name\":\"n\",\"name\":\"m\",\"author\":\"a\"}",
        b"{\"name\":\"n\",\"author\":\"a\",\"extra\":\"e\"}",
        b"{\"name\":1,\"author\":\"a\"}",
        b"{\"name\":null,\"author\":\"a\"}",
        b"{name:\"n\",\"author\":\"a\"}",
        b"{\"name\":\"n,\"author\":\"a\"}",
        b"{\"name\":\"\\x\",\"author\":\"a\"}",
        b"{\"name\":\"\\uD83D\",\"author\":\"a\"}",
        b"{\"name\":\"\\uDE00\",\"author\":\"a\"}",
        b"{\"name\":\"\\u12\",\"author\":\"a\"}",
        b"{\"name\":\"\n\",\"author\":\"a\"}",
    ] {
        assert!(parse(bad).is_none(), "accepted: {:?}", String::from_utf8_lossy(bad));
    }
}

#[test]
fn accepts_empty_string_values() {
    let b = parse(b"{\"name\":\"\",\"author\":\"\"}").unwrap();
    assert_eq!(b.name, b"".to_vec());
    assert_eq!(b.author, b"".to_vec());
}

#[test]
fn serializes_compact_object() {
    let b = Book {
        id: Some(b"x1".to_vec()),
        name: b"Dune".to_vec(),
        author: b"Frank Herbert".to_vec(),
    };
    assert_eq!(
        to_json(&b),
        b"{\"id\":\"x1\",\"name\":\"Dune\",\"author\":\"Frank Herbert\"}".to_vec()
    );
}

#[test]
fn serializes_escapes() {
    let b = Book {
        id: Some(b"i".to_vec()),
        name: b"a\"b\\c\nd\x01".to_vec(),
        author: b"\r\t\x08\x0C".to_vec(),
    };
    assert_eq!(
        to_json(&b),
        b"{\"id\":\"i\",\"name\":\"a\\\"b\\\\c\\nd\\u0001\",\"author\":\"\\r\\t\\b\\f\"}".to_vec()
    );
}

#[test]
fn serialized_book_parses_back() {
    let b = Book {
        id: Some(b"the-id".to_vec()),
        name: "Dune \"Messiah\" – part\n2".as_bytes().to_vec(),
        author: b"F. Herbert \\ co".to_vec(),
    };
    let back = parse(&to_json(&b)).unwrap();
    assert_eq!(back.id, b.id);
    assert_eq!(back.name, b.name);
    assert_eq!(back.author, b.author);
}
