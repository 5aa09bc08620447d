//! The JSON wire format of a book.
//!
//! The accepted body is a JSON object whose members are among `id`, `name`
//! and `author`, each at most once, each with a string value; `name` and
//! `author` are required, `id` is optional. String values support the
//! standard JSON escapes, including `\uXXXX` with surrogate pairs. Any
//! other body — another top-level value, a non-string member value, an
//! unknown or repeated member name — does not describe a book and is
//! rejected.
//!
//! The specification functions below are the grammar: a deterministic
//! recursive descent over the body's bytes. The executable parser and
//! serializer are proved equal to them.

use vstd::prelude::*;

use crate::bytes::{
    hex_val, hex_val_x, is_ws, key_author, key_author_vec, key_id, key_id_vec, key_name,
    key_name_vec, utf8_enc, utf8_push, ws,
};
use crate::resource::{Book, BookView};

verus! {

/// Index of the first non-whitespace byte at or after `i`.
pub open spec fn skip_ws(s: Seq<u8>, i: int) -> int
    decreases s.len() - i,
{
    if 0 <= i < s.len() && is_ws(s[i]) {
        skip_ws(s, i + 1)
    } else {
        i
    }
}

/// Value of the four hexadecimal digits at `i`, as in a `\uXXXX` escape.
pub open spec fn parse_hex4(s: Seq<u8>, i: int) -> Option<int> {
    if 0 <= i && i + 4 <= s.len() {
        match (hex_val(s[i]), hex_val(s[i + 1]), hex_val(s[i + 2]), hex_val(s[i + 3])) {
            (Some(a), Some(b), Some(c), Some(d)) => Some(
                a * 0x1000 + b * 0x100 + c * 0x10 + d,
            ),
            _ => None,
        }
    } else {
        None
    }
}

/// String contents from `i` (just past the opening quote) to the closing
/// quote: `acc` extended with each unescaped byte, and the index just past
/// the closing quote.
pub open spec fn parse_chars(s: Seq<u8>, i: int, acc: Seq<u8>) -> Option<(Seq<u8>, int)>
    decreases s.len() - i,
{
    if i < 0 || i >= s.len() {
        None
    } else if s[i] == 34 {
        Some((acc, i + 1))
    } else if s[i] == 92 {
        if i + 1 >= s.len() {
            None
        } else {
            let e = s[i + 1];
            if e == 34 {
                parse_chars(s, i + 2, acc.push(34))
            } else if e == 92 {
                parse_chars(s, i + 2, acc.push(92))
            } else if e == 47 {
                parse_chars(s, i + 2, acc.push(47))
            } else if e == 98 {
                parse_chars(s, i + 2, acc.push(8))
            } else if e == 102 {
                parse_chars(s, i + 2, acc.push(12))
            } else if e == 110 {
                parse_chars(s, i + 2, acc.push(10))
            } else if e == 114 {
                parse_chars(s, i + 2, acc.push(13))
            } else if e == 116 {
                parse_chars(s, i + 2, acc.push(9))
            } else if e == 117 {
                match parse_hex4(s, i + 2) {
                    Some(cp) => {
                        if 0xD800 <= cp < 0xDC00 {
                            // A high surrogate must be followed by an
                            // escaped low surrogate.
                            if i + 12 <= s.len() && s[i + 6] == 92 && s[i + 7] == 117 {
                                match parse_hex4(s, i + 8) {
                                    Some(lo) => {
                                        if 0xDC00 <= lo < 0xE000 {
                                            parse_chars(
                                                s,
                                                i + 12,
                                                acc + utf8_enc(
                                                    0x10000 + (cp - 0xD800) * 0x400 + (lo - 0xDC00),
                                                ),
                                            )
                                        } else {
                                            None
                                        }
                                    },
                                    None => None,
                                }
                            } else {
                                None
                            }
                        } else if 0xDC00 <= cp < 0xE000 {
                            None
                        } else {
                            parse_chars(s, i + 6, acc + utf8_enc(cp))
                        }
                    },
                    None => None,
                }
            } else {
                None
            }
        }
    } else if s[i] < 32 {
        None
    } else {
        parse_chars(s, i + 1, acc.push(s[i]))
    }
}

/// A JSON string starting at `i`: its unescaped contents and the index just
/// past its closing quote.
pub open spec fn parse_string(s: Seq<u8>, i: int) -> Option<(Seq<u8>, int)> {
    if 0 <= i < s.len() && s[i] == 34 {
        parse_chars(s, i + 1, Seq::empty())
    } else {
        None
    }
}

/// One object member starting at `i`: key, value, and the index just past
/// the value.
pub open spec fn parse_member(s: Seq<u8>, i: int) -> Option<(Seq<u8>, Seq<u8>, int)> {
    match parse_string(s, i) {
        Some((key, j)) => {
            let k = skip_ws(s, j);
            if 0 <= k < s.len() && s[k] == 58 {
                match parse_string(s, skip_ws(s, k + 1)) {
                    Some((value, e)) => Some((key, value, e)),
                    None => None,
                }
            } else {
                None
            }
        },
        None => None,
    }
}

/// The members of a book object gathered so far.
pub struct MembersView {
    pub id: Option<Seq<u8>>,
    pub name: Option<Seq<u8>>,
    pub author: Option<Seq<u8>>,
}

/// Records one member, rejecting unknown and repeated names.
pub open spec fn add_member(m: MembersView, key: Seq<u8>, value: Seq<u8>) -> Option<MembersView> {
    if key == key_id() {
        if m.id is Some {
            None
        } else {
            Some(MembersView { id: Some(value), name: m.name, author: m.author })
        }
    } else if key == key_name() {
        if m.name is Some {
            None
        } else {
            Some(MembersView { id: m.id, name: Some(value), author: m.author })
        }
    } else if key == key_author() {
        if m.author is Some {
            None
        } else {
            Some(MembersView { id: m.id, name: m.name, author: Some(value) })
        }
    } else {
        None
    }
}

/// The member list of a book object from `i` (at the first member) up to and
/// including the closing brace: the gathered members and the index just past
/// the brace.
pub open spec fn parse_members(s: Seq<u8>, i: int, m: MembersView) -> Option<(MembersView, int)>
    decreases s.len() - i,
{
    match parse_member(s, i) {
        Some((key, value, j)) => match add_member(m, key, value) {
            Some(m2) => {
                let k = skip_ws(s, j);
                if 0 <= k < s.len() && s[k] == 125 {
                    Some((m2, k + 1))
                } else if 0 <= k < s.len() && s[k] == 44 {
                    let n = skip_ws(s, k + 1);
                    if i < n <= s.len() {
                        parse_members(s, n, m2)
                    } else {
                        None
                    }
                } else {
                    None
                }
            },
            None => None,
        },
        None => None,
    }
}

/// The book described by a whole body, if any: the grammar of this service.
pub open spec fn parse_book(s: Seq<u8>) -> Option<BookView> {
    let i = skip_ws(s, 0);
    if 0 <= i < s.len() && s[i] == 123 {
        match parse_members(
            s,
            skip_ws(s, i + 1),
            MembersView { id: None, name: None, author: None },
        ) {
            Some((m, e)) => {
                if skip_ws(s, e) == s.len() && m.name is Some && m.author is Some {
                    Some(BookView { id: m.id, name: m.name->0, author: m.author->0 })
                } else {
                    None
                }
            },
            None => None,
        }
    } else {
        None
    }
}

fn skip_ws_x(s: &Vec<u8>, i: usize) -> (r: usize)
    requires
        i <= s.len(),
    ensures
        r as int == skip_ws(s@, i as int),
        i <= r <= s.len(),
{
    let mut j: usize = i;
    while j < s.len() && ws(s[j])
        invariant
            i <= j <= s.len(),
            skip_ws(s@, i as int) == skip_ws(s@, j as int),
        decreases s.len() - j,
    {
        j = j + 1;
    }
    j
}

fn parse_hex4_x(s: &Vec<u8>, i: usize) -> (r: Option<u32>)
    requires
        i <= s.len(),
    ensures
        r is None <==> parse_hex4(s@, i as int) is None,
        r matches Some(v) ==> parse_hex4(s@, i as int) == Some(v as int) && v < 0x10000,
{
    if s.len() - i < 4 {
        return None;
    }
    let (a, b, c, d) = (hex_val_x(s[i]), hex_val_x(s[i + 1]), hex_val_x(s[i + 2]), hex_val_x(
        s[i + 3],
    ));
    match (a, b, c, d) {
        (Some(a), Some(b), Some(c), Some(d)) => Some(
            (a as u32) * 0x1000 + (b as u32) * 0x100 + (c as u32) * 0x10 + (d as u32),
        ),
        _ => None,
    }
}

fn parse_chars_x(s: &Vec<u8>, i: usize, acc: Vec<u8>) -> (r: Option<(Vec<u8>, usize)>)
    requires
        i <= s.len(),
    ensures
        r is None <==> parse_chars(s@, i as int, acc@) is None,
        r matches Some((v, j)) ==> parse_chars(s@, i as int, acc@) == Some((v@, j as int)) && i < j
            <= s.len(),
    decreases s.len() - i,
{
    if i >= s.len() {
        return None;
    }
    let b = s[i];
    if b == 34 {
        return Some((acc, i + 1));
    }
    if b == 92 {
        if i + 1 >= s.len() {
            return None;
        }
        let e = s[i + 1];
        let mut acc = acc;
        if e == 34 {
            acc.push(34);
            return parse_chars_x(s, i + 2, acc);
        }
        if e == 92 {
            acc.push(92);
            return parse_chars_x(s, i + 2, acc);
        }
        if e == 47 {
            acc.push(47);
            return parse_chars_x(s, i + 2, acc);
        }
        if e == 98 {
            acc.push(8);
            return parse_chars_x(s, i + 2, acc);
        }
        if e == 102 {
            acc.push(12);
            return parse_chars_x(s, i + 2, acc);
        }
        if e == 110 {
            acc.push(10);
            return parse_chars_x(s, i + 2, acc);
        }
        if e == 114 {
            acc.push(13);
            return parse_chars_x(s, i + 2, acc);
        }
        if e == 116 {
            acc.push(9);
            return parse_chars_x(s, i + 2, acc);
        }
        if e == 117 {
            match parse_hex4_x(s, i + 2) {
                Some(cp) => {
                    if 0xD800 <= cp && cp < 0xDC00 {
                        if s.len() - i >= 12 && s[i + 6] == 92 && s[i + 7] == 117 {
                            match parse_hex4_x(s, i + 8) {
                                Some(lo) => {
                                    if 0xDC00 <= lo && lo < 0xE000 {
                                        let combined: u32 = 0x10000 + (cp - 0xD800) * 0x400 + (lo
                                            - 0xDC00);
                                        utf8_push(combined, &mut acc);
                                        return parse_chars_x(s, i + 12, acc);
                                    }
                                    return None;
                                },
                                None => return None,
                            }
                        }
                        return None;
                    }
                    if 0xDC00 <= cp && cp < 0xE000 {
                        return None;
                    }
                    utf8_push(cp, &mut acc);
                    return parse_chars_x(s, i + 6, acc);
                },
                None => return None,
            }
        }
        return None;
    }
    if b < 32 {
        return None;
    }
    let mut acc = acc;
    acc.push(b);
    parse_chars_x(s, i + 1, acc)
}

fn parse_string_x(s: &Vec<u8>, i: usize) -> (r: Option<(Vec<u8>, usize)>)
    requires
        i <= s.len(),
    ensures
        r is None <==> parse_string(s@, i as int) is None,
        r matches Some((v, j)) ==> parse_string(s@, i as int) == Some((v@, j as int)) && i < j
            <= s.len(),
{
    if i < s.len() && s[i] == 34 {
        parse_chars_x(s, i + 1, Vec::new())
    } else {
        None
    }
}

fn parse_member_x(s: &Vec<u8>, i: usize) -> (r: Option<(Vec<u8>, Vec<u8>, usize)>)
    requires
        i <= s.len(),
    ensures
        r is None <==> parse_member(s@, i as int) is None,
        r matches Some((key, value, j)) ==> parse_member(s@, i as int) == Some(
            (key@, value@, j as int),
        ) && i < j <= s.len(),
{
    match parse_string_x(s, i) {
        Some((key, j)) => {
            let k = skip_ws_x(s, j);
            if k < s.len() && s[k] == 58 {
                let m = skip_ws_x(s, k + 1);
                match parse_string_x(s, m) {
                    Some((value, e)) => Some((key, value, e)),
                    None => None,
                }
            } else {
                None
            }
        },
        None => None,
    }
}

/// The members of a book object gathered so far, at run time.
pub struct Members {
    pub id: Option<Vec<u8>>,
    pub name: Option<Vec<u8>>,
    pub author: Option<Vec<u8>>,
}

impl View for Members {
    type V = MembersView;

    open spec fn view(&self) -> MembersView {
        MembersView {
            id: match self.id {
                Some(v) => Some(v@),
                None => None,
            },
            name: match self.name {
                Some(v) => Some(v@),
                None => None,
            },
            author: match self.author {
                Some(v) => Some(v@),
                None => None,
            },
        }
    }
}

fn add_member_x(m: Members, key: Vec<u8>, value: Vec<u8>) -> (r: Option<Members>)
    ensures
        r is None <==> add_member(m@, key@, value@) is None,
        r matches Some(m2) ==> add_member(m@, key@, value@) == Some(m2@),
{
    if crate::bytes::bytes_eq(&key, &key_id_vec()) {
        if m.id.is_some() {
            None
        } else {
            Some(Members { id: Some(value), name: m.name, author: m.author })
        }
    } else if crate::bytes::bytes_eq(&key, &key_name_vec()) {
        if m.name.is_some() {
            None
        } else {
            Some(Members { id: m.id, name: Some(value), author: m.author })
        }
    } else if crate::bytes::bytes_eq(&key, &key_author_vec()) {
        if m.author.is_some() {
            None
        } else {
            Some(Members { id: m.id, name: m.name, author: Some(value) })
        }
    } else {
        None
    }
}

fn parse_members_x(s: &Vec<u8>, i: usize, m: Members) -> (r: Option<(Members, usize)>)
    requires
        i <= s.len(),
    ensures
        r is None <==> parse_members(s@, i as int, m@) is None,
        r matches Some((m2, e)) ==> parse_members(s@, i as int, m@) == Some((m2@, e as int)) && i
            < e <= s.len(),
    decreases s.len() - i,
{
    match parse_member_x(s, i) {
        Some((key, value, j)) => match add_member_x(m, key, value) {
            Some(m2) => {
                let k = skip_ws_x(s, j);
                if k < s.len() && s[k] == 125 {
                    Some((m2, k + 1))
                } else if k < s.len() && s[k] == 44 {
                    let n = skip_ws_x(s, k + 1);
                    if i < n {
                        parse_members_x(s, n, m2)
                    } else {
                        None
                    }
                } else {
                    None
                }
            },
            None => None,
        },
        None => None,
    }
}

/// Parses a whole body as a book. Returns exactly the book the grammar
/// gives, and `None` exactly where the grammar rejects the body.
pub fn parse_book_x(s: &Vec<u8>) -> (r: Option<Book>)
    ensures
        r is None <==> parse_book(s@) is None,
        r matches Some(b) ==> parse_book(s@) == Some(b@),
{
    let i = skip_ws_x(s, 0);
    if i < s.len() && s[i] == 123 {
        let j = skip_ws_x(s, i + 1);
        match parse_members_x(s, j, Members { id: None, name: None, author: None }) {
            Some((m, e)) => {
                if skip_ws_x(s, e) == s.len() {
                    match (m.id, m.name, m.author) {
                        (id, Some(name), Some(author)) => Some(Book { id, name, author }),
                        _ => None,
                    }
                } else {
                    None
                }
            },
            None => None,
        }
    } else {
        None
    }
}

/// Hexadecimal digit for a value below 16, lowercase.
pub open spec fn hex_digit(n: u8) -> u8
    recommends
        n < 16,
{
    if n < 10 {
        (48 + n) as u8
    } else {
        (87 + n) as u8
    }
}

/// JSON escape of one byte of string content: quote and backslash get a
/// backslash escape, the named control characters their short forms, other
/// control characters a `\u00XX` form, and every other byte stands as is.
pub open spec fn escape_byte(b: u8) -> Seq<u8> {
    if b == 34 {
        seq![92u8, 34u8]
    } else if b == 92 {
        seq![92u8, 92u8]
    } else if b == 8 {
        seq![92u8, 98u8]
    } else if b == 12 {
        seq![92u8, 102u8]
    } else if b == 10 {
        seq![92u8, 110u8]
    } else if b == 13 {
        seq![92u8, 114u8]
    } else if b == 9 {
        seq![92u8, 116u8]
    } else if b < 32 {
        seq![92u8, 117u8, 48u8, 48u8, hex_digit(b / 16), hex_digit(b % 16)]
    } else {
        seq![b]
    }
}

/// JSON escape of string contents from `i` on.
pub open spec fn escape_from(s: Seq<u8>, i: int) -> Seq<u8>
    decreases s.len() - i,
{
    if 0 <= i < s.len() {
        escape_byte(s[i]) + escape_from(s, i + 1)
    } else {
        Seq::<u8>::empty()
    }
}

/// JSON escape of whole string contents.
pub open spec fn escape(s: Seq<u8>) -> Seq<u8> {
    escape_from(s, 0)
}

/// One serialized object member: the quoted key, a colon, the quoted and
/// escaped value.
pub open spec fn member_bytes(key: Seq<u8>, value: Seq<u8>) -> Seq<u8> {
    seq![34u8] + key + seq![34u8, 58u8, 34u8] + escape(value) + seq![34u8]
}

/// The JSON rendering of a book whose identifier has been assigned:
/// a compact object with members `id`, `name`, `author`, in that order.
pub open spec fn json_of_book(b: BookView) -> Seq<u8>
    recommends
        b.id is Some,
{
    seq![123u8] + member_bytes(key_id(), b.id->0) + seq![44u8] + member_bytes(key_name(), b.name)
        + seq![44u8] + member_bytes(key_author(), b.author) + seq![125u8]
}

fn hex_digit_x(n: u8) -> (r: u8)
    requires
        n < 16,
    ensures
        r == hex_digit(n),
{
    if n < 10 {
        48 + n
    } else {
        87 + n
    }
}

/// Appends all of `src` to `out`.
pub(crate) fn push_all(src: &Vec<u8>, out: &mut Vec<u8>)
    ensures
        final(out)@ == old(out)@ + src@,
{
    let mut i: usize = 0;
    while i < src.len()
        invariant
            i <= src.len(),
            out@ == old(out)@ + src@.take(i as int),
        decreases src.len() - i,
    {
        out.push(src[i]);
        proof {
            assert(src@.take(i + 1) =~= src@.take(i as int).push(src@[i as int]));
            assert(out@ =~= old(out)@ + src@.take(i + 1));
        }
        i = i + 1;
    }
    proof {
        assert(src@.take(src@.len() as int) =~= src@);
    }
}

/// Appends the escape of one byte to `out`.
fn escape_byte_push(b: u8, out: &mut Vec<u8>)
    ensures
        final(out)@ == old(out)@ + escape_byte(b),
{
    if b == 34 {
        out.push(92);
        out.push(34);
    } else if b == 92 {
        out.push(92);
        out.push(92);
    } else if b == 8 {
        out.push(92);
        out.push(98);
    } else if b == 12 {
        out.push(92);
        out.push(102);
    } else if b == 10 {
        out.push(92);
        out.push(110);
    } else if b == 13 {
        out.push(92);
        out.push(114);
    } else if b == 9 {
        out.push(92);
        out.push(116);
    } else if b < 32 {
        out.push(92);
        out.push(117);
        out.push(48);
        out.push(48);
        out.push(hex_digit_x(b / 16));
        out.push(hex_digit_x(b % 16));
    } else {
        out.push(b);
    }
    proof {
        assert(out@ =~= old(out)@ + escape_byte(b));
    }
}

/// Appends the escape of `src` from `i` on to `out`.
fn escape_push(src: &Vec<u8>, i: usize, out: &mut Vec<u8>)
    requires
        i <= src.len(),
    ensures
        final(out)@ == old(out)@ + escape_from(src@, i as int),
    decreases src.len() - i,
{
    if i >= src.len() {
        proof {
            assert(out@ =~= out@ + escape_from(src@, i as int));
        }
        return ;
    }
    escape_byte_push(src[i], out);
    escape_push(src, i + 1, out);
    proof {
        assert(out@ =~= old(out)@ + escape_from(src@, i as int));
    }
}

/// Appends one serialized member to `out`.
fn member_push(key: &Vec<u8>, value: &Vec<u8>, out: &mut Vec<u8>)
    ensures
        final(out)@ == old(out)@ + member_bytes(key@, value@),
{
    out.push(34);
    push_all(key, out);
    out.push(34);
    out.push(58);
    out.push(34);
    escape_push(value, 0, out);
    out.push(34);
    proof {
        assert(out@ =~= old(out)@ + member_bytes(key@, value@));
    }
}

/// Serializes a book, with its assigned identifier, as the response body:
/// exactly the rendering `json_of_book` gives.
pub fn to_json(b: &Book) -> (r: Vec<u8>)
    requires
        b@.id is Some,
    ensures
        r@ == json_of_book(b@),
{
    let mut out: Vec<u8> = Vec::new();
    out.push(123);
    member_push(&key_id_vec(), b.id.as_ref().unwrap(), &mut out);
    out.push(44);
    member_push(&key_name_vec(), &b.name, &mut out);
    out.push(44);
    member_push(&key_author_vec(), &b.author, &mut out);
    out.push(125);
    proof {
        assert(out@ =~= json_of_book(b@));
    }
    out
}

proof fn lemma_hex_of_digit(n: u8)
    requires
        n < 16,
    ensures
        hex_val(hex_digit(n)) == Some(n),
{
}

/// The string parser undoes `escape`: wherever the bytes at `i` are the
/// escape of `v` from `k` on followed by a closing quote, parsing appends
/// exactly the rest of `v` and stops just past that quote.
#[verifier::rlimit(60)]
proof fn lemma_parse_chars_escape(s: Seq<u8>, i: int, v: Seq<u8>, k: int, acc: Seq<u8>)
    requires
        0 <= k <= v.len(),
        0 <= i,
        i + escape_from(v, k).len() + 1 <= s.len(),
        forall|j: int| 0 <= j < escape_from(v, k).len() ==> s[i + j] == escape_from(v, k)[j],
        s[i + escape_from(v, k).len()] == 34,
    ensures
        parse_chars(s, i, acc) == Some((acc + v.skip(k), i + escape_from(v, k).len() + 1)),
    decreases v.len() - k,
{
    if k == v.len() {
        assert(escape_from(v, k).len() == 0);
        assert(s[i] == 34);
        assert(acc + v.skip(k) =~= acc);
    } else {
        let b = v[k];
        let e = escape_byte(b);
        let rest = escape_from(v, k + 1);
        assert(escape_from(v, k) == e + rest);
        assert forall|j: int| 0 <= j < e.len() implies s[i + j] == e[j] by {
            assert(s[i + j] == escape_from(v, k)[j]);
            assert((e + rest)[j] == e[j]);
        }
        assert forall|j: int| 0 <= j < rest.len() implies s[i + e.len() + j] == rest[j] by {
            let j2 = e.len() + j;
            assert(s[i + j2] == escape_from(v, k)[j2]);
            assert((e + rest)[j2] == rest[j]);
        }
        assert(s[i + e.len() + rest.len()] == 34);
        if b == 34 || b == 92 {
            assert(s[i] == 92 && s[i + 1] == b);
            lemma_parse_chars_escape(s, i + 2, v, k + 1, acc.push(b));
            assert(acc.push(v[k]) + v.skip(k + 1) =~= acc + v.skip(k));
        } else if b == 8 || b == 12 || b == 10 || b == 13 || b == 9 {
            assert(s[i] == 92);
            lemma_parse_chars_escape(s, i + 2, v, k + 1, acc.push(b));
            assert(acc.push(v[k]) + v.skip(k + 1) =~= acc + v.skip(k));
        } else if b < 32 {
            assert(s[i] == 92 && s[i + 1] == 117 && s[i + 2] == 48 && s[i + 3] == 48
                && s[i + 4] == hex_digit(b / 16) && s[i + 5] == hex_digit(b % 16));
            lemma_hex_of_digit(b / 16);
            lemma_hex_of_digit(b % 16);
            assert(parse_hex4(s, i + 2) == Some((b / 16) * 0x10 + (b % 16) as int));
            assert((b / 16) * 0x10 + (b % 16) as int == b);
            assert(utf8_enc(b as int) == seq![b]);
            lemma_parse_chars_escape(s, i + 6, v, k + 1, acc + seq![b]);
            assert(acc + seq![v[k]] + v.skip(k + 1) =~= acc + v.skip(k));
        } else {
            assert(e == seq![b]);
            assert(s[i + 0] == e[0]);
            assert(s[i] == b);
            lemma_parse_chars_escape(s, i + 1, v, k + 1, acc.push(b));
            assert(acc.push(v[k]) + v.skip(k + 1) =~= acc + v.skip(k));
        }
    }
}

/// Escaping changes nothing in a byte string without quotes, backslashes
/// or control characters.
proof fn lemma_escape_plain(v: Seq<u8>, k: int)
    requires
        0 <= k <= v.len(),
        forall|j: int| 0 <= j < v.len() ==> 32 <= v[j] && v[j] != 34 && v[j] != 92,
    ensures
        escape_from(v, k) == v.skip(k),
    decreases v.len() - k,
{
    if k == v.len() {
        assert(escape_from(v, k) =~= v.skip(k));
    } else {
        lemma_escape_plain(v, k + 1);
        assert(escape_byte(v[k]) == seq![v[k]]);
        assert(seq![v[k]] + v.skip(k + 1) =~= v.skip(k));
    }
}

/// Parsing a serialized string yields back exactly its contents.
proof fn lemma_parse_string_quoted(s: Seq<u8>, i: int, v: Seq<u8>)
    requires
        0 <= i,
        i + escape(v).len() + 2 <= s.len(),
        s[i] == 34,
        forall|j: int| 0 <= j < escape(v).len() ==> s[i + 1 + j] == escape(v)[j],
        s[i + 1 + escape(v).len()] == 34,
    ensures
        parse_string(s, i) == Some((v, i + escape(v).len() + 2)),
{
    assert(forall|j: int| 0 <= j < escape_from(v, 0).len() ==> s[(i + 1) + j] == escape_from(
        v,
        0,
    )[j]);
    lemma_parse_chars_escape(s, i + 1, v, 0, Seq::empty());
    assert(Seq::<u8>::empty() + v.skip(0) =~= v);
}

/// Parsing a serialized member yields back its key and value and stops
/// just past the value's closing quote.
proof fn lemma_parse_member_at(s: Seq<u8>, i: int, key: Seq<u8>, v: Seq<u8>)
    requires
        0 <= i,
        i + member_bytes(key, v).len() < s.len(),
        forall|j: int| 0 <= j < member_bytes(key, v).len() ==> s[i + j] == member_bytes(key, v)[j],
        forall|j: int| 0 <= j < key.len() ==> 32 < key[j] && key[j] != 34 && key[j] != 92,
    ensures
        parse_member(s, i) == Some((key, v, i + member_bytes(key, v).len())),
{
    let mb = member_bytes(key, v);
    let kl = key.len() as int;
    let el = escape(v).len() as int;
    assert(mb == seq![34u8] + key + seq![34u8, 58u8, 34u8] + escape(v) + seq![34u8]);
    assert(mb.len() == kl + el + 5);
    lemma_escape_plain(key, 0);
    assert(escape(key) == key.skip(0));
    assert(key.skip(0) =~= key);

    // The member's own layout, index by index.
    assert(mb[0] == 34);
    assert forall|j: int| 0 <= j < kl implies mb[1 + j] == key[j] by {
        assert((seq![34u8] + key)[1 + j] == key[j]);
    }
    assert(mb[1 + kl] == 34);
    assert(mb[2 + kl] == 58);
    assert(mb[3 + kl] == 34);
    assert forall|j: int| 0 <= j < el implies mb[4 + kl + j] == escape(v)[j] by {
        assert((seq![34u8] + key + seq![34u8, 58u8, 34u8] + escape(v))[4 + kl + j] == escape(
            v,
        )[j]);
    }
    assert(mb[4 + kl + el] == 34);

    // The key string.
    assert(s[i] == 34);
    assert forall|j: int| 0 <= j < escape(key).len() implies s[i + 1 + j] == escape(key)[j] by {
        assert(s[i + (1 + j)] == mb[1 + j]);
    }
    assert(s[i + 1 + kl] == mb[1 + kl]);
    lemma_parse_string_quoted(s, i, key);
    assert(parse_string(s, i) == Some((key, i + kl + 2)));

    // The colon, with no whitespace around it.
    assert(s[i + kl + 2] == mb[kl + 2]);
    assert(skip_ws(s, i + kl + 2) == i + kl + 2);

    // The value string.
    assert(s[i + kl + 3] == mb[kl + 3]);
    assert(skip_ws(s, i + kl + 3) == i + kl + 3);
    assert forall|j: int| 0 <= j < el implies s[(i + kl + 3) + 1 + j] == escape(v)[j] by {
        assert(s[i + (4 + kl + j)] == mb[4 + kl + j]);
    }
    assert(s[(i + kl + 3) + 1 + el] == mb[4 + kl + el]);
    lemma_parse_string_quoted(s, i + kl + 3, v);
    assert(parse_string(s, i + kl + 3) == Some((v, i + kl + el + 5)));
}

/// Law: serializing a book with its assigned identifier and parsing the
/// result yields exactly that book: every response body reparses to the
/// created book, field for field.
#[verifier::rlimit(100)]
pub proof fn lemma_json_round_trip(b: BookView)
    requires
        b.id is Some,
    ensures
        parse_book(json_of_book(b)) == Some(b),
{
    let id = b.id->0;
    let s = json_of_book(b);
    let m1 = member_bytes(key_id(), id);
    let m2 = member_bytes(key_name(), b.name);
    let m3 = member_bytes(key_author(), b.author);
    assert(s == seq![123u8] + m1 + seq![44u8] + m2 + seq![44u8] + m3 + seq![125u8]);
    let p1: int = 1;
    let p2: int = p1 + m1.len() + 1;
    let p3: int = p2 + m2.len() + 1;
    let q3: int = p3 + m3.len();
    assert(s.len() == q3 + 1);

    // The three keys hold only plain lowercase letters.
    assert forall|j: int| 0 <= j < key_id().len() implies 32 < key_id()[j] && key_id()[j] != 34
        && key_id()[j] != 92 by {
        assert(key_id()[0] == 105 && key_id()[1] == 100);
    }
    assert forall|j: int| 0 <= j < key_name().len() implies 32 < key_name()[j] && key_name()[j]
        != 34 && key_name()[j] != 92 by {
        assert(key_name()[0] == 110 && key_name()[1] == 97 && key_name()[2] == 109
            && key_name()[3] == 101);
    }
    assert forall|j: int| 0 <= j < key_author().len() implies 32 < key_author()[j]
        && key_author()[j] != 34 && key_author()[j] != 92 by {
        assert(key_author()[0] == 97 && key_author()[1] == 117 && key_author()[2] == 116
            && key_author()[3] == 104 && key_author()[4] == 111 && key_author()[5] == 114);
    }

    // Where each byte of the body stands.
    assert(s[0] == 123);
    assert forall|j: int| 0 <= j < m1.len() implies s[p1 + j] == m1[j] by {
        assert((seq![123u8] + m1)[p1 + j] == m1[j]);
    }
    assert(s[p2 - 1] == 44);
    assert forall|j: int| 0 <= j < m2.len() implies s[p2 + j] == m2[j] by {
        let a = seq![123u8] + m1 + seq![44u8];
        assert(a.len() == p2);
        assert((a + m2)[p2 + j] == m2[j]);
    }
    assert(s[p3 - 1] == 44);
    assert forall|j: int| 0 <= j < m3.len() implies s[p3 + j] == m3[j] by {
        let a = seq![123u8] + m1 + seq![44u8] + m2 + seq![44u8];
        assert(a.len() == p3);
        assert((a + m3)[p3 + j] == m3[j]);
    }
    assert(s[q3] == 125);

    // Each member parses back to its key and value.
    lemma_parse_member_at(s, p1, key_id(), id);
    lemma_parse_member_at(s, p2, key_name(), b.name);
    lemma_parse_member_at(s, p3, key_author(), b.author);

    // The member list gathers the three members and stops past the brace.
    let e0 = MembersView { id: None, name: None, author: None };
    let g1 = MembersView { id: Some(id), name: None, author: None };
    let g2 = MembersView { id: Some(id), name: Some(b.name), author: None };
    let g3 = MembersView { id: Some(id), name: Some(b.name), author: Some(b.author) };
    assert(key_id().len() == 2 && key_name().len() == 4 && key_author().len() == 6);
    assert(add_member(e0, key_id(), id) == Some(g1));
    assert(add_member(g1, key_name(), b.name) == Some(g2));
    assert(add_member(g2, key_author(), b.author) == Some(g3));
    assert(s[p1] == 34 && s[p2] == 34 && s[p3] == 34);
    assert(skip_ws(s, p1 + m1.len()) == p2 - 1);
    assert(skip_ws(s, p2) == p2);
    assert(parse_members(s, p1, e0) == parse_members(s, p2, g1));
    assert(skip_ws(s, p2 + m2.len()) == p3 - 1);
    assert(skip_ws(s, p3) == p3);
    assert(parse_members(s, p2, g1) == parse_members(s, p3, g2));
    assert(skip_ws(s, p3 + m3.len()) == q3);
    assert(parse_members(s, p3, g2) == Some((g3, q3 + 1)));

    // The whole body parses back to the book.
    assert(skip_ws(s, 0) == 0);
    assert(skip_ws(s, 1) == 1);
    assert(skip_ws(s, q3 + 1) == s.len());
    assert(parse_book(s) == Some(BookView { id: Some(id), name: b.name, author: b.author }));
    assert(Some(id) == b.id);
}

} // verus!
