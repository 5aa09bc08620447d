//! Byte-level vocabulary shared by the JSON codec and the record mapper.
//!
//! All text in this crate is handled as UTF-8 bytes, the form in which a
//! request body arrives and a response body leaves.

use vstd::prelude::*;

verus! {

/// JSON insignificant whitespace: space, tab, line feed, carriage return.
pub open spec fn is_ws(b: u8) -> bool {
    b == 32 || b == 9 || b == 10 || b == 13
}

pub(crate) fn ws(b: u8) -> (r: bool)
    ensures
        r == is_ws(b),
{
    b == 32 || b == 9 || b == 10 || b == 13
}

/// Value of one hexadecimal digit, if the byte is one.
pub open spec fn hex_val(b: u8) -> Option<u8> {
    if 48 <= b <= 57 {
        Some((b - 48) as u8)
    } else if 97 <= b <= 102 {
        Some((b - 87) as u8)
    } else if 65 <= b <= 70 {
        Some((b - 55) as u8)
    } else {
        None
    }
}

pub(crate) fn hex_val_x(b: u8) -> (r: Option<u8>)
    ensures
        r == hex_val(b),
{
    if 48 <= b && b <= 57 {
        Some(b - 48)
    } else if 97 <= b && b <= 102 {
        Some(b - 87)
    } else if 65 <= b && b <= 70 {
        Some(b - 55)
    } else {
        None
    }
}

/// The record field name `id`.
pub open spec fn key_id() -> Seq<u8> {
    seq!['i' as u8, 'd' as u8]
}

/// The record field name `name`.
pub open spec fn key_name() -> Seq<u8> {
    seq!['n' as u8, 'a' as u8, 'm' as u8, 'e' as u8]
}

/// The record field name `author`.
pub open spec fn key_author() -> Seq<u8> {
    seq!['a' as u8, 'u' as u8, 't' as u8, 'h' as u8, 'o' as u8, 'r' as u8]
}

/// The fixed store collection the service writes to.
pub open spec fn table_book() -> Seq<u8> {
    seq!['b' as u8, 'o' as u8, 'o' as u8, 'k' as u8]
}

pub(crate) fn key_id_vec() -> (r: Vec<u8>)
    ensures
        r@ == key_id(),
{
    let mut v: Vec<u8> = Vec::new();
    v.push('i' as u8);
    v.push('d' as u8);
    proof {
        assert(v@ =~= key_id());
    }
    v
}

pub(crate) fn key_name_vec() -> (r: Vec<u8>)
    ensures
        r@ == key_name(),
{
    let mut v: Vec<u8> = Vec::new();
    v.push('n' as u8);
    v.push('a' as u8);
    v.push('m' as u8);
    v.push('e' as u8);
    proof {
        assert(v@ =~= key_name());
    }
    v
}

pub(crate) fn key_author_vec() -> (r: Vec<u8>)
    ensures
        r@ == key_author(),
{
    let mut v: Vec<u8> = Vec::new();
    v.push('a' as u8);
    v.push('u' as u8);
    v.push('t' as u8);
    v.push('h' as u8);
    v.push('o' as u8);
    v.push('r' as u8);
    proof {
        assert(v@ =~= key_author());
    }
    v
}

pub fn table_book_vec() -> (r: Vec<u8>)
    ensures
        r@ == table_book(),
{
    let mut v: Vec<u8> = Vec::new();
    v.push('b' as u8);
    v.push('o' as u8);
    v.push('o' as u8);
    v.push('k' as u8);
    proof {
        assert(v@ =~= table_book());
    }
    v
}

pub(crate) fn bytes_eq(a: &Vec<u8>, b: &Vec<u8>) -> (r: bool)
    ensures
        r == (a@ == b@),
{
    if a.len() != b.len() {
        return false;
    }
    let mut i: usize = 0;
    while i < a.len()
        invariant
            i <= a.len(),
            a.len() == b.len(),
            forall|k: int| 0 <= k < i ==> a@[k] == b@[k],
        decreases a.len() - i,
    {
        if a[i] != b[i] {
            return false;
        }
        i = i + 1;
    }
    proof {
        assert(a@ =~= b@);
    }
    true
}

/// UTF-8 encoding of one Unicode scalar value.
pub open spec fn utf8_enc(cp: int) -> Seq<u8>
    recommends
        0 <= cp < 0x110000,
{
    if cp < 0x80 {
        seq![cp as u8]
    } else if cp < 0x800 {
        seq![(0xC0 + cp / 0x40) as u8, (0x80 + cp % 0x40) as u8]
    } else if cp < 0x10000 {
        seq![
            (0xE0 + cp / 0x1000) as u8,
            (0x80 + (cp / 0x40) % 0x40) as u8,
            (0x80 + cp % 0x40) as u8,
        ]
    } else {
        seq![
            (0xF0 + cp / 0x40000) as u8,
            (0x80 + (cp / 0x1000) % 0x40) as u8,
            (0x80 + (cp / 0x40) % 0x40) as u8,
            (0x80 + cp % 0x40) as u8,
        ]
    }
}

/// Appends the UTF-8 encoding of `cp` to `out`.
pub(crate) fn utf8_push(cp: u32, out: &mut Vec<u8>)
    requires
        cp < 0x110000,
    ensures
        final(out)@ == old(out)@ + utf8_enc(cp as int),
{
    if cp < 0x80 {
        out.push(cp as u8);
        proof {
            assert(out@ =~= old(out)@ + utf8_enc(cp as int));
        }
    } else if cp < 0x800 {
        out.push((0xC0 + cp / 0x40) as u8);
        out.push((0x80 + cp % 0x40) as u8);
        proof {
            assert(out@ =~= old(out)@ + utf8_enc(cp as int));
        }
    } else if cp < 0x10000 {
        out.push((0xE0 + cp / 0x1000) as u8);
        out.push((0x80 + (cp / 0x40) % 0x40) as u8);
        out.push((0x80 + cp % 0x40) as u8);
        proof {
            assert(out@ =~= old(out)@ + utf8_enc(cp as int));
        }
    } else {
        out.push((0xF0 + cp / 0x40000) as u8);
        out.push((0x80 + (cp / 0x1000) % 0x40) as u8);
        out.push((0x80 + (cp / 0x40) % 0x40) as u8);
        out.push((0x80 + cp % 0x40) as u8);
        proof {
            assert(out@ =~= old(out)@ + utf8_enc(cp as int));
        }
    }
}

} // verus!
