//! Decoding the value that follows a key.
//!
//! A value is either a little-endian 32-bit integer or text that ends at the
//! next nul byte.

use vstd::prelude::*;
use crate::cursor::Cursor;
use crate::text::{decode_lossy, decoded_text};

verus! {

/// The 32-bit integer whose little-endian bytes are `b0` to `b3`.
pub open spec fn le_u32(b0: u8, b1: u8, b2: u8, b3: u8) -> u32 {
    (b0 + b1 * 0x100 + b2 * 0x1_0000 + b3 * 0x100_0000) as u32
}

/// The integer value at the start of `s` and what follows it, or `None`
/// where fewer than four bytes are left.
pub open spec fn u32_value(s: Seq<u8>) -> Option<(u32, Seq<u8>)> {
    if s.len() >= 4 {
        Some((le_u32(s[0], s[1], s[2], s[3]), s.skip(4)))
    } else {
        None
    }
}

/// The bytes of the text value at the start of `s`, without the terminator,
/// and what follows the terminator, or `None` where `s` holds no nul byte.
pub open spec fn text_value(s: Seq<u8>) -> Option<(Seq<u8>, Seq<u8>)> {
    match s.index_of_first(0u8) {
        Some(end) => Some((s.take(end), s.skip(end + 1))),
        None => None,
    }
}

/// `end` is the index of the first nul byte in `s`.
proof fn lemma_first_nul(s: Seq<u8>, end: int)
    requires
        0 <= end < s.len(),
        s[end] == 0u8,
        forall|i: int| 0 <= i < end ==> s[i] != 0u8,
    ensures
        s.index_of_first(0u8) == Some(end),
{
    s.index_of_first_ensures(0u8);
}

/// Reads four bytes as a little-endian integer. Where fewer than four bytes
/// are left it reads them all and fails.
pub fn parse_value_u32(it: &mut Cursor) -> (value: Option<u32>)
    ensures
        match value {
            Some(v) => u32_value(old(it)@) == Some((v, final(it)@)),
            None => u32_value(old(it)@) is None && final(it)@ == Seq::<u8>::empty(),
        },
{
    let b0: u8 = match it.next() {
        Some(b) => *b,
        None => {
            return None;
        },
    };
    let b1: u8 = match it.next() {
        Some(b) => *b,
        None => {
            return None;
        },
    };
    let b2: u8 = match it.next() {
        Some(b) => *b,
        None => {
            return None;
        },
    };
    let b3: u8 = match it.next() {
        Some(b) => *b,
        None => {
            return None;
        },
    };
    Some(b0 as u32 + b1 as u32 * 0x100 + b2 as u32 * 0x1_0000 + b3 as u32 * 0x100_0000)
}

/// Reads the bytes up to the next nul byte, and the nul byte. Where there is
/// none it reads to the end of the buffer and fails.
pub fn parse_value_bytes(it: &mut Cursor) -> (raw: Option<Vec<u8>>)
    ensures
        match raw {
            Some(bytes) => text_value(old(it)@) == Some((bytes@, final(it)@)),
            None => text_value(old(it)@) is None && final(it)@ == Seq::<u8>::empty(),
        },
{
    let ghost s = it@;
    let mut buff: Vec<u8> = Vec::new();
    loop
        invariant
            s == old(it)@,
            buff@.len() + it@.len() == s.len(),
            buff@ == s.take(buff@.len() as int),
            it@ == s.skip(buff@.len() as int),
            forall|i: int| 0 <= i < buff@.len() ==> s[i] != 0u8,
        decreases it@.len(),
    {
        let b: u8 = match it.next() {
            Some(b) => *b,
            None => {
                proof {
                    s.index_of_first_ensures(0u8);
                }
                return None;
            },
        };
        if b == 0x00 {
            proof {
                lemma_first_nul(s, buff@.len() as int);
            }
            return Some(buff);
        }
        buff.push(b);
    }
}

/// Reads a text value: the bytes up to the next nul byte, decoded as UTF-8.
/// Bytes that are no UTF-8 are replaced, never rejected, so the only failure
/// is a missing terminator.
pub fn parse_value_str(it: &mut Cursor) -> (text: Option<String>)
    ensures
        match text {
            Some(t) => {
                &&& text_value(old(it)@) matches Some((raw, rest))
                &&& t@ == decoded_text(raw)
                &&& final(it)@ == rest
            },
            None => text_value(old(it)@) is None && final(it)@ == Seq::<u8>::empty(),
        },
{
    match parse_value_bytes(it) {
        Some(buff) => Some(decode_lossy(buff.as_slice())),
        None => None,
    }
}

/// The four bytes that hold `value` in little-endian order.
pub open spec fn le_bytes(value: u32) -> Seq<u8> {
    seq![
        (value % 0x100) as u8,
        (value / 0x100 % 0x100) as u8,
        (value / 0x1_0000 % 0x100) as u8,
        (value / 0x100_0000) as u8,
    ]
}

/// An integer that was written in little-endian order is read back, and
/// what follows it is left.
pub proof fn lemma_integer_is_read_back(value: u32, tail: Seq<u8>)
    ensures
        u32_value(le_bytes(value) + tail) == Some((value, tail)),
{
    let s = le_bytes(value) + tail;
    assert(s[0] == le_bytes(value)[0] && s[1] == le_bytes(value)[1] && s[2] == le_bytes(value)[2]
        && s[3] == le_bytes(value)[3]);
    assert(s.skip(4) =~= tail);
}

/// Text without a nul byte that was written with a terminator is read back,
/// and what follows the terminator is left.
pub proof fn lemma_text_is_read_back(text: Seq<u8>, tail: Seq<u8>)
    requires
        !text.contains(0u8),
    ensures
        text_value(text + seq![0u8] + tail) == Some((text, tail)),
{
    let s = text + seq![0u8] + tail;
    let end = text.len() as int;
    assert forall|i: int| 0 <= i < end implies s[i] != 0u8 by {
        assert(text.contains(text[i]));
    }
    lemma_first_nul(s, end);
    assert(s.take(end) =~= text);
    assert(s.skip(end + 1) =~= tail);
}

} // verus!
