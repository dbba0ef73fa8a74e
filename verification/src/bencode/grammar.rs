//! The bencode grammar: what bytes a value is written as, and what value a
//! run of bytes is read as.

use vstd::prelude::*;
use crate::decimal::{decimal_digits, decimal_value, digits_end, is_digit};
use crate::bencode::model::{Bencode, Entries, has_key, insert_entry};

verus! {

/// `i`, which opens an integer.
pub const INTEGER_TAG: u8 = 0x69;

/// `l`, which opens a list.
pub const LIST_TAG: u8 = 0x6c;

/// `d`, which opens a dictionary.
pub const DICT_TAG: u8 = 0x64;

/// `e`, which closes an integer, a list or a dictionary.
pub const END_TAG: u8 = 0x65;

/// `:`, which parts the length of a byte string from its bytes.
pub const LENGTH_END: u8 = 0x3a;

/// `-`, the sign of a negative integer.
pub const MINUS: u8 = 0x2d;

/// `+`, a sign that is read and never written.
pub const PLUS: u8 = 0x2b;

/// The bytes of an integer: `i`, the shortest decimal notation, `e`.
pub open spec fn encode_integer(i: int) -> Seq<u8> {
    if i < 0 {
        seq![INTEGER_TAG, MINUS] + decimal_digits((-i) as nat) + seq![END_TAG]
    } else {
        seq![INTEGER_TAG] + decimal_digits(i as nat) + seq![END_TAG]
    }
}

/// The bytes of a byte string: its length in decimal, `:`, the bytes.
pub open spec fn encode_bytes(b: Seq<u8>) -> Seq<u8> {
    decimal_digits(b.len()) + seq![LENGTH_END] + b
}

/// The canonical bytes of a value. Dictionary entries are written in the
/// order in which the value holds them, which for a valid value is
/// ascending by key.
pub open spec fn encode(v: Bencode) -> Seq<u8>
    decreases v,
{
    match v {
        Bencode::Integer(i) => encode_integer(i),
        Bencode::Bytes(b) => encode_bytes(b),
        Bencode::List(items) => seq![LIST_TAG] + encode_items(items) + seq![END_TAG],
        Bencode::Dict(entries) => seq![DICT_TAG] + encode_entries(entries) + seq![END_TAG],
    }
}

/// The bytes of list items, one after the other.
pub open spec fn encode_items(items: Seq<Bencode>) -> Seq<u8>
    decreases items,
{
    if items.len() == 0 {
        Seq::empty()
    } else {
        encode(items[0]) + encode_items(items.drop_first())
    }
}

/// The bytes of dictionary entries, one after the other: each key as a byte
/// string, then its value.
pub open spec fn encode_entries(entries: Entries) -> Seq<u8>
    decreases entries,
{
    if entries.len() == 0 {
        Seq::empty()
    } else {
        encode_bytes(entries[0].0) + encode(entries[0].1) + encode_entries(entries.drop_first())
    }
}

/// What reading at a position gives: the thing read and the position behind
/// it, or the offset at which the bytes break the grammar.
pub type Reading<T> = Result<(T, int), int>;

/// Reads the integer whose `i` stands at `pos`. Between `i` and `e` stand an
/// optional sign and at least one digit; leading zeros are read. The number
/// must fit in 64 signed bits.
pub open spec fn read_integer(s: Seq<u8>, pos: int) -> Reading<int> {
    let signed = pos + 1 < s.len() && (s[pos + 1] == MINUS || s[pos + 1] == PLUS);
    let negative = signed && s[pos + 1] == MINUS;
    let first = if signed { pos + 2 } else { pos + 1 };
    let end = digits_end(s, first);
    if end >= s.len() {
        Err(s.len() as int)
    } else if s[end] != END_TAG || end == first {
        Err(end)
    } else {
        let magnitude = decimal_value(s.subrange(first, end)) as int;
        let value = if negative { -magnitude } else { magnitude };
        if i64::MIN <= value <= i64::MAX {
            Ok((value, end + 1))
        } else {
            Err(pos)
        }
    }
}

/// Reads the byte string whose length starts at `pos`.
pub open spec fn read_bytes(s: Seq<u8>, pos: int) -> Reading<Seq<u8>> {
    let end = digits_end(s, pos);
    if end >= s.len() {
        Err(s.len() as int)
    } else if s[end] != LENGTH_END {
        Err(end)
    } else {
        let len = decimal_value(s.subrange(pos, end)) as int;
        if end + 1 + len > s.len() {
            Err(s.len() as int)
        } else {
            Ok((s.subrange(end + 1, end + 1 + len), end + 1 + len))
        }
    }
}

/// Reads the value that starts at `pos`.
pub open spec fn read_value(s: Seq<u8>, pos: int) -> Reading<Bencode>
    decreases s.len() - pos, 0int,
{
    if pos < 0 || pos >= s.len() {
        Err(s.len() as int)
    } else if s[pos] == INTEGER_TAG {
        match read_integer(s, pos) {
            Ok((i, next)) => Ok((Bencode::Integer(i), next)),
            Err(offset) => Err(offset),
        }
    } else if is_digit(s[pos]) {
        match read_bytes(s, pos) {
            Ok((b, next)) => Ok((Bencode::Bytes(b), next)),
            Err(offset) => Err(offset),
        }
    } else if s[pos] == LIST_TAG {
        match read_items(s, pos + 1, Seq::empty()) {
            Ok((items, next)) => Ok((Bencode::List(items), next)),
            Err(offset) => Err(offset),
        }
    } else if s[pos] == DICT_TAG {
        match read_entries(s, pos + 1, Seq::empty()) {
            Ok((entries, next)) => Ok((Bencode::Dict(entries), next)),
            Err(offset) => Err(offset),
        }
    } else {
        Err(pos)
    }
}

/// Reads list items from `pos` up to the closing `e` and appends them to
/// `read`, the items read so far.
pub open spec fn read_items(s: Seq<u8>, pos: int, read: Seq<Bencode>) -> Reading<Seq<Bencode>>
    decreases s.len() - pos, 1int,
{
    if pos < 0 || pos >= s.len() {
        Err(s.len() as int)
    } else if s[pos] == END_TAG {
        Ok((read, pos + 1))
    } else {
        match read_value(s, pos) {
            Ok((item, next)) => if pos < next <= s.len() {
                read_items(s, next, read.push(item))
            } else {
                Err(pos)
            },
            Err(offset) => Err(offset),
        }
    }
}

/// Reads dictionary entries from `pos` up to the closing `e` and adds them
/// to `read`, the entries read so far. The entries may come in any order of
/// their keys; each takes its place in the ascending order. A key must be a
/// byte string, and a key that was read before is refused at the offset
/// where it stands again.
pub open spec fn read_entries(s: Seq<u8>, pos: int, read: Entries) -> Reading<Entries>
    decreases s.len() - pos, 1int,
{
    if pos < 0 || pos >= s.len() {
        Err(s.len() as int)
    } else if s[pos] == END_TAG {
        Ok((read, pos + 1))
    } else if !is_digit(s[pos]) {
        Err(pos)
    } else {
        match read_bytes(s, pos) {
            Ok((key, value_pos)) => if has_key(read, key) {
                Err(pos)
            } else if pos < value_pos <= s.len() {
                match read_value(s, value_pos) {
                    Ok((value, next)) => if value_pos < next <= s.len() {
                        read_entries(s, next, insert_entry(read, key, value))
                    } else {
                        Err(pos)
                    },
                    Err(offset) => Err(offset),
                }
            } else {
                Err(pos)
            },
            Err(offset) => Err(offset),
        }
    }
}

/// Reads the value that `s` starts with. Bytes behind that value are not
/// looked at.
pub open spec fn decode(s: Seq<u8>) -> Result<Bencode, int> {
    match read_value(s, 0) {
        Ok((v, _)) => Ok(v),
        Err(offset) => Err(offset),
    }
}

} // verus!
