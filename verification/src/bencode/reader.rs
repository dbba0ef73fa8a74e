//! Reading bytes as a value.

use vstd::prelude::*;
use vstd::slice::{slice_subrange, slice_to_vec};
use crate::decimal::{byte_is_digit, scan_decimal};
use crate::errors::ParseError;
use crate::bencode::grammar::{
    decode, read_bytes, read_entries, read_integer, read_items, read_value, DICT_TAG, END_TAG,
    INTEGER_TAG, LENGTH_END, LIST_TAG, MINUS, PLUS,
};
use crate::bencode::model::{
    insert_entry, keys_ascending, lemma_insert_entry_ascending, lemma_insert_position, Bencode,
    Entries,
};
use crate::bencode::value::{
    entries_model, find_position, items_model, lemma_list_view, BencodeDict, BencodeValue,
};

verus! {

/// Whether every value of `entries` is valid.
pub open spec fn values_wf(entries: Entries) -> bool {
    forall|k: int| 0 <= k < entries.len() ==> (#[trigger] entries[k]).1.wf()
}

/// Reads the integer whose `i` stands at `pos`.
pub fn parse_integer(bytes: &[u8], pos: usize) -> (r: Result<(i64, usize), usize>)
    requires
        pos < bytes.len(),
    ensures
        match r {
            Ok((i, next)) => read_integer(bytes@, pos as int) == Ok::<(int, int), int>(
                (i as int, next as int),
            ) && pos < next <= bytes.len(),
            Err(offset) => read_integer(bytes@, pos as int) == Err::<(int, int), int>(
                offset as int,
            ) && offset <= bytes.len(),
        },
{
    let mut first: usize = pos + 1;
    let mut negative: bool = false;
    if first < bytes.len() && (bytes[first] == MINUS || bytes[first] == PLUS) {
        negative = bytes[first] == MINUS;
        first = first + 1;
    }
    let (end, magnitude) = scan_decimal(bytes, first);
    if end >= bytes.len() {
        return Err(bytes.len());
    }
    if bytes[end] != END_TAG || end == first {
        return Err(end);
    }
    match magnitude {
        None => Err(pos),
        Some(m) => {
            if negative {
                if m <= 0x7fff_ffff_ffff_ffff {
                    Ok((-(m as i64), end + 1))
                } else if m == 0x8000_0000_0000_0000 {
                    Ok((i64::MIN, end + 1))
                } else {
                    Err(pos)
                }
            } else if m <= 0x7fff_ffff_ffff_ffff {
                Ok((m as i64, end + 1))
            } else {
                Err(pos)
            }
        },
    }
}

/// Reads the byte string whose length starts at `pos`.
pub fn parse_bytes(bytes: &[u8], pos: usize) -> (r: Result<(Vec<u8>, usize), usize>)
    requires
        pos <= bytes.len(),
    ensures
        match r {
            Ok((b, next)) => read_bytes(bytes@, pos as int) == Ok::<(Seq<u8>, int), int>(
                (b@, next as int),
            ) && pos < next <= bytes.len(),
            Err(offset) => read_bytes(bytes@, pos as int) == Err::<(Seq<u8>, int), int>(
                offset as int,
            ) && offset <= bytes.len(),
        },
{
    let (end, length) = scan_decimal(bytes, pos);
    if end >= bytes.len() {
        return Err(bytes.len());
    }
    if bytes[end] != LENGTH_END {
        return Err(end);
    }
    let available: usize = bytes.len() - end - 1;
    match length {
        None => Err(bytes.len()),
        Some(n) => {
            if n > available as u64 {
                Err(bytes.len())
            } else {
                let count: usize = n as usize;
                let content = slice_to_vec(slice_subrange(bytes, end + 1, end + 1 + count));
                Ok((content, end + 1 + count))
            }
        },
    }
}

/// Reads the value that starts at `pos`.
pub fn parse_value(bytes: &[u8], pos: usize) -> (r: Result<(BencodeValue, usize), usize>)
    requires
        pos <= bytes.len(),
    ensures
        match r {
            Ok((v, next)) => read_value(bytes@, pos as int) == Ok::<(Bencode, int), int>(
                (v@, next as int),
            ) && pos < next <= bytes.len() && v@.wf(),
            Err(offset) => read_value(bytes@, pos as int) == Err::<(Bencode, int), int>(
                offset as int,
            ) && offset <= bytes.len(),
        },
    decreases bytes.len() - pos, 0int,
{
    if pos >= bytes.len() {
        return Err(bytes.len());
    }
    let tag = bytes[pos];
    if tag == INTEGER_TAG {
        match parse_integer(bytes, pos) {
            Ok((i, next)) => Ok((BencodeValue::Integer(i), next)),
            Err(offset) => Err(offset),
        }
    } else if byte_is_digit(tag) {
        match parse_bytes(bytes, pos) {
            Ok((b, next)) => Ok((BencodeValue::ByteString(b), next)),
            Err(offset) => Err(offset),
        }
    } else if tag == LIST_TAG {
        match parse_items(bytes, pos + 1) {
            Ok((items, next)) => {
                proof {
                    lemma_list_view(items);
                }
                Ok((BencodeValue::List(items), next))
            },
            Err(offset) => Err(offset),
        }
    } else if tag == DICT_TAG {
        match parse_entries(bytes, pos + 1) {
            Ok((dict, next)) => Ok((BencodeValue::Dict(dict), next)),
            Err(offset) => Err(offset),
        }
    } else {
        Err(pos)
    }
}

/// Reads list items from `start` up to the closing `e`.
pub fn parse_items(bytes: &[u8], start: usize) -> (r: Result<(Vec<BencodeValue>, usize), usize>)
    requires
        start <= bytes.len(),
    ensures
        match r {
            Ok((items, next)) => read_items(bytes@, start as int, Seq::empty()) == Ok::<
                (Seq<Bencode>, int),
                int,
            >((items_model(items@), next as int)) && start < next <= bytes.len()
                && forall|k: int|
                0 <= k < items.len() ==> (#[trigger] items_model(items@)[k]).wf(),
            Err(offset) => read_items(bytes@, start as int, Seq::empty()) == Err::<
                (Seq<Bencode>, int),
                int,
            >(offset as int) && offset <= bytes.len(),
        },
    decreases bytes.len() - start, 1int,
{
    let mut items: Vec<BencodeValue> = Vec::new();
    let mut pos: usize = start;
    assert(items_model(items@) =~= Seq::<Bencode>::empty());
    loop
        invariant
            start <= pos <= bytes.len(),
            read_items(bytes@, start as int, Seq::empty()) == read_items(
                bytes@,
                pos as int,
                items_model(items@),
            ),
            forall|k: int| 0 <= k < items.len() ==> (#[trigger] items_model(items@)[k]).wf(),
        decreases bytes.len() - pos,
    {
        if pos >= bytes.len() {
            return Err(bytes.len());
        }
        if bytes[pos] == END_TAG {
            return Ok((items, pos + 1));
        }
        match parse_value(bytes, pos) {
            Ok((item, next)) => {
                let ghost before = items_model(items@);
                let ghost read = item@;
                items.push(item);
                assert(items_model(items@) =~= before.push(read));
                pos = next;
            },
            Err(offset) => {
                return Err(offset);
            },
        }
    }
}

/// Reads dictionary entries from `start` up to the closing `e`.
pub fn parse_entries(bytes: &[u8], start: usize) -> (r: Result<(BencodeDict, usize), usize>)
    requires
        start <= bytes.len(),
    ensures
        match r {
            Ok((dict, next)) => read_entries(bytes@, start as int, Seq::empty()) == Ok::<
                (Entries, int),
                int,
            >((dict@, next as int)) && start < next <= bytes.len() && keys_ascending(dict@)
                && values_wf(dict@),
            Err(offset) => read_entries(bytes@, start as int, Seq::empty()) == Err::<
                (Entries, int),
                int,
            >(offset as int) && offset <= bytes.len(),
        },
    decreases bytes.len() - start, 1int,
{
    let mut entries: Vec<(Vec<u8>, BencodeValue)> = Vec::new();
    let mut pos: usize = start;
    assert(entries_model(entries@) =~= Seq::<(Seq<u8>, Bencode)>::empty());
    loop
        invariant
            start <= pos <= bytes.len(),
            read_entries(bytes@, start as int, Seq::empty()) == read_entries(
                bytes@,
                pos as int,
                entries_model(entries@),
            ),
            keys_ascending(entries_model(entries@)),
            values_wf(entries_model(entries@)),
        decreases bytes.len() - pos,
    {
        if pos >= bytes.len() {
            return Err(bytes.len());
        }
        if bytes[pos] == END_TAG {
            let dict = BencodeDict::from_ascending(entries);
            return Ok((dict, pos + 1));
        }
        if !byte_is_digit(bytes[pos]) {
            return Err(pos);
        }
        let (key, value_pos) = match parse_bytes(bytes, pos) {
            Ok(read) => read,
            Err(offset) => {
                return Err(offset);
            },
        };
        let (position, present) = find_position(&entries, key.as_slice());
        if present {
            return Err(pos);
        }
        match parse_value(bytes, value_pos) {
            Ok((value, next)) => {
                let ghost before = entries_model(entries@);
                let ghost key_model = key@;
                let ghost value_model = value@;
                proof {
                    lemma_insert_entry_ascending(before, key_model, value_model);
                    lemma_insert_position(before, key_model);
                }
                entries.insert(position, (key, value));
                assert(entries_model(entries@) =~= insert_entry(before, key_model, value_model));
                assert(values_wf(entries_model(entries@))) by {
                    let after = entries_model(entries@);
                    assert forall|k: int| 0 <= k < after.len() implies (#[trigger] after[k]).1.wf() by {
                        if k < position {
                            assert(after[k] == before[k]);
                        } else if k > position {
                            assert(after[k] == before[k - 1]);
                        }
                    }
                }
                pos = next;
            },
            Err(offset) => {
                return Err(offset);
            },
        }
    }
}

/// Reads the value that `bytes` start with. Fails with `MalformedEncoding`
/// and the offset of the fault where the bytes break the grammar: a byte
/// that can open no value, a length or an integer that is no number, an
/// integer beyond 64 signed bits, a list or dictionary that is not closed, a
/// dictionary key that is no byte string or stands twice, or bytes that end
/// too early. Bytes behind the value are not looked at.
pub fn parse(bytes: &[u8]) -> (r: Result<BencodeValue, ParseError>)
    ensures
        match r {
            Ok(v) => decode(bytes@) == Ok::<Bencode, int>(v@) && v@.wf(),
            Err(e) => e matches ParseError::MalformedEncoding { offset } && decode(bytes@) == Err::<
                Bencode,
                int,
            >(offset as int),
        },
{
    match parse_value(bytes, 0) {
        Ok((v, _)) => Ok(v),
        Err(offset) => Err(ParseError::MalformedEncoding { offset }),
    }
}

} // verus!
