//! Writing a value as its canonical bytes.

use vstd::prelude::*;
use crate::decimal::push_decimal;
use crate::bencode::grammar::{
    encode, encode_bytes, encode_entries, encode_integer, encode_items, DICT_TAG, END_TAG,
    INTEGER_TAG, LENGTH_END, LIST_TAG, MINUS,
};
use crate::bencode::model::{Bencode, Entries};
use crate::bencode::value::{entries_model, items_model, lemma_list_view, BencodeValue};

verus! {

/// The bytes of items are the bytes of all but the last, then those of the
/// last.
pub proof fn lemma_encode_items_push(items: Seq<Bencode>, last: Bencode)
    ensures
        encode_items(items.push(last)) == encode_items(items) + encode(last),
    decreases items.len(),
{
    let all = items.push(last);
    if items.len() == 0 {
        assert(all.drop_first() =~= Seq::<Bencode>::empty());
        assert(all[0] == last);
        assert(encode_items(all.drop_first()) =~= Seq::<u8>::empty());
        assert(encode_items(all) =~= encode(last));
        assert(encode_items(items) + encode(last) =~= encode(last));
    } else {
        assert(all.drop_first() =~= items.drop_first().push(last));
        lemma_encode_items_push(items.drop_first(), last);
        assert(encode_items(all) =~= encode_items(items) + encode(last));
    }
}

/// The bytes of entries are the bytes of all but the last, then those of
/// the last.
pub proof fn lemma_encode_entries_push(entries: Entries, last: (Seq<u8>, Bencode))
    ensures
        encode_entries(entries.push(last)) == encode_entries(entries) + encode_bytes(last.0)
            + encode(last.1),
    decreases entries.len(),
{
    let all = entries.push(last);
    if entries.len() == 0 {
        assert(all.drop_first() =~= Seq::<(Seq<u8>, Bencode)>::empty());
        assert(all[0] == last);
        assert(encode_entries(all.drop_first()) =~= Seq::<u8>::empty());
        assert(encode_entries(all) =~= encode_bytes(last.0) + encode(last.1));
        assert(encode_entries(entries) + encode_bytes(last.0) + encode(last.1) =~= encode_bytes(
            last.0,
        ) + encode(last.1));
    } else {
        assert(all.drop_first() =~= entries.drop_first().push(last));
        lemma_encode_entries_push(entries.drop_first(), last);
        assert(encode_entries(all) =~= encode_entries(entries) + encode_bytes(last.0) + encode(
            last.1,
        ));
    }
}

/// Appends the bytes of the integer `i` to `out`.
pub fn write_integer(out: &mut Vec<u8>, i: i64)
    ensures
        final(out)@ == old(out)@ + encode_integer(i as int),
{
    out.push(INTEGER_TAG);
    if i < 0 {
        out.push(MINUS);
        let magnitude: u128 = (-(i + 1)) as u128 + 1;
        push_decimal(out, magnitude);
    } else {
        push_decimal(out, i as u128);
    }
    out.push(END_TAG);
    assert(out@ =~= old(out)@ + encode_integer(i as int));
}

/// Appends the bytes of the byte string `b` to `out`.
pub fn write_bytes(out: &mut Vec<u8>, b: &[u8])
    ensures
        final(out)@ == old(out)@ + encode_bytes(b@),
{
    push_decimal(out, b.len() as u128);
    out.push(LENGTH_END);
    let ghost head = out@;
    let mut i: usize = 0;
    while i < b.len()
        invariant
            i <= b.len(),
            out@ == head + b@.subrange(0, i as int),
        decreases b.len() - i,
    {
        out.push(b[i]);
        assert(b@.subrange(0, i + 1) =~= b@.subrange(0, i as int).push(b@[i as int]));
        i = i + 1;
    }
    assert(b@.subrange(0, b.len() as int) =~= b@);
    assert(out@ =~= old(out)@ + encode_bytes(b@));
}

/// Appends the canonical bytes of `value` to `out`.
pub fn write_value(out: &mut Vec<u8>, value: &BencodeValue)
    ensures
        final(out)@ == old(out)@ + encode(value@),
        value@.wf(),
    decreases value,
{
    match value {
        BencodeValue::Integer(i) => {
            write_integer(out, *i);
        },
        BencodeValue::ByteString(b) => {
            write_bytes(out, b.as_slice());
        },
        BencodeValue::List(items) => {
            proof {
                lemma_list_view(*items);
            }
            out.push(LIST_TAG);
            let ghost model = items_model(items@);
            let mut i: usize = 0;
            assert(model.subrange(0, 0) =~= Seq::<Bencode>::empty());
            while i < items.len()
                invariant
                    i <= items.len(),
                    model == items_model(items@),
                    out@ == old(out)@ + seq![LIST_TAG] + encode_items(model.subrange(0, i as int)),
                    forall|k: int| 0 <= k < i ==> (#[trigger] model[k]).wf(),
                    decreases_to!(value => items),
                decreases items.len() - i,
            {
                write_value(out, &items[i]);
                proof {
                    lemma_encode_items_push(model.subrange(0, i as int), model[i as int]);
                    assert(model.subrange(0, i + 1) =~= model.subrange(0, i as int).push(
                        model[i as int],
                    ));
                }
                i = i + 1;
            }
            out.push(END_TAG);
            assert(model.subrange(0, items.len() as int) =~= model);
            assert(out@ =~= old(out)@ + encode(value@));
        },
        BencodeValue::Dict(dict) => {
            let entries = dict.entries();
            out.push(DICT_TAG);
            let ghost model = entries_model(entries@);
            let mut i: usize = 0;
            assert(model.subrange(0, 0) =~= Seq::<(Seq<u8>, Bencode)>::empty());
            while i < entries.len()
                invariant
                    i <= entries.len(),
                    model == entries_model(entries@),
                    out@ == old(out)@ + seq![DICT_TAG] + encode_entries(
                        model.subrange(0, i as int),
                    ),
                    forall|k: int| 0 <= k < i ==> (#[trigger] model[k]).1.wf(),
                    decreases_to!(value => entries),
                decreases entries.len() - i,
            {
                write_bytes(out, entries[i].0.as_slice());
                write_value(out, &entries[i].1);
                proof {
                    lemma_encode_entries_push(model.subrange(0, i as int), model[i as int]);
                    assert(model.subrange(0, i + 1) =~= model.subrange(0, i as int).push(
                        model[i as int],
                    ));
                }
                i = i + 1;
            }
            out.push(END_TAG);
            assert(model.subrange(0, entries.len() as int) =~= model);
            assert(out@ =~= old(out)@ + encode(value@));
        },
    }
}

/// The canonical bytes of `value`: integers in the shortest decimal
/// notation, byte strings behind their length, dictionary entries in
/// ascending order of their keys.
pub fn serialize(value: &BencodeValue) -> (bytes: Vec<u8>)
    ensures
        bytes@ == encode(value@),
        value@.wf(),
{
    let mut out: Vec<u8> = Vec::new();
    write_value(&mut out, value);
    assert(out@ =~= encode(value@));
    out
}

} // verus!
