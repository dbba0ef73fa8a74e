//! What holds of reading and writing together.

use vstd::prelude::*;
use crate::decimal::{decimal_digits, is_digit, lemma_decimal_digits, lemma_digits_end};
use crate::bencode::grammar::{
    decode, encode, encode_bytes, encode_entries, encode_integer, encode_items, read_bytes,
    read_entries, read_integer, read_items, read_value, DICT_TAG, END_TAG, INTEGER_TAG, LENGTH_END,
    LIST_TAG, MINUS,
};
use crate::bencode::model::{key_lt, keys_ascending, lemma_insert_at_end, Bencode, Entries};

verus! {

/// Whether the bytes `part` stand in `s` from position `pos` on.
pub open spec fn stands_at(s: Seq<u8>, pos: int, part: Seq<u8>) -> bool {
    0 <= pos && pos + part.len() <= s.len() && s.subrange(pos, pos + part.len()) == part
}

/// Whether `bytes` is the canonical writing of some valid value.
pub open spec fn is_canonical(bytes: Seq<u8>) -> bool {
    exists|v: Bencode| #[trigger] v.wf() && encode(v) == bytes
}

/// Where `a + b` stands, `a` stands and `b` stands behind it.
pub proof fn lemma_stands_at_split(s: Seq<u8>, pos: int, a: Seq<u8>, b: Seq<u8>)
    requires
        stands_at(s, pos, a + b),
    ensures
        stands_at(s, pos, a),
        stands_at(s, pos + a.len(), b),
{
    let whole = s.subrange(pos, pos + (a + b).len());
    assert forall|j: int| 0 <= j < a.len() implies s[pos + j] == a[j] by {
        assert(whole[j] == (a + b)[j]);
    }
    assert forall|j: int| 0 <= j < b.len() implies s[pos + a.len() + j] == b[j] by {
        assert(whole[a.len() + j] == (a + b)[a.len() + j]);
    }
    assert(s.subrange(pos, pos + a.len()) =~= a);
    assert(s.subrange(pos + a.len(), pos + a.len() + b.len()) =~= b);
}

/// The bytes of a value open with a byte that tells its kind, and that
/// byte never closes a list.
pub proof fn lemma_encode_opening(v: Bencode)
    ensures
        encode(v).len() >= 2,
        match v {
            Bencode::Integer(_) => encode(v)[0] == INTEGER_TAG,
            Bencode::Bytes(_) => is_digit(encode(v)[0]),
            Bencode::List(_) => encode(v)[0] == LIST_TAG,
            Bencode::Dict(_) => encode(v)[0] == DICT_TAG,
        },
        encode(v)[0] != END_TAG,
{
    match v {
        Bencode::Integer(i) => {
            if i < 0 {
                lemma_decimal_digits((-i) as nat);
            } else {
                lemma_decimal_digits(i as nat);
            }
        },
        Bencode::Bytes(b) => {
            lemma_decimal_digits(b.len());
            let digits = decimal_digits(b.len());
            assert(encode(v)[0] == digits[0]);
        },
        Bencode::List(_) => {},
        Bencode::Dict(_) => {},
    }
}

/// A written integer is read back as the same integer.
pub proof fn lemma_read_written_integer(s: Seq<u8>, pos: int, i: int)
    requires
        i64::MIN <= i <= i64::MAX,
        stands_at(s, pos, encode_integer(i)),
    ensures
        read_integer(s, pos) == Ok::<(int, int), int>((i, pos + encode_integer(i).len())),
{
    let written = encode_integer(i);
    let magnitude: nat = if i < 0 { (-i) as nat } else { i as nat };
    let digits = decimal_digits(magnitude);
    lemma_decimal_digits(magnitude);
    let first = if i < 0 { pos + 2 } else { pos + 1 };
    let end = first + digits.len();
    let whole = s.subrange(pos, pos + written.len());
    assert forall|j: int| 0 <= j < written.len() implies s[pos + j] == written[j] by {
        assert(whole[j] == written[j]);
    }
    assert(s[pos] == INTEGER_TAG) by {
        assert(s[pos + 0] == written[0]);
    }
    if i < 0 {
        assert(s[pos + 1] == MINUS) by {
            assert(s[pos + 1] == written[1]);
        }
    } else {
        assert(is_digit(s[pos + 1])) by {
            assert(s[pos + 1] == written[1]);
            assert(written[1] == digits[0]);
        }
    }
    assert forall|j: int| first <= j < end implies is_digit(#[trigger] s[j]) by {
        assert(s[pos + (j - pos)] == written[j - pos]);
        assert(written[j - pos] == digits[j - first]);
    }
    assert(s[end] == END_TAG) by {
        assert(s[pos + (end - pos)] == written[end - pos]);
    }
    lemma_digits_end(s, first, end);
    assert(s.subrange(first, end) =~= digits) by {
        assert forall|j: int| 0 <= j < digits.len() implies s.subrange(first, end)[j]
            == digits[j] by {
            assert(s[pos + (first + j - pos)] == written[first + j - pos]);
        }
    }
}

/// A written byte string is read back as the same bytes.
pub proof fn lemma_read_written_bytes(s: Seq<u8>, pos: int, b: Seq<u8>)
    requires
        stands_at(s, pos, encode_bytes(b)),
    ensures
        read_bytes(s, pos) == Ok::<(Seq<u8>, int), int>((b, pos + encode_bytes(b).len())),
        is_digit(s[pos]),
{
    let written = encode_bytes(b);
    let digits = decimal_digits(b.len());
    lemma_decimal_digits(b.len());
    let end = pos + digits.len();
    let whole = s.subrange(pos, pos + written.len());
    assert forall|j: int| 0 <= j < written.len() implies s[pos + j] == written[j] by {
        assert(whole[j] == written[j]);
    }
    assert forall|j: int| pos <= j < end implies is_digit(#[trigger] s[j]) by {
        assert(s[pos + (j - pos)] == written[j - pos]);
        assert(written[j - pos] == digits[j - pos]);
    }
    assert(s[end] == LENGTH_END) by {
        assert(s[pos + (end - pos)] == written[end - pos]);
    }
    lemma_digits_end(s, pos, end);
    assert(s.subrange(pos, end) =~= digits) by {
        assert forall|j: int| 0 <= j < digits.len() implies s.subrange(pos, end)[j]
            == digits[j] by {
            assert(s[pos + j] == written[j]);
        }
    }
    assert(s.subrange(end + 1, end + 1 + b.len()) =~= b) by {
        assert forall|j: int| 0 <= j < b.len() implies s.subrange(end + 1, end + 1 + b.len())[j]
            == b[j] by {
            assert(s[pos + (end + 1 + j - pos)] == written[end + 1 + j - pos]);
        }
    }
}

/// A written valid value is read back as the same value, wherever its
/// bytes stand and whatever follows them.
pub proof fn lemma_read_written_value(s: Seq<u8>, pos: int, v: Bencode)
    requires
        v.wf(),
        stands_at(s, pos, encode(v)),
    ensures
        read_value(s, pos) == Ok::<(Bencode, int), int>((v, pos + encode(v).len())),
    decreases v, 0int,
{
    lemma_encode_opening(v);
    let written = encode(v);
    assert(s[pos] == written[0]) by {
        assert(s.subrange(pos, pos + written.len())[0] == written[0]);
    }
    match v {
        Bencode::Integer(i) => {
            lemma_read_written_integer(s, pos, i);
        },
        Bencode::Bytes(b) => {
            lemma_read_written_bytes(s, pos, b);
        },
        Bencode::List(items) => {
            let inner = encode_items(items) + seq![END_TAG];
            assert(written =~= seq![LIST_TAG] + inner);
            lemma_stands_at_split(s, pos, seq![LIST_TAG], inner);
            assert(items.skip(0) =~= items);
            lemma_read_written_items(s, pos + 1, items, 0, Seq::empty());
            assert(Seq::<Bencode>::empty() + items =~= items);
        },
        Bencode::Dict(entries) => {
            let inner = encode_entries(entries) + seq![END_TAG];
            assert(written =~= seq![DICT_TAG] + inner);
            lemma_stands_at_split(s, pos, seq![DICT_TAG], inner);
            assert(entries.skip(0) =~= entries);
            lemma_read_written_entries(s, pos + 1, entries, 0, Seq::empty());
            assert(Seq::<(Seq<u8>, Bencode)>::empty() + entries =~= entries);
        },
    }
}

/// Written list items, closed by `e`, are read back in their order behind
/// the items read before.
pub proof fn lemma_read_written_items(
    s: Seq<u8>,
    pos: int,
    items: Seq<Bencode>,
    from: int,
    read: Seq<Bencode>,
)
    requires
        0 <= from <= items.len(),
        forall|k: int| 0 <= k < items.len() ==> (#[trigger] items[k]).wf(),
        stands_at(s, pos, encode_items(items.skip(from)) + seq![END_TAG]),
    ensures
        read_items(s, pos, read) == Ok::<(Seq<Bencode>, int), int>(
            (read + items.skip(from), pos + encode_items(items.skip(from)).len() + 1),
        ),
    decreases items, items.len() - from,
{
    let rest = items.skip(from);
    let closing = seq![END_TAG];
    if from == items.len() {
        assert(encode_items(rest) + closing =~= closing);
        assert(s[pos] == END_TAG) by {
            assert(s.subrange(pos, pos + 1)[0] == closing[0]);
        }
        assert(read + rest =~= read);
    } else {
        let item = items[from];
        assert(rest[0] == item);
        assert(rest.drop_first() =~= items.skip(from + 1));
        let tail = encode_items(items.skip(from + 1)) + closing;
        assert(encode_items(rest) + closing =~= encode(item) + tail);
        lemma_stands_at_split(s, pos, encode(item), tail);
        lemma_encode_opening(item);
        assert(s[pos] == encode(item)[0]) by {
            assert(s.subrange(pos, pos + encode(item).len())[0] == encode(item)[0]);
        }
        lemma_read_written_value(s, pos, item);
        lemma_read_written_items(s, pos + encode(item).len(), items, from + 1, read.push(item));
        assert(read.push(item) + items.skip(from + 1) =~= read + rest);
    }
}

/// Written dictionary entries with ascending keys, closed by `e`, are read
/// back in their order behind the entries read before, if the keys of
/// those come before theirs.
pub proof fn lemma_read_written_entries(
    s: Seq<u8>,
    pos: int,
    entries: Entries,
    from: int,
    read: Entries,
)
    requires
        0 <= from <= entries.len(),
        keys_ascending(entries),
        forall|k: int| 0 <= k < entries.len() ==> (#[trigger] entries[k]).1.wf(),
        forall|r: int, k: int|
            0 <= r < read.len() && from <= k < entries.len() ==> key_lt(
                (#[trigger] read[r]).0,
                (#[trigger] entries[k]).0,
            ),
        stands_at(s, pos, encode_entries(entries.skip(from)) + seq![END_TAG]),
    ensures
        read_entries(s, pos, read) == Ok::<(Entries, int), int>(
            (read + entries.skip(from), pos + encode_entries(entries.skip(from)).len() + 1),
        ),
    decreases entries, entries.len() - from,
{
    let rest = entries.skip(from);
    let closing = seq![END_TAG];
    if from == entries.len() {
        assert(encode_entries(rest) + closing =~= closing);
        assert(s[pos] == END_TAG) by {
            assert(s.subrange(pos, pos + 1)[0] == closing[0]);
        }
        assert(read + rest =~= read);
    } else {
        let key = entries[from].0;
        let value = entries[from].1;
        assert(rest[0] == entries[from]);
        assert(rest.drop_first() =~= entries.skip(from + 1));
        let tail = encode_entries(entries.skip(from + 1)) + closing;
        let value_and_tail = encode(value) + tail;
        assert(encode_entries(rest) + closing =~= encode_bytes(key) + value_and_tail);
        lemma_stands_at_split(s, pos, encode_bytes(key), value_and_tail);
        lemma_read_written_bytes(s, pos, key);
        let value_pos = pos + encode_bytes(key).len();
        lemma_stands_at_split(s, value_pos, encode(value), tail);
        lemma_read_written_value(s, value_pos, value);
        lemma_encode_opening(value);
        assert forall|r: int| 0 <= r < read.len() implies key_lt((#[trigger] read[r]).0, key) by {
            assert(key_lt(read[r].0, entries[from].0));
        }
        lemma_insert_at_end(read, key, value);
        let grown = read.push((key, value));
        assert forall|r: int, k: int|
            0 <= r < grown.len() && from + 1 <= k < entries.len() implies key_lt(
            (#[trigger] grown[r]).0,
            (#[trigger] entries[k]).0,
        ) by {
            if r == read.len() {
                assert(key_lt(entries[from].0, entries[k].0));
            } else {
                assert(grown[r] == read[r]);
            }
        }
        lemma_read_written_entries(s, value_pos + encode(value).len(), entries, from + 1, grown);
        assert(grown + entries.skip(from + 1) =~= read + rest);
    }
}

/// Reading what was written gives the value back: for every valid value
/// `v`, the canonical bytes of `v` are read as `v`.
pub proof fn law_read_written(v: Bencode)
    requires
        v.wf(),
    ensures
        decode(encode(v)) == Ok::<Bencode, int>(v),
{
    let bytes = encode(v);
    assert(bytes.subrange(0, bytes.len() as int) =~= bytes);
    lemma_read_written_value(bytes, 0, v);
}

/// Writing what was read gives the bytes back, if they were canonical:
/// canonical bytes are read without error, and the value read is written
/// as the same bytes.
pub proof fn law_write_read_canonical(bytes: Seq<u8>)
    requires
        is_canonical(bytes),
    ensures
        decode(bytes) is Ok,
        encode(decode(bytes)->Ok_0) == bytes,
{
    let v = choose|v: Bencode| #[trigger] v.wf() && encode(v) == bytes;
    law_read_written(v);
}

} // verus!
