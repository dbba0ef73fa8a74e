//! The mathematical model of a bencode value, and the order on dictionary
//! keys.

use vstd::prelude::*;

verus! {

/// A bencode value as a mathematical tree. A dictionary is the sequence of
/// its entries; in a valid value the keys ascend strictly, so that a
/// dictionary has one representation and no key occurs twice.
pub enum Bencode {
    Integer(int),
    Bytes(Seq<u8>),
    List(Seq<Bencode>),
    Dict(Seq<(Seq<u8>, Bencode)>),
}

/// The entries of a dictionary: pairs of key and value.
pub type Entries = Seq<(Seq<u8>, Bencode)>;

/// Lexicographic order on raw bytes, looking only at positions from `i` on.
pub open spec fn key_lt_from(a: Seq<u8>, b: Seq<u8>, i: int) -> bool
    decreases a.len() - i,
{
    if i < 0 || i >= b.len() {
        false
    } else if i >= a.len() {
        true
    } else if a[i] != b[i] {
        a[i] < b[i]
    } else {
        key_lt_from(a, b, i + 1)
    }
}

/// Whether `a` comes strictly before `b` in the lexicographic order on raw
/// bytes: the order of dictionary keys.
pub open spec fn key_lt(a: Seq<u8>, b: Seq<u8>) -> bool {
    key_lt_from(a, b, 0)
}

/// Whether the keys of `entries` ascend strictly.
pub open spec fn keys_ascending(entries: Entries) -> bool {
    forall|i: int, j: int|
        0 <= i < j < entries.len() ==> key_lt((#[trigger] entries[i]).0, (#[trigger] entries[j]).0)
}

/// Whether some entry of `entries` has the key `key`.
pub open spec fn has_key(entries: Entries, key: Seq<u8>) -> bool {
    exists|i: int| 0 <= i < entries.len() && (#[trigger] entries[i]).0 == key
}

/// The value of the first entry at or after position `i` whose key is `key`.
pub open spec fn lookup_from(entries: Entries, key: Seq<u8>, i: int) -> Option<Bencode>
    decreases entries.len() - i,
{
    if i < 0 || i >= entries.len() {
        None
    } else if entries[i].0 == key {
        Some(entries[i].1)
    } else {
        lookup_from(entries, key, i + 1)
    }
}

/// The value that `entries` holds under `key`, if any.
pub open spec fn lookup(entries: Entries, key: Seq<u8>) -> Option<Bencode> {
    lookup_from(entries, key, 0)
}

/// Where a new entry with key `key` belongs among ascending `entries`: behind
/// the last entry whose key comes before `key`.
pub open spec fn insert_position(entries: Entries, key: Seq<u8>) -> int
    decreases entries.len(),
{
    if entries.len() == 0 {
        0
    } else if key_lt(entries.last().0, key) {
        entries.len() as int
    } else {
        insert_position(entries.drop_last(), key)
    }
}

/// `entries` with the entry `(key, value)` put at its place in the order.
pub open spec fn insert_entry(entries: Entries, key: Seq<u8>, value: Bencode) -> Entries {
    entries.insert(insert_position(entries, key), (key, value))
}

impl Bencode {
    /// Whether the value is valid: every integer fits in 64 signed bits and
    /// the keys of every dictionary ascend strictly.
    pub open spec fn wf(self) -> bool
        decreases self,
    {
        match self {
            Bencode::Integer(i) => i64::MIN <= i <= i64::MAX,
            Bencode::Bytes(_) => true,
            Bencode::List(items) => forall|k: int|
                0 <= k < items.len() ==> (#[trigger] items[k]).wf(),
            Bencode::Dict(entries) => keys_ascending(entries) && forall|k: int|
                0 <= k < entries.len() ==> (#[trigger] entries[k]).1.wf(),
        }
    }
}

/// No key comes before itself.
pub proof fn lemma_key_lt_irreflexive(a: Seq<u8>)
    ensures
        !key_lt(a, a),
{
    lemma_key_lt_from_irreflexive(a, 0);
}

proof fn lemma_key_lt_from_irreflexive(a: Seq<u8>, i: int)
    requires
        0 <= i,
    ensures
        !key_lt_from(a, a, i),
    decreases a.len() - i,
{
    if i < a.len() {
        lemma_key_lt_from_irreflexive(a, i + 1);
    }
}

/// The order on keys is transitive.
pub proof fn lemma_key_lt_transitive(a: Seq<u8>, b: Seq<u8>, c: Seq<u8>)
    requires
        key_lt(a, b),
        key_lt(b, c),
    ensures
        key_lt(a, c),
{
    lemma_key_lt_from_transitive(a, b, c, 0);
}

proof fn lemma_key_lt_from_transitive(a: Seq<u8>, b: Seq<u8>, c: Seq<u8>, i: int)
    requires
        0 <= i,
        key_lt_from(a, b, i),
        key_lt_from(b, c, i),
    ensures
        key_lt_from(a, c, i),
    decreases a.len() - i,
{
    if i < a.len() && i < b.len() && i < c.len() && a[i] == b[i] && b[i] == c[i] {
        lemma_key_lt_from_transitive(a, b, c, i + 1);
    }
}

/// Of two different keys one comes before the other.
pub proof fn lemma_key_lt_total(a: Seq<u8>, b: Seq<u8>)
    ensures
        key_lt(a, b) || a == b || key_lt(b, a),
{
    assert(a.subrange(0, 0) =~= b.subrange(0, 0));
    lemma_key_lt_from_total(a, b, 0);
}

proof fn lemma_key_lt_from_total(a: Seq<u8>, b: Seq<u8>, i: int)
    requires
        0 <= i <= a.len(),
        i <= b.len(),
        a.subrange(0, i) == b.subrange(0, i),
    ensures
        key_lt_from(a, b, i) || a == b || key_lt_from(b, a, i),
    decreases a.len() - i,
{
    if i < a.len() && i < b.len() && a[i] == b[i] {
        assert(a.subrange(0, i + 1) =~= a.subrange(0, i).push(a[i]));
        assert(b.subrange(0, i + 1) =~= b.subrange(0, i).push(b[i]));
        lemma_key_lt_from_total(a, b, i + 1);
    } else if i == a.len() && i == b.len() {
        assert(a =~= a.subrange(0, i));
        assert(b =~= b.subrange(0, i));
    }
}

/// Among ascending entries, those before the insert position of `key` have
/// keys before `key`, and the others have not.
pub proof fn lemma_insert_position(entries: Entries, key: Seq<u8>)
    requires
        keys_ascending(entries),
    ensures
        0 <= insert_position(entries, key) <= entries.len(),
        forall|i: int|
            0 <= i < insert_position(entries, key) ==> key_lt((#[trigger] entries[i]).0, key),
        forall|i: int|
            insert_position(entries, key) <= i < entries.len() ==> !key_lt(
                (#[trigger] entries[i]).0,
                key,
            ),
    decreases entries.len(),
{
    if entries.len() == 0 {
    } else if key_lt(entries.last().0, key) {
        assert forall|i: int| 0 <= i < entries.len() implies key_lt(
            (#[trigger] entries[i]).0,
            key,
        ) by {
            if i < entries.len() - 1 {
                lemma_key_lt_transitive(entries[i].0, entries.last().0, key);
            }
        }
    } else {
        let front = entries.drop_last();
        assert(keys_ascending(front)) by {
            assert forall|i: int, j: int| 0 <= i < j < front.len() implies key_lt(
                (#[trigger] front[i]).0,
                (#[trigger] front[j]).0,
            ) by {
                assert(front[i] == entries[i] && front[j] == entries[j]);
            }
        }
        lemma_insert_position(front, key);
        let p = insert_position(front, key);
        assert forall|i: int| 0 <= i < p implies key_lt((#[trigger] entries[i]).0, key) by {
            assert(front[i] == entries[i]);
        }
        assert forall|i: int| p <= i < entries.len() implies !key_lt(
            (#[trigger] entries[i]).0,
            key,
        ) by {
            if i < entries.len() - 1 {
                assert(front[i] == entries[i]);
            }
        }
    }
}

/// Putting a new key at its insert position keeps the keys ascending.
pub proof fn lemma_insert_entry_ascending(entries: Entries, key: Seq<u8>, value: Bencode)
    requires
        keys_ascending(entries),
        !has_key(entries, key),
    ensures
        keys_ascending(insert_entry(entries, key, value)),
{
    lemma_insert_position(entries, key);
    let p = insert_position(entries, key);
    let after = insert_entry(entries, key, value);
    assert forall|i: int, j: int| 0 <= i < j < after.len() implies key_lt(
        (#[trigger] after[i]).0,
        (#[trigger] after[j]).0,
    ) by {
        if j == p {
            assert(after[i] == entries[i]);
        } else if i == p {
            assert(after[j] == entries[j - 1]);
            lemma_key_lt_total(entries[j - 1].0, key);
        } else {
            let oi = if i < p { i } else { i - 1 };
            let oj = if j < p { j } else { j - 1 };
            assert(after[i] == entries[oi]);
            assert(after[j] == entries[oj]);
        }
    }
}

/// Behind entries whose keys all come before `key`, the insert position of
/// `key` is the end.
pub proof fn lemma_insert_at_end(entries: Entries, key: Seq<u8>, value: Bencode)
    requires
        forall|i: int| 0 <= i < entries.len() ==> key_lt((#[trigger] entries[i]).0, key),
    ensures
        !has_key(entries, key),
        insert_entry(entries, key, value) == entries.push((key, value)),
{
    assert(!has_key(entries, key)) by {
        if has_key(entries, key) {
            let i = choose|i: int| 0 <= i < entries.len() && (#[trigger] entries[i]).0 == key;
            lemma_key_lt_irreflexive(key);
        }
    }
    if entries.len() > 0 {
        assert(key_lt(entries[entries.len() - 1].0, key));
    }
    assert(insert_entry(entries, key, value) =~= entries.push((key, value)));
}

/// In ascending entries the entry at position `i` is the one that `lookup`
/// finds under its key.
pub proof fn lemma_lookup_ascending(entries: Entries, i: int)
    requires
        keys_ascending(entries),
        0 <= i < entries.len(),
    ensures
        lookup(entries, entries[i].0) == Some(entries[i].1),
{
    lemma_lookup_from(entries, i, 0);
}

proof fn lemma_lookup_from(entries: Entries, i: int, start: int)
    requires
        keys_ascending(entries),
        0 <= start <= i < entries.len(),
    ensures
        lookup_from(entries, entries[i].0, start) == Some(entries[i].1),
    decreases i - start,
{
    if start < i {
        assert(key_lt(entries[start].0, entries[i].0));
        lemma_key_lt_irreflexive(entries[i].0);
        lemma_lookup_from(entries, i, start + 1);
    }
}

/// `lookup` finds a value exactly under the keys that occur.
pub proof fn lemma_lookup_has_key(entries: Entries, key: Seq<u8>)
    ensures
        lookup(entries, key) is Some <==> has_key(entries, key),
{
    lemma_lookup_from_has_key(entries, key, 0);
}

proof fn lemma_lookup_from_has_key(entries: Entries, key: Seq<u8>, start: int)
    requires
        0 <= start,
    ensures
        lookup_from(entries, key, start) is Some <==> exists|i: int|
            start <= i < entries.len() && (#[trigger] entries[i]).0 == key,
    decreases entries.len() - start,
{
    if start < entries.len() {
        if entries[start].0 == key {
        } else {
            lemma_lookup_from_has_key(entries, key, start + 1);
            if exists|i: int| start <= i < entries.len() && (#[trigger] entries[i]).0 == key {
                let i = choose|i: int|
                    start <= i < entries.len() && (#[trigger] entries[i]).0 == key;
                assert(start + 1 <= i);
            }
        }
    }
}

} // verus!
