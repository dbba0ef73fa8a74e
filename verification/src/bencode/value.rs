//! Bencode values in memory.

use vstd::prelude::*;
use crate::bencode::model::{
    has_key, insert_entry, insert_position, key_lt, key_lt_from, keys_ascending,
    lemma_insert_entry_ascending, lemma_key_lt_irreflexive, lemma_key_lt_transitive,
    lemma_lookup_ascending, lemma_lookup_has_key, lookup, Bencode, Entries,
};

verus! {

/// A bencode value: an integer, a byte string, a list or a dictionary.
#[derive(Debug, PartialEq, Eq)]
pub enum BencodeValue {
    Integer(i64),
    ByteString(Vec<u8>),
    List(Vec<BencodeValue>),
    Dict(BencodeDict),
}

/// A bencode dictionary: byte-string keys, each at most once, held in
/// ascending order of the raw key bytes.
#[derive(Debug, PartialEq, Eq)]
pub struct BencodeDict {
    entries: Vec<(Vec<u8>, BencodeValue)>,
}

/// How one key stands to another in the order of dictionary keys.
#[derive(Clone, Copy, Debug, PartialEq, Eq)]
pub enum KeyOrder {
    Before,
    Same,
    After,
}

/// What a sequence of entries in memory stands for.
pub open spec fn entries_model(entries: Seq<(Vec<u8>, BencodeValue)>) -> Entries {
    Seq::new(entries.len(), |i: int| (entries[i].0@, entries[i].1@))
}

/// What a sequence of list items in memory stands for.
pub open spec fn items_model(items: Seq<BencodeValue>) -> Seq<Bencode> {
    Seq::new(items.len(), |i: int| items[i]@)
}

impl View for BencodeValue {
    type V = Bencode;

    open spec fn view(&self) -> Bencode
        decreases self,
    {
        match self {
            BencodeValue::Integer(i) => Bencode::Integer(*i as int),
            BencodeValue::ByteString(b) => Bencode::Bytes(b@),
            BencodeValue::List(items) => Bencode::List(
                Seq::new(
                    items.len() as nat,
                    |i: int|
                        if 0 <= i < items.len() {
                            items[i].view()
                        } else {
                            Bencode::Integer(0)
                        },
                ),
            ),
            BencodeValue::Dict(d) => Bencode::Dict(d.view()),
        }
    }
}

impl View for BencodeDict {
    type V = Entries;

    closed spec fn view(&self) -> Entries
        decreases self,
    {
        Seq::new(
            self.entries.len() as nat,
            |i: int|
                if 0 <= i < self.entries.len() {
                    (self.entries[i].0@, self.entries[i].1.view())
                } else {
                    (Seq::empty(), Bencode::Integer(0))
                },
        )
    }
}

/// A dictionary stands for the entries that it holds.
proof fn lemma_dict_view(dict: BencodeDict)
    ensures
        dict@ == entries_model(dict.entries@),
{
    assert(dict@ =~= entries_model(dict.entries@));
}

/// The view of a list is the view of its items.
pub proof fn lemma_list_view(items: Vec<BencodeValue>)
    ensures
        BencodeValue::List(items)@ == Bencode::List(items_model(items@)),
{
    assert(BencodeValue::List(items)@->List_0 =~= items_model(items@));
}

/// Tells how `a` stands to `b` in the order of dictionary keys.
pub fn key_order(a: &[u8], b: &[u8]) -> (r: KeyOrder)
    ensures
        r == KeyOrder::Before <==> key_lt(a@, b@),
        r == KeyOrder::Same <==> a@ == b@,
        r == KeyOrder::After <==> key_lt(b@, a@),
{
    let mut i: usize = 0;
    assert(a@.subrange(0, 0) =~= b@.subrange(0, 0));
    while i < a.len() && i < b.len()
        invariant
            i <= a.len(),
            i <= b.len(),
            a@.subrange(0, i as int) == b@.subrange(0, i as int),
            key_lt(a@, b@) == key_lt_from(a@, b@, i as int),
            key_lt(b@, a@) == key_lt_from(b@, a@, i as int),
        decreases a.len() - i,
    {
        if a[i] < b[i] {
            return KeyOrder::Before;
        }
        if a[i] > b[i] {
            return KeyOrder::After;
        }
        assert(a@.subrange(0, i + 1) =~= a@.subrange(0, i as int).push(a@[i as int]));
        assert(b@.subrange(0, i + 1) =~= b@.subrange(0, i as int).push(b@[i as int]));
        i = i + 1;
    }
    if i < b.len() {
        KeyOrder::Before
    } else if i < a.len() {
        KeyOrder::After
    } else {
        assert(a@ =~= a@.subrange(0, i as int));
        assert(b@ =~= b@.subrange(0, i as int));
        KeyOrder::Same
    }
}

impl BencodeDict {
    #[verifier::type_invariant]
    spec fn ascending(self) -> bool {
        keys_ascending(self@)
    }

    /// The dictionary without entries.
    pub fn new() -> (d: Self)
        ensures
            d@ == Seq::<(Seq<u8>, Bencode)>::empty(),
    {
        let d = BencodeDict { entries: Vec::new() };
        proof {
            lemma_dict_view(d);
        }
        d
    }

    /// The dictionary that holds `entries`, whose keys must ascend.
    pub(crate) fn from_ascending(entries: Vec<(Vec<u8>, BencodeValue)>) -> (d: Self)
        requires
            keys_ascending(entries_model(entries@)),
        ensures
            d@ == entries_model(entries@),
    {
        proof {
            lemma_dict_view(BencodeDict { entries });
        }
        BencodeDict { entries }
    }

    /// The entries in ascending order of their keys.
    pub fn entries(&self) -> (entries: &Vec<(Vec<u8>, BencodeValue)>)
        ensures
            self@ == entries_model(entries@),
            keys_ascending(self@),
            decreases_to!(self => entries),
    {
        proof {
            use_type_invariant(self);
            lemma_dict_view(*self);
        }
        &self.entries
    }

    /// The number of entries.
    pub fn len(&self) -> (n: usize)
        ensures
            n == self@.len(),
    {
        self.entries.len()
    }

    /// Whether the dictionary has no entry.
    pub fn is_empty(&self) -> (b: bool)
        ensures
            b == (self@.len() == 0),
    {
        self.entries.len() == 0
    }

    /// The value under `key`, if the dictionary has that key.
    pub fn get(&self, key: &[u8]) -> (found: Option<&BencodeValue>)
        ensures
            match found {
                Some(value) => lookup(self@, key@) == Some(value@),
                None => lookup(self@, key@) is None,
            },
    {
        proof {
            use_type_invariant(self);
        }
        let mut i: usize = 0;
        while i < self.entries.len()
            invariant
                i <= self.entries.len(),
                keys_ascending(self@),
                self@.len() == self.entries.len(),
                forall|k: int| 0 <= k < i ==> (#[trigger] self@[k]).0 != key@,
            decreases self.entries.len() - i,
        {
            match key_order(self.entries[i].0.as_slice(), key) {
                KeyOrder::Same => {
                    proof {
                        lemma_lookup_ascending(self@, i as int);
                    }
                    return Some(&self.entries[i].1);
                },
                _ => {},
            }
            i = i + 1;
        }
        proof {
            lemma_lookup_has_key(self@, key@);
        }
        None
    }

    /// Puts `value` under `key`, at the key's place in the order, and
    /// returns `true`. If the dictionary has the key already it stays as it
    /// is and the result is `false`.
    pub fn insert(&mut self, key: Vec<u8>, value: BencodeValue) -> (added: bool)
        ensures
            added == !has_key(old(self)@, key@),
            final(self)@ == if added {
                insert_entry(old(self)@, key@, value@)
            } else {
                old(self)@
            },
    {
        proof {
            use_type_invariant(&*self);
        }
        let mut entries: Vec<(Vec<u8>, BencodeValue)> = Vec::new();
        proof {
            lemma_dict_view(*self);
            lemma_dict_view(BencodeDict { entries });
        }
        core::mem::swap(&mut self.entries, &mut entries);
        let ghost before = entries_model(entries@);
        let (position, present) = find_position(&entries, key.as_slice());
        if !present {
            proof {
                lemma_insert_entry_ascending(before, key@, value@);
            }
            entries.insert(position, (key, value));
            assert(entries_model(entries@) =~= insert_entry(before, key@, value@));
        }
        proof {
            lemma_dict_view(BencodeDict { entries });
        }
        self.entries = entries;
        proof {
            lemma_dict_view(*self);
        }
        !present
    }
}

/// Tells whether `key` is among ascending `entries`, and if it is not,
/// where it belongs.
pub(crate) fn find_position(entries: &Vec<(Vec<u8>, BencodeValue)>, key: &[u8]) -> (r: (
    usize,
    bool,
))
    requires
        keys_ascending(entries_model(entries@)),
    ensures
        r.1 == has_key(entries_model(entries@), key@),
        !r.1 ==> r.0 == insert_position(entries_model(entries@), key@),
        r.0 <= entries.len(),
{
    let ghost model = entries_model(entries@);
    let mut position: usize = entries.len();
    assert(model.subrange(0, position as int) =~= model);
    while position > 0
        invariant
            position <= entries.len(),
            model == entries_model(entries@),
            keys_ascending(model),
            insert_position(model, key@) == insert_position(
                model.subrange(0, position as int),
                key@,
            ),
            forall|k: int| position <= k < model.len() ==> (#[trigger] model[k]).0 != key@,
        decreases position,
    {
        let ghost front = model.subrange(0, position as int);
        assert(front.last() == model[position - 1]);
        assert(front.drop_last() =~= model.subrange(0, position - 1));
        match key_order(entries[position - 1].0.as_slice(), key) {
            KeyOrder::Before => {
                proof {
                    lemma_absent_behind(model, key@, position as int);
                }
                return (position, false);
            },
            KeyOrder::Same => {
                assert(model[position - 1].0 == key@);
                return (position - 1, true);
            },
            KeyOrder::After => {},
        }
        position = position - 1;
    }
    assert(model.subrange(0, 0) =~= Seq::<(Seq<u8>, Bencode)>::empty());
    (0, false)
}

/// If the entry before `position` has a key before `key`, and no entry from
/// `position` on has the key, then no entry has it.
proof fn lemma_absent_behind(model: Entries, key: Seq<u8>, position: int)
    requires
        keys_ascending(model),
        0 < position <= model.len(),
        key_lt(model[position - 1].0, key),
        forall|k: int| position <= k < model.len() ==> (#[trigger] model[k]).0 != key,
    ensures
        !has_key(model, key),
{
    if has_key(model, key) {
        let k = choose|k: int| 0 <= k < model.len() && (#[trigger] model[k]).0 == key;
        lemma_key_lt_irreflexive(key);
        if k < position - 1 {
            lemma_key_lt_transitive(model[k].0, model[position - 1].0, key);
        }
    }
}

} // verus!
