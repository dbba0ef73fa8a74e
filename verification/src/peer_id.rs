//! The id by which this client names itself to trackers and peers: one for
//! each torrent, made once and kept.

use vstd::prelude::*;
use vstd::hash_map::StringHashMap;
use vstd::string::StringExecFns;
use vstd::utf8::encode_utf8;
use rand::rngs::StdRng;
use rand::{Rng, SeedableRng};
use crate::decimal::{decimal_digits, lemma_decimal_digits, push_decimal};
use crate::errors::PeerIdError;
use crate::text::{ascii_string, is_ascii_bytes, lemma_ascii_is_utf8};

verus! {

/// The length of a peer id.
pub const PEER_ID_LENGTH: usize = 20;

/// The number of characters that the random part of a peer id is drawn
/// from: the letters in both cases and the digits.
pub const ALPHABET_SIZE: usize = 62;

/// The version of this client.
#[derive(Clone, Copy, Debug, PartialEq, Eq)]
pub struct ClientVersion {
    pub major: u64,
    pub minor: u64,
    pub patch: u64,
}

/// Trusted: the generator `StdRng` of the `rand` crate. Verus sees nothing
/// inside it.
#[verifier::external_type_specification]
#[verifier::external_body]
pub struct ExStdRng(StdRng);

/// Trusted: `StdRng::seed_from_u64`. Nothing is claimed of the generator.
#[verifier::external_body]
fn seeded_generator(seed: u64) -> StdRng {
    StdRng::seed_from_u64(seed)
}

/// Trusted: `StdRng::try_from_os_rng`, which seeds from the system and may
/// fail. Nothing is claimed of the generator.
#[verifier::external_body]
fn system_generator() -> Option<StdRng> {
    StdRng::try_from_os_rng().ok()
}

/// Trusted: `Rng::random_range` on `0..upper`. The number drawn is below
/// `upper`, whatever the generator's state. An empty range panics, which
/// `requires` leaves out.
#[verifier::external_body]
fn random_below(generator: &mut StdRng, upper: usize) -> (drawn: usize)
    requires
        upper > 0,
    ensures
        drawn < upper,
{
    generator.random_range(0..upper)
}

/// The character that the number `pick` stands for: lower case, then upper
/// case, then the digits from `1` to `9` and `0`. Numbers that stand for
/// no character give `?`.
pub open spec fn alphabet(pick: usize) -> u8 {
    if pick < 26 {
        (0x61 + pick) as u8
    } else if pick < 52 {
        (0x41 + (pick - 26)) as u8
    } else if pick < 61 {
        (0x31 + (pick - 52)) as u8
    } else if pick == 61 {
        0x30
    } else {
        0x3f
    }
}

/// Whether `b` is an ASCII letter or digit.
pub open spec fn is_alphanumeric(b: u8) -> bool {
    (0x61 <= b <= 0x7a) || (0x41 <= b <= 0x5a) || (0x30 <= b <= 0x39)
}

/// What every peer id of a client of version `version` starts with: `-OX`,
/// then the three numbers of the version, each followed by `-`.
pub open spec fn prefix_bytes(version: ClientVersion) -> Seq<u8> {
    seq![0x2du8, 0x4f, 0x58] + decimal_digits(version.major as nat) + seq![0x2du8]
        + decimal_digits(version.minor as nat) + seq![0x2du8] + decimal_digits(
        version.patch as nat,
    ) + seq![0x2du8]
}

/// The peer id that the numbers `picks` give: the prefix, then one
/// character for each number.
pub open spec fn peer_id_bytes(version: ClientVersion, picks: Seq<usize>) -> Seq<u8> {
    prefix_bytes(version) + Seq::new(picks.len(), |i: int| alphabet(picks[i]))
}

/// Whether `bytes` is a peer id as this client makes it: twenty bytes, the
/// prefix first, then letters and digits.
pub open spec fn is_peer_id(version: ClientVersion, bytes: Seq<u8>) -> bool {
    &&& bytes.len() == PEER_ID_LENGTH
    &&& prefix_bytes(version).len() <= PEER_ID_LENGTH
    &&& bytes.subrange(0, prefix_bytes(version).len() as int) == prefix_bytes(version)
    &&& forall|i: int|
        prefix_bytes(version).len() <= i < PEER_ID_LENGTH ==> is_alphanumeric(#[trigger] bytes[i])
}

/// What a call for the id of the torrent `name` leaves: the result and the
/// cache after it, given the cache before it. An id that is there is
/// returned and the cache stays. Else an id is made, returned and kept
/// under the name, unless the prefix is longer than an id: then the call
/// fails and the cache stays.
pub open spec fn peer_id_outcome(
    before: Map<Seq<char>, Seq<char>>,
    version: ClientVersion,
    name: Seq<char>,
    result: Result<Seq<char>, PeerIdError>,
    after: Map<Seq<char>, Seq<char>>,
) -> bool {
    if before.contains_key(name) {
        result == Ok::<Seq<char>, PeerIdError>(before[name]) && after == before
    } else if prefix_bytes(version).len() > PEER_ID_LENGTH {
        result == Err::<Seq<char>, PeerIdError>(PeerIdError::PrefixTooLong) && after == before
    } else {
        result matches Ok(id) && is_peer_id(version, encode_utf8(id)) && after == before.insert(
            name,
            id,
        )
    }
}

/// The prefix is ASCII and starts with `-OX`.
pub proof fn lemma_prefix(version: ClientVersion)
    ensures
        is_ascii_bytes(prefix_bytes(version)),
        prefix_bytes(version).len() >= 9,
        prefix_bytes(version).subrange(0, 3) == seq![0x2du8, 0x4f, 0x58],
{
    lemma_decimal_digits(version.major as nat);
    lemma_decimal_digits(version.minor as nat);
    lemma_decimal_digits(version.patch as nat);
    let major = decimal_digits(version.major as nat);
    let minor = decimal_digits(version.minor as nat);
    let patch = decimal_digits(version.patch as nat);
    let prefix = prefix_bytes(version);
    assert forall|i: int| 0 <= i < prefix.len() implies #[trigger] prefix[i] < 0x80 by {
        let a = 3 + major.len();
        let b = a + 1 + minor.len();
        let c = b + 1 + patch.len();
        if 3 <= i < a {
            assert(prefix[i] == major[i - 3]);
        } else if a < i < b {
            assert(prefix[i] == minor[i - a - 1]);
        } else if b < i < c {
            assert(prefix[i] == patch[i - b - 1]);
        }
    }
    assert(prefix.subrange(0, 3) =~= seq![0x2du8, 0x4f, 0x58]);
}

/// Numbers below the size of the alphabet, as many as the prefix leaves
/// room for, give a peer id.
pub proof fn lemma_picks_give_peer_id(version: ClientVersion, picks: Seq<usize>)
    requires
        prefix_bytes(version).len() + picks.len() == PEER_ID_LENGTH,
        forall|i: int| 0 <= i < picks.len() ==> #[trigger] picks[i] < ALPHABET_SIZE,
    ensures
        is_peer_id(version, peer_id_bytes(version, picks)),
        is_ascii_bytes(peer_id_bytes(version, picks)),
{
    lemma_prefix(version);
    let prefix = prefix_bytes(version);
    let bytes = peer_id_bytes(version, picks);
    assert(bytes.subrange(0, prefix.len() as int) =~= prefix);
    assert forall|i: int| prefix.len() <= i < PEER_ID_LENGTH implies is_alphanumeric(
        #[trigger] bytes[i],
    ) by {
        assert(bytes[i] == alphabet(picks[i - prefix.len()]));
    }
    assert forall|i: int| 0 <= i < bytes.len() implies #[trigger] bytes[i] < 0x80 by {
        if i < prefix.len() {
            assert(bytes[i] == prefix[i]);
        } else {
            assert(bytes[i] == alphabet(picks[i - prefix.len()]));
        }
    }
}

/// A peer id has twenty bytes and starts with `-OX`.
pub proof fn law_peer_id_shape(version: ClientVersion, bytes: Seq<u8>)
    requires
        is_peer_id(version, bytes),
    ensures
        bytes.len() == 20,
        bytes.subrange(0, 3) == seq![0x2du8, 0x4f, 0x58],
{
    lemma_prefix(version);
    let prefix = prefix_bytes(version);
    assert(bytes.subrange(0, 3) =~= bytes.subrange(0, prefix.len() as int).subrange(0, 3));
}

/// Asking twice gives the same id: if a call for `name` gave `id`, the
/// next call for `name` on the cache that it left gives `id` again and
/// leaves the cache as it is.
pub proof fn law_second_call_same_id(
    version: ClientVersion,
    name: Seq<char>,
    before: Map<Seq<char>, Seq<char>>,
    id: Seq<char>,
    between: Map<Seq<char>, Seq<char>>,
    second: Result<Seq<char>, PeerIdError>,
    after: Map<Seq<char>, Seq<char>>,
)
    requires
        peer_id_outcome(before, version, name, Ok(id), between),
        peer_id_outcome(between, version, name, second, after),
    ensures
        second == Ok::<Seq<char>, PeerIdError>(id),
        after == between,
{
}

/// The character that the number `pick` stands for.
pub fn alphabet_byte(pick: usize) -> (b: u8)
    ensures
        b == alphabet(pick),
{
    if pick < 26 {
        0x61 + pick as u8
    } else if pick < 52 {
        0x41 + (pick - 26) as u8
    } else if pick < 61 {
        0x31 + (pick - 52) as u8
    } else if pick == 61 {
        0x30
    } else {
        0x3f
    }
}

/// What every peer id of a client of version `version` starts with.
pub fn peer_id_prefix(version: &ClientVersion) -> (prefix: Vec<u8>)
    ensures
        prefix@ == prefix_bytes(*version),
{
    let mut prefix: Vec<u8> = Vec::new();
    prefix.push(0x2d);
    prefix.push(0x4f);
    prefix.push(0x58);
    push_decimal(&mut prefix, version.major as u128);
    prefix.push(0x2d);
    push_decimal(&mut prefix, version.minor as u128);
    prefix.push(0x2d);
    push_decimal(&mut prefix, version.patch as u128);
    prefix.push(0x2d);
    assert(prefix@ =~= prefix_bytes(*version));
    prefix
}

/// The peer id that the numbers `picks` give: the prefix of `version`,
/// then one character for each number.
pub fn peer_id_from_picks(version: &ClientVersion, picks: &[usize]) -> (id: Vec<u8>)
    ensures
        id@ == peer_id_bytes(*version, picks@),
{
    let mut id = peer_id_prefix(version);
    let mut i: usize = 0;
    while i < picks.len()
        invariant
            i <= picks.len(),
            id@ == prefix_bytes(*version) + Seq::new(i as nat, |k: int| alphabet(picks@[k])),
        decreases picks.len() - i,
    {
        id.push(alphabet_byte(picks[i]));
        assert(id@ =~= prefix_bytes(*version) + Seq::new(
            (i + 1) as nat,
            |k: int| alphabet(picks@[k]),
        ));
        i = i + 1;
    }
    assert(id@ =~= peer_id_bytes(*version, picks@));
    id
}

/// The peer ids that were made, by the name of the torrent, with the
/// client's version and the generator that the ids are drawn from.
pub struct PeerIdCache {
    version: ClientVersion,
    ids: StringHashMap<String>,
    generator: StdRng,
}

impl PeerIdCache {
    /// The ids that the cache holds, by the name of the torrent.
    pub closed spec fn ids(self) -> Map<Seq<char>, Seq<char>> {
        self.ids@.map_values(|id: String| id@)
    }

    /// The version of the client.
    pub closed spec fn version(self) -> ClientVersion {
        self.version
    }

    /// An empty cache whose ids will be drawn from a generator that is
    /// seeded with `seed`. Of the numbers drawn nothing is known here but
    /// their range.
    pub fn seeded(version: ClientVersion, seed: u64) -> (cache: Self)
        ensures
            cache.ids() == Map::<Seq<char>, Seq<char>>::empty(),
            cache.version() == version,
    {
        let cache = PeerIdCache {
            version,
            ids: StringHashMap::new(),
            generator: seeded_generator(seed),
        };
        assert(cache.ids() =~= Map::<Seq<char>, Seq<char>>::empty());
        cache
    }

    /// An empty cache whose ids will be drawn from a generator that the
    /// system seeds, or `None` if the system gives no seed.
    pub fn from_system(version: ClientVersion) -> (made: Option<Self>)
        ensures
            made matches Some(cache) ==> cache.ids() == Map::<Seq<char>, Seq<char>>::empty()
                && cache.version() == version,
    {
        match system_generator() {
            Some(generator) => {
                let cache = PeerIdCache { version, ids: StringHashMap::new(), generator };
                assert(cache.ids() =~= Map::<Seq<char>, Seq<char>>::empty());
                Some(cache)
            },
            None => None,
        }
    }

    /// The number of ids in the cache.
    pub fn len(&self) -> (n: usize)
        ensures
            n == self.ids().len(),
    {
        broadcast use vstd::hash_map::axiom_string_hash_map_spec_len;

        assert(self.ids().dom() =~= self.ids@.dom());
        self.ids.len()
    }

    /// The id that the cache holds for the torrent `name`.
    pub fn get(&self, name: &str) -> (found: Option<&String>)
        ensures
            match found {
                Some(id) => self.ids().contains_key(name@) && id@ == self.ids()[name@],
                None => !self.ids().contains_key(name@),
            },
    {
        self.ids.get(name)
    }

    /// Puts `id` into the cache as the id for the torrent `name`, in place
    /// of the one that may be there.
    pub fn insert(&mut self, name: String, id: String)
        ensures
            final(self).ids() == old(self).ids().insert(name@, id@),
            final(self).version() == old(self).version(),
    {
        self.ids.insert(name, id);
        assert(self.ids() =~= old(self).ids().insert(name@, id@));
    }
}

/// The peer id of this client for the torrent `torrent_file_name`. The id
/// that the cache holds for the name is returned as it is. Else one is
/// made, kept in the cache and returned: the prefix that the client's
/// version gives, filled up to twenty bytes with letters and digits drawn
/// from the cache's generator. Fails only where the prefix alone is longer
/// than twenty bytes.
pub fn get_or_create_peer_id(torrent_file_name: &str, peer_id_cache: &mut PeerIdCache) -> (r:
    Result<String, PeerIdError>)
    ensures
        peer_id_outcome(
            old(peer_id_cache).ids(),
            old(peer_id_cache).version(),
            torrent_file_name@,
            match r {
                Ok(id) => Ok(id@),
                Err(e) => Err(e),
            },
            final(peer_id_cache).ids(),
        ),
        final(peer_id_cache).version() == old(peer_id_cache).version(),
{
    match peer_id_cache.ids.get(torrent_file_name) {
        Some(id) => {
            return Ok(id.clone());
        },
        None => {},
    }
    let prefix = peer_id_prefix(&peer_id_cache.version);
    if prefix.len() > PEER_ID_LENGTH {
        return Err(PeerIdError::PrefixTooLong);
    }
    let wanted: usize = PEER_ID_LENGTH - prefix.len();
    let mut picks: Vec<usize> = Vec::new();
    while picks.len() < wanted
        invariant
            picks.len() <= wanted,
            forall|i: int| 0 <= i < picks.len() ==> #[trigger] picks@[i] < ALPHABET_SIZE,
            peer_id_cache.version == old(peer_id_cache).version,
            peer_id_cache.ids == old(peer_id_cache).ids,
        decreases wanted - picks.len(),
    {
        let drawn = random_below(&mut peer_id_cache.generator, ALPHABET_SIZE);
        picks.push(drawn);
    }
    let bytes = peer_id_from_picks(&peer_id_cache.version, picks.as_slice());
    proof {
        lemma_picks_give_peer_id(peer_id_cache.version, picks@);
        lemma_ascii_is_utf8(bytes@);
    }
    let id = ascii_string(bytes.as_slice());
    peer_id_cache.ids.insert(String::from_str(torrent_file_name), id.clone());
    assert(peer_id_cache.ids() =~= old(peer_id_cache).ids().insert(torrent_file_name@, id@));
    Ok(id)
}

} // verus!
