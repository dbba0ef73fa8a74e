//! What the client knows of one peer: whether it chokes us, whether we are
//! interested, and which pieces it has.

use vstd::prelude::*;
use bitvec::order::Msb0;
use bitvec::vec::BitVec;

verus! {

/// The most pieces that a piece set can hold: what `bitvec` can address.
pub const MAX_PIECES: usize = usize::MAX / 8;

/// Trusted: a `BitVec<u8, Msb0>` of the `bitvec` crate, one bit for each
/// piece. Verus sees nothing inside it; [`bits_of`] names what it holds.
#[verifier::external_body]
pub struct PieceBits {
    bits: BitVec<u8, Msb0>,
}

/// The bits that a [`PieceBits`] holds, in the order of their indices.
pub uninterp spec fn bits_of(bits: PieceBits) -> Seq<bool>;

/// Trusted: `BitVec::repeat(false, len)`. The result holds `len` bits, all
/// clear. `repeat` panics above `MAX_PIECES` bits, which `requires` leaves
/// out.
#[verifier::external_body]
fn cleared_bits(len: usize) -> (bits: PieceBits)
    requires
        len <= MAX_PIECES,
    ensures
        bits_of(bits) == Seq::new(len as nat, |i: int| false),
{
    PieceBits { bits: BitVec::repeat(false, len) }
}

/// Trusted: `BitSlice::get` with an index, and a copy of the bit it points
/// at. The result is the bit at `index`, or `None` at and behind the end.
#[verifier::external_body]
fn bit_at(bits: &PieceBits, index: usize) -> (bit: Option<bool>)
    ensures
        bit == if index < bits_of(*bits).len() {
            Some(bits_of(*bits)[index as int])
        } else {
            None
        },
{
    bits.bits.get(index).map(|b| *b)
}

/// Trusted: `BitSlice::set`. The bit at `index` becomes `value` and the
/// others stay. `set` panics at and behind the end, which `requires` leaves
/// out.
#[verifier::external_body]
fn set_bit(bits: &mut PieceBits, index: usize, value: bool)
    requires
        index < bits_of(*old(bits)).len(),
    ensures
        bits_of(*final(bits)) == bits_of(*old(bits)).update(index as int, value),
    no_unwind
{
    bits.bits.set(index, value)
}

/// The bit of `byte` at position `place`, counted from the most
/// significant bit.
pub open spec fn bit_of_byte(byte: u8, place: usize) -> bool {
    (byte >> (7 - place)) & 1 != 0
}

/// The bit at index `index` of `data`, read as bits packed eight to a
/// byte, most significant first.
pub open spec fn packed_bit(data: Seq<u8>, index: int) -> bool {
    bit_of_byte(data[index / 8], (index % 8) as usize)
}

/// The first `count` bits of `data`; behind the end of `data` the bits are
/// clear.
pub open spec fn unpacked(data: Seq<u8>, count: nat) -> Seq<bool> {
    Seq::new(count, |index: int| index < 8 * data.len() && packed_bit(data, index))
}

/// State of our interaction with one peer.
pub struct PeerState {
    is_choked: bool,
    is_interested: bool,
    peer_bitfield: PieceBits,
    num_pieces: usize,
}

impl PeerState {
    #[verifier::type_invariant]
    spec fn sized(self) -> bool {
        bits_of(self.peer_bitfield).len() == self.num_pieces && self.num_pieces <= MAX_PIECES
    }

    /// For each piece, whether the peer has it.
    pub closed spec fn pieces(self) -> Seq<bool> {
        bits_of(self.peer_bitfield)
    }

    /// Whether the peer chokes us.
    pub closed spec fn choked(self) -> bool {
        self.is_choked
    }

    /// Whether we are interested in the peer.
    pub closed spec fn interested(self) -> bool {
        self.is_interested
    }

    /// The state at the start of a connection to a peer of a torrent with
    /// `num_pieces` pieces: the peer chokes us, we are not interested, and
    /// the peer is known to have no piece.
    pub fn new(num_pieces: usize) -> (state: Self)
        requires
            num_pieces <= MAX_PIECES,
        ensures
            state.choked(),
            !state.interested(),
            state.pieces() == Seq::new(num_pieces as nat, |i: int| false),
    {
        Self {
            is_choked: true,
            is_interested: false,
            num_pieces,
            peer_bitfield: cleared_bits(num_pieces),
        }
    }

    /// The number of pieces of the torrent.
    pub fn num_pieces(&self) -> (n: usize)
        ensures
            n == self.pieces().len(),
    {
        proof {
            use_type_invariant(self);
        }
        self.num_pieces
    }

    /// Whether the peer chokes us.
    pub fn is_choked(&self) -> (b: bool)
        ensures
            b == self.choked(),
    {
        self.is_choked
    }

    /// Whether we are interested in the peer.
    pub fn is_interested(&self) -> (b: bool)
        ensures
            b == self.interested(),
    {
        self.is_interested
    }

    /// Records whether the peer chokes us.
    pub fn set_choked(&mut self, choked: bool)
        ensures
            final(self).choked() == choked,
            final(self).interested() == old(self).interested(),
            final(self).pieces() == old(self).pieces(),
    {
        proof {
            use_type_invariant(&*self);
        }
        self.is_choked = choked;
    }

    /// Records whether we are interested in the peer.
    pub fn set_interested(&mut self, interested: bool)
        ensures
            final(self).interested() == interested,
            final(self).choked() == old(self).choked(),
            final(self).pieces() == old(self).pieces(),
    {
        proof {
            use_type_invariant(&*self);
        }
        self.is_interested = interested;
    }

    /// Whether the peer is known to have the piece `index`. Of a piece that
    /// the torrent does not have the answer is `false`.
    pub fn has_piece(&self, index: usize) -> (has: bool)
        ensures
            has == (index < self.pieces().len() && self.pieces()[index as int]),
    {
        match bit_at(&self.peer_bitfield, index) {
            Some(bit) => bit,
            None => false,
        }
    }

    /// Records that the peer has the piece `index`. An index that the
    /// torrent does not have changes nothing.
    pub fn update_have(&mut self, index: usize)
        ensures
            final(self).pieces() == if index < old(self).pieces().len() {
                old(self).pieces().update(index as int, true)
            } else {
                old(self).pieces()
            },
            final(self).choked() == old(self).choked(),
            final(self).interested() == old(self).interested(),
    {
        proof {
            use_type_invariant(&*self);
        }
        if index < self.num_pieces {
            set_bit(&mut self.peer_bitfield, index, true);
        }
    }

    /// Replaces what is known of the peer's pieces by the bits of `data`,
    /// packed eight to a byte, most significant first. The number of pieces
    /// stays: bits of `data` behind it are not looked at, and pieces behind
    /// the end of `data` count as missing.
    pub fn update_bitfield(&mut self, data: &[u8])
        ensures
            final(self).pieces() == unpacked(data@, old(self).pieces().len()),
            final(self).choked() == old(self).choked(),
            final(self).interested() == old(self).interested(),
    {
        proof {
            use_type_invariant(&*self);
        }
        let count = self.num_pieces;
        let mut bits = cleared_bits(count);
        let mut index: usize = 0;
        while index < count && index / 8 < data.len()
            invariant
                index <= count,
                bits_of(bits) == Seq::new(
                    count as nat,
                    |k: int| k < index && k < 8 * data@.len() && packed_bit(data@, k),
                ),
            decreases count - index,
        {
            let place: usize = index % 8;
            let bit = (data[index / 8] >> (7 - place)) & 1 != 0;
            let ghost before = bits_of(bits);
            set_bit(&mut bits, index, bit);
            assert(bits_of(bits) =~= Seq::new(
                count as nat,
                |k: int| k < index + 1 && k < 8 * data@.len() && packed_bit(data@, k),
            ));
            index = index + 1;
        }
        assert(bits_of(bits) =~= unpacked(data@, count as nat));
        self.peer_bitfield = bits;
    }
}

} // verus!
