use torrentox::peer_state::{PeerState, MAX_PIECES};

fn pieces(state: &PeerState) -> Vec<bool> {
    (0..state.num_pieces()).map(|i| state.has_piece(i)).collect()
}

#[test]
fn new_state_is_choked_and_has_no_piece() {
    let state = PeerState::new(10);
    assert!(state.is_choked());
    assert!(!state.is_interested());
    assert_eq!(state.num_pieces(), 10);
    for i in 0..10 {
        assert!(!state.has_piece(i));
    }
}

#[test]
fn have_sets_one_piece() {
    let mut state = PeerState::new(10);
    state.update_have(3);
    assert!(state.has_piece(3));
    for i in 0..10 {
        if i != 3 {
            assert!(!state.has_piece(i));
        }
    }
}

#[test]
fn have_out_of_range_changes_nothing() {
    let mut state = PeerState::new(10);
    state.update_have(3);
    let before = pieces(&state);
    state.update_have(10);
    state.update_have(usize::MAX);
    assert_eq!(pieces(&state), before);
    assert_eq!(state.num_pieces(), 10);
}

#[test]
fn has_piece_out_of_range_is_false() {
    let mut state = PeerState::new(3);
    state.update_bitfield(&[0xff]);
    assert!(state.has_piece(2));
    assert!(!state.has_piece(3));
    assert!(!state.has_piece(usize::MAX));
}

#[test]
fn bitfield_is_read_most_significant_bit_first() {
    let mut state = PeerState::new(16);
    state.update_bitfield(&[0b1000_0001, 0b0100_0000]);
    let expected: Vec<bool> = vec![
        true, false, false, false, false, false, false, true, false, true, false, false, false,
        false, false, false,
    ];
    assert_eq!(pieces(&state), expected);
}

#[test]
fn bitfield_bits_behind_the_pieces_are_ignored() {
    let mut state = PeerState::new(10);
    state.update_bitfield(&[0xff, 0xff, 0xff]);
    assert_eq!(pieces(&state), vec![true; 10]);
    assert_eq!(state.num_pieces(), 10);
    assert!(!state.has_piece(10));
}

#[test]
fn bitfield_shorter_than_the_pieces_leaves_the_rest_clear() {
    let mut state = PeerState::new(12);
    state.update_bitfield(&[0xff]);
    let mut expected = vec![true; 8];
    expected.extend_from_slice(&[false; 4]);
    assert_eq!(pieces(&state), expected);
}

#[test]
fn bitfield_replaces_what_was_known() {
    let mut state = PeerState::new(10);
    state.update_have(9);
    state.update_have(0);
    state.update_bitfield(&[0b0100_0000, 0]);
    let mut expected = vec![false; 10];
    expected[1] = true;
    assert_eq!(pieces(&state), expected);
    state.update_bitfield(&[]);
    assert_eq!(pieces(&state), vec![false; 10]);
}

#[test]
fn flags_are_set_apart_from_the_pieces() {
    let mut state = PeerState::new(4);
    state.update_have(2);
    state.set_choked(false);
    state.set_interested(true);
    assert!(!state.is_choked());
    assert!(state.is_interested());
    assert_eq!(pieces(&state), vec![false, false, true, false]);
    state.update_bitfield(&[0x80]);
    assert!(!state.is_choked());
    assert!(state.is_interested());
}

#[test]
fn state_without_pieces() {
    let mut state = PeerState::new(0);
    assert_eq!(state.num_pieces(), 0);
    state.update_have(0);
    state.update_bitfield(&[0xff]);
    assert!(!state.has_piece(0));
}

#[test]
fn piece_limit_is_an_eighth_of_the_address_space() {
    assert_eq!(MAX_PIECES, usize::MAX >> 3);
}
