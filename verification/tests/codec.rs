use std::collections::HashMap;
use vote_poll_contract::codec::{
    decode_poll_state, decode_vote_state, encode_poll_state, encode_vote_state,
};
use vote_poll_contract::error::Trap;
use vote_poll_contract::state::{Event, Tallies, VotePollState, VoteState};

fn text(s: &str) -> String {
    s.to_string()
}

fn poll_of(options: &[(&str, i32)], event: Event, value: i32) -> VotePollState {
    let mut tallies = Tallies::new();
    for (option, count) in options {
        tallies.set(text(option), *count);
    }
    VotePollState { tallies, event, value }
}

fn kingsgg_registered() -> Vec<u8> {
    let mut bytes = vec![1, 0, 0, 0, 0, 0, 0, 0];
    bytes.extend_from_slice(&[7, 0, 0, 0, 0, 0, 0, 0]);
    bytes.extend_from_slice(b"kingsgg");
    bytes.extend_from_slice(&[0, 0, 0, 0]);
    bytes.extend_from_slice(&[0, 0, 0, 0]);
    bytes.extend_from_slice(&[7, 0, 0, 0, 0, 0, 0, 0]);
    bytes.extend_from_slice(b"kingsgg");
    bytes.extend_from_slice(&[22, 0, 0, 0]);
    bytes
}

#[test]
fn vote_state_is_four_bytes_least_significant_first() {
    assert_eq!(encode_vote_state(&VoteState { value: 22 }), vec![22, 0, 0, 0]);
    assert_eq!(encode_vote_state(&VoteState { value: 0x0102_0304 }), vec![4, 3, 2, 1]);
    assert_eq!(encode_vote_state(&VoteState { value: 256 }), vec![0, 1, 0, 0]);
}

#[test]
fn negative_vote_state_is_twos_complement() {
    assert_eq!(encode_vote_state(&VoteState { value: -1 }), vec![255, 255, 255, 255]);
    assert_eq!(encode_vote_state(&VoteState { value: -2 }), vec![254, 255, 255, 255]);
    assert_eq!(encode_vote_state(&VoteState { value: i32::MIN }), vec![0, 0, 0, 128]);
    assert_eq!(encode_vote_state(&VoteState { value: i32::MAX }), vec![255, 255, 255, 127]);
}

#[test]
fn vote_state_decodes() {
    assert_eq!(decode_vote_state(&[22, 0, 0, 0]), Ok(VoteState { value: 22 }));
    assert_eq!(decode_vote_state(&[4, 3, 2, 1]), Ok(VoteState { value: 0x0102_0304 }));
    assert_eq!(decode_vote_state(&[255, 255, 255, 255]), Ok(VoteState { value: -1 }));
    assert_eq!(decode_vote_state(&[0, 0, 0, 128]), Ok(VoteState { value: i32::MIN }));
}

#[test]
fn vote_state_ignores_what_follows() {
    assert_eq!(decode_vote_state(&[22, 0, 0, 0, 9, 9, 9]), Ok(VoteState { value: 22 }));
}

#[test]
fn short_vote_state_is_a_decode_error() {
    assert_eq!(decode_vote_state(&[]), Err(Trap::DecodeError));
    assert_eq!(decode_vote_state(&[1]), Err(Trap::DecodeError));
    assert_eq!(decode_vote_state(&[1, 2, 3]), Err(Trap::DecodeError));
}

#[test]
fn vote_state_round_trip() {
    for value in [0, 1, -1, 22, 255, 256, 65536, i32::MAX, i32::MIN, -123456789] {
        let state = VoteState { value };
        assert_eq!(decode_vote_state(&encode_vote_state(&state)), Ok(state));
    }
}

#[test]
fn empty_poll_state_on_the_wire() {
    let state = poll_of(&[], Event::Poll(text("kingsgg")), 22);
    let mut expected = vec![0, 0, 0, 0, 0, 0, 0, 0];
    expected.extend_from_slice(&[0, 0, 0, 0]);
    expected.extend_from_slice(&[7, 0, 0, 0, 0, 0, 0, 0]);
    expected.extend_from_slice(b"kingsgg");
    expected.extend_from_slice(&[22, 0, 0, 0]);
    assert_eq!(encode_poll_state(&state), expected);
}

#[test]
fn poll_state_with_an_option_on_the_wire() {
    let state = poll_of(&[("kingsgg", 0)], Event::Poll(text("kingsgg")), 22);
    assert_eq!(encode_poll_state(&state), kingsgg_registered());
}

#[test]
fn vote_event_has_tag_one() {
    let state = poll_of(&[("a", 5)], Event::Vote(text("b")), -1);
    let mut expected = vec![1, 0, 0, 0, 0, 0, 0, 0];
    expected.extend_from_slice(&[1, 0, 0, 0, 0, 0, 0, 0]);
    expected.extend_from_slice(b"a");
    expected.extend_from_slice(&[5, 0, 0, 0]);
    expected.extend_from_slice(&[1, 0, 0, 0]);
    expected.extend_from_slice(&[1, 0, 0, 0, 0, 0, 0, 0]);
    expected.extend_from_slice(b"b");
    expected.extend_from_slice(&[255, 255, 255, 255]);
    assert_eq!(encode_poll_state(&state), expected);
}

#[test]
fn names_are_written_as_utf8() {
    let state = poll_of(&[], Event::Poll(text("né")), 0);
    let mut expected = vec![0, 0, 0, 0, 0, 0, 0, 0];
    expected.extend_from_slice(&[0, 0, 0, 0]);
    expected.extend_from_slice(&[3, 0, 0, 0, 0, 0, 0, 0]);
    expected.extend_from_slice(&[b'n', 0xc3, 0xa9]);
    expected.extend_from_slice(&[0, 0, 0, 0]);
    assert_eq!(encode_poll_state(&state), expected);
    assert_eq!(decode_poll_state(&expected), Ok(state));
}

#[test]
fn poll_state_decodes() {
    assert_eq!(
        decode_poll_state(&kingsgg_registered()),
        Ok(poll_of(&[("kingsgg", 0)], Event::Poll(text("kingsgg")), 22))
    );
}

#[test]
fn poll_state_ignores_what_follows() {
    let mut bytes = kingsgg_registered();
    bytes.extend_from_slice(&[1, 2, 3, 4, 5]);
    assert_eq!(
        decode_poll_state(&bytes),
        Ok(poll_of(&[("kingsgg", 0)], Event::Poll(text("kingsgg")), 22))
    );
}

#[test]
fn poll_state_round_trip() {
    let states = [
        poll_of(&[], Event::Poll(text("")), 0),
        poll_of(&[("a", 5)], Event::Vote(text("b")), 0),
        poll_of(&[("b", 2), ("a", -1), ("", 7)], Event::Vote(text("a")), i32::MIN),
        poll_of(&[("日本", i32::MAX), ("x", 0)], Event::Poll(text("日本")), i32::MAX),
    ];
    for state in states {
        let bytes = encode_poll_state(&state);
        let back = decode_poll_state(&bytes).unwrap();
        assert_eq!(back, state);
        assert_eq!(encode_poll_state(&back), bytes);
    }
}

#[test]
fn every_cut_of_a_poll_state_is_a_decode_error() {
    let bytes = kingsgg_registered();
    for cut in 0..bytes.len() {
        assert_eq!(decode_poll_state(&bytes[..cut]), Err(Trap::DecodeError), "cut at {}", cut);
    }
}

#[test]
fn unknown_event_tag_is_a_decode_error() {
    let mut bytes = vec![0, 0, 0, 0, 0, 0, 0, 0];
    bytes.extend_from_slice(&[2, 0, 0, 0]);
    bytes.extend_from_slice(&[1, 0, 0, 0, 0, 0, 0, 0]);
    bytes.extend_from_slice(b"a");
    bytes.extend_from_slice(&[0, 0, 0, 0]);
    assert_eq!(decode_poll_state(&bytes), Err(Trap::DecodeError));
    bytes[8] = 0;
    bytes[11] = 1;
    assert_eq!(decode_poll_state(&bytes), Err(Trap::DecodeError));
    bytes[11] = 0;
    assert_eq!(decode_poll_state(&bytes), Ok(poll_of(&[], Event::Poll(text("a")), 0)));
}

#[test]
fn name_that_is_not_utf8_is_a_decode_error() {
    let mut bytes = vec![0, 0, 0, 0, 0, 0, 0, 0];
    bytes.extend_from_slice(&[0, 0, 0, 0]);
    bytes.extend_from_slice(&[2, 0, 0, 0, 0, 0, 0, 0]);
    bytes.extend_from_slice(&[0xc3, 0x28]);
    bytes.extend_from_slice(&[0, 0, 0, 0]);
    assert_eq!(decode_poll_state(&bytes), Err(Trap::DecodeError));
}

#[test]
fn name_longer_than_the_buffer_is_a_decode_error() {
    let mut bytes = vec![0, 0, 0, 0, 0, 0, 0, 0];
    bytes.extend_from_slice(&[0, 0, 0, 0]);
    bytes.extend_from_slice(&[255, 255, 255, 255, 255, 255, 255, 255]);
    bytes.extend_from_slice(b"abcdefgh");
    assert_eq!(decode_poll_state(&bytes), Err(Trap::DecodeError));
}

#[test]
fn more_options_announced_than_present_is_a_decode_error() {
    let mut bytes = kingsgg_registered();
    bytes[0] = 2;
    assert_eq!(decode_poll_state(&bytes), Err(Trap::DecodeError));
    let mut huge = kingsgg_registered();
    for byte in huge.iter_mut().take(8) {
        *byte = 255;
    }
    assert_eq!(decode_poll_state(&huge), Err(Trap::DecodeError));
}

#[test]
fn an_option_listed_twice_takes_its_last_count() {
    let mut bytes = vec![3, 0, 0, 0, 0, 0, 0, 0];
    for (option, count) in [("a", 1u8), ("b", 2), ("a", 9)] {
        bytes.extend_from_slice(&[1, 0, 0, 0, 0, 0, 0, 0]);
        bytes.extend_from_slice(option.as_bytes());
        bytes.extend_from_slice(&[count, 0, 0, 0]);
    }
    bytes.extend_from_slice(&[1, 0, 0, 0]);
    bytes.extend_from_slice(&[1, 0, 0, 0, 0, 0, 0, 0]);
    bytes.extend_from_slice(b"a");
    bytes.extend_from_slice(&[0, 0, 0, 0]);
    let state = decode_poll_state(&bytes).unwrap();
    assert_eq!(state, poll_of(&[("a", 9), ("b", 2)], Event::Vote(text("a")), 0));
    assert_eq!(state.tallies.position(&text("a")), Some(0));
}

#[test]
fn the_wire_is_what_bincode_writes_for_the_same_fields() {
    let state = poll_of(&[("b", 2), ("a", -1)], Event::Vote(text("a")), 77);
    let fields: (Vec<(String, i32)>, u32, String, i32) =
        (vec![(text("b"), 2), (text("a"), -1)], 1, text("a"), 77);
    assert_eq!(encode_poll_state(&state), bincode::serialize(&fields).unwrap());
    assert_eq!(
        encode_vote_state(&VoteState { value: -321 }),
        bincode::serialize(&(-321i32)).unwrap()
    );
}

#[test]
fn a_map_written_by_bincode_is_read() {
    let mut map: HashMap<String, i32> = HashMap::new();
    map.insert(text("kingsgg"), 4);
    let bytes = bincode::serialize(&(map, (0u32, text("kingsgg")), 22i32)).unwrap();
    assert_eq!(
        decode_poll_state(&bytes),
        Ok(poll_of(&[("kingsgg", 4)], Event::Poll(text("kingsgg")), 22))
    );
    let back: (HashMap<String, i32>, (u32, String), i32) = bincode::deserialize(
        &encode_poll_state(&poll_of(&[("x", 1), ("y", 2)], Event::Vote(text("y")), 3)),
    )
    .unwrap();
    assert_eq!(back.0.len(), 2);
    assert_eq!(back.0["x"], 1);
    assert_eq!(back.0["y"], 2);
    assert_eq!(back.1, (1, text("y")));
    assert_eq!(back.2, 3);
}
