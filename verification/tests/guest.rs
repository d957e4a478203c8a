use vote_poll_contract::codec::{decode_poll_state, encode_poll_state, encode_vote_state};
use vote_poll_contract::error::Trap;
use vote_poll_contract::guest::{
    allocate, construct_state, get_length, get_state, init, invoke, poll_vote, vote, write_bytes,
    Guest, HEAP_BASE, INIT_TOKEN, MAX_HEAP,
};
use vote_poll_contract::state::{Event, Tallies, VotePollState, VoteState};

fn word(s: &str) -> String {
    s.to_string()
}

fn state_of(options: &[(&str, i32)], event: Event, value: i32) -> VotePollState {
    let mut tallies = Tallies::new();
    for (option, count) in options {
        tallies.set(word(option), *count);
    }
    VotePollState { tallies, event, value }
}

fn place(guest: &mut Guest, bytes: &[u8]) -> (i32, i32) {
    let ptr = allocate(guest, bytes.len() as i32).unwrap();
    guest.store(ptr, bytes).unwrap();
    (ptr, bytes.len() as i32)
}

fn run_poll_vote(guest: &mut Guest, state: &VotePollState) -> VotePollState {
    let (ptr, len) = place(guest, &encode_poll_state(state));
    let out = poll_vote(guest, ptr, len).unwrap();
    let bytes = guest.load(out, get_length(guest)).unwrap();
    decode_poll_state(&bytes).unwrap()
}

#[test]
fn new_guest_is_empty() {
    let guest = Guest::new(1024);
    assert_eq!(guest.heap_len(), 0);
    assert_eq!(get_length(&guest), 0);
}

#[test]
fn allocations_follow_each_other() {
    let mut guest = Guest::new(1024);
    assert_eq!(allocate(&mut guest, 100), Ok(HEAP_BASE as i32));
    assert_eq!(allocate(&mut guest, 4), Ok(HEAP_BASE as i32 + 100));
    assert_eq!(allocate(&mut guest, 1), Ok(HEAP_BASE as i32 + 104));
    assert_eq!(guest.heap_len(), 105);
}

#[test]
fn allocated_bytes_are_zero() {
    let mut guest = Guest::new(64);
    let ptr = allocate(&mut guest, 5).unwrap();
    assert_eq!(guest.load(ptr, 5), Ok(vec![0, 0, 0, 0, 0]));
}

#[test]
fn allocate_nothing_gives_a_pointer_and_never_traps() {
    let mut guest = Guest::new(8);
    let ptr = allocate(&mut guest, 0).unwrap();
    assert_ne!(ptr, 0);
    assert_eq!(guest.load(ptr, 0), Ok(vec![]));
    assert_eq!(guest.heap_len(), 0);
    assert_eq!(allocate(&mut guest, 8), Ok(ptr));
    let full = allocate(&mut guest, 0).unwrap();
    assert_eq!(full, ptr + 8);
    assert_eq!(guest.load(full, 0), Ok(vec![]));
    let mut none = Guest::new(0);
    assert_eq!(allocate(&mut none, 0), Ok(HEAP_BASE as i32));
}

#[test]
fn allocate_beyond_the_limit_fails_and_changes_nothing() {
    let mut guest = Guest::new(10);
    assert_eq!(allocate(&mut guest, 11), Err(Trap::AllocationFailure));
    assert_eq!(guest.heap_len(), 0);
    assert_eq!(allocate(&mut guest, 10), Ok(HEAP_BASE as i32));
    assert_eq!(allocate(&mut guest, 1), Err(Trap::AllocationFailure));
    assert_eq!(guest.heap_len(), 10);
}

#[test]
fn allocate_a_negative_size_fails() {
    let mut guest = Guest::new(10);
    assert_eq!(allocate(&mut guest, -1), Err(Trap::AllocationFailure));
    assert_eq!(allocate(&mut guest, i32::MIN), Err(Trap::AllocationFailure));
    assert_eq!(guest.heap_len(), 0);
}

#[test]
fn the_limit_is_capped() {
    let mut guest = Guest::new(usize::MAX);
    assert_eq!(allocate(&mut guest, 16), Ok(HEAP_BASE as i32));
    assert_eq!(MAX_HEAP + HEAP_BASE, i32::MAX as usize);
}

#[test]
fn write_bytes_appends_to_the_heap() {
    let mut guest = Guest::new(64);
    assert_eq!(write_bytes(&mut guest, vec![1, 2, 3]), Ok(HEAP_BASE));
    assert_eq!(write_bytes(&mut guest, vec![]), Ok(HEAP_BASE + 3));
    assert_eq!(write_bytes(&mut guest, vec![9]), Ok(HEAP_BASE + 3));
    assert_eq!(guest.load(HEAP_BASE as i32, 4), Ok(vec![1, 2, 3, 9]));
}

#[test]
fn write_bytes_without_room_fails() {
    let mut guest = Guest::new(2);
    assert_eq!(write_bytes(&mut guest, vec![1, 2, 3]), Err(Trap::AllocationFailure));
    assert_eq!(guest.heap_len(), 0);
}

#[test]
fn store_and_load() {
    let mut guest = Guest::new(64);
    let ptr = allocate(&mut guest, 6).unwrap();
    assert_eq!(guest.store(ptr + 1, &[7, 8, 9]), Ok(()));
    assert_eq!(guest.load(ptr, 6), Ok(vec![0, 7, 8, 9, 0, 0]));
    assert_eq!(guest.load(ptr + 2, 2), Ok(vec![8, 9]));
}

#[test]
fn store_outside_the_heap_fails_and_writes_nothing() {
    let mut guest = Guest::new(64);
    let ptr = allocate(&mut guest, 4).unwrap();
    assert_eq!(guest.store(ptr + 2, &[1, 2, 3]), Err(Trap::OutOfBounds));
    assert_eq!(guest.store(ptr - 1, &[1]), Err(Trap::OutOfBounds));
    assert_eq!(guest.store(0, &[1]), Err(Trap::OutOfBounds));
    assert_eq!(guest.store(-4, &[1]), Err(Trap::OutOfBounds));
    assert_eq!(guest.load(ptr, 4), Ok(vec![0, 0, 0, 0]));
}

#[test]
fn load_outside_the_heap_fails() {
    let mut guest = Guest::new(64);
    let ptr = allocate(&mut guest, 4).unwrap();
    assert_eq!(guest.load(ptr, 5), Err(Trap::OutOfBounds));
    assert_eq!(guest.load(ptr + 5, 0), Err(Trap::OutOfBounds));
    assert_eq!(guest.load(ptr - 1, 1), Err(Trap::OutOfBounds));
    assert_eq!(guest.load(INIT_TOKEN, 4), Err(Trap::OutOfBounds));
    assert_eq!(guest.load(ptr, -1), Err(Trap::OutOfBounds));
    assert_eq!(guest.load(-1, 1), Err(Trap::OutOfBounds));
    assert_eq!(guest.load(i32::MAX, i32::MAX), Err(Trap::OutOfBounds));
    assert_eq!(guest.load(ptr + 4, 0), Ok(vec![]));
}

#[test]
fn init_returns_its_token_and_takes_a_block() {
    let mut guest = Guest::new(64);
    assert_eq!(init(&mut guest, 0), INIT_TOKEN);
    assert_eq!(guest.heap_len(), 10);
    assert_eq!(init(&mut guest, 99), INIT_TOKEN);
    assert_eq!(guest.heap_len(), 10 + 2 + 10);
    assert_eq!(allocate(&mut guest, 1), Ok(HEAP_BASE as i32 + 22));
}

#[test]
fn init_without_room_still_returns_its_token() {
    let mut guest = Guest::new(9);
    assert_eq!(init(&mut guest, 0), INIT_TOKEN);
    assert_eq!(guest.heap_len(), 0);
    let mut odd = Guest::new(12);
    assert_eq!(allocate(&mut odd, 1), Ok(HEAP_BASE as i32));
    assert_eq!(init(&mut odd, 0), INIT_TOKEN);
    assert_eq!(odd.heap_len(), 1);
}

#[test]
fn invoke_answers_zero() {
    assert_eq!(invoke(0, 0, 0), 0);
    assert_eq!(invoke(42, -1, i32::MAX), 0);
}

#[test]
fn vote_on_twenty_two_gives_twenty_three() {
    let mut guest = Guest::new(1024);
    let (ptr, len) = place(&mut guest, &encode_vote_state(&VoteState { value: 22 }));
    assert_eq!(len, 4);
    assert_eq!(vote(&guest, ptr, len), Ok(23));
    assert_eq!(guest.heap_len(), 4);
    assert_eq!(guest.load(ptr, len), Ok(vec![22, 0, 0, 0]));
}

#[test]
fn vote_twice_over_two_round_trips_adds_two() {
    let mut guest = Guest::new(1024);
    let (ptr, len) = place(&mut guest, &encode_vote_state(&VoteState { value: 22 }));
    let once = vote(&guest, ptr, len).unwrap();
    let (ptr, len) = place(&mut guest, &encode_vote_state(&VoteState { value: once }));
    assert_eq!(vote(&guest, ptr, len), Ok(24));
}

#[test]
fn vote_in_a_larger_region_reads_the_front() {
    let mut guest = Guest::new(1024);
    let ptr = allocate(&mut guest, 100).unwrap();
    guest.store(ptr, &[22, 0, 0, 0]).unwrap();
    assert_eq!(vote(&guest, ptr, 4), Ok(23));
    assert_eq!(vote(&guest, ptr, 100), Ok(23));
}

#[test]
fn vote_on_a_short_buffer_is_a_decode_error() {
    let mut guest = Guest::new(1024);
    let (ptr, _) = place(&mut guest, &[22, 0, 0, 0]);
    assert_eq!(vote(&guest, ptr, 3), Err(Trap::DecodeError));
    assert_eq!(vote(&guest, ptr, 0), Err(Trap::DecodeError));
}

#[test]
fn vote_outside_the_heap_is_out_of_bounds() {
    let mut guest = Guest::new(1024);
    let (ptr, _) = place(&mut guest, &[22, 0, 0, 0]);
    assert_eq!(vote(&guest, ptr, 5), Err(Trap::OutOfBounds));
    assert_eq!(vote(&guest, 0, 4), Err(Trap::OutOfBounds));
    assert_eq!(vote(&guest, ptr, -4), Err(Trap::OutOfBounds));
}

#[test]
fn guest_vote_at_the_top_traps() {
    let mut guest = Guest::new(1024);
    let (ptr, len) = place(&mut guest, &encode_vote_state(&VoteState { value: i32::MAX }));
    assert_eq!(vote(&guest, ptr, len), Err(Trap::CounterOverflow));
}

#[test]
fn poll_vote_registers_kingsgg() {
    let mut guest = Guest::new(4096);
    let state = state_of(&[], Event::Poll(word("kingsgg")), 22);
    assert_eq!(
        run_poll_vote(&mut guest, &state),
        state_of(&[("kingsgg", 0)], Event::Poll(word("kingsgg")), 22)
    );
}

#[test]
fn poll_vote_then_vote_for_kingsgg() {
    let mut guest = Guest::new(4096);
    let state = state_of(&[], Event::Poll(word("kingsgg")), 22);
    let mut next = run_poll_vote(&mut guest, &state);
    next.event = Event::Vote(word("kingsgg"));
    let last = run_poll_vote(&mut guest, &next);
    assert_eq!(last, state_of(&[("kingsgg", 1)], Event::Vote(word("kingsgg")), 22));
}

#[test]
fn poll_vote_for_an_unknown_option_changes_no_tally() {
    let mut guest = Guest::new(4096);
    let state = state_of(&[("a", 5)], Event::Vote(word("b")), 0);
    let out = run_poll_vote(&mut guest, &state);
    assert_eq!(out, state);
    assert_eq!(out.tallies.get(&word("b")), None);
    assert_eq!(out.tallies.len(), 1);
}

#[test]
fn poll_vote_writes_a_new_buffer_and_records_its_length() {
    let mut guest = Guest::new(4096);
    let input = encode_poll_state(&state_of(&[], Event::Poll(word("kingsgg")), 22));
    let (ptr, len) = place(&mut guest, &input);
    let out = poll_vote(&mut guest, ptr, len).unwrap();
    assert_eq!(out, ptr + len);
    let expected = encode_poll_state(&state_of(&[("kingsgg", 0)], Event::Poll(word("kingsgg")), 22));
    assert_eq!(get_length(&guest), expected.len() as i32);
    assert_eq!(guest.load(out, get_length(&guest)), Ok(expected.clone()));
    assert_eq!(guest.load(ptr, len), Ok(input.clone()));
    assert_eq!(guest.heap_len(), input.len() + expected.len());
}

#[test]
fn every_poll_vote_keeps_its_buffer() {
    let mut guest = Guest::new(4096);
    let input = encode_poll_state(&state_of(&[("a", 1)], Event::Vote(word("a")), 0));
    let (ptr, len) = place(&mut guest, &input);
    let first = poll_vote(&mut guest, ptr, len).unwrap();
    let second = poll_vote(&mut guest, ptr, len).unwrap();
    assert_eq!(second, first + get_length(&guest));
    assert_eq!(guest.load(first, get_length(&guest)), guest.load(second, get_length(&guest)));
}

#[test]
fn poll_vote_on_malformed_bytes_is_a_decode_error() {
    let mut guest = Guest::new(4096);
    let (ptr, len) = place(&mut guest, &[1, 2, 3]);
    let before = guest.heap_len();
    assert_eq!(poll_vote(&mut guest, ptr, len), Err(Trap::DecodeError));
    assert_eq!(guest.heap_len(), before);
    assert_eq!(get_length(&guest), 0);
}

#[test]
fn poll_vote_outside_the_heap_is_out_of_bounds() {
    let mut guest = Guest::new(4096);
    assert_eq!(poll_vote(&mut guest, HEAP_BASE as i32, 1), Err(Trap::OutOfBounds));
    assert_eq!(poll_vote(&mut guest, 3, 0), Err(Trap::OutOfBounds));
}

#[test]
fn poll_vote_without_room_for_the_answer_fails() {
    let input = encode_poll_state(&state_of(&[], Event::Poll(word("kingsgg")), 22));
    let mut guest = Guest::new(input.len() + 10);
    let (ptr, len) = place(&mut guest, &input);
    assert_eq!(poll_vote(&mut guest, ptr, len), Err(Trap::AllocationFailure));
    assert_eq!(guest.heap_len(), input.len());
    assert_eq!(get_length(&guest), 0);
}

#[test]
fn poll_vote_at_the_top_traps() {
    let mut guest = Guest::new(4096);
    let input = encode_poll_state(&state_of(&[("a", i32::MAX)], Event::Vote(word("a")), 0));
    let (ptr, len) = place(&mut guest, &input);
    assert_eq!(poll_vote(&mut guest, ptr, len), Err(Trap::CounterOverflow));
    assert_eq!(guest.heap_len(), input.len());
}

#[test]
fn get_state_reads_what_was_placed() {
    let mut guest = Guest::new(4096);
    let state = state_of(&[("a", 5), ("b", 6)], Event::Vote(word("b")), 9);
    let (ptr, len) = place(&mut guest, &encode_poll_state(&state));
    assert_eq!(get_state(&guest, ptr, len), Ok(state));
    assert_eq!(get_state(&guest, ptr, len - 1), Err(Trap::DecodeError));
    assert_eq!(get_state(&guest, ptr, len + 1), Err(Trap::OutOfBounds));
}

#[test]
fn construct_state_writes_and_records_the_length() {
    let mut guest = Guest::new(4096);
    let state = state_of(&[("a", 5)], Event::Poll(word("a")), 9);
    let bytes = encode_poll_state(&state);
    let ptr = construct_state(&mut guest, state.clone()).unwrap();
    assert_eq!(ptr, HEAP_BASE as i32);
    assert_eq!(get_length(&guest), bytes.len() as i32);
    assert_eq!(guest.load(ptr, bytes.len() as i32), Ok(bytes));
    let mut small = Guest::new(3);
    assert_eq!(construct_state(&mut small, state), Err(Trap::AllocationFailure));
    assert_eq!(get_length(&small), 0);
}
