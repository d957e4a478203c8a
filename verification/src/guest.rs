//! The guest: a linear memory with its allocator, and the operations that
//! the guest exports.
//!
//! Addresses below `HEAP_BASE` belong to the guest's own data and are never
//! handed out. The heap starts at `HEAP_BASE` and only grows: every
//! allocation is appended to it and stays for the lifetime of the guest.
//! A pointer is an address in that memory; together with a length it names
//! the bytes an operation reads.

use vstd::prelude::*;
use crate::codec::{
    decode_poll_state, decode_vote_state, encode_poll_state, lemma_vote_round_trip, parse_poll,
    parse_vote, poll_wire, vote_wire,
};
use crate::error::Trap;
use crate::state::{PollModel, VotePollState, VoteState};

verus! {

/// The first address of the heap.
pub const HEAP_BASE: usize = 16;

/// The largest heap a guest can have: every address fits a non-negative
/// `i32`.
pub const MAX_HEAP: usize = 0x7fff_ffef;

/// The address of the guest's initialisation cell, which `init` returns as
/// its token.
pub const INIT_TOKEN: i32 = 8;

/// The value that the initialisation cell holds.
pub const INIT_STATE: i32 = 42;

/// The size of the block that `init` asks the allocator for.
pub const INIT_BLOCK: usize = 10;

/// The alignment of the block that `init` asks the allocator for.
pub const INIT_ALIGN: usize = 4;

/// `n` zero bytes.
pub open spec fn zeros(n: nat) -> Seq<u8> {
    Seq::new(n, |i: int| 0u8)
}

/// The number of bytes to skip from `addr` to reach a multiple of
/// `INIT_ALIGN`.
pub open spec fn padding(addr: int) -> int {
    (INIT_ALIGN - addr % (INIT_ALIGN as int)) % (INIT_ALIGN as int)
}

/// One guest instance.
#[derive(Debug)]
pub struct Guest {
    heap: Vec<u8>,
    limit: usize,
    init_state: i32,
    last_length: i32,
}

impl Guest {
    /// The bytes of the heap; the byte at address `a` is `heap()[a - HEAP_BASE]`.
    pub closed spec fn heap(&self) -> Seq<u8> {
        self.heap@
    }

    /// The number of bytes that the heap may grow to.
    pub closed spec fn limit(&self) -> nat {
        self.limit as nat
    }

    /// The length of the last buffer that an operation produced.
    pub closed spec fn last_length(&self) -> i32 {
        self.last_length
    }

    /// What the initialisation cell holds.
    pub closed spec fn init_state(&self) -> i32 {
        self.init_state
    }

    /// The heap is within its limit, and the limit within the address space.
    pub open spec fn wf(&self) -> bool {
        &&& self.heap().len() <= self.limit()
        &&& self.limit() <= MAX_HEAP
    }

    /// The first address after the heap: where the next allocation goes.
    pub open spec fn heap_end(&self) -> int {
        HEAP_BASE + self.heap().len()
    }

    /// The heap can grow by `n` bytes.
    pub open spec fn has_room(&self, n: int) -> bool {
        self.heap().len() + n <= self.limit()
    }

    /// The `len` bytes at `ptr` all lie in the heap.
    pub open spec fn owns(&self, ptr: int, len: int) -> bool {
        HEAP_BASE <= ptr && 0 <= len && ptr + len <= self.heap_end()
    }

    /// The `len` bytes at `ptr`.
    pub open spec fn bytes_at(&self, ptr: int, len: int) -> Seq<u8> {
        self.heap().subrange(ptr - HEAP_BASE, ptr - HEAP_BASE + len)
    }

    /// A guest with an empty heap that may grow to `limit` bytes, or to
    /// `MAX_HEAP` bytes if `limit` is more than that.
    pub fn new(limit: usize) -> (guest: Guest)
        ensures
            guest.wf(),
            guest.heap() == Seq::<u8>::empty(),
            guest.limit() == if limit <= MAX_HEAP {
                limit
            } else {
                MAX_HEAP
            },
            guest.last_length() == 0,
            guest.init_state() == INIT_STATE,
    {
        let limit = if limit <= MAX_HEAP {
            limit
        } else {
            MAX_HEAP
        };
        Guest { heap: Vec::new(), limit, init_state: INIT_STATE, last_length: 0 }
    }

    /// The number of bytes in the heap.
    pub fn heap_len(&self) -> (n: usize)
        ensures
            n == self.heap().len(),
    {
        self.heap.len()
    }

    /// Copies the `len` bytes at `ptr` out of the guest's memory.
    pub fn load(&self, ptr: i32, len: i32) -> (r: Result<Vec<u8>, Trap>)
        requires
            self.wf(),
        ensures
            self.owns(ptr as int, len as int) ==> r is Ok && r->Ok_0@ == self.bytes_at(
                ptr as int,
                len as int,
            ),
            !self.owns(ptr as int, len as int) ==> r == Err::<Vec<u8>, Trap>(Trap::OutOfBounds),
    {
        if ptr < 0 || len < 0 {
            return Err(Trap::OutOfBounds);
        }
        let start = ptr as usize;
        let count = len as usize;
        if start < HEAP_BASE || start - HEAP_BASE > self.heap.len() || count > self.heap.len() - (
        start - HEAP_BASE) {
            return Err(Trap::OutOfBounds);
        }
        let from = start - HEAP_BASE;
        let mut out: Vec<u8> = Vec::new();
        let mut i: usize = 0;
        while i < count
            invariant
                from + count <= self.heap.len(),
                i <= count,
                out@ == self.heap@.subrange(from as int, from + i),
            decreases count - i,
        {
            out.push(self.heap[from + i]);
            assert(out@ =~= self.heap@.subrange(from as int, from + i + 1));
            i = i + 1;
        }
        Ok(out)
    }

    /// Copies `bytes` into the guest's memory at `ptr`.
    pub fn store(&mut self, ptr: i32, bytes: &[u8]) -> (r: Result<(), Trap>)
        requires
            old(self).wf(),
        ensures
            final(self).wf(),
            final(self).limit() == old(self).limit(),
            final(self).last_length() == old(self).last_length(),
            final(self).init_state() == old(self).init_state(),
            final(self).heap().len() == old(self).heap().len(),
            old(self).owns(ptr as int, bytes@.len() as int) ==> r == Ok::<(), Trap>(())
                && final(self).bytes_at(ptr as int, bytes@.len() as int) == bytes@
                && forall|a: int|
                0 <= a < old(self).heap().len() && !(ptr - HEAP_BASE <= a < ptr - HEAP_BASE
                    + bytes@.len()) ==> final(self).heap()[a] == old(self).heap()[a],
            !old(self).owns(ptr as int, bytes@.len() as int) ==> r == Err::<(), Trap>(
                Trap::OutOfBounds,
            ) && *final(self) == *old(self),
    {
        if ptr < 0 {
            return Err(Trap::OutOfBounds);
        }
        let start = ptr as usize;
        let count = bytes.len();
        if start < HEAP_BASE || start - HEAP_BASE > self.heap.len() || count > self.heap.len() - (
        start - HEAP_BASE) {
            return Err(Trap::OutOfBounds);
        }
        let from = start - HEAP_BASE;
        let mut i: usize = 0;
        while i < count
            invariant
                count == bytes@.len(),
                from + count <= self.heap.len(),
                self.heap@.len() == old(self).heap@.len(),
                self.limit == old(self).limit,
                self.last_length == old(self).last_length,
                self.init_state == old(self).init_state,
                i <= count,
                forall|a: int| from <= a < from + i ==> self.heap@[a] == bytes@[a - from],
                forall|a: int|
                    0 <= a < self.heap@.len() && !(from <= a < from + i) ==> self.heap@[a] == old(self).heap@[a],
            decreases count - i,
        {
            self.heap.set(from + i, bytes[i]);
            i = i + 1;
        }
        assert(self.bytes_at(ptr as int, bytes@.len() as int) =~= bytes@);
        Ok(())
    }
}

/// `post` is `pre` with `added` at the end of its heap and nothing else
/// changed.
pub open spec fn grown_by(pre: Guest, added: Seq<u8>, post: Guest) -> bool {
    &&& post.heap() == pre.heap() + added
    &&& post.limit() == pre.limit()
    &&& post.last_length() == pre.last_length()
    &&& post.init_state() == pre.init_state()
}

/// What `allocate` answers.
pub open spec fn allocate_result(pre: Guest, len: i32) -> Result<i32, Trap> {
    if len >= 0 && pre.has_room(len as int) {
        Ok(pre.heap_end() as i32)
    } else {
        Err(Trap::AllocationFailure)
    }
}

/// What `allocate` does to the guest.
pub open spec fn allocate_effect(pre: Guest, len: i32, post: Guest) -> bool {
    if allocate_result(pre, len) is Ok {
        grown_by(pre, zeros(len as nat), post)
    } else {
        post == pre
    }
}

/// What `init` does to the guest.
pub open spec fn init_effect(pre: Guest, post: Guest) -> bool {
    let size = padding(pre.heap_end()) + INIT_BLOCK;
    if pre.has_room(size) {
        &&& post.heap() == pre.heap() + zeros(size as nat)
        &&& post.limit() == pre.limit()
        &&& post.last_length() == pre.last_length()
        &&& post.init_state() == INIT_STATE
    } else {
        post == pre
    }
}

/// What `vote` answers on the `len` bytes at `ptr`.
pub open spec fn vote_outcome(guest: Guest, ptr: i32, len: i32) -> Result<i32, Trap> {
    if !guest.owns(ptr as int, len as int) {
        Err(Trap::OutOfBounds)
    } else {
        match parse_vote(guest.bytes_at(ptr as int, len as int)) {
            None => Err(Trap::DecodeError),
            Some(s) => if s.value == i32::MAX {
                Err(Trap::CounterOverflow)
            } else {
                Ok((s.value + 1) as i32)
            },
        }
    }
}

/// What `get_state` reads from the `len` bytes at `ptr`.
pub open spec fn state_at(guest: Guest, ptr: i32, len: i32) -> Result<PollModel, Trap> {
    if !guest.owns(ptr as int, len as int) {
        Err(Trap::OutOfBounds)
    } else {
        match parse_poll(guest.bytes_at(ptr as int, len as int)) {
            None => Err(Trap::DecodeError),
            Some(m) => Ok(m),
        }
    }
}

/// What `construct_state` answers.
pub open spec fn construct_result(pre: Guest, m: PollModel) -> Result<i32, Trap> {
    if pre.has_room(poll_wire(m).len() as int) {
        Ok(pre.heap_end() as i32)
    } else {
        Err(Trap::AllocationFailure)
    }
}

/// What `construct_state` does to the guest: the state is written at the
/// end of the heap and its length recorded.
pub open spec fn construct_effect(pre: Guest, m: PollModel, post: Guest) -> bool {
    if construct_result(pre, m) is Ok {
        &&& post.heap() == pre.heap() + poll_wire(m)
        &&& post.last_length() == poll_wire(m).len()
        &&& post.limit() == pre.limit()
        &&& post.init_state() == pre.init_state()
    } else {
        post == pre
    }
}

/// What `poll_vote` answers on the `len` bytes at `ptr`.
pub open spec fn poll_vote_result(pre: Guest, ptr: i32, len: i32) -> Result<i32, Trap> {
    match state_at(pre, ptr, len) {
        Err(trap) => Err(trap),
        Ok(m) => if !m.can_step() {
            Err(Trap::CounterOverflow)
        } else {
            construct_result(pre, m.step())
        },
    }
}

/// What `poll_vote` does to the guest. A call that traps leaves the guest
/// as it was; one that succeeds writes the new state, which reads back as
/// itself.
pub open spec fn poll_vote_effect(pre: Guest, ptr: i32, len: i32, post: Guest) -> bool {
    match poll_vote_result(pre, ptr, len) {
        Err(_) => post == pre,
        Ok(_) => {
            let m = state_at(pre, ptr, len)->Ok_0.step();
            &&& construct_effect(pre, m, post)
            &&& parse_poll(poll_wire(m)) == Some(m)
        },
    }
}

/// Moves `v` into the guest's memory and returns its address. The buffer
/// goes to the end of the heap and stays there. An empty buffer takes no
/// room: its address is the end of the heap.
pub fn write_bytes(guest: &mut Guest, v: Vec<u8>) -> (r: Result<usize, Trap>)
    requires
        old(guest).wf(),
    ensures
        final(guest).wf(),
        old(guest).has_room(v@.len() as int) ==> r == Ok::<usize, Trap>(
            old(guest).heap_end() as usize,
        ) && grown_by(*old(guest), v@, *final(guest)),
        !old(guest).has_room(v@.len() as int) ==> r == Err::<usize, Trap>(
            Trap::AllocationFailure,
        ) && *final(guest) == *old(guest),
{
    if v.len() > guest.limit - guest.heap.len() {
        return Err(Trap::AllocationFailure);
    }
    let ptr = HEAP_BASE + guest.heap.len();
    let mut v = v;
    guest.heap.append(&mut v);
    Ok(ptr)
}

/// Reserves `len` bytes of guest memory and returns their address. The
/// bytes are zero. A negative `len`, or one that the heap has no room for,
/// is an allocation failure and leaves the guest as it was.
pub fn allocate(guest: &mut Guest, len: i32) -> (r: Result<i32, Trap>)
    requires
        old(guest).wf(),
    ensures
        final(guest).wf(),
        r == allocate_result(*old(guest), len),
        allocate_effect(*old(guest), len, *final(guest)),
{
    if len < 0 {
        return Err(Trap::AllocationFailure);
    }
    let block = vec![0u8; len as usize];
    assert(block@ =~= zeros(len as nat));
    match write_bytes(guest, block) {
        Ok(ptr) => Ok(ptr as i32),
        Err(trap) => Err(trap),
    }
}

/// Returns the initialisation token. On the way it asks the allocator for a
/// block of `INIT_BLOCK` bytes at a multiple of `INIT_ALIGN`, which it never
/// gives back, and writes the initial state into the initialisation cell if
/// it got the block. It does not fail: without room for the block the guest
/// stays as it is.
pub fn init(guest: &mut Guest, len: i32) -> (token: i32)
    requires
        old(guest).wf(),
    ensures
        token == INIT_TOKEN,
        final(guest).wf(),
        init_effect(*old(guest), *final(guest)),
{
    let end = HEAP_BASE + guest.heap.len();
    let pad = (INIT_ALIGN - end % INIT_ALIGN) % INIT_ALIGN;
    let block = vec![0u8; pad + INIT_BLOCK];
    assert(block@ =~= zeros((pad + INIT_BLOCK) as nat));
    match write_bytes(guest, block) {
        Ok(_) => {
            guest.init_state = INIT_STATE;
        },
        Err(_) => {},
    }
    INIT_TOKEN
}

/// The general entry point of the contract. It does nothing yet and
/// answers zero.
pub fn invoke(init_state: i32, func: i32, args: i32) -> (r: i32)
    ensures
        r == 0,
{
    0
}

/// The length of the buffer that the last `poll_vote` produced.
pub fn get_length(guest: &Guest) -> (r: i32)
    ensures
        r == guest.last_length(),
{
    guest.last_length
}

/// Reads a vote state from the `len` bytes at `init_state`, adds one vote,
/// and returns the new count.
pub fn vote(guest: &Guest, init_state: i32, len: i32) -> (r: Result<i32, Trap>)
    requires
        guest.wf(),
    ensures
        r == vote_outcome(*guest, init_state, len),
{
    let bytes = match guest.load(init_state, len) {
        Ok(bytes) => bytes,
        Err(trap) => {
            return Err(trap);
        },
    };
    let mut state = match decode_vote_state(bytes.as_slice()) {
        Ok(state) => state,
        Err(trap) => {
            return Err(trap);
        },
    };
    state.increment()
}

/// Reads a poll state from the `len` bytes at `init_state`.
pub fn get_state(guest: &Guest, init_state: i32, len: i32) -> (r: Result<VotePollState, Trap>)
    requires
        guest.wf(),
    ensures
        match state_at(*guest, init_state, len) {
            Ok(m) => r is Ok && r->Ok_0@ == m && r->Ok_0.wf(),
            Err(trap) => r == Err::<VotePollState, Trap>(trap),
        },
{
    let bytes = match guest.load(init_state, len) {
        Ok(bytes) => bytes,
        Err(trap) => {
            return Err(trap);
        },
    };
    decode_poll_state(bytes.as_slice())
}

/// Writes `state` into a new buffer of guest memory, records the buffer's
/// length, and returns its address. Without room for the buffer the call is
/// an allocation failure and leaves the guest as it was.
pub fn construct_state(guest: &mut Guest, state: VotePollState) -> (r: Result<i32, Trap>)
    requires
        old(guest).wf(),
    ensures
        final(guest).wf(),
        r == construct_result(*old(guest), state@),
        construct_effect(*old(guest), state@, *final(guest)),
        state.wf() ==> parse_poll(poll_wire(state@)) == Some(state@),
{
    let serialized = encode_poll_state(&state);
    let length = serialized.len();
    match write_bytes(guest, serialized) {
        Ok(ptr) => {
            guest.last_length = length as i32;
            Ok(ptr as i32)
        },
        Err(trap) => Err(trap),
    }
}

/// Reads a poll state from the `len` bytes at `init_state`, applies the
/// event it carries, and writes the new state into a new buffer, whose
/// address it returns. The buffer's length is what `get_length` answers
/// afterwards. A call that traps leaves the guest as it was.
pub fn poll_vote(guest: &mut Guest, init_state: i32, len: i32) -> (r: Result<i32, Trap>)
    requires
        old(guest).wf(),
    ensures
        final(guest).wf(),
        r == poll_vote_result(*old(guest), init_state, len),
        poll_vote_effect(*old(guest), init_state, len, *final(guest)),
{
    let mut state = match get_state(guest, init_state, len) {
        Ok(state) => state,
        Err(trap) => {
            return Err(trap);
        },
    };
    match state.apply_event() {
        Ok(()) => construct_state(guest, state),
        Err(trap) => Err(trap),
    }
}

/// Asking for no bytes never fails and takes no room. The address that comes
/// back is not null, and reading no bytes there gives an empty buffer.
pub proof fn lemma_allocate_nothing(pre: Guest)
    requires
        pre.wf(),
    ensures
        allocate_result(pre, 0) == Ok::<i32, Trap>(pre.heap_end() as i32),
        pre.heap_end() >= HEAP_BASE > 0,
        pre.owns(pre.heap_end(), 0),
        pre.bytes_at(pre.heap_end(), 0) == Seq::<u8>::empty(),
        forall|post: Guest| allocate_effect(pre, 0, post) ==> post.heap() == pre.heap(),
{
    assert(pre.bytes_at(pre.heap_end(), 0) =~= Seq::<u8>::empty());
    assert forall|post: Guest| allocate_effect(pre, 0, post) implies post.heap()
        == pre.heap() by {
        assert(pre.heap() + zeros(0) =~= pre.heap());
    }
}

/// A vote on a buffer that holds a written vote state answers one more than
/// the state's counter. So two votes, the second on the written answer of
/// the first, add two.
pub proof fn lemma_vote_twice(first: Guest, p: i32, second: Guest, q: i32, s: VoteState)
    requires
        s.value < i32::MAX - 1,
        first.owns(p as int, 4),
        first.bytes_at(p as int, 4) == vote_wire(s),
        second.owns(q as int, 4),
        second.bytes_at(q as int, 4) == vote_wire(VoteState { value: (s.value + 1) as i32 }),
    ensures
        vote_outcome(first, p, 4) == Ok::<i32, Trap>((s.value + 1) as i32),
        vote_outcome(second, q, 4) == Ok::<i32, Trap>((s.value + 2) as i32),
{
    lemma_vote_round_trip(s, Seq::empty());
    assert(vote_wire(s) + Seq::<u8>::empty() =~= vote_wire(s));
    let t = VoteState { value: (s.value + 1) as i32 };
    lemma_vote_round_trip(t, Seq::empty());
    assert(vote_wire(t) + Seq::<u8>::empty() =~= vote_wire(t));
}

} // verus!
