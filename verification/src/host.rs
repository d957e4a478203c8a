//! The host's side of the protocol.
//!
//! The host never touches a guest directly. It states what it wants done as a
//! `Request`, and whoever runs the guest hands back an `Answer`. `Push` and
//! `Pull` decide, answer by answer, which request comes next: `Push` places a
//! value in guest memory, `Pull` calls an operation on it and fetches the
//! result. `perform` runs a request on a `Guest` of this library, and
//! `push_value` and `invoke_and_pull` run whole exchanges on one.

use vstd::prelude::*;
use vstd::string::StringExecFns;
use crate::codec::{
    decode_poll_state, encode_poll_state, encode_vote_state, lemma_vote_round_trip, parse_poll,
    poll_wire, vote_wire,
};
use crate::error::{HostError, Trap};
use crate::guest::{
    allocate, allocate_effect, allocate_result, get_length, grown_by, init, init_effect, invoke,
    poll_vote, poll_vote_effect, poll_vote_result, state_at, vote, vote_outcome, zeros, Guest,
    HEAP_BASE, INIT_TOKEN,
};
use crate::state::{VotePollState, VoteState};

verus! {

/// The operations that a guest exports.
#[derive(Clone, Copy, Debug, PartialEq, Eq, Structural)]
pub enum Export {
    /// `init`: takes a length, returns the initialisation token.
    Init,
    /// `allocate`: takes a size, returns the address of that many bytes.
    Allocate,
    /// `invoke`: takes three integers, returns zero.
    Invoke,
    /// `vote`: takes the address and length of a vote state, returns the
    /// new count.
    Vote,
    /// `poll_vote`: takes the address and length of a poll state, returns
    /// the address of the new state.
    PollVote,
    /// `get_length`: takes nothing, returns the length of the last new
    /// state.
    GetLength,
}

/// The export that goes by `name`, if there is one.
pub open spec fn export_named(name: Seq<char>) -> Option<Export> {
    if name == "init"@ {
        Some(Export::Init)
    } else if name == "allocate"@ {
        Some(Export::Allocate)
    } else if name == "invoke"@ {
        Some(Export::Invoke)
    } else if name == "vote"@ {
        Some(Export::Vote)
    } else if name == "poll_vote"@ {
        Some(Export::PollVote)
    } else if name == "get_length"@ {
        Some(Export::GetLength)
    } else {
        None
    }
}

impl Export {
    /// The export that goes by `name`, if there is one.
    pub fn named(name: &str) -> (r: Option<Export>)
        ensures
            r == export_named(name@),
    {
        let name = String::from_str(name);
        if name == String::from_str("init") {
            Some(Export::Init)
        } else if name == String::from_str("allocate") {
            Some(Export::Allocate)
        } else if name == String::from_str("invoke") {
            Some(Export::Invoke)
        } else if name == String::from_str("vote") {
            Some(Export::Vote)
        } else if name == String::from_str("poll_vote") {
            Some(Export::PollVote)
        } else if name == String::from_str("get_length") {
            Some(Export::GetLength)
        } else {
            None
        }
    }

    /// The name under which the guest exports the operation.
    pub fn name(self) -> (name: &'static str)
        ensures
            export_named(name@) == Some(self),
    {
        proof {
            lemma_names_differ();
        }
        match self {
            Export::Init => "init",
            Export::Allocate => "allocate",
            Export::Invoke => "invoke",
            Export::Vote => "vote",
            Export::PollVote => "poll_vote",
            Export::GetLength => "get_length",
        }
    }
}

/// No two exports share a name.
pub proof fn lemma_names_differ()
    ensures
        export_named("init"@) == Some(Export::Init),
        export_named("allocate"@) == Some(Export::Allocate),
        export_named("invoke"@) == Some(Export::Invoke),
        export_named("vote"@) == Some(Export::Vote),
        export_named("poll_vote"@) == Some(Export::PollVote),
        export_named("get_length"@) == Some(Export::GetLength),
{
    reveal_strlit("init");
    reveal_strlit("allocate");
    reveal_strlit("invoke");
    reveal_strlit("vote");
    reveal_strlit("poll_vote");
    reveal_strlit("get_length");
    assert("init"@.len() == 4 && "vote"@.len() == 4 && "init"@[0] != "vote"@[0]);
    assert("allocate"@.len() == 8 && "invoke"@.len() == 6);
    assert("poll_vote"@.len() == 9 && "get_length"@.len() == 10);
}

/// One thing that the host asks of an instance.
#[derive(Clone, Debug, PartialEq, Eq)]
pub enum Request {
    /// Call an export with integer arguments.
    Call { export: Export, args: Vec<i32> },
    /// Copy bytes into the instance's memory.
    Write { ptr: i32, bytes: Vec<u8> },
    /// Copy bytes out of the instance's memory.
    Read { ptr: i32, len: i32 },
}

/// What came back from the instance.
#[derive(Clone, Debug, PartialEq, Eq)]
pub enum Answer {
    /// The integer that a call returned.
    Value(i32),
    /// The bytes were written.
    Written,
    /// The bytes that were read.
    Bytes(Vec<u8>),
    /// The request failed.
    Failed(HostError),
}

/// Where an exchange stands after an answer.
#[derive(Debug, PartialEq, Eq)]
pub enum Progress<S, T> {
    /// The exchange goes on from the state with the request.
    Ask(S, Request),
    /// The exchange is over and this is its result.
    Done(T),
    /// The exchange is over and has failed.
    Failed(HostError),
}

/// What an operation on a value in guest memory gave.
#[derive(Debug, PartialEq, Eq)]
pub enum Pulled {
    /// The operation answered with a number.
    Count(i32),
    /// The operation answered with a buffer, which held this state.
    State(VotePollState),
}

/// A guest's answer to a call, as the host sees it.
pub open spec fn lift(r: Result<i32, Trap>) -> Result<i32, HostError> {
    match r {
        Ok(v) => Ok(v),
        Err(trap) => Err(HostError::Trapped(trap)),
    }
}

/// What a call of `export` with `args` answers.
pub open spec fn call_result(pre: Guest, export: Export, args: Seq<i32>) -> Result<
    i32,
    HostError,
> {
    match export {
        Export::Init => if args.len() == 1 {
            Ok(INIT_TOKEN)
        } else {
            Err(HostError::MissingExport)
        },
        Export::Allocate => if args.len() == 1 {
            lift(allocate_result(pre, args[0]))
        } else {
            Err(HostError::MissingExport)
        },
        Export::Invoke => if args.len() == 3 {
            Ok(0i32)
        } else {
            Err(HostError::MissingExport)
        },
        Export::Vote => if args.len() == 2 {
            lift(vote_outcome(pre, args[0], args[1]))
        } else {
            Err(HostError::MissingExport)
        },
        Export::PollVote => if args.len() == 2 {
            lift(poll_vote_result(pre, args[0], args[1]))
        } else {
            Err(HostError::MissingExport)
        },
        Export::GetLength => if args.len() == 0 {
            Ok(pre.last_length())
        } else {
            Err(HostError::MissingExport)
        },
    }
}

/// What a call of `export` with `args` does to the guest.
pub open spec fn call_effect(pre: Guest, export: Export, args: Seq<i32>, post: Guest) -> bool {
    match export {
        Export::Init => if args.len() == 1 {
            init_effect(pre, post)
        } else {
            post == pre
        },
        Export::Allocate => if args.len() == 1 {
            allocate_effect(pre, args[0], post)
        } else {
            post == pre
        },
        Export::PollVote => if args.len() == 2 {
            poll_vote_effect(pre, args[0], args[1], post)
        } else {
            post == pre
        },
        _ => post == pre,
    }
}

/// Calls `export` on `guest` with `args`. An export that does not take
/// that many arguments counts as missing.
pub fn call(guest: &mut Guest, export: Export, args: &[i32]) -> (r: Result<i32, HostError>)
    requires
        old(guest).wf(),
    ensures
        final(guest).wf(),
        r == call_result(*old(guest), export, args@),
        call_effect(*old(guest), export, args@, *final(guest)),
{
    let given = args.len();
    match export {
        Export::Init => {
            if given != 1 {
                return Err(HostError::MissingExport);
            }
            Ok(init(guest, args[0]))
        },
        Export::Allocate => {
            if given != 1 {
                return Err(HostError::MissingExport);
            }
            match allocate(guest, args[0]) {
                Ok(ptr) => Ok(ptr),
                Err(trap) => Err(HostError::Trapped(trap)),
            }
        },
        Export::Invoke => {
            if given != 3 {
                return Err(HostError::MissingExport);
            }
            Ok(invoke(args[0], args[1], args[2]))
        },
        Export::Vote => {
            if given != 2 {
                return Err(HostError::MissingExport);
            }
            match vote(guest, args[0], args[1]) {
                Ok(count) => Ok(count),
                Err(trap) => Err(HostError::Trapped(trap)),
            }
        },
        Export::PollVote => {
            if given != 2 {
                return Err(HostError::MissingExport);
            }
            match poll_vote(guest, args[0], args[1]) {
                Ok(ptr) => Ok(ptr),
                Err(trap) => Err(HostError::Trapped(trap)),
            }
        },
        Export::GetLength => {
            if given != 0 {
                return Err(HostError::MissingExport);
            }
            Ok(get_length(guest))
        },
    }
}

/// What `perform` does to the guest.
pub open spec fn perform_effect(pre: Guest, request: Request, post: Guest) -> bool {
    match request {
        Request::Call { export, args } => call_effect(pre, export, args@, post),
        Request::Write { ptr, bytes } => if pre.owns(ptr as int, bytes@.len() as int) {
            &&& post.heap().len() == pre.heap().len()
            &&& post.limit() == pre.limit()
            &&& post.last_length() == pre.last_length()
            &&& post.init_state() == pre.init_state()
            &&& post.bytes_at(ptr as int, bytes@.len() as int) == bytes@
            &&& forall|a: int|
                0 <= a < pre.heap().len() && !(ptr - HEAP_BASE <= a < ptr
                    - HEAP_BASE + bytes@.len()) ==> post.heap()[a] == pre.heap()[a]
        } else {
            post == pre
        },
        Request::Read { ptr, len } => post == pre,
    }
}

/// What `perform` answers.
pub open spec fn perform_answer(pre: Guest, request: Request, answer: Answer) -> bool {
    match request {
        Request::Call { export, args } => match call_result(pre, export, args@) {
            Ok(v) => answer == Answer::Value(v),
            Err(e) => answer == Answer::Failed(e),
        },
        Request::Write { ptr, bytes } => if pre.owns(ptr as int, bytes@.len() as int) {
            answer == Answer::Written
        } else {
            answer == Answer::Failed(HostError::OutOfBounds)
        },
        Request::Read { ptr, len } => if pre.owns(ptr as int, len as int) {
            answer matches Answer::Bytes(b) && b@ == pre.bytes_at(ptr as int, len as int)
        } else {
            answer == Answer::Failed(HostError::OutOfBounds)
        },
    }
}

/// Runs one request on a guest of this library.
pub fn perform(guest: &mut Guest, request: &Request) -> (answer: Answer)
    requires
        old(guest).wf(),
    ensures
        final(guest).wf(),
        perform_answer(*old(guest), *request, answer),
        perform_effect(*old(guest), *request, *final(guest)),
{
    match request {
        Request::Call { export, args } => match call(guest, *export, args.as_slice()) {
            Ok(v) => Answer::Value(v),
            Err(e) => Answer::Failed(e),
        },
        Request::Write { ptr, bytes } => match guest.store(*ptr, bytes.as_slice()) {
            Ok(()) => Answer::Written,
            Err(_) => Answer::Failed(HostError::OutOfBounds),
        },
        Request::Read { ptr, len } => match guest.load(*ptr, *len) {
            Ok(bytes) => Answer::Bytes(bytes),
            Err(_) => Answer::Failed(HostError::OutOfBounds),
        },
    }
}

/// Placing a value in guest memory: what the host waits for.
#[derive(Debug, PartialEq, Eq)]
pub enum Push {
    /// The address of the room that was asked for.
    AwaitPointer { bytes: Vec<u8>, len: i32 },
    /// Word that the bytes were written.
    AwaitWritten { ptr: i32, len: i32 },
}

impl Push {
    /// Starts placing `bytes`: asks the guest for room. A value of more
    /// than `i32::MAX` bytes is not sent at all.
    pub fn begin(bytes: Vec<u8>) -> (r: Progress<Push, (i32, i32)>)
        ensures
            bytes@.len() > i32::MAX ==> r == Progress::<Push, (i32, i32)>::Failed(
                HostError::TooLarge,
            ),
            bytes@.len() <= i32::MAX ==> (r matches Progress::Ask(
                Push::AwaitPointer { bytes: kept, len },
                Request::Call { export, args },
            ) && kept == bytes && len == bytes@.len() && export == Export::Allocate && args@
                == seq![len]),
    {
        if bytes.len() > i32::MAX as usize {
            return Progress::Failed(HostError::TooLarge);
        }
        let len = bytes.len() as i32;
        let mut args: Vec<i32> = Vec::new();
        args.push(len);
        Progress::Ask(
            Push::AwaitPointer { bytes, len },
            Request::Call { export: Export::Allocate, args },
        )
    }

    /// Takes an answer and decides what comes next: once the guest has
    /// given an address, the bytes are written there; once they are written,
    /// the value is placed, at that address and with its own length. A
    /// failure ends the exchange, and so does an answer of the wrong kind.
    pub fn advance(self, answer: Answer) -> (r: Progress<Push, (i32, i32)>)
        ensures
            match (self, answer) {
                (_, Answer::Failed(e)) => r == Progress::<Push, (i32, i32)>::Failed(e),
                (Push::AwaitPointer { bytes, len }, Answer::Value(ptr)) => r == Progress::<
                    Push,
                    (i32, i32),
                >::Ask(Push::AwaitWritten { ptr, len }, Request::Write { ptr, bytes }),
                (Push::AwaitWritten { ptr, len }, Answer::Written) => r == Progress::<
                    Push,
                    (i32, i32),
                >::Done((ptr, len)),
                _ => r == Progress::<Push, (i32, i32)>::Failed(HostError::Protocol),
            },
    {
        match answer {
            Answer::Failed(e) => Progress::Failed(e),
            Answer::Value(ptr) => match self {
                Push::AwaitPointer { bytes, len } => Progress::Ask(
                    Push::AwaitWritten { ptr, len },
                    Request::Write { ptr, bytes },
                ),
                Push::AwaitWritten { .. } => Progress::Failed(HostError::Protocol),
            },
            Answer::Written => match self {
                Push::AwaitWritten { ptr, len } => Progress::Done((ptr, len)),
                Push::AwaitPointer { .. } => Progress::Failed(HostError::Protocol),
            },
            Answer::Bytes(_) => Progress::Failed(HostError::Protocol),
        }
    }
}

/// Calling an operation on a value in guest memory: what the host waits
/// for.
#[derive(Clone, Copy, Debug, PartialEq, Eq, Structural)]
pub enum Pull {
    /// What the operation returns.
    AwaitResult { export: Export },
    /// The length of the buffer at `ptr`.
    AwaitLength { ptr: i32 },
    /// The bytes of the buffer.
    AwaitBytes,
}

impl Pull {
    /// Starts a call of the export `name` on the `len` bytes at `ptr`. Only
    /// `vote` and `poll_vote` take a value in memory; any other name counts
    /// as a missing export.
    pub fn begin(name: &str, ptr: i32, len: i32) -> (r: Progress<Pull, Pulled>)
        ensures
            match export_named(name@) {
                Some(export) => if export == Export::Vote || export == Export::PollVote {
                    r matches Progress::Ask(
                        Pull::AwaitResult { export: waiting },
                        Request::Call { export: called, args },
                    ) && waiting == export && called == export && args@ == seq![ptr, len]
                } else {
                    r == Progress::<Pull, Pulled>::Failed(HostError::MissingExport)
                },
                None => r == Progress::<Pull, Pulled>::Failed(HostError::MissingExport),
            },
    {
        match Export::named(name) {
            Some(Export::Vote) => {
                let mut args: Vec<i32> = Vec::new();
                args.push(ptr);
                args.push(len);
                Progress::Ask(
                    Pull::AwaitResult { export: Export::Vote },
                    Request::Call { export: Export::Vote, args },
                )
            },
            Some(Export::PollVote) => {
                let mut args: Vec<i32> = Vec::new();
                args.push(ptr);
                args.push(len);
                Progress::Ask(
                    Pull::AwaitResult { export: Export::PollVote },
                    Request::Call { export: Export::PollVote, args },
                )
            },
            _ => Progress::Failed(HostError::MissingExport),
        }
    }

    /// Takes an answer and decides what comes next. What `vote` returns is
    /// the result. What `poll_vote` returns is the address of a buffer: the
    /// host asks for its length, reads that many bytes there, and decodes
    /// them. A failure ends the exchange, and so does an answer of the wrong
    /// kind.
    pub fn advance(self, answer: Answer) -> (r: Progress<Pull, Pulled>)
        ensures
            match (self, answer) {
                (_, Answer::Failed(e)) => r == Progress::<Pull, Pulled>::Failed(e),
                (Pull::AwaitResult { export }, Answer::Value(v)) => if export == Export::PollVote {
                    r matches Progress::Ask(
                        Pull::AwaitLength { ptr },
                        Request::Call { export: called, args },
                    ) && ptr == v && called == Export::GetLength && args@ == Seq::<i32>::empty()
                } else {
                    r == Progress::<Pull, Pulled>::Done(Pulled::Count(v))
                },
                (Pull::AwaitLength { ptr }, Answer::Value(v)) => r == Progress::<
                    Pull,
                    Pulled,
                >::Ask(Pull::AwaitBytes, Request::Read { ptr, len: v }),
                (Pull::AwaitBytes, Answer::Bytes(bytes)) => match parse_poll(bytes@) {
                    Some(m) => r matches Progress::Done(Pulled::State(s)) && s@ == m && s.wf(),
                    None => r == Progress::<Pull, Pulled>::Failed(HostError::DecodeError),
                },
                _ => r == Progress::<Pull, Pulled>::Failed(HostError::Protocol),
            },
    {
        match answer {
            Answer::Failed(e) => Progress::Failed(e),
            Answer::Value(v) => match self {
                Pull::AwaitResult { export } => match export {
                    Export::PollVote => Progress::Ask(
                        Pull::AwaitLength { ptr: v },
                        Request::Call { export: Export::GetLength, args: Vec::new() },
                    ),
                    _ => Progress::Done(Pulled::Count(v)),
                },
                Pull::AwaitLength { ptr } => Progress::Ask(
                    Pull::AwaitBytes,
                    Request::Read { ptr, len: v },
                ),
                Pull::AwaitBytes => Progress::Failed(HostError::Protocol),
            },
            Answer::Bytes(bytes) => match self {
                Pull::AwaitBytes => match decode_poll_state(bytes.as_slice()) {
                    Ok(state) => Progress::Done(Pulled::State(state)),
                    Err(_) => Progress::Failed(HostError::DecodeError),
                },
                _ => Progress::Failed(HostError::Protocol),
            },
            Answer::Written => Progress::Failed(HostError::Protocol),
        }
    }
}

/// What `push_value` answers.
pub open spec fn push_result(pre: Guest, bytes: Seq<u8>) -> Result<(i32, i32), HostError> {
    if bytes.len() > i32::MAX {
        Err(HostError::TooLarge)
    } else {
        match allocate_result(pre, bytes.len() as i32) {
            Ok(ptr) => Ok((ptr, bytes.len() as i32)),
            Err(trap) => Err(HostError::Trapped(trap)),
        }
    }
}

/// Places `bytes` in the memory of `guest`: asks the guest for room and
/// writes the bytes there. Returns the address and the length, which are
/// what an operation on the value takes. A failure leaves the guest as it
/// was.
pub fn push_value(guest: &mut Guest, bytes: Vec<u8>) -> (r: Result<(i32, i32), HostError>)
    requires
        old(guest).wf(),
    ensures
        final(guest).wf(),
        r == push_result(*old(guest), bytes@),
        r is Ok ==> grown_by(*old(guest), bytes@, *final(guest)),
        r is Err ==> *final(guest) == *old(guest),
{
    let (state, request) = match Push::begin(bytes) {
        Progress::Ask(state, request) => (state, request),
        Progress::Failed(e) => {
            return Err(e);
        },
        Progress::Done(_) => {
            return Err(HostError::Protocol);
        },
    };
    let answer = perform(guest, &request);
    let (state, request) = match state.advance(answer) {
        Progress::Ask(state, request) => (state, request),
        Progress::Failed(e) => {
            return Err(e);
        },
        Progress::Done(_) => {
            return Err(HostError::Protocol);
        },
    };
    let ghost mid = *guest;
    let answer = perform(guest, &request);
    assert(guest.heap() =~= old(guest).heap() + bytes@) by {
        assert(mid.heap() == old(guest).heap() + zeros(bytes@.len()));
        assert(guest.bytes_at(old(guest).heap_end(), bytes@.len() as int) == bytes@);
        assert forall|a: int| 0 <= a < guest.heap().len() implies guest.heap()[a] == (old(
            guest,
        ).heap() + bytes@)[a] by {
            if a >= old(guest).heap().len() {
                assert(guest.bytes_at(old(guest).heap_end(), bytes@.len() as int)[a - old(
                    guest,
                ).heap().len()] == guest.heap()[a]);
            }
        }
    }
    match state.advance(answer) {
        Progress::Done(placed) => Ok(placed),
        Progress::Failed(e) => Err(e),
        Progress::Ask(_, _) => Err(HostError::Protocol),
    }
}

/// Calls the export `name` on the `len` bytes at `ptr` and fetches what it
/// gave. For `vote` that is the number it returns. For `poll_vote` it is the
/// state in the buffer whose address it returns: the host asks the guest for
/// the buffer's length, reads the buffer and decodes it. Any other name
/// counts as a missing export. A failure leaves the guest as it was.
#[verifier::rlimit(50)]
pub fn invoke_and_pull(guest: &mut Guest, name: &str, ptr: i32, len: i32) -> (r: Result<
    Pulled,
    HostError,
>)
    requires
        old(guest).wf(),
    ensures
        final(guest).wf(),
        match export_named(name@) {
            Some(Export::Vote) => *final(guest) == *old(guest) && match vote_outcome(
                *old(guest),
                ptr,
                len,
            ) {
                Ok(count) => r == Ok::<Pulled, HostError>(Pulled::Count(count)),
                Err(trap) => r == Err::<Pulled, HostError>(HostError::Trapped(trap)),
            },
            Some(Export::PollVote) => poll_vote_effect(*old(guest), ptr, len, *final(guest))
                && match poll_vote_result(*old(guest), ptr, len) {
                Ok(_) => r matches Ok(Pulled::State(s)) && s.wf() && s@ == state_at(
                    *old(guest),
                    ptr,
                    len,
                )->Ok_0.step(),
                Err(trap) => r == Err::<Pulled, HostError>(HostError::Trapped(trap)),
            },
            _ => *final(guest) == *old(guest) && r == Err::<Pulled, HostError>(
                HostError::MissingExport,
            ),
        },
{
    let (mut state, mut request) = match Pull::begin(name, ptr, len) {
        Progress::Ask(state, request) => (state, request),
        Progress::Failed(e) => {
            return Err(e);
        },
        Progress::Done(_) => {
            return Err(HostError::Protocol);
        },
    };
    let answer = perform(guest, &request);
    let (state, request) = match state.advance(answer) {
        Progress::Ask(state, request) => (state, request),
        Progress::Done(pulled) => {
            return Ok(pulled);
        },
        Progress::Failed(e) => {
            return Err(e);
        },
    };
    let answer = perform(guest, &request);
    let (state, request) = match state.advance(answer) {
        Progress::Ask(state, request) => (state, request),
        Progress::Done(_) => {
            return Err(HostError::Protocol);
        },
        Progress::Failed(e) => {
            return Err(e);
        },
    };
    let ghost m = state_at(*old(guest), ptr, len)->Ok_0.step();
    assert(guest.bytes_at(old(guest).heap_end(), poll_wire(m).len() as int)
        =~= poll_wire(m));
    let answer = perform(guest, &request);
    match state.advance(answer) {
        Progress::Done(pulled) => Ok(pulled),
        Progress::Failed(e) => Err(e),
        Progress::Ask(_, _) => Err(HostError::Protocol),
    }
}

/// One whole exchange for a vote state: writes `state`, places it in the
/// memory of `guest`, calls `vote` on it and returns the count that comes
/// back, which is one more than the state's. If the guest has no room for
/// the state, nothing is placed. A counter at `i32::MAX` makes the call
/// trap after the state has been placed.
pub fn increment_vote(guest: &mut Guest, state: &VoteState) -> (r: Result<i32, HostError>)
    requires
        old(guest).wf(),
    ensures
        final(guest).wf(),
        match push_result(*old(guest), vote_wire(*state)) {
            Err(e) => r == Err::<i32, HostError>(e) && *final(guest) == *old(guest),
            Ok(_) => grown_by(*old(guest), vote_wire(*state), *final(guest)) && r == if state.value
                == i32::MAX {
                Err::<i32, HostError>(HostError::Trapped(Trap::CounterOverflow))
            } else {
                Ok::<i32, HostError>((state.value + 1) as i32)
            },
        },
{
    let bytes = encode_vote_state(state);
    let (ptr, len) = match push_value(guest, bytes) {
        Ok(placed) => placed,
        Err(e) => {
            return Err(e);
        },
    };
    proof {
        lemma_names_differ();
        lemma_vote_round_trip(*state, Seq::empty());
        assert(vote_wire(*state) + Seq::<u8>::empty() =~= vote_wire(*state));
        assert(guest.owns(ptr as int, len as int));
        assert(guest.bytes_at(ptr as int, len as int) =~= vote_wire(*state));
    }
    match invoke_and_pull(guest, "vote", ptr, len) {
        Ok(Pulled::Count(count)) => Ok(count),
        Ok(Pulled::State(_)) => Err(HostError::Protocol),
        Err(e) => Err(e),
    }
}

/// One whole exchange for a poll state: writes `state`, places it in the
/// memory of `guest`, calls `poll_vote` on it, and reads and decodes the
/// buffer that the guest answers with. The result is `state` with its event
/// applied. If the guest has no room for the state, nothing is placed. A
/// vote for an option at `i32::MAX`, or a guest without room for the new
/// state, makes the call trap after the state has been placed.
#[verifier::rlimit(50)]
pub fn apply_poll_event(guest: &mut Guest, state: &VotePollState) -> (r: Result<
    VotePollState,
    HostError,
>)
    requires
        old(guest).wf(),
        state.wf(),
    ensures
        final(guest).wf(),
        match push_result(*old(guest), poll_wire(state@)) {
            Err(e) => r == Err::<VotePollState, HostError>(e) && *final(guest) == *old(guest),
            Ok(_) => if !state@.can_step() {
                r == Err::<VotePollState, HostError>(HostError::Trapped(Trap::CounterOverflow))
                    && grown_by(*old(guest), poll_wire(state@), *final(guest))
            } else if !old(guest).has_room(
                (poll_wire(state@).len() + poll_wire(state@.step()).len()) as int,
            ) {
                r == Err::<VotePollState, HostError>(HostError::Trapped(Trap::AllocationFailure))
                    && grown_by(*old(guest), poll_wire(state@), *final(guest))
            } else {
                &&& r matches Ok(out) && out.wf() && out@ == state@.step()
                &&& final(guest).heap() == old(guest).heap() + poll_wire(state@) + poll_wire(
                    state@.step(),
                )
                &&& final(guest).last_length() == poll_wire(state@.step()).len()
                &&& final(guest).limit() == old(guest).limit()
                &&& final(guest).init_state() == old(guest).init_state()
            },
        },
{
    let bytes = encode_poll_state(state);
    let (ptr, len) = match push_value(guest, bytes) {
        Ok(placed) => placed,
        Err(e) => {
            return Err(e);
        },
    };
    let ghost mid = *guest;
    proof {
        lemma_names_differ();
        assert(guest.owns(ptr as int, len as int));
        assert(guest.bytes_at(ptr as int, len as int) =~= poll_wire(state@));
        assert(state_at(mid, ptr, len) == Ok::<crate::state::PollModel, Trap>(state@));
    }
    let pulled = invoke_and_pull(guest, "poll_vote", ptr, len);
    proof {
        if state@.can_step() && mid.has_room(poll_wire(state@.step()).len() as int) {
            assert(guest.heap() =~= old(guest).heap() + poll_wire(state@) + poll_wire(
                state@.step(),
            ));
        }
    }
    match pulled {
        Ok(Pulled::State(out)) => Ok(out),
        Ok(Pulled::Count(_)) => Err(HostError::Protocol),
        Err(e) => Err(e),
    }
}

} // verus!
