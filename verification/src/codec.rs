//! The two records on the wire.
//!
//! A vote state is its counter. A poll state is the number of its options as
//! a 64-bit integer, each option as its name and its count, the event as a
//! 32-bit tag and a name, and the auxiliary value. Decoding reads a record
//! from the front of a buffer and ignores what follows it; an option that is
//! listed twice keeps its first place and takes its last count.

use vstd::prelude::*;
use vstd::slice::slice_subrange;
use vstd::utf8::*;
use crate::error::Trap;
use crate::state::{
    holds, names_distinct, place_of, with_count, Entry, Event, EventModel, PollModel, Tallies,
    VotePollState, VoteState,
};
use crate::wire::{
    i32_bits, i32_of_bits, i32_wire, le_bytes, le_value, lemma_i32_bits_round_trip,
    lemma_le_bytes_len, lemma_le_round_trip, lemma_radix_values, lemma_str_wire_framed, put_i32,
    put_str, put_u32, put_u64, radix, str_announced, str_framed, str_payload, str_wire, take_i32,
    take_str, take_u32, take_u64, u32_wire,
};

verus! {

/// The tag of an event on the wire.
pub open spec fn event_tag(event: EventModel) -> u32 {
    match event {
        EventModel::Poll(_) => 0,
        EventModel::Vote(_) => 1,
    }
}

/// A vote state on the wire.
pub open spec fn vote_wire(s: VoteState) -> Seq<u8> {
    i32_wire(s.value)
}

/// The vote state at the front of `bytes`, if there is one.
pub open spec fn parse_vote(bytes: Seq<u8>) -> Option<VoteState> {
    if bytes.len() >= 4 {
        Some(VoteState { value: i32_of_bits(le_value(bytes.subrange(0, 4))) })
    } else {
        None
    }
}

/// One option on the wire.
pub open spec fn entry_wire(e: Entry) -> Seq<u8> {
    str_wire(e.0) + i32_wire(e.1)
}

/// The options on the wire, one after the other.
pub open spec fn entries_wire(es: Seq<Entry>) -> Seq<u8>
    decreases es.len(),
{
    if es.len() == 0 {
        Seq::empty()
    } else {
        entry_wire(es[0]) + entries_wire(es.drop_first())
    }
}

/// A poll state on the wire.
pub open spec fn poll_wire(m: PollModel) -> Seq<u8> {
    le_bytes(m.tallies.len(), 8) + entries_wire(m.tallies) + u32_wire(event_tag(m.event))
        + str_wire(m.event.name()) + i32_wire(m.value)
}

/// Every length in the state can be written in 64 bits. This holds of every
/// state that fits in memory.
pub open spec fn fits_wire(m: PollModel) -> bool {
    &&& m.tallies.len() < radix(8)
    &&& forall|i: int|
        0 <= i < m.tallies.len() ==> encode_utf8((#[trigger] m.tallies[i]).0).len() < radix(8)
    &&& encode_utf8(m.event.name()).len() < radix(8)
}

/// Reads `n` options from the front of `bytes` into `acc`. Gives the options
/// and the bytes that follow them.
pub open spec fn parse_entries(bytes: Seq<u8>, n: nat, acc: Seq<Entry>) -> Option<
    (Seq<Entry>, Seq<u8>),
>
    decreases n,
{
    if n == 0 {
        Some((acc, bytes))
    } else if !str_framed(bytes) {
        None
    } else {
        let name = decode_utf8(str_payload(bytes));
        let rest = bytes.skip(8 + str_announced(bytes) as int);
        if rest.len() < 4 {
            None
        } else {
            let count = i32_of_bits(le_value(rest.subrange(0, 4)));
            parse_entries(rest.skip(4), (n - 1) as nat, with_count(acc, name, count))
        }
    }
}

/// Reads the event, and the auxiliary value after it, from the front of
/// `bytes`.
pub open spec fn parse_tail(bytes: Seq<u8>) -> Option<(EventModel, i32)> {
    if bytes.len() < 4 {
        None
    } else {
        let tag = le_value(bytes.subrange(0, 4));
        let named = bytes.skip(4);
        if tag > 1 || !str_framed(named) {
            None
        } else {
            let name = decode_utf8(str_payload(named));
            let last = named.skip(8 + str_announced(named) as int);
            if last.len() < 4 {
                None
            } else {
                let value = i32_of_bits(le_value(last.subrange(0, 4)));
                Some(
                    (
                        if tag == 0 {
                            EventModel::Poll(name)
                        } else {
                            EventModel::Vote(name)
                        },
                        value,
                    ),
                )
            }
        }
    }
}

/// The poll state at the front of `bytes`, if there is one.
pub open spec fn parse_poll(bytes: Seq<u8>) -> Option<PollModel> {
    if bytes.len() < 8 {
        None
    } else {
        match parse_entries(bytes.skip(8), le_value(bytes.subrange(0, 8)), Seq::empty()) {
            None => None,
            Some((tallies, rest)) => match parse_tail(rest) {
                None => None,
                Some((event, value)) => Some(PollModel { tallies, event, value }),
            },
        }
    }
}

/// The options on the wire, written one at a time.
pub proof fn lemma_entries_wire_push(es: Seq<Entry>, e: Entry)
    ensures
        entries_wire(es.push(e)) == entries_wire(es) + entry_wire(e),
    decreases es.len(),
{
    if es.len() == 0 {
        assert(es.push(e).drop_first() =~= es);
        assert(entries_wire(es) =~= Seq::<u8>::empty());
        assert(entries_wire(es.push(e)) =~= entry_wire(e) + entries_wire(es));
    } else {
        lemma_entries_wire_push(es.drop_first(), e);
        assert(es.push(e).drop_first() =~= es.drop_first().push(e));
        assert(entries_wire(es.push(e)) =~= entries_wire(es) + entry_wire(e));
    }
}

/// A vote state that was written is the vote state that is read, whatever
/// follows it in the buffer; writing what was read gives the same bytes
/// again.
pub proof fn lemma_vote_round_trip(s: VoteState, tail: Seq<u8>)
    ensures
        parse_vote(vote_wire(s) + tail) == Some(s),
        vote_wire(parse_vote(vote_wire(s)).unwrap()) == vote_wire(s),
        vote_wire(s).len() == 4,
{
    lemma_i32_bits_round_trip(s.value);
    lemma_le_bytes_len(i32_bits(s.value), 4);
    lemma_le_round_trip(i32_bits(s.value), 4);
    assert((vote_wire(s) + tail).subrange(0, 4) =~= vote_wire(s));
    assert(vote_wire(s).subrange(0, 4) =~= vote_wire(s));
}

/// Options that were written are the options that are read, added to what
/// had been read before them.
pub proof fn lemma_entries_round_trip(es: Seq<Entry>, acc: Seq<Entry>, tail: Seq<u8>)
    requires
        names_distinct(acc + es),
        forall|i: int| 0 <= i < es.len() ==> encode_utf8((#[trigger] es[i]).0).len() < radix(8),
    ensures
        parse_entries(entries_wire(es) + tail, es.len(), acc) == Some((acc + es, tail)),
    decreases es.len(),
{
    if es.len() == 0 {
        assert(entries_wire(es) + tail =~= tail);
        assert(acc + es =~= acc);
    } else {
        let e = es[0];
        let later = es.drop_first();
        let bytes = entries_wire(es) + tail;
        let after_name = i32_wire(e.1) + (entries_wire(later) + tail);
        assert(bytes =~= str_wire(e.0) + after_name);
        lemma_str_wire_framed(e.0, after_name);
        let rest = bytes.skip(8 + str_announced(bytes) as int);
        assert(rest == after_name);
        lemma_i32_bits_round_trip(e.1);
        lemma_le_bytes_len(i32_bits(e.1), 4);
        lemma_le_round_trip(i32_bits(e.1), 4);
        assert(rest.subrange(0, 4) =~= i32_wire(e.1));
        assert(rest.skip(4) =~= entries_wire(later) + tail);
        assert(!holds(acc, e.0)) by {
            if holds(acc, e.0) {
                let i = place_of(acc, e.0);
                assert((acc + es)[i].0 == e.0);
                assert((acc + es)[acc.len() as int] == e);
            }
        }
        assert(with_count(acc, e.0, e.1) == acc.push(e));
        assert(acc.push(e) + later =~= acc + es);
        lemma_entries_round_trip(later, acc.push(e), tail);
    }
}

/// A poll state that was written is the poll state that is read, whatever
/// follows it in the buffer; writing what was read gives the same bytes
/// again.
pub proof fn lemma_poll_round_trip(m: PollModel, tail: Seq<u8>)
    requires
        names_distinct(m.tallies),
        fits_wire(m),
    ensures
        parse_poll(poll_wire(m) + tail) == Some(m),
        poll_wire(parse_poll(poll_wire(m)).unwrap()) == poll_wire(m),
{
    lemma_poll_parses(m, tail);
    lemma_poll_parses(m, Seq::empty());
    assert(poll_wire(m) + Seq::<u8>::empty() =~= poll_wire(m));
}

proof fn lemma_poll_parses(m: PollModel, tail: Seq<u8>)
    requires
        names_distinct(m.tallies),
        fits_wire(m),
    ensures
        parse_poll(poll_wire(m) + tail) == Some(m),
{
    let bytes = poll_wire(m) + tail;
    let head = le_bytes(m.tallies.len(), 8);
    let last = i32_wire(m.value) + tail;
    let named = str_wire(m.event.name()) + last;
    let tagged = u32_wire(event_tag(m.event)) + named;
    lemma_le_bytes_len(m.tallies.len(), 8);
    lemma_le_round_trip(m.tallies.len(), 8);
    assert(bytes =~= head + (entries_wire(m.tallies) + tagged));
    assert(bytes.subrange(0, 8) =~= head);
    assert(bytes.skip(8) =~= entries_wire(m.tallies) + tagged);
    assert(Seq::<Entry>::empty() + m.tallies =~= m.tallies);
    lemma_entries_round_trip(m.tallies, Seq::empty(), tagged);
    lemma_radix_values();
    lemma_le_bytes_len(event_tag(m.event) as nat, 4);
    lemma_le_round_trip(event_tag(m.event) as nat, 4);
    assert(tagged.subrange(0, 4) =~= u32_wire(event_tag(m.event)));
    assert(tagged.skip(4) =~= named);
    lemma_str_wire_framed(m.event.name(), last);
    lemma_i32_bits_round_trip(m.value);
    lemma_le_bytes_len(i32_bits(m.value), 4);
    lemma_le_round_trip(i32_bits(m.value), 4);
    assert(last.subrange(0, 4) =~= i32_wire(m.value));
}

/// Writes a vote state.
pub fn encode_vote_state(s: &VoteState) -> (bytes: Vec<u8>)
    ensures
        bytes@ == vote_wire(*s),
        parse_vote(bytes@) == Some(*s),
{
    let bytes = put_i32(s.value);
    proof {
        lemma_vote_round_trip(*s, Seq::empty());
        assert(vote_wire(*s) + Seq::<u8>::empty() =~= vote_wire(*s));
    }
    bytes
}

/// Reads a vote state from the front of `bytes`.
pub fn decode_vote_state(bytes: &[u8]) -> (r: Result<VoteState, Trap>)
    ensures
        r == match parse_vote(bytes@) {
            Some(s) => Ok::<VoteState, Trap>(s),
            None => Err::<VoteState, Trap>(Trap::DecodeError),
        },
{
    match take_i32(bytes) {
        Some(value) => Ok(VoteState { value }),
        None => Err(Trap::DecodeError),
    }
}

/// Writes a poll state.
pub fn encode_poll_state(s: &VotePollState) -> (bytes: Vec<u8>)
    ensures
        bytes@ == poll_wire(s@),
        fits_wire(s@),
        s.wf() ==> parse_poll(bytes@) == Some(s@),
{
    let n = s.tallies.len();
    let mut out = put_u64(n as u64);
    let mut i: usize = 0;
    while i < n
        invariant
            n == s.tallies.entries().len(),
            i <= n,
            out@ == le_bytes(n as nat, 8) + entries_wire(s.tallies.entries().subrange(0, i as int)),
            forall|k: int|
                0 <= k < i ==> encode_utf8((#[trigger] s.tallies.entries()[k]).0).len() < radix(8),
        decreases n - i,
    {
        let ghost before = s.tallies.entries().subrange(0, i as int);
        let ghost e = s.tallies.entries()[i as int];
        let mut name = put_str(s.tallies.name_at(i).as_str());
        let mut count = put_i32(s.tallies.count_at(i));
        proof {
            lemma_radix_values();
            lemma_le_bytes_len(encode_utf8(e.0).len(), 8);
            assert(name@.len() == 8 + encode_utf8(e.0).len());
            assert(name@.len() == name.len());
            lemma_entries_wire_push(before, e);
            assert(s.tallies.entries().subrange(0, i + 1) =~= before.push(e));
        }
        out.append(&mut name);
        out.append(&mut count);
        i = i + 1;
    }
    let tag: u32 = match s.event {
        Event::Poll(_) => 0,
        Event::Vote(_) => 1,
    };
    let mut tag_bytes = put_u32(tag);
    let mut name = put_str(s.event.name().as_str());
    let mut value = put_i32(s.value);
    proof {
        lemma_radix_values();
        lemma_le_bytes_len(encode_utf8(s@.event.name()).len(), 8);
        assert(name@.len() == 8 + encode_utf8(s@.event.name()).len());
        assert(name@.len() == name.len());
        assert(s.tallies.entries().subrange(0, n as int) =~= s.tallies.entries());
    }
    out.append(&mut tag_bytes);
    out.append(&mut name);
    out.append(&mut value);
    proof {
        if s.wf() {
            lemma_poll_round_trip(s@, Seq::empty());
            assert(poll_wire(s@) + Seq::<u8>::empty() =~= poll_wire(s@));
        }
    }
    out
}

/// Reads a poll state from the front of `bytes`.
pub fn decode_poll_state(bytes: &[u8]) -> (r: Result<VotePollState, Trap>)
    ensures
        match parse_poll(bytes@) {
            Some(m) => r is Ok && r->Ok_0@ == m && r->Ok_0.wf(),
            None => r == Err::<VotePollState, Trap>(Trap::DecodeError),
        },
{
    let total = bytes.len();
    let count = match take_u64(bytes) {
        Some(count) => count,
        None => {
            return Err(Trap::DecodeError);
        },
    };
    let mut pos: usize = 8;
    let mut tallies = Tallies::new();
    let mut i: u64 = 0;
    while i < count
        invariant
            total == bytes@.len(),
            8 <= pos <= total,
            i <= count,
            count as nat == le_value(bytes@.subrange(0, 8)),
            tallies.wf(),
            parse_entries(bytes@.skip(8), count as nat, Seq::empty()) == parse_entries(
                bytes@.skip(pos as int),
                (count - i) as nat,
                tallies.entries(),
            ),
        decreases count - i,
    {
        let ghost here = bytes@.skip(pos as int);
        let rest = slice_subrange(bytes, pos, total);
        assert(rest@ =~= here);
        let name = match take_str(rest) {
            Some(name) => name,
            None => {
                return Err(Trap::DecodeError);
            },
        };
        proof {
            decode_utf8_encode_utf8(str_payload(here));
        }
        let name_len = name.as_str().len();
        pos = pos + 8 + name_len;
        let rest = slice_subrange(bytes, pos, total);
        assert(rest@ =~= here.skip(8 + str_announced(here) as int));
        let number = match take_i32(rest) {
            Some(number) => number,
            None => {
                return Err(Trap::DecodeError);
            },
        };
        pos = pos + 4;
        assert(bytes@.skip(pos as int) =~= here.skip(8 + str_announced(here) as int).skip(4));
        tallies.set(name, number);
        i = i + 1;
    }
    let ghost here = bytes@.skip(pos as int);
    let rest = slice_subrange(bytes, pos, total);
    assert(rest@ =~= here);
    let tag = match take_u32(rest) {
        Some(tag) => tag,
        None => {
            return Err(Trap::DecodeError);
        },
    };
    if tag > 1 {
        return Err(Trap::DecodeError);
    }
    pos = pos + 4;
    let rest = slice_subrange(bytes, pos, total);
    assert(rest@ =~= here.skip(4));
    let name = match take_str(rest) {
        Some(name) => name,
        None => {
            return Err(Trap::DecodeError);
        },
    };
    proof {
        decode_utf8_encode_utf8(str_payload(here.skip(4)));
    }
    let name_len = name.as_str().len();
    pos = pos + 8 + name_len;
    let rest = slice_subrange(bytes, pos, total);
    assert(rest@ =~= here.skip(4).skip(8 + str_announced(here.skip(4)) as int));
    let value = match take_i32(rest) {
        Some(value) => value,
        None => {
            return Err(Trap::DecodeError);
        },
    };
    let event = if tag == 0 {
        Event::Poll(name)
    } else {
        Event::Vote(name)
    };
    Ok(VotePollState { tallies, event, value })
}

} // verus!
