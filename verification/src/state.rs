//! The values that cross the boundary and the transitions on them.
//!
//! A poll is a list of options, each with a name and a count, in the order in
//! which the options were registered. No name occurs twice, so the list is
//! also a mapping from name to count; the order only decides how the poll is
//! laid out on the wire.

use vstd::prelude::*;
use crate::error::Trap;

verus! {

/// What a poll option is to the contracts: its name and its count.
pub type Entry = (Seq<char>, i32);

/// No name occurs twice.
pub open spec fn names_distinct(es: Seq<Entry>) -> bool {
    forall|i: int, j: int| 0 <= i < j < es.len() ==> es[i].0 != es[j].0
}

/// `name` is one of the options.
pub open spec fn holds(es: Seq<Entry>, name: Seq<char>) -> bool {
    exists|i: int| 0 <= i < es.len() && (#[trigger] es[i]).0 == name
}

/// Where `name` stands among the options, if it is one of them.
pub open spec fn place_of(es: Seq<Entry>, name: Seq<char>) -> int {
    choose|i: int| 0 <= i < es.len() && (#[trigger] es[i]).0 == name
}

/// The count of `name`, if it is one of the options.
pub open spec fn count_of(es: Seq<Entry>, name: Seq<char>) -> i32 {
    es[place_of(es, name)].1
}

/// The options as a mapping from name to count.
pub open spec fn tally_map(es: Seq<Entry>) -> Map<Seq<char>, i32> {
    Map::new(|k: Seq<char>| holds(es, k), |k: Seq<char>| count_of(es, k))
}

/// The options after `name` has been registered: a new option starts at
/// zero, a known one keeps its count.
pub open spec fn with_option(es: Seq<Entry>, name: Seq<char>) -> Seq<Entry> {
    if holds(es, name) {
        es
    } else {
        es.push((name, 0i32))
    }
}

/// The options after one vote for `name`: a known option gains one vote, an
/// unknown name changes nothing.
pub open spec fn with_vote(es: Seq<Entry>, name: Seq<char>) -> Seq<Entry> {
    if holds(es, name) {
        es.update(place_of(es, name), (name, (count_of(es, name) + 1) as i32))
    } else {
        es
    }
}

/// The options after `name` has been given `count`: a known option is
/// overwritten where it stands, a new one is added at the end.
pub open spec fn with_count(es: Seq<Entry>, name: Seq<char>, count: i32) -> Seq<Entry> {
    if holds(es, name) {
        es.update(place_of(es, name), (name, count))
    } else {
        es.push((name, count))
    }
}

/// No option has a negative count.
pub open spec fn counts_non_negative(es: Seq<Entry>) -> bool {
    forall|i: int| 0 <= i < es.len() ==> (#[trigger] es[i]).1 >= 0
}

/// In a list without repeated names, a name is found in one place only.
pub proof fn lemma_place_unique(es: Seq<Entry>, i: int)
    requires
        names_distinct(es),
        0 <= i < es.len(),
    ensures
        holds(es, es[i].0),
        place_of(es, es[i].0) == i,
        count_of(es, es[i].0) == es[i].1,
{
    let p = place_of(es, es[i].0);
    assert(0 <= p < es.len() && es[p].0 == es[i].0);
    if p < i {
        assert(es[p].0 != es[i].0);
    } else if i < p {
        assert(es[i].0 != es[p].0);
    }
}

/// A single vote counter that belongs to no poll.
#[derive(Clone, Copy, Debug, PartialEq, Eq, Structural)]
pub struct VoteState {
    pub value: i32,
}

impl VoteState {
    /// Adds one vote and returns the new count. A counter that is already at
    /// `i32::MAX` is left as it is and the call traps.
    pub fn increment(&mut self) -> (r: Result<i32, Trap>)
        ensures
            old(self).value < i32::MAX ==> r == Ok::<i32, Trap>((old(self).value + 1) as i32)
                && final(self).value == old(self).value + 1,
            old(self).value == i32::MAX ==> r == Err::<i32, Trap>(Trap::CounterOverflow)
                && *final(self) == *old(self),
    {
        if self.value == i32::MAX {
            Err(Trap::CounterOverflow)
        } else {
            self.value = self.value + 1;
            Ok(self.value)
        }
    }
}

/// One poll option and the votes it has drawn.
#[derive(Clone, Debug, PartialEq, Eq)]
struct Tally {
    name: String,
    count: i32,
}

/// The options of a poll with their counts, in registration order.
#[derive(Clone, Debug, PartialEq, Eq)]
pub struct Tallies {
    entries: Vec<Tally>,
}

impl Tallies {
    /// The options in registration order.
    pub closed spec fn entries(&self) -> Seq<Entry> {
        Seq::new(self.entries@.len(), |i: int| (self.entries@[i].name@, self.entries@[i].count))
    }

    /// No option is listed twice.
    pub open spec fn wf(&self) -> bool {
        names_distinct(self.entries())
    }

    /// A poll without options.
    pub fn new() -> (t: Tallies)
        ensures
            t.entries() == Seq::<Entry>::empty(),
            t.wf(),
    {
        let t = Tallies { entries: Vec::new() };
        assert(t.entries() =~= Seq::<Entry>::empty());
        t
    }

    /// How many options the poll has.
    pub fn len(&self) -> (n: usize)
        ensures
            n == self.entries().len(),
    {
        self.entries.len()
    }

    /// The name of the option at `i`.
    pub fn name_at(&self, i: usize) -> (name: &String)
        requires
            i < self.entries().len(),
        ensures
            name@ == self.entries()[i as int].0,
    {
        &self.entries[i].name
    }

    /// The count of the option at `i`.
    pub fn count_at(&self, i: usize) -> (count: i32)
        requires
            i < self.entries().len(),
        ensures
            count == self.entries()[i as int].1,
    {
        self.entries[i].count
    }

    /// Where `name` stands, if it is an option of the poll.
    pub fn position(&self, name: &String) -> (r: Option<usize>)
        requires
            self.wf(),
        ensures
            r is Some <==> holds(self.entries(), name@),
            r matches Some(i) ==> i as int == place_of(self.entries(), name@),
    {
        let n = self.entries.len();
        let mut i: usize = 0;
        while i < n
            invariant
                self.wf(),
                n == self.entries@.len(),
                i <= n,
                forall|k: int| 0 <= k < i ==> (#[trigger] self.entries()[k]).0 != name@,
            decreases n - i,
        {
            if self.entries[i].name == *name {
                proof {
                    lemma_place_unique(self.entries(), i as int);
                }
                return Some(i);
            }
            i = i + 1;
        }
        None
    }

    /// The count of `name`, if it is an option of the poll.
    pub fn get(&self, name: &String) -> (r: Option<i32>)
        requires
            self.wf(),
        ensures
            r is Some <==> holds(self.entries(), name@),
            r matches Some(c) ==> c == count_of(self.entries(), name@),
            r == if tally_map(self.entries()).dom().contains(name@) {
                Some(tally_map(self.entries())[name@])
            } else {
                None
            },
    {
        match self.position(name) {
            Some(i) => Some(self.entries[i].count),
            None => None,
        }
    }

    /// Registers `name` as an option. A new option starts at zero; one that
    /// is already there keeps its count.
    pub fn register(&mut self, name: &String)
        requires
            old(self).wf(),
        ensures
            final(self).wf(),
            final(self).entries() == with_option(old(self).entries(), name@),
    {
        if self.position(name).is_none() {
            self.entries.push(Tally { name: name.clone(), count: 0 });
            assert(self.entries() =~= old(self).entries().push((name@, 0i32)));
        }
    }

    /// Counts one vote for `name`. A name that is no option changes nothing.
    /// An option whose count is `i32::MAX` is left as it is and the call
    /// traps.
    pub fn vote(&mut self, name: &String) -> (r: Result<(), Trap>)
        requires
            old(self).wf(),
        ensures
            final(self).wf(),
            holds(old(self).entries(), name@) && count_of(old(self).entries(), name@) == i32::MAX
                ==> r == Err::<(), Trap>(Trap::CounterOverflow) && final(self).entries()
                == old(self).entries(),
            !(holds(old(self).entries(), name@) && count_of(old(self).entries(), name@)
                == i32::MAX) ==> r == Ok::<(), Trap>(()) && final(self).entries() == with_vote(
                old(self).entries(),
                name@,
            ),
    {
        match self.position(name) {
            Some(i) => {
                let c = self.entries[i].count;
                if c == i32::MAX {
                    return Err(Trap::CounterOverflow);
                }
                self.entries.set(i, Tally { name: name.clone(), count: c + 1 });
                assert(self.entries() =~= old(self).entries().update(
                    i as int,
                    (name@, (c + 1) as i32),
                ));
                Ok(())
            },
            None => Ok(()),
        }
    }

    /// Gives `name` the count `count`: a known option is overwritten where it
    /// stands, a new one is added at the end.
    pub fn set(&mut self, name: String, count: i32)
        requires
            old(self).wf(),
        ensures
            final(self).wf(),
            final(self).entries() == with_count(old(self).entries(), name@, count),
    {
        match self.position(&name) {
            Some(i) => {
                self.entries.set(i, Tally { name: name, count: count });
                assert(self.entries() =~= old(self).entries().update(i as int, (name@, count)));
            },
            None => {
                self.entries.push(Tally { name: name, count: count });
                assert(self.entries() =~= old(self).entries().push((name@, count)));
            },
        }
    }
}

/// The operation that a poll state carries.
#[derive(Clone, Debug, PartialEq, Eq)]
pub enum Event {
    /// Register the named option if it is not there yet.
    Poll(String),
    /// Count one vote for the named option if it is there.
    Vote(String),
}

/// What an event is to the contracts.
pub enum EventModel {
    Poll(Seq<char>),
    Vote(Seq<char>),
}

impl View for Event {
    type V = EventModel;

    open spec fn view(&self) -> EventModel {
        match self {
            Event::Poll(name) => EventModel::Poll(name@),
            Event::Vote(name) => EventModel::Vote(name@),
        }
    }
}

impl Event {
    /// The name that the event speaks of.
    pub fn name(&self) -> (name: &String)
        ensures
            name@ == self@.name(),
    {
        match self {
            Event::Poll(name) => name,
            Event::Vote(name) => name,
        }
    }
}

impl EventModel {
    /// The name that the event speaks of.
    pub open spec fn name(self) -> Seq<char> {
        match self {
            EventModel::Poll(name) => name,
            EventModel::Vote(name) => name,
        }
    }
}

/// What a poll state is to the contracts.
pub struct PollModel {
    pub tallies: Seq<Entry>,
    pub event: EventModel,
    pub value: i32,
}

impl PollModel {
    /// The event can be applied: it is not a vote for an option whose count
    /// is already `i32::MAX`.
    pub open spec fn can_step(self) -> bool {
        self.event matches EventModel::Vote(name) ==> !(holds(self.tallies, name) && count_of(
            self.tallies,
            name,
        ) == i32::MAX)
    }

    /// The state after its event has been applied. The event and the
    /// auxiliary value are carried over as they are.
    pub open spec fn step(self) -> PollModel {
        match self.event {
            EventModel::Poll(name) => PollModel {
                tallies: with_option(self.tallies, name),
                event: self.event,
                value: self.value,
            },
            EventModel::Vote(name) => PollModel {
                tallies: with_vote(self.tallies, name),
                event: self.event,
                value: self.value,
            },
        }
    }

    /// The state after its event has been applied `n` times.
    pub open spec fn step_n(self, n: nat) -> PollModel
        decreases n,
    {
        if n == 0 {
            self
        } else {
            self.step_n((n - 1) as nat).step()
        }
    }
}

/// The whole of a poll: its options, the event to apply, and an auxiliary
/// value that no transition reads or writes.
#[derive(Clone, Debug, PartialEq, Eq)]
pub struct VotePollState {
    pub tallies: Tallies,
    pub event: Event,
    pub value: i32,
}

impl View for VotePollState {
    type V = PollModel;

    open spec fn view(&self) -> PollModel {
        PollModel { tallies: self.tallies.entries(), event: self.event@, value: self.value }
    }
}

impl VotePollState {
    /// No option is listed twice.
    pub open spec fn wf(&self) -> bool {
        self.tallies.wf()
    }

    /// Applies the event that the state carries. A vote for an option whose
    /// count is `i32::MAX` leaves the state as it is and the call traps.
    pub fn apply_event(&mut self) -> (r: Result<(), Trap>)
        requires
            old(self).wf(),
        ensures
            final(self).wf(),
            old(self)@.can_step() ==> r == Ok::<(), Trap>(()) && final(self)@ == old(self)@.step(),
            !old(self)@.can_step() ==> r == Err::<(), Trap>(Trap::CounterOverflow) && final(self)@
                == old(self)@,
    {
        match &self.event {
            Event::Poll(name) => {
                self.tallies.register(name);
                Ok(())
            },
            Event::Vote(name) => self.tallies.vote(name),
        }
    }
}

/// Registering a name any number of times is registering it once: a count
/// that was there is the count that is there afterwards, and a new name
/// stands at zero.
pub proof fn lemma_poll_repeated(s: PollModel, name: Seq<char>, n: nat)
    requires
        names_distinct(s.tallies),
        s.event == EventModel::Poll(name),
        n >= 1,
    ensures
        s.step_n(n) == s.step(),
        names_distinct(s.step_n(n).tallies),
        holds(s.step_n(n).tallies, name),
        holds(s.tallies, name) ==> count_of(s.step_n(n).tallies, name) == count_of(
            s.tallies,
            name,
        ),
        !holds(s.tallies, name) ==> count_of(s.step_n(n).tallies, name) == 0,
        forall|other: Seq<char>|
            other != name ==> tally_map(s.step_n(n).tallies).dom().contains(other) == tally_map(
                s.tallies,
            ).dom().contains(other) && tally_map(s.step_n(n).tallies)[other] == tally_map(
                s.tallies,
            )[other],
    decreases n,
{
    lemma_with_option(s.tallies, name);
    if n == 1 {
        assert(s.step_n(0) == s);
    } else {
        lemma_poll_repeated(s, name, (n - 1) as nat);
        assert(s.step().step() == s.step());
    }
}

/// What registering a name does to the mapping: the name is there
/// afterwards, with its old count or with zero, and every other name is as it
/// was.
pub proof fn lemma_with_option(es: Seq<Entry>, name: Seq<char>)
    requires
        names_distinct(es),
    ensures
        names_distinct(with_option(es, name)),
        holds(with_option(es, name), name),
        holds(es, name) ==> count_of(with_option(es, name), name) == count_of(es, name),
        !holds(es, name) ==> count_of(with_option(es, name), name) == 0,
        tally_map(with_option(es, name)) == if holds(es, name) {
            tally_map(es)
        } else {
            tally_map(es).insert(name, 0i32)
        },
{
    if !holds(es, name) {
        let after = es.push((name, 0i32));
        let last = es.len() as int;
        assert(after[last].0 == name);
        lemma_place_unique(after, last);
        assert forall|k: Seq<char>| #[trigger] holds(after, k) == (k == name || holds(es, k)) by {
            if holds(es, k) {
                let i = place_of(es, k);
                assert(after[i].0 == k);
            }
            if holds(after, k) && k != name {
                let i = place_of(after, k);
                assert(es[i].0 == k);
            }
        }
        assert forall|k: Seq<char>| holds(es, k) implies #[trigger] count_of(after, k) == count_of(
            es,
            k,
        ) by {
            let i = place_of(es, k);
            lemma_place_unique(es, i);
            lemma_place_unique(after, i);
        }
        assert(tally_map(after) =~= tally_map(es).insert(name, 0i32));
    }
}

/// What a vote does to the mapping. A vote for an option adds one to its
/// count and touches no other option; a vote for an unknown name leaves the
/// list, and with it the mapping, exactly as it was.
pub proof fn lemma_with_vote(es: Seq<Entry>, name: Seq<char>)
    requires
        names_distinct(es),
        holds(es, name) ==> count_of(es, name) < i32::MAX,
    ensures
        names_distinct(with_vote(es, name)),
        !holds(es, name) ==> with_vote(es, name) == es,
        holds(es, name) ==> tally_map(with_vote(es, name)) == tally_map(es).insert(
            name,
            (count_of(es, name) + 1) as i32,
        ),
        holds(es, name) ==> count_of(with_vote(es, name), name) == count_of(es, name) + 1,
{
    if holds(es, name) {
        let p = place_of(es, name);
        let c = (count_of(es, name) + 1) as i32;
        let after = es.update(p, (name, c));
        assert(after[p].0 == name);
        assert forall|i: int| 0 <= i < es.len() implies (#[trigger] after[i]).0 == es[i].0 by {}
        lemma_place_unique(after, p);
        assert forall|k: Seq<char>| #[trigger] holds(after, k) == holds(es, k) by {
            if holds(es, k) {
                let i = place_of(es, k);
                assert(after[i].0 == k);
            }
            if holds(after, k) {
                let i = place_of(after, k);
                assert(es[i].0 == k);
            }
        }
        assert forall|k: Seq<char>| holds(es, k) && k != name implies #[trigger] count_of(
            after,
            k,
        ) == count_of(es, k) by {
            let i = place_of(es, k);
            lemma_place_unique(es, i);
            lemma_place_unique(after, i);
        }
        assert(tally_map(after) =~= tally_map(es).insert(name, c));
    }
}

/// One vote for an option that stands at `c` brings it to `c + 1`. A vote
/// for a name that is no option leaves every count, the set of options and
/// the auxiliary value as they were.
pub proof fn lemma_vote_step(s: PollModel, name: Seq<char>)
    requires
        names_distinct(s.tallies),
        s.event == EventModel::Vote(name),
        s.can_step(),
    ensures
        s.step().value == s.value,
        s.step().event == s.event,
        holds(s.tallies, name) ==> tally_map(s.step().tallies) == tally_map(s.tallies).insert(
            name,
            (tally_map(s.tallies)[name] + 1) as i32,
        ),
        holds(s.tallies, name) ==> tally_map(s.step().tallies)[name] == tally_map(
            s.tallies,
        )[name] + 1,
        !holds(s.tallies, name) ==> s.step() == s,
{
    lemma_with_vote(s.tallies, name);
}

/// No transition repeats a name or makes a count negative: a poll whose
/// options are distinct and whose counts are not negative stays so.
pub proof fn lemma_step_keeps_invariants(s: PollModel)
    requires
        names_distinct(s.tallies),
        counts_non_negative(s.tallies),
        s.can_step(),
    ensures
        names_distinct(s.step().tallies),
        counts_non_negative(s.step().tallies),
{
    match s.event {
        EventModel::Poll(name) => {
            lemma_with_option(s.tallies, name);
        },
        EventModel::Vote(name) => {
            lemma_with_vote(s.tallies, name);
            if holds(s.tallies, name) {
                let p = place_of(s.tallies, name);
                assert(s.tallies[p].1 >= 0);
                assert forall|i: int| 0 <= i < s.step().tallies.len() implies (
                #[trigger] s.step().tallies[i]).1 >= 0 by {
                    if i != p {
                        assert(s.step().tallies[i] == s.tallies[i]);
                    }
                }
            }
        },
    }
}

} // verus!
