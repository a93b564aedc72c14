//! The command state store.
//!
//! The store holds one state per command key, a device and a method. The
//! ingestion side writes it, the dispatch side reads a snapshot of it; a
//! write replaces the state of its key as a whole.

use crate::intensity::UNIT;
use crate::text::{decimal, push_decimal};
use vstd::prelude::*;
use vstd::string::*;

verus! {

/// The live command of one method on one device. Times are milliseconds on
/// the clock of whoever drives the store.
#[derive(Clone, Copy, Debug, PartialEq, Eq, Structural)]
pub struct CommandState {
    pub device_id: u32,
    pub method: u8,
    pub duration: u64,
    pub intensity: u32,
    pub last_issued: u64,
    pub expiry: u64,
}

/// The text of a command key: device, underscore, method.
pub open spec fn key_text(device_id: u32, method: u8) -> Seq<char> {
    decimal(device_id as nat) + seq!['_'] + decimal(method as nat)
}

/// The state a key has right after a command was issued for it at `now`.
pub open spec fn issued(
    device_id: u32,
    method: u8,
    intensity: u32,
    duration: u64,
    now: u64,
) -> CommandState {
    CommandState {
        device_id,
        method,
        duration,
        intensity,
        last_issued: now,
        expiry: (now + duration) as u64,
    }
}

impl CommandState {
    /// The key under which the store holds this state.
    pub open spec fn key(self) -> (u32, u8) {
        (self.device_id, self.method)
    }

    /// Whether the state is to be dispatched at `now`: it has a positive
    /// intensity and has not expired.
    pub open spec fn is_active(self, now: u64) -> bool {
        self.intensity > 0 && self.expiry > now
    }

    /// The invariant of a state: its level is at most one, and it expires one
    /// duration after it was issued.
    pub open spec fn wf(self) -> bool {
        &&& self.intensity <= UNIT
        &&& self.expiry == self.last_issued + self.duration
    }

    /// Decides whether the state is to be dispatched at `now`.
    pub fn active(&self, now: u64) -> (r: bool)
        ensures
            r == self.is_active(now),
    {
        self.intensity > 0 && self.expiry > now
    }

    /// Renders the key of the state for diagnostics.
    pub fn key_string(&self) -> (s: String)
        ensures
            s@ == key_text(self.device_id, self.method),
    {
        command_key(self.device_id, self.method)
    }
}

/// Renders a command key: the device, an underscore, the method.
pub fn command_key(device_id: u32, method: u8) -> (s: String)
    ensures
        s@ == key_text(device_id, method),
{
    let mut s = String::new();
    push_decimal(&mut s, device_id as u64);
    s.append("_");
    push_decimal(&mut s, method as u64);
    proof {
        reveal_strlit("_");
        assert("_"@ =~= seq!['_']);
        assert(s@ =~= key_text(device_id, method));
    }
    s
}

/// No two states of a sequence share a key.
pub open spec fn distinct_keys(states: Seq<CommandState>) -> bool {
    forall|i: int, j: int|
        0 <= i < j < states.len() ==> (#[trigger] states[i]).key() != (#[trigger] states[j]).key()
}

/// Some state of the sequence has the key.
pub open spec fn holds_key(states: Seq<CommandState>, key: (u32, u8)) -> bool {
    exists|i: int| 0 <= i < states.len() && (#[trigger] states[i]).key() == key
}

/// The position of the state with the key, where one has it.
pub open spec fn position_of(states: Seq<CommandState>, key: (u32, u8)) -> int {
    choose|i: int| 0 <= i < states.len() && (#[trigger] states[i]).key() == key
}

/// The mapping that a sequence of states with distinct keys stands for.
pub open spec fn state_map(states: Seq<CommandState>) -> Map<(u32, u8), CommandState> {
    Map::new(|key: (u32, u8)| holds_key(states, key), |key: (u32, u8)| states[position_of(states, key)])
}

/// With distinct keys, each state is the value of its own key.
pub proof fn lemma_state_map_at(states: Seq<CommandState>, i: int)
    requires
        distinct_keys(states),
        0 <= i < states.len(),
    ensures
        state_map(states).contains_key(states[i].key()),
        state_map(states)[states[i].key()] == states[i],
        position_of(states, states[i].key()) == i,
{
    let key = states[i].key();
    let j = position_of(states, key);
    assert(0 <= j < states.len() && states[j].key() == key);
    if j < i {
        assert(states[j].key() != states[i].key());
    } else if i < j {
        assert(states[i].key() != states[j].key());
    }
}

/// Replacing a state by one of the same key is an insertion under that key.
pub proof fn lemma_state_map_update(states: Seq<CommandState>, i: int, state: CommandState)
    requires
        distinct_keys(states),
        0 <= i < states.len(),
        state.key() == states[i].key(),
    ensures
        distinct_keys(states.update(i, state)),
        state_map(states.update(i, state)) == state_map(states).insert(state.key(), state),
{
    let after = states.update(i, state);
    assert(distinct_keys(after)) by {
        assert forall|a: int, b: int| 0 <= a < b < after.len() implies (#[trigger] after[a]).key()
            != (#[trigger] after[b]).key() by {
            assert(states[a].key() != states[b].key());
        }
    }
    let expected = state_map(states).insert(state.key(), state);
    assert forall|key: (u32, u8)| state_map(after).contains_key(key) <==> expected.contains_key(
        key,
    ) by {
        if holds_key(after, key) {
            let j = position_of(after, key);
            assert(states[j].key() == key);
        }
        if holds_key(states, key) {
            let j = position_of(states, key);
            assert(after[j].key() == key);
        }
        if key == state.key() {
            assert(after[i].key() == key);
        }
    }
    assert forall|key: (u32, u8)| state_map(after).contains_key(key) implies state_map(after)[key]
        == expected[key] by {
        let j = position_of(after, key);
        lemma_state_map_at(after, j);
        if j != i {
            assert(states[j] == after[j]);
            lemma_state_map_at(states, j);
        }
    }
    assert(state_map(after) =~= expected);
}

/// Appending a state with a new key is an insertion under that key.
pub proof fn lemma_state_map_push(states: Seq<CommandState>, state: CommandState)
    requires
        distinct_keys(states),
        !holds_key(states, state.key()),
    ensures
        distinct_keys(states.push(state)),
        state_map(states.push(state)) == state_map(states).insert(state.key(), state),
{
    let after = states.push(state);
    assert(distinct_keys(after)) by {
        assert forall|a: int, b: int| 0 <= a < b < after.len() implies (#[trigger] after[a]).key()
            != (#[trigger] after[b]).key() by {
            if b < states.len() {
                assert(states[a].key() != states[b].key());
            } else {
                assert(states[a].key() != state.key());
            }
        }
    }
    let expected = state_map(states).insert(state.key(), state);
    assert forall|key: (u32, u8)| state_map(after).contains_key(key) <==> expected.contains_key(
        key,
    ) by {
        if holds_key(after, key) {
            let j = position_of(after, key);
            if j < states.len() {
                assert(states[j].key() == key);
            }
        }
        if holds_key(states, key) {
            let j = position_of(states, key);
            assert(after[j].key() == key);
        }
        if key == state.key() {
            assert(after[states.len() as int].key() == key);
        }
    }
    assert forall|key: (u32, u8)| state_map(after).contains_key(key) implies state_map(after)[key]
        == expected[key] by {
        let j = position_of(after, key);
        lemma_state_map_at(after, j);
        if j < states.len() {
            assert(states[j] == after[j]);
            lemma_state_map_at(states, j);
        }
    }
    assert(state_map(after) =~= expected);
}

/// A sequence of states after one more was written: it takes the place of
/// the state that had its key, or the end where none had.
pub open spec fn upsert_states(states: Seq<CommandState>, state: CommandState) -> Seq<
    CommandState,
> {
    if holds_key(states, state.key()) {
        states.update(position_of(states, state.key()), state)
    } else {
        states.push(state)
    }
}

/// Writing a state keeps the keys distinct and is an insertion under its key.
pub proof fn lemma_upsert_states(states: Seq<CommandState>, state: CommandState)
    requires
        distinct_keys(states),
    ensures
        distinct_keys(upsert_states(states, state)),
        holds_key(upsert_states(states, state), state.key()),
        state_map(upsert_states(states, state)) == state_map(states).insert(state.key(), state),
        holds_key(states, state.key()) ==> upsert_states(states, state).len() == states.len(),
{
    let after = upsert_states(states, state);
    if holds_key(states, state.key()) {
        let p = position_of(states, state.key());
        lemma_state_map_update(states, p, state);
        assert(after[p].key() == state.key());
    } else {
        lemma_state_map_push(states, state);
        assert(after[states.len() as int].key() == state.key());
    }
}

/// Writing a state leaves every key that was held where it was.
pub proof fn lemma_upsert_keeps_places(states: Seq<CommandState>, state: CommandState, j: int)
    requires
        0 <= j < states.len(),
    ensures
        j < upsert_states(states, state).len(),
        upsert_states(states, state)[j].key() == states[j].key(),
{
    if holds_key(states, state.key()) {
        let p = position_of(states, state.key());
        assert(0 <= p < states.len() && states[p].key() == state.key());
    }
}

/// Of two writes to one key the second alone counts: the states are what
/// they would be had the first never happened.
pub proof fn lemma_second_write_wins(
    states: Seq<CommandState>,
    first: CommandState,
    second: CommandState,
)
    requires
        distinct_keys(states),
        first.key() == second.key(),
    ensures
        upsert_states(upsert_states(states, first), second) == upsert_states(states, second),
{
    let key = first.key();
    let middle = upsert_states(states, first);
    lemma_upsert_states(states, first);
    if holds_key(states, key) {
        let p = position_of(states, key);
        assert(middle[p].key() == key);
        lemma_state_map_at(middle, p);
        assert(upsert_states(middle, second) =~= upsert_states(states, second));
    } else {
        let p = states.len() as int;
        assert(middle[p].key() == key);
        lemma_state_map_at(middle, p);
        assert(upsert_states(middle, second) =~= upsert_states(states, second));
    }
}

/// One command for a key: its intensity, its duration and when it was issued.
pub struct Update {
    pub intensity: u32,
    pub duration: u64,
    pub now: u64,
}

/// The states after a series of commands for one key, written in order.
pub open spec fn after_updates(
    states: Seq<CommandState>,
    device_id: u32,
    method: u8,
    updates: Seq<Update>,
) -> Seq<CommandState>
    decreases updates.len(),
{
    if updates.len() == 0 {
        states
    } else {
        upsert_states(
            after_updates(states, device_id, method, updates.drop_last()),
            issued(
                device_id,
                method,
                updates.last().intensity,
                updates.last().duration,
                updates.last().now,
            ),
        )
    }
}

/// Last write wins: after any series of commands for one key, the states are
/// those after the last command alone. Whoever reads the store next sees the
/// intensity, the duration and the expiry of that command and nothing of the
/// earlier ones.
pub proof fn lemma_last_write_wins(
    states: Seq<CommandState>,
    device_id: u32,
    method: u8,
    updates: Seq<Update>,
)
    requires
        distinct_keys(states),
        updates.len() > 0,
    ensures
        after_updates(states, device_id, method, updates) == upsert_states(
            states,
            issued(
                device_id,
                method,
                updates.last().intensity,
                updates.last().duration,
                updates.last().now,
            ),
        ),
        distinct_keys(after_updates(states, device_id, method, updates)),
        state_map(after_updates(states, device_id, method, updates))[(device_id, method)] == issued(
            device_id,
            method,
            updates.last().intensity,
            updates.last().duration,
            updates.last().now,
        ),
    decreases updates.len(),
{
    let last = issued(
        device_id,
        method,
        updates.last().intensity,
        updates.last().duration,
        updates.last().now,
    );
    let earlier = updates.drop_last();
    if earlier.len() == 0 {
        assert(after_updates(states, device_id, method, earlier) == states);
    } else {
        lemma_last_write_wins(states, device_id, method, earlier);
        let previous = issued(
            device_id,
            method,
            earlier.last().intensity,
            earlier.last().duration,
            earlier.last().now,
        );
        lemma_second_write_wins(states, previous, last);
    }
    lemma_upsert_states(states, last);
}

/// Repeating a command before it expires keeps its key active without a gap:
/// from the first issue until the repeat would expire, the state in force is
/// active at every moment. The repeat adds no second state for the key and
/// leaves the intensity what the command says.
pub proof fn lemma_repeat_keeps_active(
    states: Seq<CommandState>,
    device_id: u32,
    method: u8,
    intensity: u32,
    duration: u64,
    first: u64,
    again: u64,
    moment: u64,
)
    requires
        distinct_keys(states),
        intensity > 0,
        again + duration <= u64::MAX,
        first <= again < first + duration,
        first <= moment < again + duration,
    ensures
        ({
            let once = upsert_states(states, issued(device_id, method, intensity, duration, first));
            let twice = upsert_states(once, issued(device_id, method, intensity, duration, again));
            let in_force = if moment < again {
                state_map(once)[(device_id, method)]
            } else {
                state_map(twice)[(device_id, method)]
            };
            &&& in_force.is_active(moment)
            &&& in_force.intensity == intensity
            &&& twice.len() == once.len()
            &&& distinct_keys(twice)
        }),
{
    let a = issued(device_id, method, intensity, duration, first);
    let b = issued(device_id, method, intensity, duration, again);
    lemma_upsert_states(states, a);
    lemma_upsert_states(upsert_states(states, a), b);
}

/// The command state store: one state per key, in the order in which the keys
/// were first written.
pub struct CommandMap {
    entries: Vec<CommandState>,
}

impl View for CommandMap {
    type V = Map<(u32, u8), CommandState>;

    /// The store as a mapping from key to state.
    open spec fn view(&self) -> Map<(u32, u8), CommandState> {
        state_map(self.states())
    }
}

impl CommandMap {
    /// The states of the store, in the order in which their keys were first
    /// written.
    pub closed spec fn states(&self) -> Seq<CommandState> {
        self.entries@
    }

    /// The invariant of the store: keys are distinct and every state is well
    /// formed.
    pub open spec fn wf(&self) -> bool {
        &&& distinct_keys(self.states())
        &&& forall|i: int| 0 <= i < self.states().len() ==> (#[trigger] self.states()[i]).wf()
    }

    /// An empty store.
    pub fn new() -> (store: CommandMap)
        ensures
            store.wf(),
            store.states() == Seq::<CommandState>::empty(),
            store@ == Map::<(u32, u8), CommandState>::empty(),
    {
        let store = CommandMap { entries: Vec::new() };
        assert(store@ =~= Map::<(u32, u8), CommandState>::empty());
        store
    }

    /// The number of keys in the store.
    pub fn len(&self) -> (n: usize)
        ensures
            n == self.states().len(),
    {
        self.entries.len()
    }

    /// The state at a position of the store.
    pub fn state_at(&self, index: usize) -> (state: CommandState)
        requires
            index < self.states().len(),
        ensures
            state == self.states()[index as int],
    {
        self.entries[index]
    }

    /// Where the store holds a key, if it does.
    pub fn find(&self, device_id: u32, method: u8) -> (found: Option<usize>)
        ensures
            match found {
                Some(i) => i < self.states().len() && self.states()[i as int].key() == (
                    device_id,
                    method,
                ),
                None => !holds_key(self.states(), (device_id, method)),
            },
    {
        let mut i: usize = 0;
        while i < self.entries.len()
            invariant
                i <= self.entries.len(),
                forall|j: int| 0 <= j < i ==> (#[trigger] self.entries@[j]).key() != (device_id, method),
            decreases self.entries.len() - i,
        {
            if self.entries[i].device_id == device_id && self.entries[i].method == method {
                return Some(i);
            }
            i += 1;
        }
        None
    }

    /// The state of a key, if the store holds it.
    pub fn get(&self, device_id: u32, method: u8) -> (state: Option<CommandState>)
        requires
            self.wf(),
        ensures
            state is Some <==> self@.contains_key((device_id, method)),
            state is Some ==> state->0 == self@[(device_id, method)],
    {
        match self.find(device_id, method) {
            Some(i) => {
                proof {
                    lemma_state_map_at(self.entries@, i as int);
                }
                Some(self.entries[i])
            },
            None => None,
        }
    }

    /// Records a command for a key, issued at `now`: the key's state is
    /// replaced as a whole, or created where the key is new. Every other key
    /// keeps its state and its place.
    pub fn upsert(&mut self, device_id: u32, method: u8, intensity: u32, duration: u64, now: u64)
        requires
            old(self).wf(),
            intensity <= UNIT,
            now + duration <= u64::MAX,
        ensures
            final(self).wf(),
            final(self)@ == old(self)@.insert(
                (device_id, method),
                issued(device_id, method, intensity, duration, now),
            ),
            final(self).states() == upsert_states(
                old(self).states(),
                issued(device_id, method, intensity, duration, now),
            ),
    {
        let state = CommandState {
            device_id,
            method,
            duration,
            intensity,
            last_issued: now,
            expiry: now + duration,
        };
        match self.find(device_id, method) {
            Some(i) => {
                proof {
                    lemma_upsert_states(self.entries@, state);
                    lemma_state_map_at(self.entries@, i as int);
                }
                self.entries[i] = state;
            },
            None => {
                proof {
                    lemma_upsert_states(self.entries@, state);
                }
                self.entries.push(state);
            },
        }
    }

    /// A copy of the store as it is now, for a reader that must not hold the
    /// store while it works.
    pub fn snapshot(&self) -> (copy: CommandMap)
        ensures
            copy.states() == self.states(),
            copy@ == self@,
            self.wf() ==> copy.wf(),
    {
        let mut entries: Vec<CommandState> = Vec::new();
        let mut i: usize = 0;
        while i < self.entries.len()
            invariant
                i <= self.entries.len(),
                entries@ == self.entries@.take(i as int),
            decreases self.entries.len() - i,
        {
            entries.push(self.entries[i]);
            assert(entries@ =~= self.entries@.take(i + 1));
            i += 1;
        }
        assert(entries@ =~= self.entries@);
        CommandMap { entries }
    }
}

} // verus!
