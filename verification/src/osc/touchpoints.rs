//! Touchpoints and what their messages do to the command store.
//!
//! A touchpoint names a set of devices and command methods. Every message for
//! it refreshes one command state per device and method; the dispatch side
//! reads those states on its own clock.

use crate::intensity::{from_bits, level_from_bits, scale_and_clamp, scaled_level, UNIT};
use crate::osc::osc::{Argument, OscMessage};
pub use crate::osc::store::{command_key, CommandMap, CommandState};
use crate::osc::store::{issued, lemma_upsert_keeps_places, upsert_states};
use vstd::prelude::*;
use vstd::string::*;

verus! {

/// A touchpoint: the devices and methods that an address drives, the factor
/// by which it scales what it is sent, in millionths, and how long one of its
/// commands lives, in milliseconds.
#[derive(Debug)]
pub struct Device {
    pub address: String,
    pub method: Vec<u8>,
    pub intensity: i64,
    pub duration: u64,
    pub ids: Vec<u32>,
}

/// The touchpoint registry: fixed once it is built.
#[derive(Debug)]
pub struct Touchpoints {
    pub touchpoints: Vec<Device>,
}

/// Where the last segment of an address starts: after its last slash, or at
/// the front where it has none.
pub open spec fn segment_start(address: Seq<char>) -> int
    decreases address.len(),
{
    if address.len() == 0 {
        0
    } else if address.last() == '/' {
        address.len() as int
    } else {
        segment_start(address.drop_last())
    }
}

/// The last segment of an address, which names the touchpoint.
pub open spec fn last_segment(address: Seq<char>) -> Seq<char> {
    address.subrange(segment_start(address), address.len() as int)
}

/// The start of the last segment is the one position that has a slash before
/// it, or is the front, and no slash from it on.
pub proof fn lemma_segment_start(address: Seq<char>, start: int)
    requires
        0 <= start <= address.len(),
        start == 0 || address[start - 1] == '/',
        forall|j: int| start <= j < address.len() ==> address[j] != '/',
    ensures
        segment_start(address) == start,
    decreases address.len(),
{
    if address.len() > 0 && address.last() != '/' {
        let rest = address.drop_last();
        assert(start <= rest.len());
        assert forall|j: int| start <= j < rest.len() implies rest[j] != '/' by {
            assert(rest[j] == address[j]);
        }
        if start > 0 {
            assert(rest[start - 1] == address[start - 1]);
        }
        lemma_segment_start(rest, start);
    }
}

/// The name of the touchpoint that an address is for.
pub fn touchpoint_name(address: &str) -> (name: &str)
    ensures
        name@ == last_segment(address@),
{
    let n = address.unicode_len();
    let mut start: usize = n;
    while start > 0 && address.get_char(start - 1) != '/'
        invariant
            start <= n,
            n == address@.len(),
            forall|j: int| start <= j < n ==> address@[j] != '/',
        decreases start,
    {
        start -= 1;
    }
    proof {
        lemma_segment_start(address@, start as int);
    }
    address.substring_char(start, n)
}

/// Whether a key is one of the device-and-method pairs of a touchpoint.
pub open spec fn covers(ids: Seq<u32>, methods: Seq<u8>, key: (u32, u8)) -> bool {
    ids.contains(key.0) && methods.contains(key.1)
}

/// The store after every pair of `ids` and `methods` was issued a command at
/// `now`: those keys hold the new state, every other key is as before.
pub open spec fn refreshed(
    before: Map<(u32, u8), CommandState>,
    ids: Seq<u32>,
    methods: Seq<u8>,
    intensity: u32,
    duration: u64,
    now: u64,
) -> Map<(u32, u8), CommandState> {
    Map::new(
        |key: (u32, u8)| before.contains_key(key) || covers(ids, methods, key),
        |key: (u32, u8)|
            if covers(ids, methods, key) {
                issued(key.0, key.1, intensity, duration, now)
            } else {
                before[key]
            },
    )
}

/// The pairs that a refresh has reached when it stands at device `a` and
/// method `b`.
pub open spec fn reached(ids: Seq<u32>, methods: Seq<u8>, a: int, b: int, key: (u32, u8)) -> bool {
    ||| covers(ids.take(a), methods, key)
    ||| (a < ids.len() && key.0 == ids[a] && methods.take(b).contains(key.1))
}

/// The store while a refresh stands at device `a` and method `b`.
pub open spec fn refreshing(
    before: Map<(u32, u8), CommandState>,
    ids: Seq<u32>,
    methods: Seq<u8>,
    a: int,
    b: int,
    intensity: u32,
    duration: u64,
    now: u64,
) -> Map<(u32, u8), CommandState> {
    Map::new(
        |key: (u32, u8)| before.contains_key(key) || reached(ids, methods, a, b, key),
        |key: (u32, u8)|
            if reached(ids, methods, a, b, key) {
                issued(key.0, key.1, intensity, duration, now)
            } else {
                before[key]
            },
    )
}

/// One element more in a prefix adds that element and nothing else.
pub proof fn lemma_take_contains<T>(s: Seq<T>, n: int, x: T)
    requires
        0 <= n < s.len(),
    ensures
        s.take(n + 1).contains(x) <==> s.take(n).contains(x) || s[n] == x,
{
    let short = s.take(n);
    let long = s.take(n + 1);
    if long.contains(x) {
        let k = choose|k: int| 0 <= k < long.len() && #[trigger] long[k] == x;
        if k < n {
            assert(short[k] == x);
        }
    }
    if short.contains(x) {
        let k = choose|k: int| 0 <= k < short.len() && #[trigger] short[k] == x;
        assert(long[k] == x);
    }
    if s[n] == x {
        assert(long[n] == x);
    }
}

impl Touchpoints {
    /// Whether `index` is the first touchpoint with the given name.
    pub open spec fn resolves(&self, name: Seq<char>, index: int) -> bool {
        &&& 0 <= index < self.touchpoints@.len()
        &&& self.touchpoints@[index].address@ == name
        &&& forall|j: int| 0 <= j < index ==> (#[trigger] self.touchpoints@[j]).address@ != name
    }

    /// Whether no touchpoint has the given name.
    pub open spec fn unknown(&self, name: Seq<char>) -> bool {
        forall|j: int|
            0 <= j < self.touchpoints@.len() ==> (#[trigger] self.touchpoints@[j]).address@ != name
    }

    /// Whether a command issued at `now` for any touchpoint expires at a time
    /// the clock can still show.
    pub open spec fn fits(&self, now: u64) -> bool {
        forall|j: int|
            0 <= j < self.touchpoints@.len() ==> now + (#[trigger] self.touchpoints@[j]).duration
                <= u64::MAX
    }

    /// Whether a key is one of the pairs of some touchpoint.
    pub open spec fn drives(&self, key: (u32, u8)) -> bool {
        exists|j: int|
            0 <= j < self.touchpoints@.len() && covers(
                (#[trigger] self.touchpoints@[j]).ids@,
                self.touchpoints@[j].method@,
                key,
            )
    }

    /// A name resolves to one touchpoint at most, and to one exactly unless it
    /// is unknown.
    pub proof fn lemma_resolves_one(&self, name: Seq<char>, index: int)
        requires
            self.resolves(name, index),
        ensures
            !self.unknown(name),
            forall|other: int| self.resolves(name, other) ==> other == index,
    {
        assert forall|other: int| self.resolves(name, other) implies other == index by {
            if other < index {
                assert(self.touchpoints@[other].address@ != name);
            } else if index < other {
                assert(self.touchpoints@[index].address@ != name);
            }
        }
    }

    /// A name that some touchpoint has resolves to the first that has it.
    pub proof fn lemma_known_resolves(&self, name: Seq<char>, upto: int)
        requires
            0 <= upto < self.touchpoints@.len(),
            self.touchpoints@[upto].address@ == name,
        ensures
            exists|index: int| 0 <= index <= upto && self.resolves(name, index),
        decreases upto,
    {
        if exists|j: int| 0 <= j < upto && (#[trigger] self.touchpoints@[j]).address@ == name {
            let j = choose|j: int|
                0 <= j < upto && (#[trigger] self.touchpoints@[j]).address@ == name;
            self.lemma_known_resolves(name, j);
            let index = choose|index: int| 0 <= index <= j && self.resolves(name, index);
            assert(0 <= index <= upto && self.resolves(name, index));
        } else {
            assert(self.resolves(name, upto));
        }
    }

    /// Finds the touchpoint of a name: the first that has it.
    pub fn resolve(&self, name: &str) -> (found: Option<usize>)
        ensures
            match found {
                Some(index) => self.resolves(name@, index as int),
                None => self.unknown(name@),
            },
    {
        let wanted = String::from_str(name);
        let mut i: usize = 0;
        while i < self.touchpoints.len()
            invariant
                i <= self.touchpoints.len(),
                wanted@ == name@,
                forall|j: int| 0 <= j < i ==> (#[trigger] self.touchpoints@[j]).address@ != name@,
            decreases self.touchpoints.len() - i,
        {
            if self.touchpoints[i].address == wanted {
                return Some(i);
            }
            i += 1;
        }
        None
    }

    /// Decides whether commands can be issued at `now` without their expiry
    /// passing the end of the clock.
    pub fn accepts_time(&self, now: u64) -> (r: bool)
        ensures
            r == self.fits(now),
    {
        let mut i: usize = 0;
        while i < self.touchpoints.len()
            invariant
                i <= self.touchpoints.len(),
                forall|j: int|
                    0 <= j < i ==> now + (#[trigger] self.touchpoints@[j]).duration <= u64::MAX,
            decreases self.touchpoints.len() - i,
        {
            if self.touchpoints[i].duration > u64::MAX - now {
                return false;
            }
            i += 1;
        }
        true
    }
}

/// The pairs of one device with each method, in the order of the methods.
pub open spec fn row(id: u32, methods: Seq<u8>) -> Seq<(u32, u8)> {
    Seq::new(methods.len(), |b: int| (id, methods[b]))
}

/// The device-and-method pairs of a touchpoint: device by device, and for
/// each device method by method.
pub open spec fn pairs(ids: Seq<u32>, methods: Seq<u8>) -> Seq<(u32, u8)>
    decreases ids.len(),
{
    if ids.len() == 0 {
        Seq::empty()
    } else {
        pairs(ids.drop_last(), methods) + row(ids.last(), methods)
    }
}

/// The states after each key of a series was issued the same command at
/// `now`, one key after the other.
pub open spec fn upsert_all(
    states: Seq<CommandState>,
    keys: Seq<(u32, u8)>,
    intensity: u32,
    duration: u64,
    now: u64,
) -> Seq<CommandState>
    decreases keys.len(),
{
    if keys.len() == 0 {
        states
    } else {
        upsert_states(
            upsert_all(states, keys.drop_last(), intensity, duration, now),
            issued(keys.last().0, keys.last().1, intensity, duration, now),
        )
    }
}

/// The states that the bridge starts with: every pair of every touchpoint,
/// touchpoint by touchpoint, each without intensity and expired at `now`.
pub open spec fn initial_states(devices: Seq<Device>, now: u64) -> Seq<CommandState>
    decreases devices.len(),
{
    if devices.len() == 0 {
        Seq::empty()
    } else {
        upsert_all(
            initial_states(devices.drop_last(), now),
            pairs(devices.last().ids@, devices.last().method@),
            0,
            0,
            now,
        )
    }
}

/// The command keys that a message address drives: the pairs of its
/// touchpoint, and none where the touchpoint is unknown.
pub fn extract_shocker_ids(registry: &Touchpoints, message_addr: &str) -> (keys: Vec<(u32, u8)>)
    ensures
        registry.unknown(last_segment(message_addr@)) ==> keys@.len() == 0,
        forall|index: int|
            registry.resolves(last_segment(message_addr@), index) ==> keys@ == pairs(
                registry.touchpoints@[index].ids@,
                registry.touchpoints@[index].method@,
            ),
{
    let name = touchpoint_name(message_addr);
    let mut keys: Vec<(u32, u8)> = Vec::new();
    let index = match registry.resolve(name) {
        Some(index) => index,
        None => {
            return keys;
        },
    };
    let device = &registry.touchpoints[index];
    let mut a: usize = 0;
    while a < device.ids.len()
        invariant
            a <= device.ids.len(),
            keys@ == pairs(device.ids@.take(a as int), device.method@),
        decreases device.ids.len() - a,
    {
        let ghost done = keys@;
        let mut b: usize = 0;
        assert(keys@ =~= done + row(device.ids@[a as int], device.method@).take(0));
        while b < device.method.len()
            invariant
                a < device.ids.len(),
                b <= device.method.len(),
                keys@ == done + row(device.ids@[a as int], device.method@).take(b as int),
            decreases device.method.len() - b,
        {
            keys.push((device.ids[a], device.method[b]));
            assert(keys@ =~= done + row(device.ids@[a as int], device.method@).take(b + 1));
            b += 1;
        }
        proof {
            let next = device.ids@.take(a + 1);
            assert(next.drop_last() =~= device.ids@.take(a as int));
            assert(next.last() == device.ids@[a as int]);
            assert(row(device.ids@[a as int], device.method@).take(b as int) =~= row(
                next.last(),
                device.method@,
            ));
        }
        a += 1;
    }
    proof {
        assert(device.ids@.take(a as int) =~= device.ids@);
        registry.lemma_resolves_one(name@, index as int);
    }
    keys
}

/// The scale, in millionths, that the touchpoint of a message address gives
/// its argument, and zero where the touchpoint is unknown.
pub fn extract_shocker_intensity(registry: &Touchpoints, message_addr: &str) -> (scale: i64)
    ensures
        registry.unknown(last_segment(message_addr@)) ==> scale == 0,
        forall|index: int|
            registry.resolves(last_segment(message_addr@), index) ==> scale
                == registry.touchpoints@[index].intensity,
{
    let name = touchpoint_name(message_addr);
    match registry.resolve(name) {
        Some(index) => {
            proof {
                registry.lemma_resolves_one(name@, index as int);
            }
            registry.touchpoints[index].intensity
        },
        None => 0,
    }
}

/// When a command issued at `now` for a message address expires: after the
/// duration of its touchpoint, and at once where the touchpoint is unknown.
pub fn calculate_expiry(registry: &Touchpoints, message_addr: &str, now: u64) -> (expiry: u64)
    requires
        registry.fits(now),
    ensures
        registry.unknown(last_segment(message_addr@)) ==> expiry == now,
        forall|index: int|
            registry.resolves(last_segment(message_addr@), index) ==> expiry == now
                + registry.touchpoints@[index].duration,
{
    let name = touchpoint_name(message_addr);
    match registry.resolve(name) {
        Some(index) => {
            proof {
                registry.lemma_resolves_one(name@, index as int);
            }
            now + registry.touchpoints[index].duration
        },
        None => now,
    }
}

/// A refresh that has reached nothing has changed nothing, and one that has
/// passed every device is done.
pub proof fn lemma_refreshing_ends(
    before: Map<(u32, u8), CommandState>,
    ids: Seq<u32>,
    methods: Seq<u8>,
    intensity: u32,
    duration: u64,
    now: u64,
)
    ensures
        refreshing(before, ids, methods, 0, 0, intensity, duration, now) == before,
        refreshing(before, ids, methods, ids.len() as int, 0, intensity, duration, now)
            == refreshed(before, ids, methods, intensity, duration, now),
{
    assert(ids.take(ids.len() as int) =~= ids);
    assert(refreshing(before, ids, methods, 0, 0, intensity, duration, now) =~= before);
    assert(refreshing(before, ids, methods, ids.len() as int, 0, intensity, duration, now)
        =~= refreshed(before, ids, methods, intensity, duration, now));
}

/// One more pair of a refresh is one insertion.
pub proof fn lemma_refreshing_step(
    before: Map<(u32, u8), CommandState>,
    ids: Seq<u32>,
    methods: Seq<u8>,
    a: int,
    b: int,
    intensity: u32,
    duration: u64,
    now: u64,
)
    requires
        0 <= a < ids.len(),
        0 <= b < methods.len(),
    ensures
        refreshing(before, ids, methods, a, b + 1, intensity, duration, now) == refreshing(
            before,
            ids,
            methods,
            a,
            b,
            intensity,
            duration,
            now,
        ).insert((ids[a], methods[b]), issued(ids[a], methods[b], intensity, duration, now)),
{
    let key = (ids[a], methods[b]);
    let earlier = refreshing(before, ids, methods, a, b, intensity, duration, now);
    let later = refreshing(before, ids, methods, a, b + 1, intensity, duration, now);
    assert forall|k: (u32, u8)|
        (#[trigger] reached(ids, methods, a, b + 1, k)) <==> (reached(ids, methods, a, b, k) || k
            == key) by {
        lemma_take_contains(methods, b, k.1);
    }
    assert forall|k: (u32, u8)| later.contains_key(k) <==> earlier.insert(
        key,
        issued(key.0, key.1, intensity, duration, now),
    ).contains_key(k) by {
        assert(reached(ids, methods, a, b + 1, k) <==> (reached(ids, methods, a, b, k) || k
            == key));
    }
    assert forall|k: (u32, u8)| later.contains_key(k) implies later[k] == earlier.insert(
        key,
        issued(key.0, key.1, intensity, duration, now),
    )[k] by {
        assert(reached(ids, methods, a, b + 1, k) <==> (reached(ids, methods, a, b, k) || k
            == key));
    }
    assert(later =~= earlier.insert(key, issued(key.0, key.1, intensity, duration, now)));
}

/// A refresh that has passed the last method of a device stands at the
/// first method of the next.
pub proof fn lemma_refreshing_next(
    before: Map<(u32, u8), CommandState>,
    ids: Seq<u32>,
    methods: Seq<u8>,
    a: int,
    intensity: u32,
    duration: u64,
    now: u64,
)
    requires
        0 <= a < ids.len(),
    ensures
        refreshing(before, ids, methods, a, methods.len() as int, intensity, duration, now)
            == refreshing(before, ids, methods, a + 1, 0, intensity, duration, now),
{
    assert forall|k: (u32, u8)|
        reached(ids, methods, a, methods.len() as int, k) <==> reached(
            ids,
            methods,
            a + 1,
            0,
            k,
        ) by {
        lemma_take_contains(ids, a, k.0);
        assert(methods.take(methods.len() as int) =~= methods);
        assert(methods.take(0) =~= Seq::<u8>::empty());
    }
    assert(refreshing(before, ids, methods, a, methods.len() as int, intensity, duration, now)
        =~= refreshing(before, ids, methods, a + 1, 0, intensity, duration, now));
}

/// Issues a command at `now` to every pair of `ids` and `methods`, device by
/// device and method by method. Keys that the store held stay where they
/// were.
pub fn refresh(
    store: &mut CommandMap,
    ids: &Vec<u32>,
    methods: &Vec<u8>,
    intensity: u32,
    duration: u64,
    now: u64,
)
    requires
        old(store).wf(),
        intensity <= UNIT,
        now + duration <= u64::MAX,
    ensures
        final(store).wf(),
        final(store)@ == refreshed(old(store)@, ids@, methods@, intensity, duration, now),
        final(store).states() == upsert_all(
            old(store).states(),
            pairs(ids@, methods@),
            intensity,
            duration,
            now,
        ),
        final(store).states().len() >= old(store).states().len(),
        forall|j: int|
            0 <= j < old(store).states().len() ==> (#[trigger] final(store).states()[j]).key()
                == old(store).states()[j].key(),
{
    let ghost before = store@;
    let ghost before_states = store.states();
    let mut a: usize = 0;
    proof {
        lemma_refreshing_ends(before, ids@, methods@, intensity, duration, now);
    }
    while a < ids.len()
        invariant
            a <= ids.len(),
            store.wf(),
            intensity <= UNIT,
            now + duration <= u64::MAX,
            store@ == refreshing(before, ids@, methods@, a as int, 0, intensity, duration, now),
            store.states() == upsert_all(
                before_states,
                pairs(ids@.take(a as int), methods@),
                intensity,
                duration,
                now,
            ),
            store.states().len() >= before_states.len(),
            forall|j: int|
                0 <= j < before_states.len() ==> (#[trigger] store.states()[j]).key()
                    == before_states[j].key(),
        decreases ids.len() - a,
    {
        let ghost done = pairs(ids@.take(a as int), methods@);
        let ghost this_row = row(ids@[a as int], methods@);
        let mut b: usize = 0;
        assert(done + this_row.take(0) =~= done);
        while b < methods.len()
            invariant
                a < ids.len(),
                b <= methods.len(),
                done == pairs(ids@.take(a as int), methods@),
                this_row == row(ids@[a as int], methods@),
                store.wf(),
                intensity <= UNIT,
                now + duration <= u64::MAX,
                store@ == refreshing(
                    before,
                    ids@,
                    methods@,
                    a as int,
                    b as int,
                    intensity,
                    duration,
                    now,
                ),
                store.states() == upsert_all(
                    before_states,
                    done + this_row.take(b as int),
                    intensity,
                    duration,
                    now,
                ),
                store.states().len() >= before_states.len(),
                forall|j: int|
                    0 <= j < before_states.len() ==> (#[trigger] store.states()[j]).key()
                        == before_states[j].key(),
            decreases methods.len() - b,
        {
            let ghost prior_states = store.states();
            store.upsert(ids[a], methods[b], intensity, duration, now);
            proof {
                let state = issued(ids@[a as int], methods@[b as int], intensity, duration, now);
                let next_keys = done + this_row.take(b + 1);
                assert(next_keys.drop_last() =~= done + this_row.take(b as int));
                assert(next_keys.last() == (ids@[a as int], methods@[b as int]));
                lemma_refreshing_step(
                    before,
                    ids@,
                    methods@,
                    a as int,
                    b as int,
                    intensity,
                    duration,
                    now,
                );
                assert forall|j: int| 0 <= j < before_states.len() implies (
                #[trigger] store.states()[j]).key() == before_states[j].key() by {
                    lemma_upsert_keeps_places(prior_states, state, j);
                    assert(prior_states[j].key() == before_states[j].key());
                }
            }
            b += 1;
        }
        proof {
            let next_ids = ids@.take(a + 1);
            assert(next_ids.drop_last() =~= ids@.take(a as int));
            assert(next_ids.last() == ids@[a as int]);
            assert(this_row.take(b as int) =~= this_row);
            lemma_refreshing_next(before, ids@, methods@, a as int, intensity, duration, now);
        }
        a += 1;
    }
    proof {
        assert(ids@.take(ids@.len() as int) =~= ids@);
    }
}

/// What became of a datagram or a message.
#[derive(Clone, Copy, Debug, PartialEq, Eq, Structural)]
pub enum Ingest {
    /// The touchpoint's command states were refreshed.
    Applied,
    /// No touchpoint has the name that the address ends in.
    UnknownTouchpoint,
    /// The first argument is missing or is no float.
    NotAFloat,
    /// The datagram holds a bundle, which is ignored.
    Bundle,
    /// The datagram is no OSC packet.
    Malformed,
}

/// The level that a touchpoint gives a float argument: the argument times the
/// touchpoint's scale, clamped to `[0, UNIT]`.
pub open spec fn effective_level(bits: u32, scale: i64) -> u32 {
    scaled_level(level_from_bits(bits), scale as int) as u32
}

/// What a message does to the store at `now`, and how that is reported.
///
/// A message for an unknown touchpoint, or without a float as its first
/// argument, leaves the store as it was. Any other refreshes every
/// device-and-method pair of its touchpoint. Keys that the store held stay
/// where they were.
pub open spec fn message_applied(
    addr: Seq<char>,
    arg: Argument,
    registry: &Touchpoints,
    before: CommandMap,
    after: CommandMap,
    outcome: Ingest,
    now: u64,
) -> bool {
    let name = last_segment(addr);
    &&& after.wf()
    &&& outcome == if registry.unknown(name) {
        Ingest::UnknownTouchpoint
    } else if arg is Float {
        Ingest::Applied
    } else {
        Ingest::NotAFloat
    }
    &&& outcome != Ingest::Applied ==> after.states() == before.states() && after@ == before@
    &&& outcome == Ingest::Applied ==> forall|index: int|
        registry.resolves(name, index) ==> after@ == refreshed(
            before@,
            registry.touchpoints@[index].ids@,
            registry.touchpoints@[index].method@,
            effective_level(arg->Float_0, registry.touchpoints@[index].intensity),
            registry.touchpoints@[index].duration,
            now,
        ) && after.states() == upsert_all(
            before.states(),
            pairs(registry.touchpoints@[index].ids@, registry.touchpoints@[index].method@),
            effective_level(arg->Float_0, registry.touchpoints@[index].intensity),
            registry.touchpoints@[index].duration,
            now,
        )
    &&& after.states().len() >= before.states().len()
    &&& forall|j: int|
        0 <= j < before.states().len() ==> (#[trigger] after.states()[j]).key()
            == before.states()[j].key()
}

/// Applies one message to the store at `now`.
///
/// The last segment of the address names the touchpoint. A message for an
/// unknown touchpoint, or without a float as its first argument, is dropped
/// and leaves the store as it was. Otherwise every device-and-method pair of
/// the touchpoint is issued a command of the touchpoint's duration, at the
/// level that the touchpoint gives the argument.
pub fn process_message(
    msg: &OscMessage,
    registry: &Touchpoints,
    commandmap: &mut CommandMap,
    now: u64,
) -> (outcome: Ingest)
    requires
        old(commandmap).wf(),
        registry.fits(now),
    ensures
        message_applied(msg.addr@, msg.arg, registry, *old(commandmap), *final(commandmap), outcome, now),
{
    let name = touchpoint_name(msg.addr.as_str());
    let index = match registry.resolve(name) {
        Some(index) => index,
        None => {
            return Ingest::UnknownTouchpoint;
        },
    };
    let device = &registry.touchpoints[index];
    let bits = match msg.arg {
        Argument::Float(bits) => bits,
        _ => {
            return Ingest::NotAFloat;
        },
    };
    let level = scale_and_clamp(from_bits(bits), device.intensity);
    refresh(commandmap, &device.ids, &device.method, level, device.duration, now);
    proof {
        registry.lemma_resolves_one(name@, index as int);
    }
    Ingest::Applied
}

/// One turn of the touchpoint loop: applies the message that arrived, or
/// reports with `None` that the source of messages has closed and the loop
/// is to end.
pub fn display_and_handle_touchpoints(
    message: Option<OscMessage>,
    registry: &Touchpoints,
    commandmap: &mut CommandMap,
    now: u64,
) -> (outcome: Option<Ingest>)
    requires
        old(commandmap).wf(),
        registry.fits(now),
    ensures
        final(commandmap).wf(),
        message is None ==> outcome is None && final(commandmap).states() == old(
            commandmap,
        ).states() && final(commandmap)@ == old(commandmap)@,
        message is Some ==> outcome is Some && message_applied(
            message->0.addr@,
            message->0.arg,
            registry,
            *old(commandmap),
            *final(commandmap),
            outcome->0,
            now,
        ),
{
    match message {
        Some(msg) => Some(process_message(&msg, registry, commandmap, now)),
        None => None,
    }
}

/// Builds the store that the bridge starts with at `now`: one state for every
/// device-and-method pair of every touchpoint, each with no intensity and
/// already expired.
pub fn initialize_commandmap(registry: &Touchpoints, now: u64) -> (store: CommandMap)
    ensures
        store.wf(),
        store.states() == initial_states(registry.touchpoints@, now),
        forall|key: (u32, u8)| store@.contains_key(key) <==> registry.drives(key),
        forall|key: (u32, u8)|
            store@.contains_key(key) ==> #[trigger] store@[key] == issued(key.0, key.1, 0, 0, now),
{
    let mut store = CommandMap::new();
    let mut i: usize = 0;
    while i < registry.touchpoints.len()
        invariant
            i <= registry.touchpoints.len(),
            store.wf(),
            store.states() == initial_states(registry.touchpoints@.take(i as int), now),
            forall|key: (u32, u8)|
                store@.contains_key(key) <==> exists|j: int|
                    0 <= j < i && covers(
                        (#[trigger] registry.touchpoints@[j]).ids@,
                        registry.touchpoints@[j].method@,
                        key,
                    ),
            forall|key: (u32, u8)|
                store@.contains_key(key) ==> #[trigger] store@[key] == issued(
                    key.0,
                    key.1,
                    0,
                    0,
                    now,
                ),
        decreases registry.touchpoints.len() - i,
    {
        let device = &registry.touchpoints[i];
        let ghost prior = store@;
        refresh(&mut store, &device.ids, &device.method, 0, 0, now);
        proof {
            let next = registry.touchpoints@.take(i + 1);
            assert(next.drop_last() =~= registry.touchpoints@.take(i as int));
            assert(next.last() == *device);
            assert forall|key: (u32, u8)|
                store@.contains_key(key) <==> exists|j: int|
                    0 <= j < i + 1 && covers(
                        (#[trigger] registry.touchpoints@[j]).ids@,
                        registry.touchpoints@[j].method@,
                        key,
                    ) by {
                if prior.contains_key(key) {
                    let j = choose|j: int|
                        0 <= j < i && covers(
                            (#[trigger] registry.touchpoints@[j]).ids@,
                            registry.touchpoints@[j].method@,
                            key,
                        );
                    assert(0 <= j < i + 1);
                }
                if covers(device.ids@, device.method@, key) {
                    assert(registry.touchpoints@[i as int] == *device);
                }
            }
        }
        i += 1;
    }
    assert(registry.touchpoints@.take(i as int) =~= registry.touchpoints@);
    store
}

} // verus!
