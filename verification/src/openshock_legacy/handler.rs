//! The dispatch tick of the legacy backend.
//!
//! A tick reads a snapshot of the command store, keeps the states that are
//! active, groups them by method and quantised intensity, and writes one
//! command per group.

use crate::intensity::{percent, percent_of, UNIT};
use crate::osc::store::{
    after_updates, distinct_keys, issued, lemma_last_write_wins, lemma_state_map_at, state_map,
    upsert_states, CommandMap, CommandState, Update,
};
use crate::text::{decimal, push_decimal};
use vstd::prelude::*;
use vstd::string::*;

verus! {

/// The duration, in milliseconds, that every outbound command carries.
pub const COMMAND_DURATION_MS: u64 = 50;

/// The time, in milliseconds, between two dispatch ticks.
pub const TICK_INTERVAL_MS: u64 = 150;

/// One outbound command: the devices that share a method and an intensity.
#[derive(Debug)]
pub struct Batch {
    pub method: u8,
    pub intensity: u8,
    pub duration: u64,
    pub ids: Vec<u32>,
}

/// The group a state is sent in: its method and its intensity in percent.
pub open spec fn group_of(state: CommandState) -> (u8, u8) {
    (state.method, percent_of(state.intensity as int) as u8)
}

/// The groups of the active states, each once, in the order in which the
/// states first show them.
pub open spec fn group_keys(states: Seq<CommandState>, now: u64) -> Seq<(u8, u8)>
    decreases states.len(),
{
    if states.len() == 0 {
        Seq::empty()
    } else {
        let earlier = group_keys(states.drop_last(), now);
        let state = states.last();
        if state.is_active(now) && !earlier.contains(group_of(state)) {
            earlier.push(group_of(state))
        } else {
            earlier
        }
    }
}

/// The devices of the active states of one group, in the order of the states.
pub open spec fn group_ids(states: Seq<CommandState>, now: u64, group: (u8, u8)) -> Seq<u32>
    decreases states.len(),
{
    if states.len() == 0 {
        Seq::empty()
    } else {
        let earlier = group_ids(states.drop_last(), now, group);
        let state = states.last();
        if state.is_active(now) && group_of(state) == group {
            earlier.push(state.device_id)
        } else {
            earlier
        }
    }
}

/// A device is listed in a group only for an active state of that group.
pub proof fn lemma_group_ids_sound(states: Seq<CommandState>, now: u64, group: (u8, u8), id: u32)
    requires
        group_ids(states, now, group).contains(id),
    ensures
        exists|i: int|
            0 <= i < states.len() && (#[trigger] states[i]).is_active(now) && group_of(states[i])
                == group && states[i].device_id == id,
    decreases states.len(),
{
    if states.len() > 0 {
        let earlier = group_ids(states.drop_last(), now, group);
        let state = states.last();
        if earlier.contains(id) {
            lemma_group_ids_sound(states.drop_last(), now, group, id);
            let i = choose|i: int|
                0 <= i < states.drop_last().len() && (#[trigger] states.drop_last()[i]).is_active(
                    now,
                ) && group_of(states.drop_last()[i]) == group && states.drop_last()[i].device_id
                    == id;
            assert(states[i] == states.drop_last()[i]);
        } else {
            let k = choose|k: int|
                0 <= k < group_ids(states, now, group).len() && group_ids(states, now, group)[k]
                    == id;
            if k < earlier.len() {
                assert(earlier[k] == id);
            }
            assert(states[states.len() - 1] == state);
        }
    }
}

/// Every active state has its device listed in its own group.
pub proof fn lemma_group_ids_complete(states: Seq<CommandState>, now: u64, i: int)
    requires
        0 <= i < states.len(),
        states[i].is_active(now),
    ensures
        group_ids(states, now, group_of(states[i])).contains(states[i].device_id),
    decreases states.len(),
{
    let group = group_of(states[i]);
    let all = group_ids(states, now, group);
    let earlier = group_ids(states.drop_last(), now, group);
    if i == states.len() - 1 {
        assert(all[all.len() - 1] == states[i].device_id);
    } else {
        assert(states.drop_last()[i] == states[i]);
        lemma_group_ids_complete(states.drop_last(), now, i);
        let k = choose|k: int| 0 <= k < earlier.len() && earlier[k] == states[i].device_id;
        assert(all[k] == states[i].device_id);
    }
}

/// A group is dispatched only if some active state belongs to it.
pub proof fn lemma_group_keys_sound(states: Seq<CommandState>, now: u64, group: (u8, u8))
    requires
        group_keys(states, now).contains(group),
    ensures
        exists|i: int|
            0 <= i < states.len() && (#[trigger] states[i]).is_active(now) && group_of(states[i])
                == group,
    decreases states.len(),
{
    if states.len() > 0 {
        let earlier = group_keys(states.drop_last(), now);
        if earlier.contains(group) {
            lemma_group_keys_sound(states.drop_last(), now, group);
            let i = choose|i: int|
                0 <= i < states.drop_last().len() && (#[trigger] states.drop_last()[i]).is_active(
                    now,
                ) && group_of(states.drop_last()[i]) == group;
            assert(states[i] == states.drop_last()[i]);
        } else {
            let k = choose|k: int|
                0 <= k < group_keys(states, now).len() && group_keys(states, now)[k] == group;
            if k < earlier.len() {
                assert(earlier[k] == group);
            }
            assert(states[states.len() - 1] == states.last());
        }
    }
}

/// The group of every active state is dispatched.
pub proof fn lemma_group_keys_complete(states: Seq<CommandState>, now: u64, i: int)
    requires
        0 <= i < states.len(),
        states[i].is_active(now),
    ensures
        group_keys(states, now).contains(group_of(states[i])),
    decreases states.len(),
{
    let group = group_of(states[i]);
    let all = group_keys(states, now);
    let earlier = group_keys(states.drop_last(), now);
    if i == states.len() - 1 {
        if earlier.contains(group) {
            let k = choose|k: int| 0 <= k < earlier.len() && earlier[k] == group;
            assert(all[k] == group);
        } else {
            assert(all[all.len() - 1] == group);
        }
    } else {
        assert(states.drop_last()[i] == states[i]);
        lemma_group_keys_complete(states.drop_last(), now, i);
        let k = choose|k: int| 0 <= k < earlier.len() && earlier[k] == group;
        assert(all[k] == group);
    }
}

/// No group is dispatched twice in one tick.
pub proof fn lemma_group_keys_distinct(states: Seq<CommandState>, now: u64)
    ensures
        group_keys(states, now).no_duplicates(),
    decreases states.len(),
{
    if states.len() > 0 {
        lemma_group_keys_distinct(states.drop_last(), now);
    }
}

/// With one state per key, a command lists no device twice.
pub proof fn lemma_group_ids_distinct(states: Seq<CommandState>, now: u64, group: (u8, u8))
    requires
        distinct_keys(states),
    ensures
        group_ids(states, now, group).no_duplicates(),
    decreases states.len(),
{
    if states.len() > 0 {
        let rest = states.drop_last();
        let earlier = group_ids(rest, now, group);
        let state = states.last();
        assert(distinct_keys(rest)) by {
            assert forall|a: int, b: int| 0 <= a < b < rest.len() implies (#[trigger] rest[a]).key()
                != (#[trigger] rest[b]).key() by {
                assert(states[a].key() != states[b].key());
            }
        }
        lemma_group_ids_distinct(rest, now, group);
        if state.is_active(now) && group_of(state) == group {
            if earlier.contains(state.device_id) {
                lemma_group_ids_sound(rest, now, group, state.device_id);
                let i = choose|i: int|
                    0 <= i < rest.len() && (#[trigger] rest[i]).is_active(now) && group_of(rest[i])
                        == group && rest[i].device_id == state.device_id;
                assert(states[i] == rest[i]);
                assert(states[i].key() != states[states.len() - 1].key());
            }
        }
    }
}

/// A command lists a device only on behalf of that device's own state for
/// the command's method: the store holds that state, it is active, and it
/// quantises to the command's intensity.
pub proof fn lemma_command_lists_own_states(
    states: Seq<CommandState>,
    now: u64,
    group: (u8, u8),
    id: u32,
)
    requires
        distinct_keys(states),
        group_ids(states, now, group).contains(id),
    ensures
        state_map(states).contains_key((id, group.0)),
        state_map(states)[(id, group.0)].is_active(now),
        group_of(state_map(states)[(id, group.0)]) == group,
{
    lemma_group_ids_sound(states, now, group, id);
    let i = choose|i: int|
        0 <= i < states.len() && (#[trigger] states[i]).is_active(now) && group_of(states[i])
            == group && states[i].device_id == id;
    lemma_state_map_at(states, i);
}

/// A state that has expired is in no command: no group of its method lists
/// its device, whatever its intensity.
pub proof fn lemma_expired_excluded(states: Seq<CommandState>, now: u64, i: int, percent: u8)
    requires
        distinct_keys(states),
        0 <= i < states.len(),
        states[i].expiry <= now,
    ensures
        !group_ids(states, now, (states[i].method, percent)).contains(states[i].device_id),
{
    let group = (states[i].method, percent);
    if group_ids(states, now, group).contains(states[i].device_id) {
        lemma_command_lists_own_states(states, now, group, states[i].device_id);
        lemma_state_map_at(states, i);
    }
}

/// Two active states of one method and one quantised intensity go out in the
/// same command: their group is dispatched once, and it lists both devices.
pub proof fn lemma_same_group_one_command(states: Seq<CommandState>, now: u64, i: int, j: int)
    requires
        0 <= i < states.len(),
        0 <= j < states.len(),
        states[i].is_active(now),
        states[j].is_active(now),
        group_of(states[i]) == group_of(states[j]),
    ensures
        group_keys(states, now).contains(group_of(states[i])),
        group_keys(states, now).no_duplicates(),
        group_ids(states, now, group_of(states[i])).contains(states[i].device_id),
        group_ids(states, now, group_of(states[i])).contains(states[j].device_id),
{
    lemma_group_keys_complete(states, now, i);
    lemma_group_keys_distinct(states, now);
    lemma_group_ids_complete(states, now, i);
    lemma_group_ids_complete(states, now, j);
}

/// Two states that differ in method or in quantised intensity never share a
/// command: no group lists the devices of both on their behalf. A command
/// of the first state's method lists the second state's device only if that
/// device has a state of its own under that method.
pub proof fn lemma_different_groups_never_share(
    states: Seq<CommandState>,
    now: u64,
    i: int,
    j: int,
    group: (u8, u8),
)
    requires
        distinct_keys(states),
        0 <= i < states.len(),
        0 <= j < states.len(),
        group_of(states[i]) != group_of(states[j]),
        group_ids(states, now, group).contains(states[i].device_id),
        group_ids(states, now, group).contains(states[j].device_id),
    ensures
        state_map(states)[(states[i].device_id, group.0)] != states[i] || state_map(
            states,
        )[(states[j].device_id, group.0)] != states[j],
{
    lemma_command_lists_own_states(states, now, group, states[i].device_id);
    lemma_command_lists_own_states(states, now, group, states[j].device_id);
}

/// A state goes out in the command of its own group only: a group of its
/// method with another intensity does not list its device.
pub proof fn lemma_other_group_excluded(states: Seq<CommandState>, now: u64, i: int, percent: u8)
    requires
        distinct_keys(states),
        0 <= i < states.len(),
        percent != group_of(states[i]).1,
    ensures
        !group_ids(states, now, (states[i].method, percent)).contains(states[i].device_id),
{
    let group = (states[i].method, percent);
    if group_ids(states, now, group).contains(states[i].device_id) {
        lemma_command_lists_own_states(states, now, group, states[i].device_id);
        lemma_state_map_at(states, i);
    }
}

/// A tick after a series of commands for one key sees the last of them
/// alone: it dispatches the groups, and lists the devices, that it would had
/// only the last command been issued.
pub proof fn lemma_tick_sees_last_write(
    states: Seq<CommandState>,
    device_id: u32,
    method: u8,
    updates: Seq<Update>,
    now: u64,
    group: (u8, u8),
)
    requires
        distinct_keys(states),
        updates.len() > 0,
    ensures
        ({
            let last = issued(
                device_id,
                method,
                updates.last().intensity,
                updates.last().duration,
                updates.last().now,
            );
            let written = after_updates(states, device_id, method, updates);
            &&& group_keys(written, now) == group_keys(upsert_states(states, last), now)
            &&& group_ids(written, now, group) == group_ids(upsert_states(states, last), now, group)
        }),
{
    lemma_last_write_wins(states, device_id, method, updates);
}

fn contains_group(groups: &Vec<(u8, u8)>, group: (u8, u8)) -> (found: bool)
    ensures
        found == groups@.contains(group),
{
    let mut i: usize = 0;
    while i < groups.len()
        invariant
            i <= groups.len(),
            forall|j: int| 0 <= j < i ==> groups@[j] != group,
        decreases groups.len() - i,
    {
        if groups[i].0 == group.0 && groups[i].1 == group.1 {
            return true;
        }
        i += 1;
    }
    false
}

fn collect_groups(snapshot: &CommandMap, now: u64) -> (groups: Vec<(u8, u8)>)
    requires
        snapshot.wf(),
    ensures
        groups@ == group_keys(snapshot.states(), now),
{
    let mut groups: Vec<(u8, u8)> = Vec::new();
    let mut i: usize = 0;
    while i < snapshot.len()
        invariant
            snapshot.wf(),
            i <= snapshot.states().len(),
            groups@ == group_keys(snapshot.states().take(i as int), now),
        decreases snapshot.states().len() - i,
    {
        let state = snapshot.state_at(i);
        proof {
            let next = snapshot.states().take(i + 1);
            assert(next.drop_last() =~= snapshot.states().take(i as int));
            assert(next.last() == state);
            assert(snapshot.states()[i as int].wf());
        }
        if state.active(now) {
            let group: (u8, u8) = (state.method, percent(state.intensity));
            if !contains_group(&groups, group) {
                groups.push(group);
            }
        }
        i += 1;
    }
    assert(snapshot.states().take(i as int) =~= snapshot.states());
    groups
}

fn collect_ids(snapshot: &CommandMap, now: u64, group: (u8, u8)) -> (ids: Vec<u32>)
    requires
        snapshot.wf(),
    ensures
        ids@ == group_ids(snapshot.states(), now, group),
{
    let mut ids: Vec<u32> = Vec::new();
    let mut i: usize = 0;
    while i < snapshot.len()
        invariant
            snapshot.wf(),
            i <= snapshot.states().len(),
            ids@ == group_ids(snapshot.states().take(i as int), now, group),
        decreases snapshot.states().len() - i,
    {
        let state = snapshot.state_at(i);
        proof {
            let next = snapshot.states().take(i + 1);
            assert(next.drop_last() =~= snapshot.states().take(i as int));
            assert(next.last() == state);
            assert(snapshot.states()[i as int].wf());
        }
        if state.active(now) {
            let pct: u8 = percent(state.intensity);
            if state.method == group.0 && pct == group.1 {
                ids.push(state.device_id);
            }
        }
        i += 1;
    }
    assert(snapshot.states().take(i as int) =~= snapshot.states());
    ids
}

/// Whether a batch is the command of the given group of the states.
pub open spec fn is_command_of(
    batch: Batch,
    states: Seq<CommandState>,
    now: u64,
    group: (u8, u8),
) -> bool {
    &&& batch.method == group.0
    &&& batch.intensity == group.1
    &&& batch.duration == COMMAND_DURATION_MS
    &&& batch.ids@ == group_ids(states, now, group)
}

/// Groups the active states of a snapshot into commands: one per method and
/// quantised intensity, in the order in which the states first show them,
/// each listing its devices in the order of the states.
pub fn batch_commands(snapshot: &CommandMap, now: u64) -> (batches: Vec<Batch>)
    requires
        snapshot.wf(),
    ensures
        batches@.len() == group_keys(snapshot.states(), now).len(),
        forall|k: int|
            0 <= k < batches@.len() ==> is_command_of(
                #[trigger] batches@[k],
                snapshot.states(),
                now,
                group_keys(snapshot.states(), now)[k],
            ),
{
    let groups = collect_groups(snapshot, now);
    let mut batches: Vec<Batch> = Vec::new();
    let mut k: usize = 0;
    while k < groups.len()
        invariant
            snapshot.wf(),
            groups@ == group_keys(snapshot.states(), now),
            k <= groups.len(),
            batches@.len() == k,
            forall|j: int|
                0 <= j < k ==> is_command_of(
                    #[trigger] batches@[j],
                    snapshot.states(),
                    now,
                    groups@[j],
                ),
        decreases groups.len() - k,
    {
        let group = groups[k];
        let ids = collect_ids(snapshot, now, group);
        batches.push(
            Batch { method: group.0, intensity: group.1, duration: COMMAND_DURATION_MS, ids },
        );
        k += 1;
    }
    batches
}

/// The device list of a command: numerals separated by commas.
pub open spec fn id_list(ids: Seq<u32>) -> Seq<char>
    decreases ids.len(),
{
    if ids.len() == 0 {
        Seq::empty()
    } else if ids.len() == 1 {
        decimal(ids[0] as nat)
    } else {
        id_list(ids.drop_last()) + seq![','] + decimal(ids.last() as nat)
    }
}

/// The wire text of a command: a JSON object without white space that holds
/// the method, the intensity in percent, the duration in milliseconds, the
/// devices and the time of sending, in this order.
pub open spec fn payload_text(
    method: u8,
    intensity: u8,
    duration: u64,
    ids: Seq<u32>,
    timestamp: u64,
) -> Seq<char> {
    "{\"method\":"@ + decimal(method as nat) + ",\"intensity\":"@ + decimal(intensity as nat)
        + ",\"duration\":"@ + decimal(duration as nat) + ",\"ids\":["@ + id_list(ids)
        + "],\"timestamp\":"@ + decimal(timestamp as nat) + "}"@
}

/// Writes a command as it goes over the wire, stamped with the time of
/// sending in milliseconds since the epoch.
pub fn json_payload(batch: &Batch, timestamp: u64) -> (text: String)
    ensures
        text@ == payload_text(
            batch.method,
            batch.intensity,
            batch.duration,
            batch.ids@,
            timestamp,
        ),
{
    let mut text = String::from_str("{\"method\":");
    push_decimal(&mut text, batch.method as u64);
    text.append(",\"intensity\":");
    push_decimal(&mut text, batch.intensity as u64);
    text.append(",\"duration\":");
    push_decimal(&mut text, batch.duration);
    text.append(",\"ids\":[");
    let ghost head = text@;
    let mut i: usize = 0;
    while i < batch.ids.len()
        invariant
            i <= batch.ids.len(),
            text@ == head + id_list(batch.ids@.take(i as int)),
        decreases batch.ids.len() - i,
    {
        if i > 0 {
            text.append(",");
        }
        push_decimal(&mut text, batch.ids[i] as u64);
        proof {
            reveal_strlit(",");
            assert(","@ =~= seq![',']);
            let next = batch.ids@.take(i + 1);
            assert(next.drop_last() =~= batch.ids@.take(i as int));
            assert(next.last() == batch.ids@[i as int]);
            if i == 0 {
                assert(next[0] == batch.ids@[0]);
                assert(id_list(batch.ids@.take(0)) =~= Seq::<char>::empty());
            }
            assert(text@ =~= head + id_list(next));
        }
        i += 1;
    }
    assert(batch.ids@.take(i as int) =~= batch.ids@);
    text.append("],\"timestamp\":");
    push_decimal(&mut text, timestamp);
    text.append("}");
    text
}

/// Where the device link of a host is reached.
pub open spec fn url_text(host: Seq<char>) -> Seq<char> {
    "ws://"@ + host + ":8080/ws"@
}

/// Derives the address of the device link from the configured host.
pub fn websocket_url(host: &str) -> (url: String)
    ensures
        url@ == url_text(host@),
{
    let mut url = String::from_str("ws://");
    url.append(host);
    url.append(":8080/ws");
    url
}

/// One dispatch tick: the wire texts of the commands to send at `now`, in
/// order, for a snapshot of the store. A store without active states gives
/// none.
pub fn handler(commandmap: &CommandMap, now: u64, timestamp: u64) -> (payloads: Vec<String>)
    requires
        commandmap.wf(),
    ensures
        payloads@.len() == group_keys(commandmap.states(), now).len(),
        forall|k: int|
            #![trigger payloads@[k]]
            0 <= k < payloads@.len() ==> payloads@[k]@ == payload_text(
                group_keys(commandmap.states(), now)[k].0,
                group_keys(commandmap.states(), now)[k].1,
                COMMAND_DURATION_MS,
                group_ids(commandmap.states(), now, group_keys(commandmap.states(), now)[k]),
                timestamp,
            ),
{
    let snapshot = commandmap.snapshot();
    let batches = batch_commands(&snapshot, now);
    let mut payloads: Vec<String> = Vec::new();
    let mut k: usize = 0;
    while k < batches.len()
        invariant
            k <= batches.len(),
            payloads@.len() == k,
            snapshot.states() == commandmap.states(),
            batches@.len() == group_keys(snapshot.states(), now).len(),
            forall|j: int|
                0 <= j < batches@.len() ==> is_command_of(
                    #[trigger] batches@[j],
                    snapshot.states(),
                    now,
                    group_keys(snapshot.states(), now)[j],
                ),
            forall|j: int|
                #![trigger payloads@[j]]
                0 <= j < k ==> payloads@[j]@ == payload_text(
                    group_keys(commandmap.states(), now)[j].0,
                    group_keys(commandmap.states(), now)[j].1,
                    COMMAND_DURATION_MS,
                    group_ids(commandmap.states(), now, group_keys(commandmap.states(), now)[j]),
                    timestamp,
                ),
        decreases batches.len() - k,
    {
        let text = json_payload(&batches[k], timestamp);
        assert(is_command_of(
            batches@[k as int],
            snapshot.states(),
            now,
            group_keys(snapshot.states(), now)[k as int],
        ));
        payloads.push(text);
        k += 1;
    }
    payloads
}

} // verus!
