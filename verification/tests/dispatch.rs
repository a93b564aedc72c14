use rusty_shock::openshock_legacy::handler::{
    batch_commands, handler, json_payload, websocket_url, Batch, COMMAND_DURATION_MS,
    TICK_INTERVAL_MS,
};
use rusty_shock::osc::osc::ingest_datagram;
use rusty_shock::osc::touchpoints::{
    initialize_commandmap, CommandMap, Device, Ingest, Touchpoints,
};

fn chest() -> Touchpoints {
    Touchpoints {
        touchpoints: vec![Device {
            address: String::from("chest"),
            method: vec![0],
            intensity: 1_000_000,
            duration: 50,
            ids: vec![1, 2],
        }],
    }
}

fn float_datagram(addr: &str, value: f32) -> Vec<u8> {
    let packet = rosc::OscPacket::Message(rosc::OscMessage {
        addr: String::from(addr),
        args: vec![rosc::OscType::Float(value)],
    });
    rosc::encoder::encode(&packet).unwrap()
}

fn field(value: &serde_json::Value, name: &str) -> u64 {
    value.get(name).unwrap().as_u64().unwrap()
}

fn ids_of(value: &serde_json::Value) -> Vec<u64> {
    value.get("ids").unwrap().as_array().unwrap().iter().map(|id| id.as_u64().unwrap()).collect()
}

#[test]
fn end_to_end_chest_scenario() {
    let registry = chest();
    let mut store = initialize_commandmap(&registry, 0);
    let datagram = float_datagram("/avatar/parameters/chest", 0.8);

    assert_eq!(ingest_datagram(&datagram, &registry, &mut store, 1_000), Ingest::Applied);
    assert_eq!(store.len(), 2);
    let first = store.get(1, 0).unwrap();
    let second = store.get(2, 0).unwrap();
    assert_eq!(first.key_string(), "1_0");
    assert_eq!(second.key_string(), "2_0");
    assert_eq!(first.intensity, 800_000);
    assert_eq!(second.intensity, 800_000);
    assert_eq!(first.expiry, 1_050);
    assert_eq!(second.expiry, 1_050);

    let payloads = handler(&store, 1_020, 1_700_000_000_123);
    assert_eq!(payloads.len(), 1);
    assert_eq!(
        payloads[0],
        "{\"method\":0,\"intensity\":80,\"duration\":50,\"ids\":[1,2],\"timestamp\":1700000000123}"
    );
    let value: serde_json::Value = serde_json::from_str(&payloads[0]).unwrap();
    assert_eq!(field(&value, "method"), 0);
    assert_eq!(field(&value, "intensity"), 80);
    assert_eq!(field(&value, "duration"), 50);
    assert_eq!(field(&value, "timestamp"), 1_700_000_000_123);
    assert_eq!(ids_of(&value), vec![1, 2]);
    assert_eq!(value.as_object().unwrap().len(), 5);
}

#[test]
fn tick_sees_only_the_last_update_of_an_interval() {
    let registry = chest();
    let mut store = initialize_commandmap(&registry, 0);
    for (value, now) in [(0.2f32, 1_000u64), (0.9, 1_010), (0.35, 1_020)] {
        let datagram = float_datagram("/avatar/parameters/chest", value);
        assert_eq!(ingest_datagram(&datagram, &registry, &mut store, now), Ingest::Applied);
    }
    assert_eq!(store.len(), 2);
    assert_eq!(store.get(1, 0).unwrap().intensity, 350_000);
    assert_eq!(store.get(1, 0).unwrap().last_issued, 1_020);
    assert_eq!(store.get(1, 0).unwrap().expiry, 1_070);
    let batches = batch_commands(&store, 1_030);
    assert_eq!(batches.len(), 1);
    assert_eq!(batches[0].intensity, 35);
    assert_eq!(batches[0].ids, vec![1, 2]);
}

#[test]
fn expired_states_are_in_no_batch() {
    let mut store = CommandMap::new();
    store.upsert(1, 0, 1_000_000, 50, 1_000);
    store.upsert(2, 0, 500_000, 50, 1_000);
    store.upsert(3, 1, 1, 50, 1_000);
    assert_eq!(batch_commands(&store, 1_049).len(), 3);
    assert_eq!(batch_commands(&store, 1_050).len(), 0);
    assert_eq!(batch_commands(&store, 1_051).len(), 0);
    assert_eq!(batch_commands(&store, u64::MAX).len(), 0);
    assert_eq!(handler(&store, 1_050, 0).len(), 0);
}

#[test]
fn only_the_expired_state_leaves_its_batch() {
    let mut store = CommandMap::new();
    store.upsert(1, 0, 500_000, 50, 1_000);
    store.upsert(2, 0, 500_000, 80, 1_000);
    let batches = batch_commands(&store, 1_060);
    assert_eq!(batches.len(), 1);
    assert_eq!(batches[0].ids, vec![2]);
}

#[test]
fn states_without_intensity_are_in_no_batch() {
    let mut store = CommandMap::new();
    store.upsert(1, 0, 0, 50, 1_000);
    assert_eq!(batch_commands(&store, 1_000).len(), 0);
    let registry = chest();
    let inert = initialize_commandmap(&registry, 1_000);
    assert_eq!(batch_commands(&inert, 1_000).len(), 0);
    assert_eq!(batch_commands(&inert, 0).len(), 0);
}

#[test]
fn empty_store_gives_no_commands() {
    let store = CommandMap::new();
    assert_eq!(batch_commands(&store, 0).len(), 0);
    assert_eq!(handler(&store, 0, 0).len(), 0);
}

#[test]
fn devices_with_the_same_method_and_percentage_share_a_command() {
    let mut store = CommandMap::new();
    store.upsert(1, 0, 800_000, 50, 1_000);
    store.upsert(2, 0, 800_000, 50, 1_000);
    store.upsert(3, 0, 801_000, 50, 1_000);
    store.upsert(4, 0, 795_000, 50, 1_000);
    let batches = batch_commands(&store, 1_010);
    assert_eq!(batches.len(), 1);
    assert_eq!(batches[0].method, 0);
    assert_eq!(batches[0].intensity, 80);
    assert_eq!(batches[0].duration, 50);
    assert_eq!(batches[0].ids, vec![1, 2, 3, 4]);
}

#[test]
fn devices_that_differ_in_method_or_percentage_never_share_a_command() {
    let mut store = CommandMap::new();
    store.upsert(1, 0, 800_000, 50, 1_000);
    store.upsert(2, 1, 800_000, 50, 1_000);
    store.upsert(3, 0, 810_000, 50, 1_000);
    store.upsert(4, 0, 794_999, 50, 1_000);
    store.upsert(5, 1, 800_000, 50, 1_000);
    let batches = batch_commands(&store, 1_010);
    assert_eq!(batches.len(), 4);
    assert_eq!((batches[0].method, batches[0].intensity), (0, 80));
    assert_eq!(batches[0].ids, vec![1]);
    assert_eq!((batches[1].method, batches[1].intensity), (1, 80));
    assert_eq!(batches[1].ids, vec![2, 5]);
    assert_eq!((batches[2].method, batches[2].intensity), (0, 81));
    assert_eq!(batches[2].ids, vec![3]);
    assert_eq!((batches[3].method, batches[3].intensity), (0, 79));
    assert_eq!(batches[3].ids, vec![4]);
}

#[test]
fn each_active_state_is_listed_exactly_once() {
    let mut store = CommandMap::new();
    let mut id: u32 = 0;
    while id < 40 {
        store.upsert(id, (id % 3) as u8, 10_000 * (id % 7), 50 + (id as u64 % 4), 1_000);
        id += 1;
    }
    let now = 1_051;
    let batches = batch_commands(&store, now);
    let mut listed = 0;
    let mut k = 0;
    while k < batches.len() {
        let mut l = 0;
        while l < k {
            assert!(
                (batches[l].method, batches[l].intensity) != (batches[k].method, batches[k].intensity)
            );
            l += 1;
        }
        assert!(!batches[k].ids.is_empty());
        for device in &batches[k].ids {
            let state = store.get(*device, batches[k].method).unwrap();
            assert!(state.active(now));
            assert_eq!(state.intensity / 10_000, batches[k].intensity as u32);
            listed += 1;
        }
        k += 1;
    }
    let mut active = 0;
    let mut i = 0;
    while i < store.len() {
        if store.state_at(i).active(now) {
            active += 1;
        }
        i += 1;
    }
    assert_eq!(listed, active);
    assert!(active > 0);
}

#[test]
fn device_under_two_methods_is_sent_once_per_method() {
    let mut store = CommandMap::new();
    store.upsert(1, 0, 500_000, 50, 1_000);
    store.upsert(1, 1, 500_000, 50, 1_000);
    let batches = batch_commands(&store, 1_010);
    assert_eq!(batches.len(), 2);
    assert_eq!(batches[0].method, 0);
    assert_eq!(batches[0].ids, vec![1]);
    assert_eq!(batches[1].method, 1);
    assert_eq!(batches[1].ids, vec![1]);
}

#[test]
fn tiny_intensity_is_sent_as_zero_percent() {
    let mut store = CommandMap::new();
    store.upsert(1, 0, 4_999, 50, 1_000);
    let batches = batch_commands(&store, 1_010);
    assert_eq!(batches.len(), 1);
    assert_eq!(batches[0].intensity, 0);
}

#[test]
fn repeated_identical_updates_keep_the_device_active() {
    let registry = chest();
    let mut store = initialize_commandmap(&registry, 0);
    let datagram = float_datagram("/avatar/parameters/chest", 0.6);
    let mut now: u64 = 1_000;
    let mut round = 0;
    while round < 20 {
        assert_eq!(ingest_datagram(&datagram, &registry, &mut store, now), Ingest::Applied);
        assert_eq!(store.len(), 2);
        assert_eq!(store.get(1, 0).unwrap().intensity, 600_000);
        assert_eq!(store.get(2, 0).unwrap().intensity, 600_000);
        let mut moment = now;
        while moment < now + 49 {
            let batches = batch_commands(&store, moment);
            assert_eq!(batches.len(), 1);
            assert_eq!(batches[0].intensity, 60);
            assert_eq!(batches[0].ids, vec![1, 2]);
            moment += 7;
        }
        now += 49;
        round += 1;
    }
    assert_eq!(batch_commands(&store, now + 1).len(), 0);
}

#[test]
fn json_payload_writes_the_members_in_order() {
    let batch = Batch { method: 2, intensity: 100, duration: 50, ids: vec![7, 4294967295, 0] };
    assert_eq!(
        json_payload(&batch, 0),
        "{\"method\":2,\"intensity\":100,\"duration\":50,\"ids\":[7,4294967295,0],\"timestamp\":0}"
    );
}

#[test]
fn json_payload_of_one_and_of_no_device() {
    let one = Batch { method: 0, intensity: 1, duration: 1, ids: vec![12] };
    assert_eq!(
        json_payload(&one, 5),
        "{\"method\":0,\"intensity\":1,\"duration\":1,\"ids\":[12],\"timestamp\":5}"
    );
    let none = Batch { method: 255, intensity: 0, duration: u64::MAX, ids: vec![] };
    assert_eq!(
        json_payload(&none, u64::MAX),
        "{\"method\":255,\"intensity\":0,\"duration\":18446744073709551615,\"ids\":[],\"timestamp\":18446744073709551615}"
    );
}

#[test]
fn json_payload_is_what_a_json_library_writes() {
    let batch = Batch { method: 1, intensity: 35, duration: 50, ids: vec![3, 1, 2] };
    let mut object = serde_json::Map::new();
    object.insert(String::from("method"), serde_json::Value::from(1u8));
    object.insert(String::from("intensity"), serde_json::Value::from(35u8));
    object.insert(String::from("duration"), serde_json::Value::from(50u64));
    object.insert(String::from("ids"), serde_json::Value::from(vec![3u32, 1, 2]));
    object.insert(String::from("timestamp"), serde_json::Value::from(1_700_000_000_000u64));
    let expected = serde_json::Value::Object(object);
    let text = json_payload(&batch, 1_700_000_000_000);
    let parsed: serde_json::Value = serde_json::from_str(&text).unwrap();
    assert_eq!(parsed, expected);
    assert_eq!(parsed.as_object().unwrap().len(), 5);
}

#[test]
fn handler_writes_one_payload_per_batch() {
    let mut store = CommandMap::new();
    store.upsert(1, 0, 800_000, 50, 1_000);
    store.upsert(2, 1, 300_000, 50, 1_000);
    store.upsert(3, 0, 800_000, 50, 1_000);
    store.upsert(4, 0, 800_000, 5, 1_000);
    let payloads = handler(&store, 1_010, 99);
    assert_eq!(
        payloads,
        vec![
            "{\"method\":0,\"intensity\":80,\"duration\":50,\"ids\":[1,3],\"timestamp\":99}",
            "{\"method\":1,\"intensity\":30,\"duration\":50,\"ids\":[2],\"timestamp\":99}",
        ]
    );
}

#[test]
fn websocket_url_names_port_and_path() {
    assert_eq!(websocket_url("openshock.local"), "ws://openshock.local:8080/ws");
    assert_eq!(websocket_url("192.168.1.20"), "ws://192.168.1.20:8080/ws");
    assert_eq!(websocket_url(""), "ws://:8080/ws");
}

#[test]
fn dispatch_constants() {
    assert_eq!(COMMAND_DURATION_MS, 50);
    assert_eq!(TICK_INTERVAL_MS, 150);
}
