//! The hubs of the websocket clients.

use std::collections::HashSet;
use syncpond::collections::StrSet;
use syncpond::commands::{DataUpdate, UpdateChannelMessage};
use syncpond::hub::{SendOutcome, WsHub, MAX_WS_CLIENTS_PER_BUCKET};
use syncpond::json::Value;
use syncpond::rate_limiter::RateLimiter;
use syncpond::room_hub::{self, ClientInfo, Delivery, RoomUpdate, MAX_WS_CLIENTS_PER_ROOM};

fn ids(list: &[u64]) -> HashSet<u64> {
    list.iter().copied().collect()
}

fn update(bucket_id: u64) -> DataUpdate {
    DataUpdate {
        bucket_id,
        key: "k".to_string(),
        value: Some(Value::parse("1").unwrap()),
        bucket_counter: 5,
    }
}

#[test]
fn connections_get_ascending_ids() {
    let mut hub = WsHub::new();
    assert_eq!(hub.allocate_connection_id(), 1);
    assert_eq!(hub.allocate_connection_id(), 2);
}

#[test]
fn updates_go_to_the_subscribers_of_a_bucket() {
    let mut hub = WsHub::new();
    hub.add_client(3, 1, ids(&[0, 7])).unwrap();
    hub.add_client(1, 1, ids(&[0])).unwrap();
    hub.add_client(2, 2, ids(&[7])).unwrap();
    assert_eq!(hub.recipients(0), vec![1, 3]);
    assert_eq!(hub.recipients(7), vec![2, 3]);
    assert!(hub.recipients(8).is_empty());
    assert_eq!(hub.get_client_room_id(2), Some(2));
    assert_eq!(hub.get_client_room_id(9), None);
    assert_eq!(hub.targets(&UpdateChannelMessage::Broadcast(update(7))), vec![2, 3]);
    assert_eq!(
        hub.targets(&UpdateChannelMessage::Targeted { conn_id: 9, msg: update(7) }),
        vec![9]
    );
    hub.remove_client(3);
    assert_eq!(hub.recipients(7), vec![2]);
    hub.remove_client(2);
    assert!(hub.recipients(7).is_empty());
    assert_eq!(hub.process_client_message(1, vec![5]), Some((1, vec![5])));
    assert_eq!(hub.process_client_message(2, vec![5]), None);
}

#[test]
fn clients_that_cannot_take_events_are_dropped() {
    let mut hub = WsHub::new();
    for conn in 1..5 {
        hub.add_client(conn, 1, ids(&[0])).unwrap();
    }
    hub.broadcast_update(
        &[1, 2, 3, 4],
        &[SendOutcome::Sent, SendOutcome::Full, SendOutcome::Closed, SendOutcome::Sent],
    );
    assert_eq!(hub.recipients(0), vec![1, 4]);
    assert!(!hub.send_targeted_update(1, SendOutcome::Sent));
    assert!(hub.send_targeted_update(1, SendOutcome::Full));
    assert!(hub.send_targeted_update(1, SendOutcome::Sent));
    assert_eq!(hub.recipients(0), vec![4]);
}

#[test]
fn buckets_have_a_limit() {
    let mut hub = WsHub::new();
    for conn in 1..=(MAX_WS_CLIENTS_PER_BUCKET as u64) {
        hub.add_client(conn, 1, ids(&[0])).unwrap();
    }
    assert_eq!(hub.add_client(1000, 1, ids(&[0, 5])), Err("bucket_client_limit_exceeded"));
    assert!(hub.recipients(5).is_empty());
    assert_eq!(hub.add_client(1000, 1, ids(&[5])), Ok(()));
    assert_eq!(hub.add_client(1, 1, ids(&[0])), Ok(()));
}

#[test]
fn update_events_are_json() {
    assert_eq!(
        WsHub::update_event(&update(7)),
        "{\"bucket_counter\":5,\"bucket_id\":7,\"deleted\":false,\"key\":\"k\",\
         \"type\":\"update\",\"value\":1}"
    );
    let gone = DataUpdate { bucket_id: 0, key: "a\"b".to_string(), value: None, bucket_counter: 9 };
    let text = WsHub::event_text(&UpdateChannelMessage::Targeted { conn_id: 1, msg: gone });
    assert_eq!(
        text,
        "{\"bucket_counter\":9,\"bucket_id\":0,\"deleted\":true,\"key\":\"a\\\"b\",\
         \"type\":\"update\",\"value\":null}"
    );
    let parsed: serde_json::Value = serde_json::from_str(&text).unwrap();
    assert_eq!(parsed.to_string(), text);
}

fn client(containers: &[&str]) -> ClientInfo {
    let mut allowed = StrSet::new();
    for name in containers {
        allowed.insert(name);
    }
    ClientInfo { allowed_containers: allowed }
}

fn room_update(container: &str, key: &str, value: Option<&str>) -> RoomUpdate {
    RoomUpdate {
        room_id: 1,
        container: container.to_string(),
        key: key.to_string(),
        value: value.map(|text| Value::parse(text).unwrap()),
        room_counter: 4,
    }
}

fn planned(hub: &room_hub::WsHub, container: &str) -> Vec<String> {
    let mut limiter = RateLimiter::new();
    let mut clients = hub
        .plan_broadcast(&room_update(container, "k", None), &mut limiter, 10, 1000, 0)
        .clients;
    clients.sort();
    clients
}

#[test]
fn room_updates_go_to_the_interested() {
    let mut hub = room_hub::WsHub::new();
    hub.add_client(1, "a", client(&["public", "priv"])).unwrap();
    hub.add_client(1, "b", client(&["public"])).unwrap();
    hub.add_client(2, "c", client(&["public", "priv"])).unwrap();
    assert_eq!(planned(&hub, "public"), vec!["a".to_string(), "b".to_string()]);
    assert_eq!(planned(&hub, "*"), vec!["a".to_string(), "b".to_string()]);
    assert_eq!(planned(&hub, "priv"), vec!["a".to_string()]);
    assert!(planned(&hub, "server_only").is_empty());
    assert!(planned(&hub, "other").is_empty());
    hub.remove_client(1, "a");
    assert_eq!(planned(&hub, "*"), vec!["b".to_string()]);
    hub.remove_room(1);
    assert!(planned(&hub, "*").is_empty());
}

#[test]
fn the_limit_of_updates_is_kept_per_client() {
    let mut hub = room_hub::WsHub::new();
    hub.add_client(1, "a", client(&[])).unwrap();
    let mut limiter = RateLimiter::new();
    let first = hub.plan_broadcast(&room_update("*", "*", None), &mut limiter, 1, 1000, 0);
    assert_eq!(first.admitted, vec![true]);
    hub.add_client(1, "b", client(&[])).unwrap();
    let second = hub.plan_broadcast(&room_update("*", "*", None), &mut limiter, 1, 1000, 5);
    for i in 0..2 {
        assert_eq!(second.admitted[i], second.clients[i] == "b");
    }
}

#[test]
fn failed_deliveries_drop_clients_and_are_counted() {
    let mut hub = room_hub::WsHub::new();
    let mut clients = Vec::new();
    for name in ["a", "b", "c", "d"] {
        hub.add_client(1, name, client(&[])).unwrap();
        clients.push(name.to_string());
    }
    let deliveries =
        [Delivery::Sent, Delivery::RateLimited, Delivery::Full, Delivery::Closed];
    assert_eq!(hub.finish_broadcast(1, &clients, &deliveries), (1, 1));
    assert_eq!(planned(&hub, "*"), vec!["a".to_string()]);
}

#[test]
fn rooms_have_a_limit() {
    let mut hub = room_hub::WsHub::new();
    for i in 0..MAX_WS_CLIENTS_PER_ROOM {
        hub.add_client(1, &i.to_string(), client(&[])).unwrap();
    }
    assert_eq!(hub.add_client(1, "more", client(&[])), Err("room_client_limit_exceeded"));
    assert_eq!(hub.add_client(2, "more", client(&[])), Ok(()));
}

#[test]
fn room_events_are_json() {
    let changed = room_hub::room_event(&room_update("*", "*", Some("1")));
    assert_eq!(changed.to_text(), "{\"room_counter\":4,\"room_id\":1,\"type\":\"room_update\"}");
    let updated = room_hub::room_event(&room_update("*", "k", Some("[1]")));
    assert_eq!(
        updated.to_text(),
        "{\"container\":\"*\",\"key\":\"k\",\"room_counter\":4,\"room_id\":1,\
         \"type\":\"update\",\"value\":[1]}"
    );
    let deleted = room_hub::room_event(&room_update("public", "k", None));
    assert_eq!(
        deleted.to_text(),
        "{\"container\":\"public\",\"deleted\":true,\"key\":\"k\",\"room_counter\":4,\
         \"room_id\":1,\"type\":\"update\"}"
    );
}
