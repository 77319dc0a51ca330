use procbridge::dispatch::handle_message;
use procbridge::dispatch::fanout_targets;
use procbridge::dispatch::reap_exited;
use procbridge::dispatch::DispatchError;
use procbridge::dispatch::MsgEffect;
use procbridge::msg::fan_out_data;
use procbridge::msg::InboundMsg;
use procbridge::msg::MsgKind;
use procbridge::registry::DataDecision;
use procbridge::registry::Policy;
use procbridge::registry::Registry;
use procbridge::registry::UnsubscribeOutcome;

fn inbound(kind: MsgKind, client_id: u16, data: &[u8]) -> InboundMsg {
    InboundMsg { kind, client_id, data: data.to_vec() }
}

fn subscribe(reg: &mut Registry, id: u16, payload: &[u8]) {
    let r = handle_message(reg, &inbound(MsgKind::Subscribe, id, payload));
    assert!(matches!(r, Ok(MsgEffect::Subscribed)));
}

#[test]
fn lifecycle_spawns_once_and_tears_down_once() {
    let mut reg = Registry::new(Policy::Exclusive);
    subscribe(&mut reg, 1, b"");
    // first data message: exactly one spawn is ordered
    match reg.data_decision(1) {
        DataDecision::SpawnNeeded(sp) => assert!(sp.env.is_empty()),
        _ => panic!("first data message must order a spawn"),
    }
    assert!(reg.attach(1, 9));
    // a second data message orders no further spawn
    match reg.data_decision(1) {
        DataDecision::WriteExisting(fd) => assert_eq!(fd, 9),
        _ => panic!("bound client must reuse its process"),
    }
    // exactly one teardown: one kill plus one unregister of descriptor 9
    match reg.unsubscribe(1) {
        UnsubscribeOutcome::RemovedBound(b) => {
            assert_eq!(b.client_id, 1);
            assert_eq!(b.fd, 9);
        }
        _ => panic!("unsubscribe must tear the binding down"),
    }
    assert_eq!(reg.client_count(), 0);
    // nothing left to tear down
    assert!(matches!(reg.unsubscribe(1), UnsubscribeOutcome::UnknownClient));
}

#[test]
fn unsubscribe_all_releases_each_descriptor_once() {
    let mut reg = Registry::new(Policy::Exclusive);
    subscribe(&mut reg, 1, b"");
    subscribe(&mut reg, 2, b"");
    subscribe(&mut reg, 3, b"");
    assert!(reg.attach(1, 4));
    assert!(reg.attach(3, 6));
    let out = reg.unsubscribe_all();
    assert_eq!(reg.client_count(), 0);
    assert_eq!(out.notices.len(), 3);
    for (i, id) in [1u16, 2, 3].iter().enumerate() {
        assert_eq!(out.notices[i].kind, MsgKind::Unsubscribe);
        assert_eq!(out.notices[i].client_id, *id);
        assert!(out.notices[i].data.is_empty());
    }
    let pairs: Vec<(u16, i32)> = out.teardowns.iter().map(|b| (b.client_id, b.fd)).collect();
    assert_eq!(pairs, vec![(1, 4), (3, 6)]);
    // never twice: all released descriptors are distinct
    let mut fds: Vec<i32> = out.teardowns.iter().map(|b| b.fd).collect();
    fds.sort();
    fds.dedup();
    assert_eq!(fds.len(), out.teardowns.len());
}

#[test]
fn unknown_unsubscribe_changes_nothing() {
    let mut reg = Registry::new(Policy::Exclusive);
    subscribe(&mut reg, 1, b"");
    subscribe(&mut reg, 2, b"");
    assert!(reg.attach(1, 4));
    let before_ids = reg.subscribed_ids();
    let before_live: Vec<(u16, i32)> =
        reg.live_bindings().iter().map(|b| (b.client_id, b.fd)).collect();
    match handle_message(&mut reg, &inbound(MsgKind::Unsubscribe, 99, b"")) {
        Ok(MsgEffect::Unsubscribed(UnsubscribeOutcome::UnknownClient)) => {}
        _ => panic!("unknown id must only produce a warning"),
    }
    assert_eq!(reg.subscribed_ids(), before_ids);
    let after_live: Vec<(u16, i32)> =
        reg.live_bindings().iter().map(|b| (b.client_id, b.fd)).collect();
    assert_eq!(after_live, before_live);
}

#[test]
fn shared_burst_fans_out_to_every_subscriber() {
    let mut reg = Registry::new(Policy::Shared);
    subscribe(&mut reg, 1, b"a\0");
    subscribe(&mut reg, 2, b"b\0");
    subscribe(&mut reg, 3, b"c\0");
    let targets = fanout_targets(&reg, 17);
    assert_eq!(targets, vec![1, 2, 3]);
    let burst = b"output burst".to_vec();
    let msgs = fan_out_data(&targets, &burst);
    assert_eq!(msgs.len(), 3);
    for (i, m) in msgs.iter().enumerate() {
        assert_eq!(m.kind, MsgKind::Data);
        assert_eq!(m.client_id, targets[i]);
        assert_eq!(m.data, burst);
    }
}

#[test]
fn shared_data_goes_to_the_shared_process() {
    let mut reg = Registry::new(Policy::Shared);
    // even an unknown id's payload goes to the shared process
    match handle_message(&mut reg, &inbound(MsgKind::Data, 42, b"hi")) {
        Ok(MsgEffect::Data(DataDecision::WriteShared)) => {}
        _ => panic!("shared policy routes every payload to the one process"),
    }
    // the shared policy never binds a per-client process
    assert!(!reg.attach(42, 5));
}

#[test]
fn identity_subscribe_yields_label_and_spawn_env() {
    let mut reg = Registry::new(Policy::Identity);
    subscribe(&mut reg, 7, b"alice\0");
    match handle_message(&mut reg, &inbound(MsgKind::Data, 7, b"hello")) {
        Ok(MsgEffect::Data(DataDecision::SpawnNeeded(sp))) => {
            assert_eq!(sp.env.len(), 2);
            assert_eq!(sp.env[0].0, "CUSER");
            assert_eq!(sp.env[0].1, "alice");
            assert_eq!(sp.env[1].0, "CID");
            assert_eq!(sp.env[1].1, "7");
        }
        _ => panic!("first data message must order a spawn with the identity environment"),
    }
}

#[test]
fn malformed_label_fails_message_without_corrupting_state() {
    let mut reg = Registry::new(Policy::Identity);
    subscribe(&mut reg, 1, b"ok\0");
    // invalid UTF-8 before the terminator
    let r = handle_message(&mut reg, &inbound(MsgKind::Subscribe, 2, &[0xff, 0xfe, 0x00]));
    assert!(matches!(r, Err(DispatchError::MalformedLabel)));
    // empty payload: no room for the terminator
    let r = handle_message(&mut reg, &inbound(MsgKind::Subscribe, 3, b""));
    assert!(matches!(r, Err(DispatchError::MalformedLabel)));
    assert_eq!(reg.subscribed_ids(), vec![1]);
}

#[test]
fn exit_keeps_subscription_and_respawns() {
    let mut reg = Registry::new(Policy::Identity);
    subscribe(&mut reg, 2, b"bob\0");
    assert!(matches!(reg.data_decision(2), DataDecision::SpawnNeeded(_)));
    assert!(reg.attach(2, 11));
    // the process exits; the next step reaps it
    let fds = reap_exited(&mut reg, &vec![2]);
    assert_eq!(fds, vec![11]);
    assert!(reg.is_subscribed(2));
    assert!(reg.live_bindings().is_empty());
    // a subsequent data message respawns, with the captured label
    match reg.data_decision(2) {
        DataDecision::SpawnNeeded(sp) => {
            assert_eq!(sp.env[0].1, "bob");
            assert_eq!(sp.env[1].1, "2");
        }
        _ => panic!("a reaped client must be eligible for a fresh spawn"),
    }
    // reaping an already-reaped or unknown client releases nothing
    let fds = reap_exited(&mut reg, &vec![2, 77]);
    assert!(fds.is_empty());
}

#[test]
fn end_to_end_single_client() {
    let mut reg = Registry::new(Policy::Exclusive);
    subscribe(&mut reg, 7, b"");
    // data "ping": a process is spawned and receives the payload
    let spawned = match handle_message(&mut reg, &inbound(MsgKind::Data, 7, b"ping")) {
        Ok(MsgEffect::Data(DataDecision::SpawnNeeded(sp))) => sp,
        _ => panic!("first data message must order a spawn"),
    };
    assert!(spawned.env.is_empty());
    assert!(reg.attach(7, 3));
    // its output becomes an outbound data message tagged with client 7
    let owners = fanout_targets(&reg, 3);
    assert_eq!(owners, vec![7]);
    let msgs = fan_out_data(&owners, &b"pong".to_vec());
    assert_eq!(msgs.len(), 1);
    assert_eq!(msgs[0].client_id, 7);
    assert_eq!(msgs[0].data, b"pong".to_vec());
    // unsubscribe: the process is killed and its descriptor unregistered
    match reg.unsubscribe(7) {
        UnsubscribeOutcome::RemovedBound(b) => {
            assert_eq!(b.client_id, 7);
            assert_eq!(b.fd, 3);
        }
        _ => panic!("unsubscribe must tear the binding down"),
    }
}

#[test]
fn data_for_unknown_client_is_dropped() {
    let mut reg = Registry::new(Policy::Exclusive);
    subscribe(&mut reg, 1, b"");
    match handle_message(&mut reg, &inbound(MsgKind::Data, 9, b"lost")) {
        Ok(MsgEffect::Data(DataDecision::UnknownClient)) => {}
        _ => panic!("unknown client's payload must be dropped with a warning"),
    }
    assert_eq!(reg.subscribed_ids(), vec![1]);
}

#[test]
fn unrecognized_kind_is_ignored() {
    let mut reg = Registry::new(Policy::Exclusive);
    subscribe(&mut reg, 1, b"");
    match handle_message(&mut reg, &inbound(MsgKind::Other, 1, b"noise")) {
        Ok(MsgEffect::Ignored) => {}
        _ => panic!("unrecognized kinds are logged and ignored"),
    }
    assert_eq!(reg.subscribed_ids(), vec![1]);
}

#[test]
fn resubscribe_overwrites_as_fresh() {
    let mut reg = Registry::new(Policy::Identity);
    subscribe(&mut reg, 5, b"old\0");
    assert!(reg.attach(5, 8));
    subscribe(&mut reg, 5, b"new\0");
    assert_eq!(reg.client_count(), 1);
    // the overwritten entry starts over without a process, with the new label
    assert!(reg.live_bindings().is_empty());
    match reg.data_decision(5) {
        DataDecision::SpawnNeeded(sp) => assert_eq!(sp.env[0].1, "new"),
        _ => panic!("a renewed subscription starts without a process"),
    }
}

#[test]
fn attach_refuses_taken_descriptor_and_unknown_id() {
    let mut reg = Registry::new(Policy::Exclusive);
    subscribe(&mut reg, 1, b"");
    subscribe(&mut reg, 2, b"");
    assert!(reg.attach(1, 5));
    // a descriptor is owned by at most one binding
    assert!(!reg.attach(2, 5));
    // an id must be subscribed to be bound
    assert!(!reg.attach(9, 6));
    // a bound id cannot be bound twice
    assert!(!reg.attach(1, 6));
    let owners = reg.owners_of(5);
    assert_eq!(owners, vec![1]);
    assert!(reg.owners_of(6).is_empty());
}
