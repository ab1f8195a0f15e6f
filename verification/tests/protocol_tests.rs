use rendezvous_tunnel::addr::{IpAddress, SockAddr};
use rendezvous_tunnel::codec::{encode_announcement, InAnnouncement};
use rendezvous_tunnel::errors::ErrorKind;
use rendezvous_tunnel::ids::{PeerId, TunnelId};
use rendezvous_tunnel::matching::encode_match;
use rendezvous_tunnel::matching::Match;
use rendezvous_tunnel::registry::InIdSet;
use rendezvous_tunnel::rendezvous::{
    filter_announcement_push, in_match_step, out_consider_announcement, out_on_lock_outcome,
    InMatchAction, InMatchEvent, OutAnnouncementStep, ANNOUNCEMENT_INTERVAL_SECONDS,
    HANDSHAKE_TIMEOUT_SECONDS, MATCH_LOCK_TTL_SECONDS,
};

fn v4(a: u8, b: u8, c: u8, d: u8, port: u16) -> SockAddr {
    SockAddr { ip: IpAddress::V4 { a, b, c, d }, port }
}

fn in_id() -> PeerId {
    PeerId { value: 0x0123456789abcdef0123456789abcdef }
}

#[test]
fn timeouts_match_the_protocol() {
    assert_eq!(MATCH_LOCK_TTL_SECONDS, 30);
    assert_eq!(ANNOUNCEMENT_INTERVAL_SECONDS, 1);
    assert_eq!(HANDSHAKE_TIMEOUT_SECONDS, 15);
}

#[test]
fn tick_publishes_announcement() {
    let r = in_match_step(in_id(), v4(10, 0, 0, 1, 5001), InMatchEvent::AnnounceTick);
    match r {
        InMatchAction::Publish { channel, payload } => {
            assert_eq!(channel, "in_announcement");
            assert_eq!(
                payload,
                "{\"id\":\"01234567-89ab-cdef-0123-456789abcdef\",\"address\":\"10.0.0.1:5001\"}"
            );
        },
        _ => panic!("a tick must publish"),
    }
}

#[test]
fn match_message_on_own_channel_completes() {
    let m = Match {
        id: PeerId { value: 5 },
        tunnel_id: TunnelId { value: 6 },
        tunnel_labels: vec![String::from("default")],
        tunnel_priority: 10,
        routing_rules: Vec::new(),
        address: v4(10, 0, 0, 2, 7001),
    };
    let payload = encode_match(&m);
    let channel =
        String::from("match/01234567-89ab-cdef-0123-456789abcdef/10.0.0.1:5001");
    let r = in_match_step(
        in_id(),
        v4(10, 0, 0, 1, 5001),
        InMatchEvent::MatchMessage { channel, payload },
    );
    match r {
        InMatchAction::Complete(mo) => {
            assert_eq!(mo.id, PeerId { value: 5 });
            assert_eq!(mo.tunnel_id, TunnelId { value: 6 });
            assert_eq!(mo.tunnel_labels, vec![String::from("default")]);
            assert_eq!(mo.tunnel_priority, 10);
            assert_eq!(mo.address, v4(10, 0, 0, 2, 7001));
        },
        _ => panic!("a decodable match on the own channel must complete"),
    }
}

#[test]
fn match_message_on_other_channel_is_ignored() {
    let r = in_match_step(
        in_id(),
        v4(10, 0, 0, 1, 5001),
        InMatchEvent::MatchMessage {
            channel: String::from("match/ffffffff-ffff-ffff-ffff-ffffffffffff/10.0.0.1:5001"),
            payload: String::from("{}"),
        },
    );
    assert!(matches!(r, InMatchAction::Ignore));
}

#[test]
fn subscription_end_fails_with_rendezvous_closed() {
    let r = in_match_step(in_id(), v4(10, 0, 0, 1, 5001), InMatchEvent::SubscriptionEnded);
    assert!(matches!(r, InMatchAction::Fail(ErrorKind::RendezvousClosed)));
}

#[test]
fn registered_in_is_skipped() {
    let mut set = InIdSet::new();
    set.register_in(in_id());
    let ann = InAnnouncement { id: in_id(), address: v4(10, 0, 0, 1, 5001) };
    let r = out_consider_announcement(&set, &ann, v4(10, 0, 0, 2, 7001));
    assert!(matches!(r, OutAnnouncementStep::Skip));
}

#[test]
fn unregistered_in_leads_to_lock_attempt() {
    let set = InIdSet::new();
    let ann = InAnnouncement { id: in_id(), address: v4(10, 0, 0, 1, 5001) };
    let r = out_consider_announcement(&set, &ann, v4(10, 0, 0, 2, 7001));
    match r {
        OutAnnouncementStep::AttemptLock { key, value, ttl_seconds } => {
            assert_eq!(key, "match:01234567-89ab-cdef-0123-456789abcdef/10.0.0.1:5001");
            assert_eq!(value, "10.0.0.2:7001");
            assert_eq!(ttl_seconds, 30);
        },
        _ => panic!("an unregistered IN must lead to a lock attempt"),
    }
}

#[test]
fn unregistering_makes_the_in_matchable_again() {
    let mut set = InIdSet::new();
    set.register_in(in_id());
    set.unregister_in(in_id());
    let ann = InAnnouncement { id: in_id(), address: v4(10, 0, 0, 1, 5001) };
    let r = out_consider_announcement(&set, &ann, v4(10, 0, 0, 2, 7001));
    assert!(matches!(r, OutAnnouncementStep::AttemptLock { .. }));
}

#[test]
fn losing_the_lock_yields_nothing() {
    let ann = InAnnouncement { id: in_id(), address: v4(10, 0, 0, 1, 5001) };
    let r = out_on_lock_outcome(
        false,
        &ann,
        PeerId { value: 9 },
        v4(10, 0, 0, 2, 7001),
        0,
        Vec::new(),
        Vec::new(),
        TunnelId { value: 3 },
    );
    assert!(r.is_none());
}

#[test]
fn winning_the_lock_publishes_the_match() {
    let ann = InAnnouncement { id: in_id(), address: v4(10, 0, 0, 1, 5001) };
    let (channel, payload, mi) = out_on_lock_outcome(
        true,
        &ann,
        PeerId { value: 9 },
        v4(10, 0, 0, 2, 7001),
        7,
        vec![String::from("default")],
        Vec::new(),
        TunnelId { value: 3 },
    )
    .expect("a won lock must publish");
    assert_eq!(channel, "match/01234567-89ab-cdef-0123-456789abcdef/10.0.0.1:5001");
    assert_eq!(
        payload,
        "{\"id\":\"00000000-0000-0000-0000-000000000009\",\"tunnel_id\":\"00000000-0000-0000-0000-000000000003\",\"tunnel_labels\":[\"default\"],\"tunnel_priority\":7,\"routing_rules\":[],\"address\":\"10.0.0.2:7001\"}"
    );
    assert_eq!(mi.id, in_id());
    assert_eq!(mi.tunnel_id, TunnelId { value: 3 });
    assert_eq!(mi.address, v4(10, 0, 0, 1, 5001));
}

#[test]
fn announcement_push_on_right_channel_decodes() {
    let ann = InAnnouncement { id: in_id(), address: v4(10, 0, 0, 1, 5001) };
    let payload = encode_announcement(&ann);
    let r = filter_announcement_push("in_announcement", payload.as_str());
    assert_eq!(r, Some(ann));
}

#[test]
fn announcement_push_on_wrong_channel_is_dropped() {
    let ann = InAnnouncement { id: in_id(), address: v4(10, 0, 0, 1, 5001) };
    let payload = encode_announcement(&ann);
    let r = filter_announcement_push("other", payload.as_str());
    assert!(r.is_none());
}

#[test]
fn each_won_lock_mints_a_fresh_tunnel_id() {
    let ann = InAnnouncement { id: in_id(), address: v4(10, 0, 0, 1, 5001) };
    let first = rendezvous_tunnel::rendezvous::out_after_lock(
        true,
        &ann,
        PeerId { value: 9 },
        v4(10, 0, 0, 2, 7001),
        0,
        Vec::new(),
        Vec::new(),
    )
    .expect("a won lock must publish");
    let second = rendezvous_tunnel::rendezvous::out_after_lock(
        true,
        &ann,
        PeerId { value: 9 },
        v4(10, 0, 0, 2, 7001),
        0,
        Vec::new(),
        Vec::new(),
    )
    .expect("a won lock must publish");
    assert_ne!(first.2.tunnel_id.value, second.2.tunnel_id.value);
    assert_eq!(first.2.id, in_id());
}

#[test]
fn lost_lock_after_minting_yields_nothing() {
    let ann = InAnnouncement { id: in_id(), address: v4(10, 0, 0, 1, 5001) };
    let r = rendezvous_tunnel::rendezvous::out_after_lock(
        false,
        &ann,
        PeerId { value: 9 },
        v4(10, 0, 0, 2, 7001),
        0,
        Vec::new(),
        Vec::new(),
    );
    assert!(r.is_none());
}
