use rendezvous_tunnel::addr::{IpAddress, SockAddr};
use rendezvous_tunnel::ids::{mint_tunnel_id, PeerId, TunnelId};
use rendezvous_tunnel::matching::{decode_match, encode_match, Match};
use rendezvous_tunnel::tunnel::OutRule;

fn v4(a: u8, b: u8, c: u8, d: u8, port: u16) -> SockAddr {
    SockAddr { ip: IpAddress::V4 { a, b, c, d }, port }
}

fn sample_match() -> Match {
    Match {
        id: PeerId { value: 0xfedcba9876543210fedcba9876543210 },
        tunnel_id: TunnelId { value: 0x0123456789abcdef0123456789abcdef },
        tunnel_labels: vec![String::from("default")],
        tunnel_priority: 0,
        routing_rules: Vec::new(),
        address: v4(10, 0, 0, 2, 7001),
    }
}

#[test]
fn match_encodes_to_canonical_json() {
    let s = encode_match(&sample_match());
    assert_eq!(
        s,
        "{\"id\":\"fedcba98-7654-3210-fedc-ba9876543210\",\"tunnel_id\":\"01234567-89ab-cdef-0123-456789abcdef\",\"tunnel_labels\":[\"default\"],\"tunnel_priority\":0,\"routing_rules\":[],\"address\":\"10.0.0.2:7001\"}"
    );
}

#[test]
fn match_round_trips() {
    let m = sample_match();
    let s = encode_match(&m);
    let back = decode_match(s.as_str()).expect("canonical text must decode");
    assert_eq!(back.id, m.id);
    assert_eq!(back.tunnel_id, m.tunnel_id);
    assert_eq!(back.tunnel_labels, m.tunnel_labels);
    assert_eq!(back.tunnel_priority, m.tunnel_priority);
    assert_eq!(back.routing_rules.len(), 0);
    assert_eq!(back.address, m.address);
}

#[test]
fn match_round_trips_with_rules_and_negative_priority() {
    let m = Match {
        id: PeerId { value: 7 },
        tunnel_id: TunnelId { value: 8 },
        tunnel_labels: vec![String::from("us"), String::from("edge")],
        tunnel_priority: -42,
        routing_rules: vec![OutRule::Any, OutRule::Address(v4(1, 2, 3, 4, 80))],
        address: v4(192, 168, 0, 1, 65535),
    };
    let s = encode_match(&m);
    assert_eq!(
        s,
        "{\"id\":\"00000000-0000-0000-0000-000000000007\",\"tunnel_id\":\"00000000-0000-0000-0000-000000000008\",\"tunnel_labels\":[\"us\",\"edge\"],\"tunnel_priority\":-42,\"routing_rules\":[\"any\",\"1.2.3.4:80\"],\"address\":\"192.168.0.1:65535\"}"
    );
    let back = decode_match(s.as_str()).expect("canonical text must decode");
    assert_eq!(back.tunnel_labels, m.tunnel_labels);
    assert_eq!(back.tunnel_priority, -42);
    assert_eq!(back.routing_rules, m.routing_rules);
    assert_eq!(back.address, m.address);
}

#[test]
fn match_with_empty_labels_round_trips() {
    let m = Match {
        id: PeerId { value: 1 },
        tunnel_id: TunnelId { value: 2 },
        tunnel_labels: Vec::new(),
        tunnel_priority: 5,
        routing_rules: Vec::new(),
        address: v4(127, 0, 0, 1, 1),
    };
    let s = encode_match(&m);
    let back = decode_match(s.as_str()).expect("canonical text must decode");
    assert_eq!(back.tunnel_labels.len(), 0);
    assert_eq!(back.tunnel_priority, 5);
}

#[test]
fn truncated_match_is_refused() {
    let s = encode_match(&sample_match());
    let cut = &s[..s.len() - 1];
    assert!(decode_match(cut).is_none());
}

#[test]
fn minted_tunnel_ids_differ() {
    let a = mint_tunnel_id();
    let b = mint_tunnel_id();
    assert_ne!(a.value, b.value);
}
