use rendezvous_tunnel::addr::{IpAddress, SockAddr};
use rendezvous_tunnel::config::{
    tunnel_connections_default, validate_in, validate_out, InConfig, InDnsResolverConfig,
    InFakeIpDnsConfig, InRoutingConfig, InTransparentProxyConfig, InTunnelingConfig, OutConfig,
    OutRoutingConfig, OutTunnelingConfig,
};
use rendezvous_tunnel::errors::{fatal, kind_text, ErrorKind};
use rendezvous_tunnel::ids::TunnelId;
use rendezvous_tunnel::slots::{SlotEvent, SlotSet, SlotState, slot_step};
use rendezvous_tunnel::tunnel::{OutRule, TunnelEntry, TunnelRegistry};

fn v4(a: u8, b: u8, c: u8, d: u8, port: u16) -> SockAddr {
    SockAddr { ip: IpAddress::V4 { a, b, c, d }, port }
}

fn entry(id: u128, labels: Vec<String>, priority: i64, rules: Vec<OutRule>) -> TunnelEntry {
    TunnelEntry {
        id: TunnelId { value: id },
        labels,
        priority,
        rules,
        address: v4(10, 0, 0, 2, 7001),
        established_order: 0,
    }
}

#[test]
fn selector_prefers_higher_priority() {
    let mut reg = TunnelRegistry::new();
    assert!(reg.insert(entry(1, vec![String::from("default")], 5, Vec::new())));
    assert!(reg.insert(entry(2, vec![String::from("default")], 10, Vec::new())));
    let picked = reg.select(&Vec::new(), v4(1, 1, 1, 1, 80)).expect("both are eligible");
    assert_eq!(picked.value, 2);
}

#[test]
fn selector_respects_required_labels_over_priority() {
    let mut reg = TunnelRegistry::new();
    assert!(reg.insert(entry(1, vec![String::from("us")], 1, Vec::new())));
    assert!(reg.insert(entry(2, vec![String::from("cn")], 5, Vec::new())));
    let required = vec![String::from("us")];
    let picked = reg.select(&required, v4(1, 1, 1, 1, 80)).expect("the us tunnel qualifies");
    assert_eq!(picked.value, 1);
}

#[test]
fn selector_breaks_ties_towards_most_recent() {
    let mut reg = TunnelRegistry::new();
    assert!(reg.insert(entry(1, Vec::new(), 3, Vec::new())));
    assert!(reg.insert(entry(2, Vec::new(), 3, Vec::new())));
    let picked = reg.select(&Vec::new(), v4(1, 1, 1, 1, 80)).expect("both are eligible");
    assert_eq!(picked.value, 2);
}

#[test]
fn selector_applies_routing_rules() {
    let mut reg = TunnelRegistry::new();
    assert!(reg.insert(entry(1, Vec::new(), 9, vec![OutRule::Address(v4(9, 9, 9, 9, 9))])));
    assert!(reg.insert(entry(2, Vec::new(), 1, vec![OutRule::Any])));
    let picked = reg.select(&Vec::new(), v4(1, 1, 1, 1, 80)).expect("the any rule admits");
    assert_eq!(picked.value, 2);
}

#[test]
fn selector_with_no_eligible_tunnel_finds_none() {
    let mut reg = TunnelRegistry::new();
    assert!(reg.insert(entry(1, vec![String::from("cn")], 5, Vec::new())));
    let required = vec![String::from("us")];
    assert!(reg.select(&required, v4(1, 1, 1, 1, 80)).is_none());
}

#[test]
fn duplicate_tunnel_id_is_refused() {
    let mut reg = TunnelRegistry::new();
    assert!(reg.insert(entry(1, Vec::new(), 0, Vec::new())));
    assert!(!reg.insert(entry(1, Vec::new(), 0, Vec::new())));
}

#[test]
fn removing_a_tunnel_frees_its_id() {
    let mut reg = TunnelRegistry::new();
    assert!(reg.insert(entry(1, Vec::new(), 0, Vec::new())));
    assert!(reg.remove_by_id(TunnelId { value: 1 }));
    assert!(!reg.remove_by_id(TunnelId { value: 1 }));
    assert!(reg.insert(entry(1, Vec::new(), 0, Vec::new())));
}

#[test]
fn slot_set_has_exactly_k_slots() {
    let slots = SlotSet::new(3);
    assert_eq!(slots.len(), 3);
    assert_eq!(slots.state_of(0), SlotState::Announcing);
    assert_eq!(slots.state_of(2), SlotState::Announcing);
}

#[test]
fn slot_walks_to_live_and_back() {
    let mut s = SlotState::Announcing;
    s = slot_step(s, SlotEvent::MatchFound);
    assert_eq!(s, SlotState::Matched);
    s = slot_step(s, SlotEvent::PunchStarted);
    assert_eq!(s, SlotState::Punching);
    s = slot_step(s, SlotEvent::BurstSent);
    assert_eq!(s, SlotState::Handshaking);
    s = slot_step(s, SlotEvent::HandshakeCompleted);
    assert_eq!(s, SlotState::Live);
    s = slot_step(s, SlotEvent::TransportLost);
    assert_eq!(s, SlotState::Closed);
}

#[test]
fn handshake_timeout_reannounces() {
    let s = slot_step(SlotState::Handshaking, SlotEvent::HandshakeTimedOut);
    assert_eq!(s, SlotState::Announcing);
}

#[test]
fn closing_one_slot_reopens_exactly_one() {
    let mut slots = SlotSet::new(2);
    slots.on_event(1, SlotEvent::MatchFound);
    slots.on_event(1, SlotEvent::PunchStarted);
    slots.on_event(1, SlotEvent::BurstSent);
    slots.on_event(1, SlotEvent::HandshakeCompleted);
    slots.on_event(1, SlotEvent::TransportLost);
    assert_eq!(slots.state_of(1), SlotState::Closed);
    assert_eq!(slots.state_of(0), SlotState::Announcing);
    slots.reopen(1);
    assert_eq!(slots.state_of(1), SlotState::Announcing);
    assert_eq!(slots.len(), 2);
}

#[test]
fn only_config_invalid_is_fatal() {
    assert!(fatal(&ErrorKind::ConfigInvalid));
    assert!(!fatal(&ErrorKind::BrokerUnavailable));
    assert!(!fatal(&ErrorKind::RendezvousClosed));
    assert!(!fatal(&ErrorKind::StunFailed));
    assert!(!fatal(&ErrorKind::HandshakeTimeout));
    assert!(!fatal(&ErrorKind::TunnelLost));
    assert!(!fatal(&ErrorKind::NoRoute));
}

#[test]
fn error_kinds_have_names() {
    assert_eq!(kind_text(&ErrorKind::NoRoute), "no route");
    assert_eq!(kind_text(&ErrorKind::TunnelLost), "tunnel lost");
    assert_eq!(kind_text(&ErrorKind::ConfigInvalid), "config invalid");
}

fn in_config(match_server: &str, connections: usize) -> InConfig {
    InConfig {
        dns_resolver: InDnsResolverConfig::default(),
        fake_ip_dns: InFakeIpDnsConfig { listen: v4(127, 0, 0, 53, 53) },
        transparent_proxy: InTransparentProxyConfig {
            listen: v4(127, 0, 0, 1, 12345),
            traffic_mark: 255,
        },
        tunneling: InTunnelingConfig {
            stun_server: Vec::new(),
            match_server: String::from(match_server),
            connections,
        },
        routing: InRoutingConfig::default(),
    }
}

#[test]
fn default_connection_count_is_one() {
    assert_eq!(tunnel_connections_default(), 1);
}

#[test]
fn in_config_without_match_server_is_fatal() {
    assert_eq!(validate_in(&in_config("", 1)), Err(ErrorKind::ConfigInvalid));
}

#[test]
fn in_config_without_slots_is_fatal() {
    assert_eq!(validate_in(&in_config("redis://localhost", 0)), Err(ErrorKind::ConfigInvalid));
}

#[test]
fn valid_in_config_passes() {
    assert_eq!(validate_in(&in_config("redis://localhost", 2)), Ok(()));
}

#[test]
fn out_config_checks_match_server() {
    let c = OutConfig {
        tunneling: OutTunnelingConfig {
            label: Vec::new(),
            priority: 0,
            stun_server: Vec::new(),
            match_server: String::new(),
        },
        routing: OutRoutingConfig::default(),
    };
    assert_eq!(validate_out(&c), Err(ErrorKind::ConfigInvalid));
    let ok = OutConfig {
        tunneling: OutTunnelingConfig {
            label: vec![String::from("default")],
            priority: 0,
            stun_server: Vec::new(),
            match_server: String::from("redis://localhost"),
        },
        routing: OutRoutingConfig::default(),
    };
    assert_eq!(validate_out(&ok), Ok(()));
}
