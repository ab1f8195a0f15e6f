use rendezvous_tunnel::addr::{IpAddress, SockAddr};
use rendezvous_tunnel::codec::{
    decode_announcement, encode_announcement, in_announcement_channel_name, match_channel_name,
    match_key, match_lock_key, InAnnouncement,
};
use rendezvous_tunnel::ids::PeerId;

fn v4(a: u8, b: u8, c: u8, d: u8, port: u16) -> SockAddr {
    SockAddr { ip: IpAddress::V4 { a, b, c, d }, port }
}

fn sample_id() -> PeerId {
    PeerId { value: 0x0123456789abcdef0123456789abcdef }
}

#[test]
fn match_key_is_id_slash_addr() {
    let s = match_key(sample_id(), v4(10, 0, 0, 1, 5001));
    assert_eq!(s, "01234567-89ab-cdef-0123-456789abcdef/10.0.0.1:5001");
}

#[test]
fn match_channel_name_prefixes_match_slash() {
    let s = match_channel_name(sample_id(), v4(10, 0, 0, 1, 5001));
    assert_eq!(s, "match/01234567-89ab-cdef-0123-456789abcdef/10.0.0.1:5001");
}

#[test]
fn match_lock_key_prefixes_match_colon() {
    let s = match_lock_key(sample_id(), v4(10, 0, 0, 1, 5001));
    assert_eq!(s, "match:01234567-89ab-cdef-0123-456789abcdef/10.0.0.1:5001");
}

#[test]
fn announcement_channel_is_fixed() {
    assert_eq!(in_announcement_channel_name(), "in_announcement");
}

#[test]
fn naming_is_deterministic() {
    let a = match_channel_name(sample_id(), v4(10, 0, 0, 1, 5001));
    let b = match_channel_name(sample_id(), v4(10, 0, 0, 1, 5001));
    assert_eq!(a, b);
}

#[test]
fn announcement_encodes_to_canonical_json() {
    let ann = InAnnouncement { id: sample_id(), address: v4(10, 0, 0, 1, 5001) };
    let s = encode_announcement(&ann);
    assert_eq!(
        s,
        "{\"id\":\"01234567-89ab-cdef-0123-456789abcdef\",\"address\":\"10.0.0.1:5001\"}"
    );
}

#[test]
fn announcement_round_trips_v4() {
    let ann = InAnnouncement { id: sample_id(), address: v4(10, 0, 0, 1, 5001) };
    let s = encode_announcement(&ann);
    let back = decode_announcement(s.as_str()).expect("canonical text must decode");
    assert_eq!(back, ann);
}

#[test]
fn announcement_round_trips_v6() {
    let addr = SockAddr {
        ip: IpAddress::V6 {
            g0: 0x20,
            g1: 0x1,
            g2: 0,
            g3: 0xdb8,
            g4: 0,
            g5: 0,
            g6: 0,
            g7: 1,
        },
        port: 443,
    };
    let ann = InAnnouncement { id: PeerId { value: 1 }, address: addr };
    let s = encode_announcement(&ann);
    assert_eq!(
        s,
        "{\"id\":\"00000000-0000-0000-0000-000000000001\",\"address\":\"[20:1:0:db8:0:0:0:1]:443\"}"
    );
    let back = decode_announcement(s.as_str()).expect("canonical text must decode");
    assert_eq!(back, ann);
}

#[test]
fn announcement_with_wrong_prefix_is_refused() {
    assert!(decode_announcement("{\"xx\":\"01234567-89ab-cdef-0123-456789abcdef\",\"address\":\"10.0.0.1:5001\"}").is_none());
}

#[test]
fn announcement_with_bad_uuid_is_refused() {
    assert!(decode_announcement("{\"id\":\"01234567-89AB-cdef-0123-456789abcdef\",\"address\":\"10.0.0.1:5001\"}").is_none());
}

#[test]
fn announcement_with_bad_octet_is_refused() {
    assert!(decode_announcement("{\"id\":\"01234567-89ab-cdef-0123-456789abcdef\",\"address\":\"10.0.0.256:5001\"}").is_none());
}

#[test]
fn announcement_with_leading_zero_octet_is_refused() {
    assert!(decode_announcement("{\"id\":\"01234567-89ab-cdef-0123-456789abcdef\",\"address\":\"10.0.0.01:5001\"}").is_none());
}

#[test]
fn announcement_with_trailing_garbage_is_refused() {
    assert!(decode_announcement("{\"id\":\"01234567-89ab-cdef-0123-456789abcdef\",\"address\":\"10.0.0.1:5001\"}x").is_none());
}
