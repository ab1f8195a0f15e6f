//! The hole-punched transport's rendezvous data and its namespaced
//! channel and lock-key names.

use vstd::prelude::*;

use crate::addr::SockAddr;
use crate::codec::match_key_seq;
use crate::ids::{push_uuid, PeerId};
use crate::text::chars_to_string;

verus! {

/// What an IN sends about itself for this transport.
#[derive(Clone, Copy, PartialEq, Eq, Structural, Debug)]
pub struct PunchQuicInData {
    pub address: SockAddr,
}

/// What an OUT sends about itself for this transport.
#[derive(Clone, Copy, PartialEq, Eq, Structural, Debug)]
pub struct PunchQuicOutData {
    pub address: SockAddr,
}

/// The characters `punch_quic:`.
pub open spec fn punch_quic_prefix() -> Seq<char> {
    seq!['p', 'u', 'n', 'c', 'h', '_', 'q', 'u', 'i', 'c', ':']
}

/// The characters `punch_quic:match:`.
pub open spec fn punch_quic_lock_prefix() -> Seq<char> {
    seq!['p', 'u', 'n', 'c', 'h', '_', 'q', 'u', 'i', 'c', ':', 'm', 'a', 't', 'c', 'h', ':']
}

/// The characters `punch_quic:in_announcement`.
pub open spec fn punch_quic_announcement_seq() -> Seq<char> {
    seq![
        'p', 'u', 'n', 'c', 'h', '_', 'q', 'u', 'i', 'c', ':', 'i', 'n', '_', 'a', 'n', 'n', 'o',
        'u', 'n', 'c', 'e', 'm', 'e', 'n', 't',
    ]
}

/// Renders `punch_quic:{id}/{addr}`: the per-IN match channel of this
/// transport.
pub fn get_redis_match_channel_name(in_id: PeerId, in_data: &PunchQuicInData) -> (s: String)
    ensures
        s@ == punch_quic_prefix() + match_key_seq(in_id, in_data.address),
{
    let mut out: Vec<char> = Vec::new();
    out.push('p');
    out.push('u');
    out.push('n');
    out.push('c');
    out.push('h');
    out.push('_');
    out.push('q');
    out.push('u');
    out.push('i');
    out.push('c');
    out.push(':');
    push_uuid(&mut out, in_id.value);
    out.push('/');
    crate::addr::push_addr(&mut out, &in_data.address);
    proof {
        assert(out@ =~= punch_quic_prefix() + match_key_seq(in_id, in_data.address));
    }
    chars_to_string(&out)
}

/// Renders `punch_quic:match:{id}/{addr}`: the lock key of this
/// transport.
pub fn get_redis_match_lock_key(in_id: PeerId, in_data: &PunchQuicInData) -> (s: String)
    ensures
        s@ == punch_quic_lock_prefix() + match_key_seq(in_id, in_data.address),
{
    let mut out: Vec<char> = Vec::new();
    out.push('p');
    out.push('u');
    out.push('n');
    out.push('c');
    out.push('h');
    out.push('_');
    out.push('q');
    out.push('u');
    out.push('i');
    out.push('c');
    out.push(':');
    out.push('m');
    out.push('a');
    out.push('t');
    out.push('c');
    out.push('h');
    out.push(':');
    push_uuid(&mut out, in_id.value);
    out.push('/');
    crate::addr::push_addr(&mut out, &in_data.address);
    proof {
        assert(out@ =~= punch_quic_lock_prefix() + match_key_seq(in_id, in_data.address));
    }
    chars_to_string(&out)
}

/// Renders `punch_quic:in_announcement`: the global announcement channel
/// of this transport.
pub fn get_redis_in_announcement_channel_name() -> (s: String)
    ensures
        s@ == punch_quic_announcement_seq(),
{
    let mut out: Vec<char> = Vec::new();
    out.push('p');
    out.push('u');
    out.push('n');
    out.push('c');
    out.push('h');
    out.push('_');
    out.push('q');
    out.push('u');
    out.push('i');
    out.push('c');
    out.push(':');
    out.push('i');
    out.push('n');
    out.push('_');
    out.push('a');
    out.push('n');
    out.push('n');
    out.push('o');
    out.push('u');
    out.push('n');
    out.push('c');
    out.push('e');
    out.push('m');
    out.push('e');
    out.push('n');
    out.push('t');
    proof {
        assert(out@ =~= punch_quic_announcement_seq());
    }
    chars_to_string(&out)
}

} // verus!
