//! Wire records of the rendezvous protocol and their JSON texts: the IN
//! announcement with its exact decoder and round trip, and the channel and
//! lock-key names.

use vstd::prelude::*;

use crate::addr::{addr_seq, parse_sockaddr, push_addr, scan_sockaddr, SockAddr};
use crate::ids::{
    lemma_pow16_32, lemma_uuid_round, push_uuid, scan_uuid, uuid_seq, uuid_shape, uuid_val_of,
    PeerId,
};
use crate::text::{chars_to_string, str_to_chars};

verus! {

/// What an IN publishes on the announcement channel.
#[derive(Clone, Copy, PartialEq, Eq, Structural, Debug)]
pub struct InAnnouncement {
    pub id: PeerId,
    pub address: SockAddr,
}

/// The characters `{"id":"`.
pub open spec fn lit_id_prefix() -> Seq<char> {
    seq!['{', '"', 'i', 'd', '"', ':', '"']
}

/// The characters `","address":"`.
pub open spec fn lit_addr_mid() -> Seq<char> {
    seq!['"', ',', '"', 'a', 'd', 'd', 'r', 'e', 's', 's', '"', ':', '"']
}

/// The characters `"}`.
pub open spec fn lit_tail() -> Seq<char> {
    seq!['"', '}']
}

/// The canonical JSON text of an announcement.
pub open spec fn announcement_text(a: InAnnouncement) -> Seq<char> {
    lit_id_prefix() + uuid_seq(a.id.value as nat) + lit_addr_mid() + addr_seq(a.address)
        + lit_tail()
}

/// Encodes an announcement as its canonical JSON text.
pub fn encode_announcement(a: &InAnnouncement) -> (s: String)
    ensures
        s@ == announcement_text(*a),
{
    let mut out: Vec<char> = Vec::new();
    out.push('{');
    out.push('"');
    out.push('i');
    out.push('d');
    out.push('"');
    out.push(':');
    out.push('"');
    push_uuid(&mut out, a.id.value);
    out.push('"');
    out.push(',');
    out.push('"');
    out.push('a');
    out.push('d');
    out.push('d');
    out.push('r');
    out.push('e');
    out.push('s');
    out.push('s');
    out.push('"');
    out.push(':');
    out.push('"');
    push_addr(&mut out, &a.address);
    out.push('"');
    out.push('}');
    proof {
        assert(out@ =~= announcement_text(*a));
    }
    chars_to_string(&out)
}

/// Reads an announcement from its canonical JSON text; any other text is
/// refused.
pub open spec fn parse_announcement(s: Seq<char>) -> Option<InAnnouncement> {
    if !(s.len() >= 56 && s.subrange(0, 7) == lit_id_prefix() && uuid_shape(s.subrange(7, 43))
        && s.subrange(43, 56) == lit_addr_mid()) {
        None
    } else {
        match parse_sockaddr(s, 56) {
            None => None,
            Some((addr, e)) => if e + 2 == s.len() && s[e] == '"' && s[e + 1] == '}' {
                Some(
                    InAnnouncement {
                        id: PeerId { value: uuid_val_of(s.subrange(7, 43)) as u128 },
                        address: addr,
                    },
                )
            } else {
                None
            },
        }
    }
}

/// Executable form of `parse_announcement`.
pub fn decode_announcement(s: &str) -> (r: Option<InAnnouncement>)
    ensures
        r == parse_announcement(s@),
{
    let cs = str_to_chars(s);
    if cs.len() < 56 {
        return None;
    }
    let prefix_ok = cs[0] == '{' && cs[1] == '"' && cs[2] == 'i' && cs[3] == 'd' && cs[4] == '"'
        && cs[5] == ':' && cs[6] == '"';
    if !prefix_ok {
        proof {
            assert(cs@.subrange(0, 7) != lit_id_prefix());
        }
        return None;
    }
    proof {
        assert(cs@.subrange(0, 7) =~= lit_id_prefix());
    }
    let idv = match scan_uuid(&cs, 7) {
        None => {
            return None;
        },
        Some(v) => v,
    };
    let mid_ok = cs[43] == '"' && cs[44] == ',' && cs[45] == '"' && cs[46] == 'a' && cs[47] == 'd'
        && cs[48] == 'd' && cs[49] == 'r' && cs[50] == 'e' && cs[51] == 's' && cs[52] == 's'
        && cs[53] == '"' && cs[54] == ':' && cs[55] == '"';
    if !mid_ok {
        proof {
            assert(cs@.subrange(43, 56) != lit_addr_mid());
        }
        return None;
    }
    proof {
        assert(cs@.subrange(43, 56) =~= lit_addr_mid());
        lemma_pow16_32();
        lemma_uuid_round(idv as nat);
    }
    let (addr, e) = match scan_sockaddr(&cs, 56) {
        None => {
            return None;
        },
        Some(p) => p,
    };
    if cs.len() - e == 2 && cs[e] == '"' && cs[e + 1] == '}' {
        Some(InAnnouncement { id: PeerId { value: idv }, address: addr })
    } else {
        None
    }
}

/// Any announcement decodes back from its own encoding.
#[verifier::rlimit(100)]
pub proof fn lemma_announcement_round_trip(a: InAnnouncement)
    ensures
        parse_announcement(announcement_text(a)) == Some(a),
{
    let s = announcement_text(a);
    let u = uuid_seq(a.id.value as nat);
    let t = addr_seq(a.address);
    assert(u.len() == 36);
    lemma_pow16_32();
    lemma_uuid_round(a.id.value as nat);
    assert(s.len() == 7 + 36 + 13 + t.len() + 2);
    assert(s.subrange(0, 7) =~= lit_id_prefix());
    assert(s.subrange(7, 43) =~= u);
    assert(s.subrange(43, 56) =~= lit_addr_mid());
    assert(s.subrange(56, 56 + t.len() as int) =~= t);
    assert(s[56 + t.len() as int] == '"');
    assert(s[57 + t.len() as int] == '}');
    crate::addr::lemma_parse_sockaddr_of_text(s, 56, a.address);
    assert(parse_sockaddr(s, 56) == Some((a.address, 56 + t.len() as int)));
}

/// The text `{id}/{addr}` that keys a match.
pub open spec fn match_key_seq(id: PeerId, addr: SockAddr) -> Seq<char> {
    uuid_seq(id.value as nat) + seq!['/'] + addr_seq(addr)
}

/// The per-IN channel name `match/{id}/{addr}`.
pub open spec fn match_channel_seq(id: PeerId, addr: SockAddr) -> Seq<char> {
    seq!['m', 'a', 't', 'c', 'h', '/'] + match_key_seq(id, addr)
}

/// The broker lock key `match:{id}/{addr}`.
pub open spec fn match_lock_key_seq(id: PeerId, addr: SockAddr) -> Seq<char> {
    seq!['m', 'a', 't', 'c', 'h', ':'] + match_key_seq(id, addr)
}

/// The global announcement channel name.
pub open spec fn in_announcement_channel_seq() -> Seq<char> {
    seq!['i', 'n', '_', 'a', 'n', 'n', 'o', 'u', 'n', 'c', 'e', 'm', 'e', 'n', 't']
}

/// Renders `{id}/{addr}`.
pub fn match_key(id: PeerId, addr: SockAddr) -> (s: String)
    ensures
        s@ == match_key_seq(id, addr),
{
    let mut out: Vec<char> = Vec::new();
    push_uuid(&mut out, id.value);
    out.push('/');
    push_addr(&mut out, &addr);
    proof {
        assert(out@ =~= match_key_seq(id, addr));
    }
    chars_to_string(&out)
}

/// Renders `match/{id}/{addr}`.
pub fn match_channel_name(id: PeerId, addr: SockAddr) -> (s: String)
    ensures
        s@ == match_channel_seq(id, addr),
{
    let mut out: Vec<char> = Vec::new();
    out.push('m');
    out.push('a');
    out.push('t');
    out.push('c');
    out.push('h');
    out.push('/');
    push_uuid(&mut out, id.value);
    out.push('/');
    push_addr(&mut out, &addr);
    proof {
        assert(out@ =~= match_channel_seq(id, addr));
    }
    chars_to_string(&out)
}

/// Renders `match:{id}/{addr}`.
pub fn match_lock_key(id: PeerId, addr: SockAddr) -> (s: String)
    ensures
        s@ == match_lock_key_seq(id, addr),
{
    let mut out: Vec<char> = Vec::new();
    out.push('m');
    out.push('a');
    out.push('t');
    out.push('c');
    out.push('h');
    out.push(':');
    push_uuid(&mut out, id.value);
    out.push('/');
    push_addr(&mut out, &addr);
    proof {
        assert(out@ =~= match_lock_key_seq(id, addr));
    }
    chars_to_string(&out)
}

/// Renders the global announcement channel name.
pub fn in_announcement_channel_name() -> (s: String)
    ensures
        s@ == in_announcement_channel_seq(),
{
    let mut out: Vec<char> = Vec::new();
    out.push('i');
    out.push('n');
    out.push('_');
    out.push('a');
    out.push('n');
    out.push('n');
    out.push('o');
    out.push('u');
    out.push('n');
    out.push('c');
    out.push('e');
    out.push('m');
    out.push('e');
    out.push('n');
    out.push('t');
    proof {
        assert(out@ =~= in_announcement_channel_seq());
    }
    chars_to_string(&out)
}

} // verus!
