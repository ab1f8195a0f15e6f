//! The decisions of the matching protocol, one step at a time: what the
//! IN publishes and when it completes, what the OUT does with each
//! announcement, and what it publishes after winning the lock.  The
//! surrounding loops only carry events in and actions out.

use vstd::prelude::*;

use crate::addr::{addr_seq, push_addr, SockAddr};
use crate::codec::{
    announcement_text, decode_announcement, encode_announcement, in_announcement_channel_name,
    in_announcement_channel_seq, match_channel_name, match_channel_seq, match_lock_key,
    match_lock_key_seq, parse_announcement, InAnnouncement,
};
use crate::errors::ErrorKind;
use crate::ids::{mint_tunnel_id, PeerId, TunnelId};
use crate::matching::{
    decode_match, encode_match, match_text, parse_match, Match, MatchIn, MatchOut, MatchView,
};
use crate::registry::InIdSet;
use crate::text::chars_to_string;
use crate::tunnel::OutRule;

verus! {

/// How long the broker holds a match lock.
pub const MATCH_LOCK_TTL_SECONDS: u64 = 30;

/// How often an unmatched IN announces itself.
pub const ANNOUNCEMENT_INTERVAL_SECONDS: u64 = 1;

/// How long a slot waits for the transport handshake.
pub const HANDSHAKE_TIMEOUT_SECONDS: u64 = 15;

/// What can happen while an IN waits for a match.
pub enum InMatchEvent {
    /// A message arrived on some subscribed channel.
    MatchMessage { channel: String, payload: String },
    /// The announcement interval elapsed.
    AnnounceTick,
    /// The subscription stream ended.
    SubscriptionEnded,
}

/// What the IN does next.
pub enum InMatchAction {
    /// Publish `payload` on `channel`.
    Publish { channel: String, payload: String },
    /// The pairing is complete.
    Complete(MatchOut),
    /// The message was not this IN's match; keep waiting.
    Ignore,
    /// The wait failed.
    Fail(ErrorKind),
}

/// One step of the IN side's wait: a tick republishes the announcement, a
/// message on the IN's own match channel that decodes completes the wait,
/// anything else is ignored, and a closed subscription fails with
/// `RendezvousClosed`.
pub fn in_match_step(in_id: PeerId, in_addr: SockAddr, event: InMatchEvent) -> (r: InMatchAction)
    ensures
        ({
            match event {
                InMatchEvent::AnnounceTick => r matches InMatchAction::Publish { channel, payload }
                    && channel@ == in_announcement_channel_seq() && payload@ == announcement_text(
                    InAnnouncement { id: in_id, address: in_addr },
                ),
                InMatchEvent::MatchMessage { channel, payload } => {
                    if channel@ == match_channel_seq(in_id, in_addr) {
                        match parse_match(payload@) {
                            Some(mv) => r matches InMatchAction::Complete(mo)
                                && mo.id == mv.id
                                && mo.tunnel_id == mv.tunnel_id
                                && mo.tunnel_labels@.map_values(|s: String| s@) == mv.tunnel_labels
                                && mo.tunnel_priority as int == mv.tunnel_priority
                                && mo.routing_rules@ == mv.routing_rules
                                && mo.address == mv.address,
                            None => r is Ignore,
                        }
                    } else {
                        r is Ignore
                    }
                },
                InMatchEvent::SubscriptionEnded => r == InMatchAction::Fail(
                    ErrorKind::RendezvousClosed,
                ),
            }
        }),
{
    match event {
        InMatchEvent::AnnounceTick => {
            let ann = InAnnouncement { id: in_id, address: in_addr };
            InMatchAction::Publish {
                channel: in_announcement_channel_name(),
                payload: encode_announcement(&ann),
            }
        },
        InMatchEvent::MatchMessage { channel, payload } => {
            let own = match_channel_name(in_id, in_addr);
            if !channel.eq(&own) {
                return InMatchAction::Ignore;
            }
            match decode_match(payload.as_str()) {
                None => InMatchAction::Ignore,
                Some(m) => InMatchAction::Complete(
                    MatchOut {
                        id: m.id,
                        tunnel_id: m.tunnel_id,
                        tunnel_labels: m.tunnel_labels,
                        tunnel_priority: m.tunnel_priority,
                        routing_rules: m.routing_rules,
                        address: m.address,
                    },
                ),
            }
        },
        InMatchEvent::SubscriptionEnded => InMatchAction::Fail(ErrorKind::RendezvousClosed),
    }
}

/// What the OUT does with one announcement.
pub enum OutAnnouncementStep {
    /// Already paired with this IN: take the next announcement.
    Skip,
    /// Try the atomic create-only set on the broker.
    AttemptLock { key: String, value: String, ttl_seconds: u64 },
}

/// Registry consistency: an announcement from a registered IN is skipped;
/// any other leads to a lock attempt on the match key, valued with this
/// OUT's reflexive address, expiring after the lock's time to live.
pub fn out_consider_announcement(
    registered: &InIdSet,
    ann: &InAnnouncement,
    out_addr: SockAddr,
) -> (r: OutAnnouncementStep)
    ensures
        registered@.contains(ann.id.value) <==> r is Skip,
        !registered@.contains(ann.id.value) ==> (r matches OutAnnouncementStep::AttemptLock {
            key,
            value,
            ttl_seconds,
        } && key@ == match_lock_key_seq(ann.id, ann.address) && value@ == addr_seq(out_addr)
            && ttl_seconds == MATCH_LOCK_TTL_SECONDS),
{
    if registered.contains(ann.id) {
        OutAnnouncementStep::Skip
    } else {
        let mut v: Vec<char> = Vec::new();
        push_addr(&mut v, &out_addr);
        proof {
            assert(v@ =~= addr_seq(out_addr));
        }
        OutAnnouncementStep::AttemptLock {
            key: match_lock_key(ann.id, ann.address),
            value: chars_to_string(&v),
            ttl_seconds: MATCH_LOCK_TTL_SECONDS,
        }
    }
}

/// After the lock attempt: a loss yields nothing and the loop takes the
/// next announcement; a win yields the match channel, the match record to
/// publish there, and the pairing to return.
pub fn out_on_lock_outcome(
    acquired: bool,
    ann: &InAnnouncement,
    out_id: PeerId,
    out_addr: SockAddr,
    priority: i64,
    labels: Vec<String>,
    rules: Vec<OutRule>,
    tunnel_id: TunnelId,
) -> (r: Option<(String, String, MatchIn)>)
    ensures
        !acquired ==> r is None,
        acquired ==> (r matches Some(p) && p.0@ == match_channel_seq(ann.id, ann.address) && p.1@
            == match_text(
            MatchView {
                id: out_id,
                tunnel_id: tunnel_id,
                tunnel_labels: labels@.map_values(|s: String| s@),
                tunnel_priority: priority as int,
                routing_rules: rules@,
                address: out_addr,
            },
        ) && p.2 == (MatchIn { id: ann.id, tunnel_id: tunnel_id, address: ann.address })),
{
    if !acquired {
        return None;
    }
    let m = Match {
        id: out_id,
        tunnel_id,
        tunnel_labels: labels,
        tunnel_priority: priority,
        routing_rules: rules,
        address: out_addr,
    };
    let payload = encode_match(&m);
    Some(
        (
            match_channel_name(ann.id, ann.address),
            payload,
            MatchIn { id: ann.id, tunnel_id, address: ann.address },
        ),
    )
}

/// As `out_on_lock_outcome`, with the tunnel identifier freshly minted.
/// The identifier is random, so nothing is said of it beyond its place in
/// the published record and the returned pairing.
pub fn out_after_lock(
    acquired: bool,
    ann: &InAnnouncement,
    out_id: PeerId,
    out_addr: SockAddr,
    priority: i64,
    labels: Vec<String>,
    rules: Vec<OutRule>,
) -> (r: Option<(String, String, MatchIn)>)
    ensures
        !acquired ==> r is None,
        acquired ==> (r matches Some(p) && p.0@ == match_channel_seq(ann.id, ann.address) && p.1@
            == match_text(
            MatchView {
                id: out_id,
                tunnel_id: p.2.tunnel_id,
                tunnel_labels: labels@.map_values(|s: String| s@),
                tunnel_priority: priority as int,
                routing_rules: rules@,
                address: out_addr,
            },
        ) && p.2.id == ann.id && p.2.address == ann.address),
{
    if !acquired {
        return None;
    }
    let tunnel_id = mint_tunnel_id();
    out_on_lock_outcome(true, ann, out_id, out_addr, priority, labels, rules, tunnel_id)
}

/// The filter the OUT's reader task applies to each pushed message:

/// The filter the OUT's reader task applies to each pushed message:
/// announcements from the global channel are decoded, everything else is
/// dropped.
pub fn filter_announcement_push(channel: &str, payload: &str) -> (r: Option<InAnnouncement>)
    ensures
        channel@ == in_announcement_channel_seq() ==> r == parse_announcement(payload@),
        channel@ != in_announcement_channel_seq() ==> r is None,
{
    let own = in_announcement_channel_name();
    let ch = channel.to_owned();
    if !ch.eq(&own) {
        return None;
    }
    decode_announcement(payload)
}

} // verus!
