//! The error kinds of the tunnel core and their recovery classes.

use vstd::prelude::*;
use vstd::string::StringExecFns;

verus! {

/// Everything that can go wrong in the rendezvous and tunnel layer.
#[derive(Clone, Copy, PartialEq, Eq, Structural, Debug)]
pub enum ErrorKind {
    /// The broker connection or a subscription failed.
    BrokerUnavailable,
    /// The match subscription ended before any match arrived.
    RendezvousClosed,
    /// No STUN server answered.
    StunFailed,
    /// The transport handshake did not complete in time.
    HandshakeTimeout,
    /// A live tunnel's transport closed.
    TunnelLost,
    /// No eligible tunnel for an intercepted connection.
    NoRoute,
    /// The configuration is unusable; fatal at startup.
    ConfigInvalid,
}

/// Only an invalid configuration is fatal to the whole process; every
/// other failure is recovered locally by its slot.
pub open spec fn is_fatal(e: ErrorKind) -> bool {
    e is ConfigInvalid
}

/// Whether this error must stop the process.
pub fn fatal(e: &ErrorKind) -> (b: bool)
    ensures
        b == is_fatal(*e),
{
    match e {
        ErrorKind::ConfigInvalid => true,
        _ => false,
    }
}

/// A short diagnostic name for the error.
pub fn kind_text(e: &ErrorKind) -> (s: String)
    ensures
        *e is BrokerUnavailable ==> s@ == "broker unavailable"@,
        *e is RendezvousClosed ==> s@ == "rendezvous closed"@,
        *e is StunFailed ==> s@ == "stun failed"@,
        *e is HandshakeTimeout ==> s@ == "handshake timeout"@,
        *e is TunnelLost ==> s@ == "tunnel lost"@,
        *e is NoRoute ==> s@ == "no route"@,
        *e is ConfigInvalid ==> s@ == "config invalid"@,
{
    match e {
        ErrorKind::BrokerUnavailable => String::from_str("broker unavailable"),
        ErrorKind::RendezvousClosed => String::from_str("rendezvous closed"),
        ErrorKind::StunFailed => String::from_str("stun failed"),
        ErrorKind::HandshakeTimeout => String::from_str("handshake timeout"),
        ErrorKind::TunnelLost => String::from_str("tunnel lost"),
        ErrorKind::NoRoute => String::from_str("no route"),
        ErrorKind::ConfigInvalid => String::from_str("config invalid"),
    }
}

} // verus!
