//! Socket addresses as plain values, with their canonical `host:port`
//! text (IPv6 bracketed) and an exact parser for it.

use vstd::prelude::*;

use crate::text::{
    digit_char, is_base_digit, lemma_rep_digits, lemma_rep_of_val, lemma_run_digits,
    lemma_scan_of_rep, push_rep_u64, rep, run_end, scan_uint, val_of,
};

verus! {

/// An IP address, either family, as plain numbers.
#[derive(Clone, Copy, PartialEq, Eq, Structural, Debug, Hash)]
pub enum IpAddress {
    V4 { a: u8, b: u8, c: u8, d: u8 },
    V6 { g0: u16, g1: u16, g2: u16, g3: u16, g4: u16, g5: u16, g6: u16, g7: u16 },
}

/// A socket address: an IP address and a port.
#[derive(Clone, Copy, PartialEq, Eq, Structural, Debug, Hash)]
pub struct SockAddr {
    pub ip: IpAddress,
    pub port: u16,
}

/// The canonical text of the host part.
pub open spec fn host_seq(ip: IpAddress) -> Seq<char> {
    match ip {
        IpAddress::V4 { a, b, c, d } => rep(a as nat, 10) + seq!['.'] + rep(b as nat, 10)
            + seq!['.'] + rep(c as nat, 10) + seq!['.'] + rep(d as nat, 10),
        IpAddress::V6 { g0, g1, g2, g3, g4, g5, g6, g7 } => seq!['['] + rep(g0 as nat, 16)
            + seq![':'] + rep(g1 as nat, 16) + seq![':'] + rep(g2 as nat, 16) + seq![':'] + rep(
            g3 as nat,
            16,
        ) + seq![':'] + rep(g4 as nat, 16) + seq![':'] + rep(g5 as nat, 16) + seq![':'] + rep(
            g6 as nat,
            16,
        ) + seq![':'] + rep(g7 as nat, 16) + seq![']'],
    }
}

/// The canonical `host:port` text of a socket address.
pub open spec fn addr_seq(addr: SockAddr) -> Seq<char> {
    host_seq(addr.ip) + seq![':'] + rep(addr.port as nat, 10)
}

/// Appends the canonical text of `addr` to `out`.
pub fn push_addr(out: &mut Vec<char>, addr: &SockAddr)
    ensures
        final(out)@ == old(out)@ + addr_seq(*addr),
{
    match addr.ip {
        IpAddress::V4 { a, b, c, d } => {
            push_rep_u64(out, a as u64, 10);
            out.push('.');
            push_rep_u64(out, b as u64, 10);
            out.push('.');
            push_rep_u64(out, c as u64, 10);
            out.push('.');
            push_rep_u64(out, d as u64, 10);
            out.push(':');
            push_rep_u64(out, addr.port as u64, 10);
            proof {
                assert(out@ =~= old(out)@ + addr_seq(*addr));
            }
        },
        IpAddress::V6 { g0, g1, g2, g3, g4, g5, g6, g7 } => {
            out.push('[');
            push_rep_u64(out, g0 as u64, 16);
            out.push(':');
            push_rep_u64(out, g1 as u64, 16);
            out.push(':');
            push_rep_u64(out, g2 as u64, 16);
            out.push(':');
            push_rep_u64(out, g3 as u64, 16);
            out.push(':');
            push_rep_u64(out, g4 as u64, 16);
            out.push(':');
            push_rep_u64(out, g5 as u64, 16);
            out.push(':');
            push_rep_u64(out, g6 as u64, 16);
            out.push(':');
            push_rep_u64(out, g7 as u64, 16);
            out.push(']');
            out.push(':');
            push_rep_u64(out, addr.port as u64, 10);
            proof {
                assert(out@ =~= old(out)@ + addr_seq(*addr));
            }
        },
    }
}

/// Reads one canonical number field at `i`: the maximal digit run in
/// `base`, refused when empty, when it has a leading zero, or when its
/// value exceeds `max`.
pub open spec fn parse_field(s: Seq<char>, i: int, base: nat, max: int) -> Option<(int, int)> {
    let e = run_end(s, i, base);
    if e == i {
        None
    } else if val_of(s.subrange(i, e), base) > max {
        None
    } else if e > i + 1 && s[i] == '0' {
        None
    } else {
        Some((val_of(s.subrange(i, e), base), e))
    }
}

/// Executable form of `parse_field`.
pub fn scan_field(cs: &Vec<char>, start: usize, base: u64, max: u64) -> (r: Option<(u64, usize)>)
    requires
        2 <= base <= 16,
        start <= cs@.len(),
    ensures
        match r {
            Some(p) => {
                &&& parse_field(cs@, start as int, base as nat, max as int) == Some(
                    (p.0 as int, p.1 as int),
                )
                &&& start < p.1 <= cs@.len()
            },
            None => parse_field(cs@, start as int, base as nat, max as int) is None,
        },
{
    let r = scan_uint(cs, start, base);
    match r {
        None => None,
        Some((v, end)) => {
            if v > max {
                return None;
            }
            if end > start + 1 {
                if cs[start] == '0' {
                    return None;
                }
            }
            Some((v, end))
        },
    }
}

/// A field parse accepts exactly the canonical text of its value.
pub proof fn lemma_parse_field_of_rep(s: Seq<char>, i: int, base: nat, max: int, v0: nat)
    requires
        2 <= base <= 16,
        0 <= i,
        i + rep(v0, base).len() <= s.len(),
        s.subrange(i, i + rep(v0, base).len()) == rep(v0, base),
        i + rep(v0, base).len() == s.len() || !is_base_digit(s[i + rep(v0, base).len()], base),
        v0 <= max,
    ensures
        parse_field(s, i, base, max) == Some((v0 as int, i + rep(v0, base).len())),
{
    lemma_scan_of_rep(s, i, v0, base);
    lemma_rep_digits(v0, base);
    let e = run_end(s, i, base);
    assert(e == i + rep(v0, base).len());
    if e > i + 1 {
        lemma_rep_no_leading_zero(v0, base);
        assert(s[i] == rep(v0, base)[0]);
    }
}

/// A successful field parse stands on exactly the canonical text of the
/// value it returns.
pub proof fn lemma_parse_field_sound(s: Seq<char>, i: int, base: nat, max: int)
    requires
        2 <= base <= 16,
        0 <= i <= s.len(),
        parse_field(s, i, base, max) is Some,
    ensures
        ({
            let (v, e) = parse_field(s, i, base, max)->Some_0;
            &&& i < e <= s.len()
            &&& 0 <= v <= max
            &&& s.subrange(i, e) == rep(v as nat, base)
            &&& e == s.len() || !is_base_digit(s[e], base)
        }),
{
    let e = run_end(s, i, base);
    lemma_run_digits(s, i, base);
    let sub = s.subrange(i, e);
    assert(forall|k: int| 0 <= k < sub.len() ==> is_base_digit(#[trigger] sub[k], base));
    crate::text::lemma_val_nonneg(sub, base);
    assert(sub[0] == s[i]);
    lemma_rep_of_val(sub, base);
    crate::text::lemma_run_end_stop(s, i, base);
}

/// The minimal representation of a value does not start with zero unless
/// it is the single digit zero.
pub proof fn lemma_rep_no_leading_zero(n: nat, base: nat)
    requires
        2 <= base <= 16,
    ensures
        rep(n, base).len() > 1 ==> rep(n, base)[0] != '0',
        n >= base ==> rep(n, base).len() > 1,
    decreases n,
{
    if n >= base {
        vstd::arithmetic::div_mod::lemma_div_is_strictly_smaller(n as int, base as int);
        let m = n / base;
        lemma_rep_no_leading_zero(m, base);
        lemma_rep_digits(m, base);
        assert(rep(n, base)[0] == rep(m, base)[0]);
        if m < base {
            vstd::arithmetic::div_mod::lemma_div_non_zero(n as int, base as int);
            assert(rep(m, base) == seq![digit_char(m)]);
            assert(rep(m, base)[0] == digit_char(m));
            assert(m >= 1);
            assert(digit_char(m) != '0');
        }
    }
}

/// Reads a canonical IPv4 `a.b.c.d:port` text at `i`.
pub open spec fn parse_v4(s: Seq<char>, i: int) -> Option<(SockAddr, int)> {
    match parse_field(s, i, 10, 255) {
        None => None,
        Some((a, e1)) => if !(e1 < s.len() && s[e1] == '.') {
            None
        } else {
            match parse_field(s, e1 + 1, 10, 255) {
                None => None,
                Some((b, e2)) => if !(e2 < s.len() && s[e2] == '.') {
                    None
                } else {
                    match parse_field(s, e2 + 1, 10, 255) {
                        None => None,
                        Some((c, e3)) => if !(e3 < s.len() && s[e3] == '.') {
                            None
                        } else {
                            match parse_field(s, e3 + 1, 10, 255) {
                                None => None,
                                Some((d, e4)) => if !(e4 < s.len() && s[e4] == ':') {
                                    None
                                } else {
                                    match parse_field(s, e4 + 1, 10, 65535) {
                                        None => None,
                                        Some((p, e5)) => Some(
                                            (
                                                SockAddr {
                                                    ip: IpAddress::V4 {
                                                        a: a as u8,
                                                        b: b as u8,
                                                        c: c as u8,
                                                        d: d as u8,
                                                    },
                                                    port: p as u16,
                                                },
                                                e5,
                                            ),
                                        ),
                                    }
                                },
                            }
                        },
                    }
                },
            }
        },
    }
}

/// Reads one bracketed-IPv6 group and its following separator.
pub open spec fn parse_v6_group(s: Seq<char>, i: int, sep: char) -> Option<(int, int)> {
    match parse_field(s, i, 16, 65535) {
        None => None,
        Some((g, e)) => if e < s.len() && s[e] == sep {
            Some((g, e + 1))
        } else {
            None
        },
    }
}

/// Reads a canonical `[h:h:h:h:h:h:h:h]:port` text at `i`.
pub open spec fn parse_v6(s: Seq<char>, i: int) -> Option<(SockAddr, int)> {
    if !(i < s.len() && s[i] == '[') {
        None
    } else {
        match parse_v6_group(s, i + 1, ':') {
            None => None,
            Some((g0, i1)) => match parse_v6_group(s, i1, ':') {
                None => None,
                Some((g1, i2)) => match parse_v6_group(s, i2, ':') {
                    None => None,
                    Some((g2, i3)) => match parse_v6_group(s, i3, ':') {
                        None => None,
                        Some((g3, i4)) => match parse_v6_group(s, i4, ':') {
                            None => None,
                            Some((g4, i5)) => match parse_v6_group(s, i5, ':') {
                                None => None,
                                Some((g5, i6)) => match parse_v6_group(s, i6, ':') {
                                    None => None,
                                    Some((g6, i7)) => match parse_v6_group(s, i7, ']') {
                                        None => None,
                                        Some((g7, i8)) => if !(i8 < s.len() && s[i8] == ':') {
                                            None
                                        } else {
                                            match parse_field(s, i8 + 1, 10, 65535) {
                                                None => None,
                                                Some((p, e)) => Some(
                                                    (
                                                        SockAddr {
                                                            ip: IpAddress::V6 {
                                                                g0: g0 as u16,
                                                                g1: g1 as u16,
                                                                g2: g2 as u16,
                                                                g3: g3 as u16,
                                                                g4: g4 as u16,
                                                                g5: g5 as u16,
                                                                g6: g6 as u16,
                                                                g7: g7 as u16,
                                                            },
                                                            port: p as u16,
                                                        },
                                                        e,
                                                    ),
                                                ),
                                            }
                                        },
                                    },
                                },
                            },
                        },
                    },
                },
            },
        }
    }
}

/// Reads a canonical socket-address text at `i`, either family.
pub open spec fn parse_sockaddr(s: Seq<char>, i: int) -> Option<(SockAddr, int)> {
    if i < s.len() && s[i] == '[' {
        parse_v6(s, i)
    } else {
        parse_v4(s, i)
    }
}

/// Executable form of `parse_sockaddr`.
pub fn scan_sockaddr(cs: &Vec<char>, start: usize) -> (r: Option<(SockAddr, usize)>)
    requires
        start <= cs@.len(),
    ensures
        match r {
            Some(p) => {
                &&& parse_sockaddr(cs@, start as int) == Some((p.0, p.1 as int))
                &&& start < p.1 <= cs@.len()
            },
            None => parse_sockaddr(cs@, start as int) is None,
        },
{
    if start < cs.len() && cs[start] == '[' {
        // eight groups, the first seven followed by ':', the last by ']'
        let g0 = match scan_v6_group(cs, start + 1, ':') {
            None => {
                return None;
            },
            Some(p) => p,
        };
        let g1 = match scan_v6_group(cs, g0.1, ':') {
            None => {
                return None;
            },
            Some(p) => p,
        };
        let g2 = match scan_v6_group(cs, g1.1, ':') {
            None => {
                return None;
            },
            Some(p) => p,
        };
        let g3 = match scan_v6_group(cs, g2.1, ':') {
            None => {
                return None;
            },
            Some(p) => p,
        };
        let g4 = match scan_v6_group(cs, g3.1, ':') {
            None => {
                return None;
            },
            Some(p) => p,
        };
        let g5 = match scan_v6_group(cs, g4.1, ':') {
            None => {
                return None;
            },
            Some(p) => p,
        };
        let g6 = match scan_v6_group(cs, g5.1, ':') {
            None => {
                return None;
            },
            Some(p) => p,
        };
        let g7 = match scan_v6_group(cs, g6.1, ']') {
            None => {
                return None;
            },
            Some(p) => p,
        };
        let i8x = g7.1;
        if !(i8x < cs.len() && cs[i8x] == ':') {
            return None;
        }
        let port = match scan_field(cs, i8x + 1, 10, 65535) {
            None => {
                return None;
            },
            Some(p) => p,
        };
        Some(
            (
                SockAddr {
                    ip: IpAddress::V6 {
                        g0: g0.0 as u16,
                        g1: g1.0 as u16,
                        g2: g2.0 as u16,
                        g3: g3.0 as u16,
                        g4: g4.0 as u16,
                        g5: g5.0 as u16,
                        g6: g6.0 as u16,
                        g7: g7.0 as u16,
                    },
                    port: port.0 as u16,
                },
                port.1,
            ),
        )
    } else {
        let a = match scan_field(cs, start, 10, 255) {
            None => {
                return None;
            },
            Some(p) => p,
        };
        if !(a.1 < cs.len() && cs[a.1] == '.') {
            return None;
        }
        let b = match scan_field(cs, a.1 + 1, 10, 255) {
            None => {
                return None;
            },
            Some(p) => p,
        };
        if !(b.1 < cs.len() && cs[b.1] == '.') {
            return None;
        }
        let c = match scan_field(cs, b.1 + 1, 10, 255) {
            None => {
                return None;
            },
            Some(p) => p,
        };
        if !(c.1 < cs.len() && cs[c.1] == '.') {
            return None;
        }
        let d = match scan_field(cs, c.1 + 1, 10, 255) {
            None => {
                return None;
            },
            Some(p) => p,
        };
        if !(d.1 < cs.len() && cs[d.1] == ':') {
            return None;
        }
        let p = match scan_field(cs, d.1 + 1, 10, 65535) {
            None => {
                return None;
            },
            Some(p) => p,
        };
        Some(
            (
                SockAddr {
                    ip: IpAddress::V4 { a: a.0 as u8, b: b.0 as u8, c: c.0 as u8, d: d.0 as u8 },
                    port: p.0 as u16,
                },
                p.1,
            ),
        )
    }
}

/// Executable form of `parse_v6_group`.
fn scan_v6_group(cs: &Vec<char>, start: usize, sep: char) -> (r: Option<(u64, usize)>)
    requires
        start <= cs@.len(),
    ensures
        match r {
            Some(p) => {
                &&& parse_v6_group(cs@, start as int, sep) == Some((p.0 as int, p.1 as int))
                &&& start < p.1 <= cs@.len()
            },
            None => parse_v6_group(cs@, start as int, sep) is None,
        },
{
    match scan_field(cs, start, 16, 65535) {
        None => None,
        Some((g, e)) => {
            if e < cs.len() && cs[e] == sep {
                Some((g, e + 1))
            } else {
                None
            }
        },
    }
}

/// Whether a character can occur in a canonical socket-address text.
pub open spec fn is_addr_char(c: char) -> bool {
    is_base_digit(c, 16) || c == '.' || c == ':' || c == '[' || c == ']'
}

/// The canonical text of an address, followed by anything that is not a
/// decimal digit, parses back to exactly that address (IPv4 case).
#[verifier::rlimit(100)]
pub proof fn lemma_parse_v4_of_text(s: Seq<char>, i: int, a: SockAddr)
    requires
        a.ip is V4,
        0 <= i,
        i + addr_seq(a).len() <= s.len(),
        s.subrange(i, i + addr_seq(a).len()) == addr_seq(a),
        i + addr_seq(a).len() == s.len() || !is_base_digit(s[i + addr_seq(a).len()], 10),
    ensures
        parse_sockaddr(s, i) == Some((a, i + addr_seq(a).len())),
{
    let t = addr_seq(a);
    let ll = t.len();
    assert(forall|k: int| 0 <= k < ll ==> s[i + k] == #[trigger] t[k]) by {
        assert(forall|k: int| 0 <= k < ll ==> s.subrange(i, i + ll)[k] == #[trigger] t[k]);
    }
    let rport = rep(a.port as nat, 10);
    match a.ip {
        IpAddress::V4 { a: x1, b: x2, c: x3, d: x4 } => {
            let r1 = rep(x1 as nat, 10);
            let r2 = rep(x2 as nat, 10);
            let r3 = rep(x3 as nat, 10);
            let r4 = rep(x4 as nat, 10);
            lemma_rep_digits(x1 as nat, 10);
            lemma_rep_digits(x2 as nat, 10);
            lemma_rep_digits(x3 as nat, 10);
            lemma_rep_digits(x4 as nat, 10);
            lemma_rep_digits(a.port as nat, 10);
            let p1 = i;
            let p2 = p1 + r1.len() + 1;
            let p3 = p2 + r2.len() + 1;
            let p4 = p3 + r3.len() + 1;
            let p5 = p4 + r4.len() + 1;
            assert(ll == r1.len() + 1 + r2.len() + 1 + r3.len() + 1 + r4.len() + 1 + rport.len());
            assert(s[i] != '[') by {
                assert(t[0] == r1[0]);
                assert(is_base_digit(r1[0], 10));
            }
            assert forall|k: int| 0 <= k < r1.len() implies s.subrange(p1, p1 + r1.len())[k]
                == r1[k] by {
                assert(t[p1 - i + k] == r1[k]);
                assert(s[p1 + k] == t[p1 - i + k]);
            }
            assert(s.subrange(p1, p1 + r1.len()) =~= r1);
            assert(t[p2 - 1 - i] == '.');
            assert(s[p2 - 1] == t[p2 - 1 - i]);
            lemma_parse_field_of_rep(s, p1, 10, 255, x1 as nat);
            assert forall|k: int| 0 <= k < r2.len() implies s.subrange(p2, p2 + r2.len())[k]
                == r2[k] by {
                assert(t[p2 - i + k] == r2[k]);
                assert(s[p2 + k] == t[p2 - i + k]);
            }
            assert(s.subrange(p2, p2 + r2.len()) =~= r2);
            assert(t[p3 - 1 - i] == '.');
            assert(s[p3 - 1] == t[p3 - 1 - i]);
            lemma_parse_field_of_rep(s, p2, 10, 255, x2 as nat);
            assert forall|k: int| 0 <= k < r3.len() implies s.subrange(p3, p3 + r3.len())[k]
                == r3[k] by {
                assert(t[p3 - i + k] == r3[k]);
                assert(s[p3 + k] == t[p3 - i + k]);
            }
            assert(s.subrange(p3, p3 + r3.len()) =~= r3);
            assert(t[p4 - 1 - i] == '.');
            assert(s[p4 - 1] == t[p4 - 1 - i]);
            lemma_parse_field_of_rep(s, p3, 10, 255, x3 as nat);
            assert forall|k: int| 0 <= k < r4.len() implies s.subrange(p4, p4 + r4.len())[k]
                == r4[k] by {
                assert(t[p4 - i + k] == r4[k]);
                assert(s[p4 + k] == t[p4 - i + k]);
            }
            assert(s.subrange(p4, p4 + r4.len()) =~= r4);
            assert(t[p5 - 1 - i] == ':');
            assert(s[p5 - 1] == t[p5 - 1 - i]);
            lemma_parse_field_of_rep(s, p4, 10, 255, x4 as nat);
            assert forall|k: int| 0 <= k < rport.len() implies s.subrange(p5, p5 + rport.len())[k]
                == rport[k] by {
                assert(t[p5 - i + k] == rport[k]);
                assert(s[p5 + k] == t[p5 - i + k]);
            }
            assert(s.subrange(p5, p5 + rport.len()) =~= rport);
            lemma_parse_field_of_rep(s, p5, 10, 65535, a.port as nat);
        },
        IpAddress::V6 { .. } => {},
    }
}

/// The canonical text of an address, followed by anything that is not a
/// decimal digit, parses back to exactly that address (IPv6 case).
#[verifier::rlimit(100)]
pub proof fn lemma_parse_v6_of_text(s: Seq<char>, i: int, a: SockAddr)
    requires
        a.ip is V6,
        0 <= i,
        i + addr_seq(a).len() <= s.len(),
        s.subrange(i, i + addr_seq(a).len()) == addr_seq(a),
        i + addr_seq(a).len() == s.len() || !is_base_digit(s[i + addr_seq(a).len()], 10),
    ensures
        parse_sockaddr(s, i) == Some((a, i + addr_seq(a).len())),
{
    let t = addr_seq(a);
    let ll = t.len();
    assert(forall|k: int| 0 <= k < ll ==> s[i + k] == #[trigger] t[k]) by {
        assert(forall|k: int| 0 <= k < ll ==> s.subrange(i, i + ll)[k] == #[trigger] t[k]);
    }
    let rport = rep(a.port as nat, 10);
    match a.ip {
        IpAddress::V4 { .. } => {},
        IpAddress::V6 { g0, g1, g2, g3, g4, g5, g6, g7 } => {
            let r0 = rep(g0 as nat, 16);
            let r1 = rep(g1 as nat, 16);
            let r2 = rep(g2 as nat, 16);
            let r3 = rep(g3 as nat, 16);
            let r4 = rep(g4 as nat, 16);
            let r5 = rep(g5 as nat, 16);
            let r6 = rep(g6 as nat, 16);
            let r7 = rep(g7 as nat, 16);
            lemma_rep_digits(g0 as nat, 16);
            lemma_rep_digits(g1 as nat, 16);
            lemma_rep_digits(g2 as nat, 16);
            lemma_rep_digits(g3 as nat, 16);
            lemma_rep_digits(g4 as nat, 16);
            lemma_rep_digits(g5 as nat, 16);
            lemma_rep_digits(g6 as nat, 16);
            lemma_rep_digits(g7 as nat, 16);
            lemma_rep_digits(a.port as nat, 10);
            let q0 = i + 1;
            let q1 = q0 + r0.len() + 1;
            let q2 = q1 + r1.len() + 1;
            let q3 = q2 + r2.len() + 1;
            let q4 = q3 + r3.len() + 1;
            let q5 = q4 + r4.len() + 1;
            let q6 = q5 + r5.len() + 1;
            let q7 = q6 + r6.len() + 1;
            let q8 = q7 + r7.len() + 1;
            let qp = q8 + 1;
            assert(ll == 1 + r0.len() + 1 + r1.len() + 1 + r2.len() + 1 + r3.len() + 1 + r4.len()
                + 1 + r5.len() + 1 + r6.len() + 1 + r7.len() + 1 + 1 + rport.len());
            assert(t[0] == '[');
            assert(s[i] == t[0]);
            assert forall|k: int| 0 <= k < r0.len() implies s.subrange(q0, q0 + r0.len())[k]
                == r0[k] by {
                assert(t[q0 - i + k] == r0[k]);
                assert(s[q0 + k] == t[q0 - i + k]);
            }
            assert(s.subrange(q0, q0 + r0.len()) =~= r0);
            assert(t[q1 - 1 - i] == ':');
            assert(s[q1 - 1] == t[q1 - 1 - i]);
            lemma_parse_field_of_rep(s, q0, 16, 65535, g0 as nat);
            assert forall|k: int| 0 <= k < r1.len() implies s.subrange(q1, q1 + r1.len())[k]
                == r1[k] by {
                assert(t[q1 - i + k] == r1[k]);
                assert(s[q1 + k] == t[q1 - i + k]);
            }
            assert(s.subrange(q1, q1 + r1.len()) =~= r1);
            assert(t[q2 - 1 - i] == ':');
            assert(s[q2 - 1] == t[q2 - 1 - i]);
            lemma_parse_field_of_rep(s, q1, 16, 65535, g1 as nat);
            assert forall|k: int| 0 <= k < r2.len() implies s.subrange(q2, q2 + r2.len())[k]
                == r2[k] by {
                assert(t[q2 - i + k] == r2[k]);
                assert(s[q2 + k] == t[q2 - i + k]);
            }
            assert(s.subrange(q2, q2 + r2.len()) =~= r2);
            assert(t[q3 - 1 - i] == ':');
            assert(s[q3 - 1] == t[q3 - 1 - i]);
            lemma_parse_field_of_rep(s, q2, 16, 65535, g2 as nat);
            assert forall|k: int| 0 <= k < r3.len() implies s.subrange(q3, q3 + r3.len())[k]
                == r3[k] by {
                assert(t[q3 - i + k] == r3[k]);
                assert(s[q3 + k] == t[q3 - i + k]);
            }
            assert(s.subrange(q3, q3 + r3.len()) =~= r3);
            assert(t[q4 - 1 - i] == ':');
            assert(s[q4 - 1] == t[q4 - 1 - i]);
            lemma_parse_field_of_rep(s, q3, 16, 65535, g3 as nat);
            assert forall|k: int| 0 <= k < r4.len() implies s.subrange(q4, q4 + r4.len())[k]
                == r4[k] by {
                assert(t[q4 - i + k] == r4[k]);
                assert(s[q4 + k] == t[q4 - i + k]);
            }
            assert(s.subrange(q4, q4 + r4.len()) =~= r4);
            assert(t[q5 - 1 - i] == ':');
            assert(s[q5 - 1] == t[q5 - 1 - i]);
            lemma_parse_field_of_rep(s, q4, 16, 65535, g4 as nat);
            assert forall|k: int| 0 <= k < r5.len() implies s.subrange(q5, q5 + r5.len())[k]
                == r5[k] by {
                assert(t[q5 - i + k] == r5[k]);
                assert(s[q5 + k] == t[q5 - i + k]);
            }
            assert(s.subrange(q5, q5 + r5.len()) =~= r5);
            assert(t[q6 - 1 - i] == ':');
            assert(s[q6 - 1] == t[q6 - 1 - i]);
            lemma_parse_field_of_rep(s, q5, 16, 65535, g5 as nat);
            assert forall|k: int| 0 <= k < r6.len() implies s.subrange(q6, q6 + r6.len())[k]
                == r6[k] by {
                assert(t[q6 - i + k] == r6[k]);
                assert(s[q6 + k] == t[q6 - i + k]);
            }
            assert(s.subrange(q6, q6 + r6.len()) =~= r6);
            assert(t[q7 - 1 - i] == ':');
            assert(s[q7 - 1] == t[q7 - 1 - i]);
            lemma_parse_field_of_rep(s, q6, 16, 65535, g6 as nat);
            assert forall|k: int| 0 <= k < r7.len() implies s.subrange(q7, q7 + r7.len())[k]
                == r7[k] by {
                assert(t[q7 - i + k] == r7[k]);
                assert(s[q7 + k] == t[q7 - i + k]);
            }
            assert(s.subrange(q7, q7 + r7.len()) =~= r7);
            assert(t[q8 - 1 - i] == ']');
            assert(s[q8 - 1] == t[q8 - 1 - i]);
            lemma_parse_field_of_rep(s, q7, 16, 65535, g7 as nat);
            assert(t[qp - 1 - i] == ':');
            assert(s[qp - 1] == t[qp - 1 - i]);
            assert forall|k: int| 0 <= k < rport.len() implies s.subrange(qp, qp + rport.len())[k]
                == rport[k] by {
                assert(t[qp - i + k] == rport[k]);
                assert(s[qp + k] == t[qp - i + k]);
            }
            assert(s.subrange(qp, qp + rport.len()) =~= rport);
            lemma_parse_field_of_rep(s, qp, 10, 65535, a.port as nat);
        },
    }
}

/// The canonical text of an address, followed by anything that is not a
/// decimal digit, parses back to exactly that address.
pub proof fn lemma_parse_sockaddr_of_text(s: Seq<char>, i: int, a: SockAddr)
    requires
        0 <= i,
        i + addr_seq(a).len() <= s.len(),
        s.subrange(i, i + addr_seq(a).len()) == addr_seq(a),
        i + addr_seq(a).len() == s.len() || !is_base_digit(s[i + addr_seq(a).len()], 10),
    ensures
        parse_sockaddr(s, i) == Some((a, i + addr_seq(a).len())),
{
    if a.ip is V4 {
        lemma_parse_v4_of_text(s, i, a);
    } else {
        lemma_parse_v6_of_text(s, i, a);
    }
}

} // verus!
