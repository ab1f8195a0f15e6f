//! The match record: what an OUT publishes on the per-IN channel after
//! winning the lock, with its JSON text and exact decoder, and the two
//! results the match operations return.

use vstd::prelude::*;

use crate::addr::{addr_seq, parse_sockaddr, push_addr, scan_sockaddr, IpAddress, SockAddr};
use crate::codec::{lit_id_prefix, lit_tail};
use crate::ids::{
    lemma_pow16_32, lemma_uuid_round, push_uuid, scan_uuid, uuid_seq, uuid_shape, uuid_val_of,
    PeerId, TunnelId,
};
use crate::text::{chars_to_string, lemma_run_digits, push_rep_u64, rep, str_to_chars};
use crate::tunnel::OutRule;

verus! {

/// The match record an OUT publishes after winning the lock.
pub struct Match {
    pub id: PeerId,
    pub tunnel_id: TunnelId,
    pub tunnel_labels: Vec<String>,
    pub tunnel_priority: i64,
    pub routing_rules: Vec<OutRule>,
    pub address: SockAddr,
}

/// The mathematical content of a match record.
pub struct MatchView {
    pub id: PeerId,
    pub tunnel_id: TunnelId,
    pub tunnel_labels: Seq<Seq<char>>,
    pub tunnel_priority: int,
    pub routing_rules: Seq<OutRule>,
    pub address: SockAddr,
}

impl View for Match {
    type V = MatchView;

    open spec fn view(&self) -> MatchView {
        MatchView {
            id: self.id,
            tunnel_id: self.tunnel_id,
            tunnel_labels: self.tunnel_labels@.map_values(|s: String| s@),
            tunnel_priority: self.tunnel_priority as int,
            routing_rules: self.routing_rules@,
            address: self.address,
        }
    }
}

/// What the IN side's `match_out` returns.
pub struct MatchOut {
    pub id: PeerId,
    pub tunnel_id: TunnelId,
    pub tunnel_labels: Vec<String>,
    pub tunnel_priority: i64,
    pub routing_rules: Vec<OutRule>,
    pub address: SockAddr,
}

/// What the OUT side's `match_in` returns.
#[derive(Clone, Copy, PartialEq, Eq, Structural, Debug)]
pub struct MatchIn {
    pub id: PeerId,
    pub tunnel_id: TunnelId,
    pub address: SockAddr,
}

/// A label can ride in a JSON string unescaped.
pub open spec fn label_plain(l: Seq<char>) -> bool {
    forall|i: int| 0 <= i < l.len() ==> l[i] != '"'
}

/// A match is well formed when each label is plain.
pub open spec fn match_wf(m: MatchView) -> bool {
    forall|i: int| 0 <= i < m.tunnel_labels.len() ==> label_plain(#[trigger] m.tunnel_labels[i])
}

/// The characters `","tunnel_id":"`.
pub open spec fn lit_tunnel_id() -> Seq<char> {
    seq!['"', ',', '"', 't', 'u', 'n', 'n', 'e', 'l', '_', 'i', 'd', '"', ':', '"']
}

/// The characters `","tunnel_labels":[`.
pub open spec fn lit_labels() -> Seq<char> {
    seq!['"', ',', '"', 't', 'u', 'n', 'n', 'e', 'l', '_', 'l', 'a', 'b', 'e', 'l', 's', '"', ':', '[']
}

/// The characters `,"tunnel_priority":`.
pub open spec fn lit_priority() -> Seq<char> {
    seq![',', '"', 't', 'u', 'n', 'n', 'e', 'l', '_', 'p', 'r', 'i', 'o', 'r', 'i', 't', 'y', '"', ':']
}

/// The characters `,"routing_rules":[`.
pub open spec fn lit_rules() -> Seq<char> {
    seq![',', '"', 'r', 'o', 'u', 't', 'i', 'n', 'g', '_', 'r', 'u', 'l', 'e', 's', '"', ':', '[']
}

/// The characters `,"address":"`.
pub open spec fn lit_address() -> Seq<char> {
    seq![',', '"', 'a', 'd', 'd', 'r', 'e', 's', 's', '"', ':', '"']
}

/// A quoted string.
pub open spec fn quoted(x: Seq<char>) -> Seq<char> {
    seq!['"'] + x + seq!['"']
}

/// The items of a JSON string array, from index `k` on.
pub open spec fn quoted_items_from(xs: Seq<Seq<char>>, k: int) -> Seq<char>
    decreases xs.len() - k,
        when 0 <= k
{
    if k >= xs.len() {
        seq![]
    } else if k + 1 == xs.len() {
        quoted(xs[k])
    } else {
        quoted(xs[k]) + seq![','] + quoted_items_from(xs, k + 1)
    }
}

/// The text of one routing rule.
pub open spec fn rule_text(r: OutRule) -> Seq<char> {
    match r {
        OutRule::Any => seq!['a', 'n', 'y'],
        OutRule::Address(a) => addr_seq(a),
    }
}

/// The text of a signed integer.
pub open spec fn int_text(p: int) -> Seq<char> {
    if p >= 0 {
        rep(p as nat, 10)
    } else {
        seq!['-'] + rep((-p) as nat, 10)
    }
}

/// The canonical JSON text of a match record.
pub open spec fn match_text(m: MatchView) -> Seq<char> {
    lit_id_prefix() + uuid_seq(m.id.value as nat) + lit_tunnel_id() + uuid_seq(
        m.tunnel_id.value as nat,
    ) + lit_labels() + quoted_items_from(m.tunnel_labels, 0) + seq![']'] + lit_priority()
        + int_text(m.tunnel_priority) + lit_rules() + quoted_items_from(
        m.routing_rules.map_values(|r: OutRule| rule_text(r)),
        0,
    ) + seq![']'] + lit_address() + addr_seq(m.address) + lit_tail()
}

/// Appends a quoted string array.
fn push_quoted_items(out: &mut Vec<char>, xs: &Vec<String>)
    ensures
        final(out)@ == old(out)@ + quoted_items_from(xs@.map_values(|s: String| s@), 0) + seq![']'],
{
    let ghost xv = xs@.map_values(|s: String| s@);
    let mut k: usize = 0;
    while k < xs.len()
        invariant
            k <= xs@.len(),
            xv == xs@.map_values(|s: String| s@),
            out@ + quoted_items_from(xv, k as int) == old(out)@ + quoted_items_from(xv, 0),
            k > 0 && k < xs@.len() ==> out@.len() > 0 && out@.last() == ',',
        decreases xs@.len() - k,
    {
        let ghost before = out@;
        out.push('"');
        let lab = str_to_chars(xs[k].as_str());
        let mut j: usize = 0;
        while j < lab.len()
            invariant
                j <= lab@.len(),
                lab@ == xv[k as int],
                out@ == before + seq!['"'] + lab@.take(j as int),
            decreases lab@.len() - j,
        {
            out.push(lab[j]);
            j = j + 1;
            proof {
                assert(out@ =~= before + seq!['"'] + lab@.take(j as int));
            }
        }
        out.push('"');
        proof {
            assert(lab@.take(lab@.len() as int) =~= lab@);
            assert(out@ =~= before + quoted(xv[k as int]));
        }
        if k + 1 < xs.len() {
            out.push(',');
            proof {
                assert(quoted_items_from(xv, k as int) == quoted(xv[k as int]) + seq![',']
                    + quoted_items_from(xv, k + 1));
                assert(out@ + quoted_items_from(xv, k + 1) =~= old(out)@ + quoted_items_from(
                    xv,
                    0,
                ));
            }
        } else {
            proof {
                assert(quoted_items_from(xv, k as int) == quoted(xv[k as int]));
                assert(out@ + quoted_items_from(xv, k + 1) =~= old(out)@ + quoted_items_from(
                    xv,
                    0,
                ));
            }
        }
        k = k + 1;
    }
    out.push(']');
    proof {
        assert(quoted_items_from(xv, k as int) =~= Seq::<char>::empty());
        assert(out@ =~= old(out)@ + quoted_items_from(xv, 0) + seq![']']);
    }
}

/// Appends a quoted rule array.
fn push_rule_items(out: &mut Vec<char>, rs: &Vec<OutRule>)
    ensures
        final(out)@ == old(out)@ + quoted_items_from(
            rs@.map_values(|r: OutRule| rule_text(r)),
            0,
        ) + seq![']'],
{
    let ghost xv = rs@.map_values(|r: OutRule| rule_text(r));
    let mut k: usize = 0;
    while k < rs.len()
        invariant
            k <= rs@.len(),
            xv == rs@.map_values(|r: OutRule| rule_text(r)),
            out@ + quoted_items_from(xv, k as int) == old(out)@ + quoted_items_from(xv, 0),
        decreases rs@.len() - k,
    {
        let ghost before = out@;
        out.push('"');
        match rs[k] {
            OutRule::Any => {
                out.push('a');
                out.push('n');
                out.push('y');
            },
            OutRule::Address(a) => {
                push_addr(out, &a);
            },
        }
        out.push('"');
        proof {
            assert(out@ =~= before + quoted(xv[k as int]));
        }
        if k + 1 < rs.len() {
            out.push(',');
            proof {
                assert(out@ + quoted_items_from(xv, k + 1) =~= old(out)@ + quoted_items_from(
                    xv,
                    0,
                ));
            }
        } else {
            proof {
                assert(out@ + quoted_items_from(xv, k + 1) =~= old(out)@ + quoted_items_from(
                    xv,
                    0,
                ));
            }
        }
        k = k + 1;
    }
    out.push(']');
    proof {
        assert(quoted_items_from(xv, k as int) =~= Seq::<char>::empty());
        assert(out@ =~= old(out)@ + quoted_items_from(xv, 0) + seq![']']);
    }
}

/// Appends the text of a signed integer.
fn push_int(out: &mut Vec<char>, p: i64)
    ensures
        final(out)@ == old(out)@ + int_text(p as int),
{
    if p >= 0 {
        push_rep_u64(out, p as u64, 10);
    } else {
        out.push('-');
        let m: u64 = (-(p as i128)) as u64;
        proof {
            assert(m as nat == (-(p as int)) as nat);
        }
        push_rep_u64(out, m, 10);
        proof {
            assert(out@ =~= old(out)@ + int_text(p as int));
        }
    }
}

/// Appends a fixed literal piece.
fn push_lit(out: &mut Vec<char>, lit: &str)
    requires
        lit@.len() <= 32,
    ensures
        final(out)@ == old(out)@ + lit@,
{
    let cs = str_to_chars(lit);
    let mut j: usize = 0;
    while j < cs.len()
        invariant
            j <= cs@.len(),
            cs@ == lit@,
            out@ == old(out)@ + lit@.take(j as int),
        decreases cs@.len() - j,
    {
        out.push(cs[j]);
        j = j + 1;
        proof {
            assert(out@ =~= old(out)@ + lit@.take(j as int));
        }
    }
    proof {
        assert(lit@.take(cs@.len() as int) =~= lit@);
    }
}

/// Encodes a match record as its canonical JSON text.
pub fn encode_match(m: &Match) -> (s: String)
    ensures
        s@ == match_text(m@),
{
    let mut out: Vec<char> = Vec::new();
    out.push('{');
    out.push('"');
    out.push('i');
    out.push('d');
    out.push('"');
    out.push(':');
    out.push('"');
    proof {
        assert(out@ =~= lit_id_prefix());
    }
    push_uuid(&mut out, m.id.value);
    out.push('"');
    out.push(',');
    out.push('"');
    out.push('t');
    out.push('u');
    out.push('n');
    out.push('n');
    out.push('e');
    out.push('l');
    out.push('_');
    out.push('i');
    out.push('d');
    out.push('"');
    out.push(':');
    out.push('"');
    proof {
        assert(out@ =~= lit_id_prefix() + uuid_seq(m.id.value as nat) + lit_tunnel_id());
    }
    push_uuid(&mut out, m.tunnel_id.value);
    out.push('"');
    out.push(',');
    out.push('"');
    out.push('t');
    out.push('u');
    out.push('n');
    out.push('n');
    out.push('e');
    out.push('l');
    out.push('_');
    out.push('l');
    out.push('a');
    out.push('b');
    out.push('e');
    out.push('l');
    out.push('s');
    out.push('"');
    out.push(':');
    out.push('[');
    let ghost head1 = out@;
    proof {
        assert(head1 =~= lit_id_prefix() + uuid_seq(m.id.value as nat) + lit_tunnel_id()
            + uuid_seq(m.tunnel_id.value as nat) + lit_labels());
    }
    proof {
        reveal_strlit(",\"tunnel_priority\":");
        reveal_strlit(",\"routing_rules\":[");
        reveal_strlit(",\"address\":\"");
    }
    push_quoted_items(&mut out, &m.tunnel_labels);
    push_lit(&mut out, ",\"tunnel_priority\":");
    push_int(&mut out, m.tunnel_priority);
    push_lit(&mut out, ",\"routing_rules\":[");
    let ghost head2 = out@;
    push_rule_items(&mut out, &m.routing_rules);
    push_lit(&mut out, ",\"address\":\"");
    push_addr(&mut out, &m.address);
    out.push('"');
    out.push('}');
    proof {
        reveal_strlit(",\"tunnel_priority\":");
        reveal_strlit(",\"routing_rules\":[");
        reveal_strlit(",\"address\":\"");
        assert(",\"tunnel_priority\":"@ =~= lit_priority());
        assert(",\"routing_rules\":["@ =~= lit_rules());
        assert(",\"address\":\""@ =~= lit_address());
        assert(out@ =~= match_text(m@));
    }
    chars_to_string(&out)
}

/// The position of the closing quote at or after `i`.
pub open spec fn label_end(s: Seq<char>, i: int) -> int
    decreases s.len() - i,
        when i <= s.len()
{
    if i < 0 || i >= s.len() || s[i] == '"' {
        i
    } else {
        label_end(s, i + 1)
    }
}

/// Bounds and content of the scan for a closing quote.
pub proof fn lemma_label_end_bounds(s: Seq<char>, i: int)
    requires
        0 <= i <= s.len(),
    ensures
        i <= label_end(s, i) <= s.len(),
        label_end(s, i) == s.len() || s[label_end(s, i)] == '"',
        forall|k: int| i <= k < label_end(s, i) ==> s[k] != '"',
    decreases s.len() - i,
{
    if i < s.len() && s[i] != '"' {
        lemma_label_end_bounds(s, i + 1);
    }
}

/// The items of a JSON string array read from `i` (which must point at a
/// quote): each item runs to its closing quote, a comma continues, a
/// closing bracket ends.
pub open spec fn parse_label_items(s: Seq<char>, i: int) -> Option<(Seq<Seq<char>>, int)>
    decreases s.len() - i,
        when 0 <= i
        via parse_label_items_decreases
{
    if !(i < s.len() && s[i] == '"') {
        None
    } else {
        let e = label_end(s, i + 1);
        if e >= s.len() {
            None
        } else {
            let lab = s.subrange(i + 1, e);
            if e + 1 < s.len() && s[e + 1] == ',' {
                match parse_label_items(s, e + 2) {
                    None => None,
                    Some((rest, j)) => Some((seq![lab] + rest, j)),
                }
            } else if e + 1 < s.len() && s[e + 1] == ']' {
                Some((seq![lab], e + 2))
            } else {
                None
            }
        }
    }
}

#[via_fn]
proof fn parse_label_items_decreases(s: Seq<char>, i: int) {
    if i < s.len() && s[i] == '"' {
        lemma_label_end_bounds(s, i + 1);
    }
}

/// A whole string array after its opening bracket: empty, or items.
pub open spec fn parse_labels(s: Seq<char>, i: int) -> Option<(Seq<Seq<char>>, int)> {
    if i < s.len() && s[i] == ']' {
        Some((Seq::empty(), i + 1))
    } else if 0 <= i {
        parse_label_items(s, i)
    } else {
        None
    }
}

/// A successful field parse ends past where it began.
pub proof fn lemma_parse_field_advances(s: Seq<char>, i: int, base: nat, max: int)
    requires
        0 <= i <= s.len(),
        crate::addr::parse_field(s, i, base, max) is Some,
    ensures
        i < crate::addr::parse_field(s, i, base, max)->Some_0.1 <= s.len(),
{
    lemma_run_digits(s, i, base);
}

/// A successful address parse ends past where it began.
pub proof fn lemma_parse_sockaddr_advances(s: Seq<char>, i: int)
    requires
        0 <= i <= s.len(),
        parse_sockaddr(s, i) is Some,
    ensures
        i < parse_sockaddr(s, i)->Some_0.1 <= s.len(),
{
    if i < s.len() && s[i] == '[' {
        let g0 = crate::addr::parse_v6_group(s, i + 1, ':');
        lemma_parse_field_advances(s, i + 1, 16, 65535);
        let i1 = g0->Some_0.1;
        let g1 = crate::addr::parse_v6_group(s, i1, ':');
        lemma_parse_field_advances(s, i1, 16, 65535);
        let i2 = g1->Some_0.1;
        let g2 = crate::addr::parse_v6_group(s, i2, ':');
        lemma_parse_field_advances(s, i2, 16, 65535);
        let i3 = g2->Some_0.1;
        let g3 = crate::addr::parse_v6_group(s, i3, ':');
        lemma_parse_field_advances(s, i3, 16, 65535);
        let i4 = g3->Some_0.1;
        let g4 = crate::addr::parse_v6_group(s, i4, ':');
        lemma_parse_field_advances(s, i4, 16, 65535);
        let i5 = g4->Some_0.1;
        let g5 = crate::addr::parse_v6_group(s, i5, ':');
        lemma_parse_field_advances(s, i5, 16, 65535);
        let i6 = g5->Some_0.1;
        let g6 = crate::addr::parse_v6_group(s, i6, ':');
        lemma_parse_field_advances(s, i6, 16, 65535);
        let i7 = g6->Some_0.1;
        let g7 = crate::addr::parse_v6_group(s, i7, ']');
        lemma_parse_field_advances(s, i7, 16, 65535);
        let i8 = g7->Some_0.1;
        lemma_parse_field_advances(s, i8 + 1, 10, 65535);
    } else {
        let a = crate::addr::parse_field(s, i, 10, 255);
        lemma_parse_field_advances(s, i, 10, 255);
        let e1 = a->Some_0.1;
        lemma_parse_field_advances(s, e1 + 1, 10, 255);
        let e2 = crate::addr::parse_field(s, e1 + 1, 10, 255)->Some_0.1;
        lemma_parse_field_advances(s, e2 + 1, 10, 255);
        let e3 = crate::addr::parse_field(s, e2 + 1, 10, 255)->Some_0.1;
        lemma_parse_field_advances(s, e3 + 1, 10, 255);
        let e4 = crate::addr::parse_field(s, e3 + 1, 10, 255)->Some_0.1;
        lemma_parse_field_advances(s, e4 + 1, 10, 65535);
    }
}

/// One quoted routing rule at `i`: `"any"`, or a quoted address text.
pub open spec fn parse_rule_item(s: Seq<char>, i: int) -> Option<(OutRule, int)> {
    if !(i < s.len() && s[i] == '"') {
        None
    } else if i + 4 < s.len() && s[i + 1] == 'a' && s[i + 2] == 'n' && s[i + 3] == 'y' && s[i + 4]
        == '"' {
        Some((OutRule::Any, i + 5))
    } else {
        match parse_sockaddr(s, i + 1) {
            None => None,
            Some((a, e)) => if e < s.len() && s[e] == '"' {
                Some((OutRule::Address(a), e + 1))
            } else {
                None
            },
        }
    }
}

/// The items of the rule array from `i` on.
pub open spec fn parse_rule_items(s: Seq<char>, i: int) -> Option<(Seq<OutRule>, int)>
    decreases s.len() - i,
        when 0 <= i
        via parse_rule_items_decreases
{
    match parse_rule_item(s, i) {
        None => None,
        Some((r, j)) => if j < s.len() && s[j] == ',' {
            match parse_rule_items(s, j + 1) {
                None => None,
                Some((rest, k)) => Some((seq![r] + rest, k)),
            }
        } else if j < s.len() && s[j] == ']' {
            Some((seq![r], j + 1))
        } else {
            None
        },
    }
}

#[via_fn]
proof fn parse_rule_items_decreases(s: Seq<char>, i: int) {
    if parse_rule_item(s, i) is Some {
        if !(i + 4 < s.len() && s[i + 1] == 'a' && s[i + 2] == 'n' && s[i + 3] == 'y' && s[i + 4]
            == '"') {
            lemma_parse_sockaddr_advances(s, i + 1);
        }
    }
}

/// A whole rule array after its opening bracket: empty, or items.
pub open spec fn parse_rules(s: Seq<char>, i: int) -> Option<(Seq<OutRule>, int)> {
    if i < s.len() && s[i] == ']' {
        Some((Seq::empty(), i + 1))
    } else if 0 <= i {
        parse_rule_items(s, i)
    } else {
        None
    }
}

/// A signed integer at `i`: an optional minus, then a canonical decimal
/// run, within the signed 64-bit range.
pub open spec fn parse_int(s: Seq<char>, i: int) -> Option<(int, int)> {
    if i < s.len() && s[i] == '-' {
        match crate::addr::parse_field(s, i + 1, 10, 0x8000000000000000) {
            None => None,
            Some((v, e)) => if v >= 1 {
                Some((-v, e))
            } else {
                None
            },
        }
    } else {
        crate::addr::parse_field(s, i, 10, 0x7FFFFFFFFFFFFFFF)
    }
}

/// Reads a match record from its canonical JSON text; any other text is
/// refused.
pub open spec fn parse_match(s: Seq<char>) -> Option<MatchView> {
    if !(s.len() >= 113 && s.subrange(0, 7) == lit_id_prefix() && uuid_shape(s.subrange(7, 43))
        && s.subrange(43, 58) == lit_tunnel_id() && uuid_shape(s.subrange(58, 94)) && s.subrange(
        94,
        113,
    ) == lit_labels()) {
        None
    } else {
        match parse_labels(s, 113) {
            None => None,
            Some((labs, j)) => if !(j + 19 <= s.len() && s.subrange(j, j + 19) == lit_priority()) {
                None
            } else {
                match parse_int(s, j + 19) {
                    None => None,
                    Some((p, k)) => if !(k + 18 <= s.len() && s.subrange(k, k + 18)
                        == lit_rules()) {
                        None
                    } else {
                        match parse_rules(s, k + 18) {
                            None => None,
                            Some((rs, l)) => if !(l + 12 <= s.len() && s.subrange(l, l + 12)
                                == lit_address()) {
                                None
                            } else {
                                match parse_sockaddr(s, l + 12) {
                                    None => None,
                                    Some((ad, e)) => if e + 2 == s.len() && s[e] == '"' && s[e + 1]
                                        == '}' {
                                        Some(
                                            MatchView {
                                                id: PeerId {
                                                    value: uuid_val_of(s.subrange(7, 43)) as u128,
                                                },
                                                tunnel_id: TunnelId {
                                                    value: uuid_val_of(s.subrange(58, 94)) as u128,
                                                },
                                                tunnel_labels: labs,
                                                tunnel_priority: p,
                                                routing_rules: rs,
                                                address: ad,
                                            },
                                        )
                                    } else {
                                        None
                                    },
                                }
                            },
                        }
                    },
                }
            },
        }
    }
}

/// Reads one quoted string: `i` must point at the opening quote and a
/// closing quote must follow.
fn scan_quoted(cs: &Vec<char>, i: usize) -> (r: Option<(String, usize)>)
    requires
        i <= cs@.len(),
    ensures
        match r {
            Some(p) => {
                &&& i < cs@.len() && cs@[i as int] == '"'
                &&& label_end(cs@, i + 1) < cs@.len()
                &&& p.0@ == cs@.subrange(i + 1, label_end(cs@, i + 1))
                &&& p.1 == label_end(cs@, i + 1) + 1
                &&& i < p.1 <= cs@.len()
            },
            None => !(i < cs@.len() && cs@[i as int] == '"' && label_end(cs@, i + 1) < cs@.len()),
        },
{
    if !(i < cs.len()) {
        return None;
    }
    if cs[i] != '"' {
        return None;
    }
    let mut j: usize = i + 1;
    let mut lab: Vec<char> = Vec::new();
    loop
        invariant
            i + 1 <= j <= cs@.len(),
            label_end(cs@, i + 1) == label_end(cs@, j as int),
            lab@ == cs@.subrange(i + 1, j as int),
        ensures
            j == label_end(cs@, i + 1),
            lab@ == cs@.subrange(i + 1, j as int),
            j <= cs@.len(),
        decreases cs@.len() - j,
    {
        if j >= cs.len() {
            break;
        }
        let c = cs[j];
        if c == '"' {
            break;
        }
        lab.push(c);
        j = j + 1;
        proof {
            assert(lab@ =~= cs@.subrange(i + 1, j as int));
        }
    }
    if j >= cs.len() {
        return None;
    }
    Some((chars_to_string(&lab), j + 1))
}

/// Prepending already-read items to the result of the rest of the scan.
pub open spec fn items_join(acc: Seq<Seq<char>>, o: Option<(Seq<Seq<char>>, int)>) -> Option<
    (Seq<Seq<char>>, int),
> {
    match o {
        None => None,
        Some((xs, j)) => Some((acc + xs, j)),
    }
}

/// Executable form of `parse_labels`.
fn scan_labels(cs: &Vec<char>, start: usize) -> (r: Option<(Vec<String>, usize)>)
    requires
        start <= cs@.len(),
    ensures
        match r {
            Some(p) => {
                &&& parse_labels(cs@, start as int) == Some(
                    (p.0@.map_values(|s: String| s@), p.1 as int),
                )
                &&& p.1 <= cs@.len()
            },
            None => parse_labels(cs@, start as int) is None,
        },
{
    if start < cs.len() && cs[start] == ']' {
        let ls: Vec<String> = Vec::new();
        proof {
            assert(ls@.map_values(|s: String| s@) =~= Seq::<Seq<char>>::empty());
        }
        return Some((ls, start + 1));
    }
    let mut ls: Vec<String> = Vec::new();
    let mut i: usize = start;
    loop
        invariant
            start <= i <= cs@.len(),
            parse_label_items(cs@, start as int) == items_join(
                ls@.map_values(|s: String| s@),
                parse_label_items(cs@, i as int),
            ),
            !(start < cs@.len() && cs@[start as int] == ']'),
        decreases cs@.len() - i,
    {
        let ghost acc = ls@.map_values(|s: String| s@);
        let (lab, e2) = match scan_quoted(cs, i) {
            None => {
                return None;
            },
            Some(p) => p,
        };
        // e2 - 1 is the closing quote
        if e2 < cs.len() && cs[e2] == ',' {
            proof {
                let e = label_end(cs@, i + 1);
                let rec = parse_label_items(cs@, e + 2);
                assert(parse_label_items(cs@, i as int) == items_join(seq![lab@], rec)) by {
                    if rec is Some {
                        assert(seq![cs@.subrange(i + 1, e)] + rec->Some_0.0 =~= seq![lab@]
                            + rec->Some_0.0);
                    }
                }
                let acc2 = ls@.map_values(|s: String| s@).push(lab@);
                assert(items_join(acc, items_join(seq![lab@], rec)) == items_join(acc2, rec)) by {
                    if rec is Some {
                        assert(acc + (seq![lab@] + rec->Some_0.0) =~= acc2 + rec->Some_0.0);
                    }
                }
            }
            ls.push(lab);
            proof {
                assert(ls@.map_values(|s: String| s@) =~= acc.push(ls@.last()@));
            }
            i = e2 + 1;
        } else if e2 < cs.len() && cs[e2] == ']' {
            proof {
                let e = label_end(cs@, i + 1);
                assert(parse_label_items(cs@, i as int) == Some(
                    (seq![cs@.subrange(i + 1, e)], e + 2),
                ));
                let acc2 = ls@.map_values(|s: String| s@).push(lab@);
                assert(acc + seq![lab@] =~= acc2);
            }
            ls.push(lab);
            proof {
                assert(ls@.map_values(|s: String| s@) =~= acc.push(lab@));
                assert(acc.push(lab@) =~= acc + seq![lab@]);
            }
            return Some((ls, e2 + 1));
        } else {
            proof {
                assert(parse_label_items(cs@, i as int) is None);
            }
            return None;
        }
    }
}

/// Executable form of `parse_rules`.
fn scan_rules(cs: &Vec<char>, start: usize) -> (r: Option<(Vec<OutRule>, usize)>)
    requires
        start <= cs@.len(),
    ensures
        match r {
            Some(p) => {
                &&& parse_rules(cs@, start as int) == Some((p.0@, p.1 as int))
                &&& p.1 <= cs@.len()
            },
            None => parse_rules(cs@, start as int) is None,
        },
{
    if start < cs.len() && cs[start] == ']' {
        let rs: Vec<OutRule> = Vec::new();
        proof {
            assert(rs@ =~= Seq::<OutRule>::empty());
        }
        return Some((rs, start + 1));
    }
    let mut rs: Vec<OutRule> = Vec::new();
    let mut i: usize = start;
    loop
        invariant
            start <= i <= cs@.len(),
            parse_rule_items(cs@, start as int) == rule_items_join(
                rs@,
                parse_rule_items(cs@, i as int),
            ),
            !(start < cs@.len() && cs@[start as int] == ']'),
        decreases cs@.len() - i,
    {
        let ghost acc = rs@;
        let (rule, j) = match scan_rule_item(cs, i) {
            None => {
                return None;
            },
            Some(p) => p,
        };
        if j < cs.len() && cs[j] == ',' {
            proof {
                let rec = parse_rule_items(cs@, j + 1);
                assert(rule_items_join(acc, parse_rule_items(cs@, i as int)) == rule_items_join(
                    acc.push(rule),
                    rec,
                )) by {
                    if rec is Some {
                        assert(acc + (seq![rule] + rec->Some_0.0) =~= acc.push(rule)
                            + rec->Some_0.0);
                    }
                }
            }
            rs.push(rule);
            i = j + 1;
        } else if j < cs.len() && cs[j] == ']' {
            proof {
                assert(parse_rule_items(cs@, i as int) == Some((seq![rule], j + 1)));
                assert(acc + seq![rule] =~= acc.push(rule));
            }
            rs.push(rule);
            return Some((rs, j + 1));
        } else {
            return None;
        }
    }
}

/// Prepending already-read rules to the result of the rest of the scan.
pub open spec fn rule_items_join(acc: Seq<OutRule>, o: Option<(Seq<OutRule>, int)>) -> Option<
    (Seq<OutRule>, int),
> {
    match o {
        None => None,
        Some((xs, j)) => Some((acc + xs, j)),
    }
}

/// Executable form of `parse_rule_item`.
fn scan_rule_item(cs: &Vec<char>, i: usize) -> (r: Option<(OutRule, usize)>)
    requires
        i <= cs@.len(),
    ensures
        match r {
            Some(p) => {
                &&& parse_rule_item(cs@, i as int) == Some((p.0, p.1 as int))
                &&& i < p.1 <= cs@.len()
            },
            None => parse_rule_item(cs@, i as int) is None,
        },
{
    if !(i < cs.len() && cs[i] == '"') {
        return None;
    }
    if cs.len() - i > 4 && cs[i + 1] == 'a' && cs[i + 2] == 'n' && cs[i + 3] == 'y' && cs[i + 4]
        == '"' {
        return Some((OutRule::Any, i + 5));
    }
    let (a, e) = match scan_sockaddr(cs, i + 1) {
        None => {
            return None;
        },
        Some(p) => p,
    };
    if e < cs.len() && cs[e] == '"' {
        Some((OutRule::Address(a), e + 1))
    } else {
        None
    }
}

/// Executable form of `parse_int`.
fn scan_int(cs: &Vec<char>, i: usize) -> (r: Option<(i64, usize)>)
    requires
        i <= cs@.len(),
    ensures
        match r {
            Some(p) => {
                &&& parse_int(cs@, i as int) == Some((p.0 as int, p.1 as int))
                &&& p.1 <= cs@.len()
            },
            None => parse_int(cs@, i as int) is None,
        },
{
    if i < cs.len() && cs[i] == '-' {
        let (v, e) = match crate::addr::scan_field(cs, i + 1, 10, 0x8000000000000000) {
            None => {
                return None;
            },
            Some(p) => p,
        };
        if v >= 1 {
            let p: i64 = if v == 0x8000000000000000 {
                i64::MIN
            } else {
                -(v as i64)
            };
            proof {
                assert(p as int == -(v as int));
            }
            Some((p, e))
        } else {
            None
        }
    } else {
        let (v, e) = match crate::addr::scan_field(cs, i, 10, 0x7FFFFFFFFFFFFFFF) {
            None => {
                return None;
            },
            Some(p) => p,
        };
        Some((v as i64, e))
    }
}

/// Whether `lit_id_prefix` stands at the head.
fn lit_id_prefix_at(cs: &Vec<char>) -> (b: bool)
    requires
        7 <= cs@.len(),
    ensures
        b == (cs@.subrange(0, 7) == lit_id_prefix()),
{
    let b = cs[0] == '{' && cs[1] == '"' && cs[2] == 'i' && cs[3] == 'd' && cs[4] == '"' && cs[5]
        == ':' && cs[6] == '"';
    proof {
        if b {
            assert(cs@.subrange(0, 7) =~= lit_id_prefix());
        } else {
            assert(cs@.subrange(0, 7) != lit_id_prefix());
        }
    }
    b
}

/// Whether `lit_tunnel_id` stands at 43.
fn lit_tunnel_id_at(cs: &Vec<char>) -> (b: bool)
    requires
        58 <= cs@.len(),
    ensures
        b == (cs@.subrange(43, 58) == lit_tunnel_id()),
{
    let b = cs[43] == '"' && cs[44] == ',' && cs[45] == '"' && cs[46] == 't' && cs[47] == 'u'
        && cs[48] == 'n' && cs[49] == 'n' && cs[50] == 'e' && cs[51] == 'l' && cs[52] == '_'
        && cs[53] == 'i' && cs[54] == 'd' && cs[55] == '"' && cs[56] == ':' && cs[57] == '"';
    proof {
        if b {
            assert(cs@.subrange(43, 58) =~= lit_tunnel_id());
        } else {
            assert(cs@.subrange(43, 58) != lit_tunnel_id());
        }
    }
    b
}

/// Whether `lit_labels` stands at 94.
fn lit_labels_at(cs: &Vec<char>) -> (b: bool)
    requires
        113 <= cs@.len(),
    ensures
        b == (cs@.subrange(94, 113) == lit_labels()),
{
    let b = cs[94] == '"' && cs[95] == ',' && cs[96] == '"' && cs[97] == 't' && cs[98] == 'u'
        && cs[99] == 'n' && cs[100] == 'n' && cs[101] == 'e' && cs[102] == 'l' && cs[103] == '_'
        && cs[104] == 'l' && cs[105] == 'a' && cs[106] == 'b' && cs[107] == 'e' && cs[108] == 'l'
        && cs[109] == 's' && cs[110] == '"' && cs[111] == ':' && cs[112] == '[';
    proof {
        if b {
            assert(cs@.subrange(94, 113) =~= lit_labels());
        } else {
            assert(cs@.subrange(94, 113) != lit_labels());
        }
    }
    b
}

/// Whether `lit_priority` stands at `j`.
fn lit_priority_at(cs: &Vec<char>, j: usize) -> (b: bool)
    requires
        j + 19 <= cs@.len(),
    ensures
        b == (cs@.subrange(j as int, j + 19) == lit_priority()),
{
    let n = cs.len();
    let b = cs[j] == ',' && cs[j + 1] == '"' && cs[j + 2] == 't' && cs[j + 3] == 'u' && cs[j + 4]
        == 'n' && cs[j + 5] == 'n' && cs[j + 6] == 'e' && cs[j + 7] == 'l' && cs[j + 8] == '_'
        && cs[j + 9] == 'p' && cs[j + 10] == 'r' && cs[j + 11] == 'i' && cs[j + 12] == 'o' && cs[j
        + 13] == 'r' && cs[j + 14] == 'i' && cs[j + 15] == 't' && cs[j + 16] == 'y' && cs[j + 17]
        == '"' && cs[j + 18] == ':';
    proof {
        if b {
            assert(cs@.subrange(j as int, j + 19) =~= lit_priority());
        } else {
            assert(cs@.subrange(j as int, j + 19) != lit_priority());
        }
    }
    b
}

/// Whether `lit_rules` stands at `k`.
fn lit_rules_at(cs: &Vec<char>, k: usize) -> (b: bool)
    requires
        k + 18 <= cs@.len(),
    ensures
        b == (cs@.subrange(k as int, k + 18) == lit_rules()),
{
    let n = cs.len();
    let b = cs[k] == ',' && cs[k + 1] == '"' && cs[k + 2] == 'r' && cs[k + 3] == 'o' && cs[k + 4]
        == 'u' && cs[k + 5] == 't' && cs[k + 6] == 'i' && cs[k + 7] == 'n' && cs[k + 8] == 'g'
        && cs[k + 9] == '_' && cs[k + 10] == 'r' && cs[k + 11] == 'u' && cs[k + 12] == 'l' && cs[k
        + 13] == 'e' && cs[k + 14] == 's' && cs[k + 15] == '"' && cs[k + 16] == ':' && cs[k + 17]
        == '[';
    proof {
        if b {
            assert(cs@.subrange(k as int, k + 18) =~= lit_rules());
        } else {
            assert(cs@.subrange(k as int, k + 18) != lit_rules());
        }
    }
    b
}

/// Whether `lit_address` stands at `l`.
fn lit_address_at(cs: &Vec<char>, l: usize) -> (b: bool)
    requires
        l + 12 <= cs@.len(),
    ensures
        b == (cs@.subrange(l as int, l + 12) == lit_address()),
{
    let n = cs.len();
    let b = cs[l] == ',' && cs[l + 1] == '"' && cs[l + 2] == 'a' && cs[l + 3] == 'd' && cs[l + 4]
        == 'd' && cs[l + 5] == 'r' && cs[l + 6] == 'e' && cs[l + 7] == 's' && cs[l + 8] == 's'
        && cs[l + 9] == '"' && cs[l + 10] == ':' && cs[l + 11] == '"';
    proof {
        if b {
            assert(cs@.subrange(l as int, l + 12) =~= lit_address());
        } else {
            assert(cs@.subrange(l as int, l + 12) != lit_address());
        }
    }
    b
}

/// Executable form of `parse_match`.
#[verifier::rlimit(100)]
pub fn decode_match(s: &str) -> (r: Option<Match>)
    ensures
        match r {
            Some(m) => parse_match(s@) == Some(m@),
            None => parse_match(s@) is None,
        },
{
    let cs = str_to_chars(s);
    if cs.len() < 113 {
        return None;
    }
    if !lit_id_prefix_at(&cs) {
        return None;
    }
    let idv = match scan_uuid(&cs, 7) {
        None => {
            return None;
        },
        Some(v) => v,
    };
    if !lit_tunnel_id_at(&cs) {
        return None;
    }
    let tidv = match scan_uuid(&cs, 58) {
        None => {
            return None;
        },
        Some(v) => v,
    };
    if !lit_labels_at(&cs) {
        return None;
    }
    proof {
        lemma_pow16_32();
        lemma_uuid_round(idv as nat);
        lemma_uuid_round(tidv as nat);
    }
    let (labs, j) = match scan_labels(&cs, 113) {
        None => {
            return None;
        },
        Some(p) => p,
    };
    if j > cs.len() - 19 {
        return None;
    }
    if !lit_priority_at(&cs, j) {
        return None;
    }
    let (prio, k) = match scan_int(&cs, j + 19) {
        None => {
            return None;
        },
        Some(p) => p,
    };
    if k > cs.len() - 18 {
        return None;
    }
    if !lit_rules_at(&cs, k) {
        return None;
    }
    let (rules, l) = match scan_rules(&cs, k + 18) {
        None => {
            return None;
        },
        Some(p) => p,
    };
    if l > cs.len() - 12 {
        return None;
    }
    if !lit_address_at(&cs, l) {
        return None;
    }
    let (ad, e) = match scan_sockaddr(&cs, l + 12) {
        None => {
            return None;
        },
        Some(p) => p,
    };
    if cs.len() - e == 2 && cs[e] == '"' && cs[e + 1] == '}' {
        Some(
            Match {
                id: PeerId { value: idv },
                tunnel_id: TunnelId { value: tidv },
                tunnel_labels: labs,
                tunnel_priority: prio,
                routing_rules: rules,
                address: ad,
            },
        )
    } else {
        None
    }
}

/// The closing-quote scan stops exactly at the first quote.
pub proof fn lemma_label_end_of(s: Seq<char>, i: int, j: int)
    requires
        0 <= i <= j <= s.len(),
        forall|k: int| i <= k < j ==> s[k] != '"',
        j < s.len() && s[j] == '"',
    ensures
        label_end(s, i) == j,
    decreases j - i,
{
    if i < j {
        lemma_label_end_of(s, i + 1, j);
    }
}

/// The canonical text of a nonempty string-array tail, closed by the
/// bracket, parses back to exactly that tail.
pub proof fn lemma_label_items_of_text(s: Seq<char>, i: int, xs: Seq<Seq<char>>, k: int)
    requires
        0 <= k < xs.len(),
        forall|t: int| 0 <= t < xs.len() ==> label_plain(#[trigger] xs[t]),
        0 <= i,
        i + quoted_items_from(xs, k).len() + 1 <= s.len(),
        s.subrange(i, i + quoted_items_from(xs, k).len() + 1) == quoted_items_from(xs, k)
            + seq![']'],
    ensures
        parse_label_items(s, i) == Some((xs.skip(k), i + quoted_items_from(xs, k).len() + 1)),
    decreases xs.len() - k,
{
    let t = quoted_items_from(xs, k) + seq![']'];
    let ll = t.len();
    assert(forall|u: int| 0 <= u < ll ==> s[i + u] == #[trigger] t[u]) by {
        assert(forall|u: int| 0 <= u < ll ==> s.subrange(i, i + ll)[u] == #[trigger] t[u]);
    }
    let x0 = xs[k];
    let l0 = x0.len() as int;
    if k + 1 == xs.len() {
        assert(quoted_items_from(xs, k) == quoted(x0));
    } else {
        assert(quoted_items_from(xs, k) == quoted(x0) + seq![','] + quoted_items_from(xs, k + 1));
    }
    assert(quoted(x0).len() == l0 + 2);
    assert(s[i] == '"') by {
        assert(t[0] == quoted(x0)[0]);
    }
    assert forall|u: int| 0 <= u < l0 implies s[i + 1 + u] == #[trigger] x0[u] by {
        assert(t[1 + u] == quoted(x0)[1 + u]);
        assert(quoted(x0)[1 + u] == x0[u]);
        assert(s[i + (1 + u)] == t[1 + u]);
    }
    assert(s[i + 1 + l0] == '"') by {
        assert(t[1 + l0] == quoted(x0)[1 + l0]);
    }
    let e = i + 1 + l0;
    assert forall|w: int| i + 1 <= w < e implies s[w] != '"' by {
        let u = w - (i + 1);
        assert(s[i + 1 + u] == x0[u]);
        assert(x0[u] != '"');
    }
    lemma_label_end_of(s, i + 1, e);
    assert(s.subrange(i + 1, e) =~= x0);
    if k + 1 == xs.len() {
        assert(quoted_items_from(xs, k) == quoted(x0));
        assert(s[e + 1] == ']') by {
            assert(t[2 + l0] == ']');
        }
        assert(parse_label_items(s, i) == Some((seq![x0], e + 2)));
        assert(seq![x0] =~= xs.skip(k));
    } else {
        assert(quoted_items_from(xs, k) == quoted(x0) + seq![','] + quoted_items_from(xs, k + 1));
        assert(s[e + 1] == ',') by {
            assert(t[2 + l0] == ',');
        }
        let rest = quoted_items_from(xs, k + 1);
        assert forall|u: int| 0 <= u < rest.len() + 1 implies s.subrange(
            e + 2,
            e + 2 + rest.len() + 1,
        )[u] == (rest + seq![']'])[u] by {
            assert(t[2 + l0 + 1 + u] == (rest + seq![']'])[u]);
            assert(s[i + (2 + l0 + 1 + u)] == t[2 + l0 + 1 + u]);
        }
        assert(s.subrange(e + 2, e + 2 + rest.len() + 1) =~= rest + seq![']']);
        lemma_label_items_of_text(s, e + 2, xs, k + 1);
        assert(parse_label_items(s, e + 2) == Some((xs.skip(k + 1), e + 2 + rest.len() + 1)));
        assert(parse_label_items(s, i) == Some(
            (seq![x0] + xs.skip(k + 1), e + 2 + rest.len() + 1),
        ));
        assert(seq![x0] + xs.skip(k + 1) =~= xs.skip(k));
    }
}

/// The canonical text of one quoted rule parses back to that rule.
#[verifier::rlimit(100)]
pub proof fn lemma_rule_item_of_text(s: Seq<char>, i: int, r: OutRule)
    requires
        0 <= i,
        i + rule_text(r).len() + 2 <= s.len(),
        s.subrange(i, i + rule_text(r).len() + 2) == quoted(rule_text(r)),
    ensures
        parse_rule_item(s, i) == Some((r, i + rule_text(r).len() + 2)),
{
    let x = rule_text(r);
    let lx = x.len() as int;
    let q = quoted(x);
    assert(forall|u: int| 0 <= u < lx + 2 ==> s[i + u] == #[trigger] q[u]) by {
        assert(forall|u: int| 0 <= u < lx + 2 ==> s.subrange(i, i + lx + 2)[u] == #[trigger] q[u]);
    }
    assert(s[i] == '"') by {
        assert(q[0] == '"');
    }
    assert forall|u: int| 0 <= u < lx implies s[i + 1 + u] == #[trigger] x[u] by {
        assert(q[1 + u] == x[u]);
        assert(s[i + (1 + u)] == q[1 + u]);
    }
    assert(s[i + 1 + lx] == '"') by {
        assert(q[1 + lx] == '"');
        assert(s[i + (1 + lx)] == q[1 + lx]);
    }
    match r {
        OutRule::Any => {
            assert(s[i + 1] == 'a');
            assert(s[i + 2] == 'n');
            assert(s[i + 3] == 'y');
            assert(s[i + 4] == '"');
        },
        OutRule::Address(a) => {
            assert(x == addr_seq(a));
            assert(s[i + 1] == x[0]);
            match a.ip {
                IpAddress::V4 { a: o1, .. } => {
                    crate::text::lemma_rep_digits(o1 as nat, 10);
                    assert(x[0] == rep(o1 as nat, 10)[0]);
                    assert(crate::text::is_base_digit(x[0], 10));
                    assert(x[0] != 'a');
                },
                IpAddress::V6 { .. } => {
                    assert(x[0] == '[');
                },
            }
            assert(s.subrange(i + 1, i + 1 + lx) =~= x);
            crate::addr::lemma_parse_sockaddr_of_text(s, i + 1, a);
            assert(parse_sockaddr(s, i + 1) == Some((a, i + 1 + lx)));
        },
    }
}

/// The canonical text of a nonempty rule-array tail, closed by the
/// bracket, parses back to exactly that tail.
#[verifier::rlimit(100)]
pub proof fn lemma_rule_items_of_text(s: Seq<char>, i: int, rs: Seq<OutRule>, k: int)
    requires
        0 <= k < rs.len(),
        0 <= i,
        i + quoted_items_from(rs.map_values(|r: OutRule| rule_text(r)), k).len() + 1 <= s.len(),
        s.subrange(
            i,
            i + quoted_items_from(rs.map_values(|r: OutRule| rule_text(r)), k).len() + 1,
        ) == quoted_items_from(rs.map_values(|r: OutRule| rule_text(r)), k) + seq![']'],
    ensures
        parse_rule_items(s, i) == Some(
            (
                rs.skip(k),
                i + quoted_items_from(rs.map_values(|r: OutRule| rule_text(r)), k).len() + 1,
            ),
        ),
    decreases rs.len() - k,
{
    let xv = rs.map_values(|r: OutRule| rule_text(r));
    let t = quoted_items_from(xv, k) + seq![']'];
    let ll = t.len();
    assert(forall|u: int| 0 <= u < ll ==> s[i + u] == #[trigger] t[u]) by {
        assert(forall|u: int| 0 <= u < ll ==> s.subrange(i, i + ll)[u] == #[trigger] t[u]);
    }
    let r0 = rs[k];
    let x0 = xv[k];
    assert(x0 == rule_text(r0));
    let l0 = x0.len() as int;
    if k + 1 == xv.len() {
        assert(quoted_items_from(xv, k) == quoted(x0));
    } else {
        assert(quoted_items_from(xv, k) == quoted(x0) + seq![','] + quoted_items_from(xv, k + 1));
    }
    assert(quoted(x0).len() == l0 + 2);
    assert forall|u: int| 0 <= u < l0 + 2 implies s.subrange(i, i + l0 + 2)[u] == quoted(x0)[u] by {
        assert(t[u] == quoted(x0)[u]);
        assert(s[i + u] == t[u]);
    }
    assert(s.subrange(i, i + l0 + 2) =~= quoted(x0));
    lemma_rule_item_of_text(s, i, r0);
    let e2 = i + l0 + 2;
    if k + 1 == rs.len() {
        assert(s[e2] == ']') by {
            assert(t[l0 + 2] == ']');
        }
        assert(parse_rule_items(s, i) == Some((seq![r0], e2 + 1)));
        assert(seq![r0] =~= rs.skip(k));
    } else {
        assert(s[e2] == ',') by {
            assert(t[l0 + 2] == ',');
        }
        let rest = quoted_items_from(xv, k + 1);
        assert forall|u: int| 0 <= u < rest.len() + 1 implies s.subrange(
            e2 + 1,
            e2 + 1 + rest.len() + 1,
        )[u] == (rest + seq![']'])[u] by {
            assert(t[l0 + 3 + u] == (rest + seq![']'])[u]);
            assert(s[i + (l0 + 3 + u)] == t[l0 + 3 + u]);
        }
        assert(s.subrange(e2 + 1, e2 + 1 + rest.len() + 1) =~= rest + seq![']']);
        lemma_rule_items_of_text(s, e2 + 1, rs, k + 1);
        assert(parse_rule_items(s, e2 + 1) == Some((rs.skip(k + 1), e2 + 1 + rest.len() + 1)));
        assert(parse_rule_items(s, i) == Some(
            (seq![r0] + rs.skip(k + 1), e2 + 1 + rest.len() + 1),
        ));
        assert(seq![r0] + rs.skip(k + 1) =~= rs.skip(k));
    }
}

/// The canonical text of a signed integer in range, followed by a
/// non-digit, parses back to that integer.
pub proof fn lemma_int_of_text(s: Seq<char>, i: int, p: int)
    requires
        0 <= i,
        -0x8000000000000000 <= p <= 0x7FFFFFFFFFFFFFFF,
        i + int_text(p).len() <= s.len(),
        s.subrange(i, i + int_text(p).len()) == int_text(p),
        i + int_text(p).len() == s.len() || !crate::text::is_base_digit(
            s[i + int_text(p).len()],
            10,
        ),
    ensures
        parse_int(s, i) == Some((p, i + int_text(p).len())),
{
    let t = int_text(p);
    let ll = t.len() as int;
    assert(forall|u: int| 0 <= u < ll ==> s[i + u] == #[trigger] t[u]) by {
        assert(forall|u: int| 0 <= u < ll ==> s.subrange(i, i + ll)[u] == #[trigger] t[u]);
    }
    if p >= 0 {
        assert(t == rep(p as nat, 10));
        crate::text::lemma_rep_digits(p as nat, 10);
        assert(s[i] == t[0]);
        assert(crate::text::is_base_digit(s[i], 10));
        assert(s[i] != '-');
        assert(s.subrange(i, i + ll) == rep(p as nat, 10));
        crate::addr::lemma_parse_field_of_rep(s, i, 10, 0x7FFFFFFFFFFFFFFF, p as nat);
    } else {
        let m = (-p) as nat;
        assert(t == seq!['-'] + rep(m, 10));
        crate::text::lemma_rep_digits(m, 10);
        assert(s[i] == '-') by {
            assert(t[0] == '-');
        }
        let rm = rep(m, 10);
        assert forall|u: int| 0 <= u < rm.len() implies s.subrange(i + 1, i + ll)[u] == rm[u] by {
            assert(t[1 + u] == rm[u]);
            assert(s[i + (1 + u)] == t[1 + u]);
        }
        assert(s.subrange(i + 1, i + ll) =~= rm);
        crate::addr::lemma_parse_field_of_rep(s, i + 1, 10, 0x8000000000000000, m);
        assert(m >= 1);
    }
}

/// The front of a match text: the literals, the two identifiers, and the
/// label array, as the parser will find them.
#[verifier::rlimit(100)]
proof fn lemma_match_text_front(m: MatchView)
    requires
        match_wf(m),
    ensures
        ({
            let s = match_text(m);
            let j = 113 + quoted_items_from(m.tunnel_labels, 0).len() as int + 1;
            &&& s.len() >= j
            &&& s.subrange(0, 7) == lit_id_prefix()
            &&& s.subrange(7, 43) == uuid_seq(m.id.value as nat)
            &&& s.subrange(43, 58) == lit_tunnel_id()
            &&& s.subrange(58, 94) == uuid_seq(m.tunnel_id.value as nat)
            &&& s.subrange(94, 113) == lit_labels()
            &&& parse_labels(s, 113) == Some((m.tunnel_labels, j))
        }),
{
    let s = match_text(m);
    let xv = m.tunnel_labels;
    let lt = quoted_items_from(xv, 0);
    let j = 113 + lt.len() as int + 1;
    assert(s.subrange(0, 7) =~= lit_id_prefix());
    assert(s.subrange(7, 43) =~= uuid_seq(m.id.value as nat));
    assert(s.subrange(43, 58) =~= lit_tunnel_id());
    assert(s.subrange(58, 94) =~= uuid_seq(m.tunnel_id.value as nat));
    assert(s.subrange(94, 113) =~= lit_labels());
    if xv.len() == 0 {
        assert(lt =~= Seq::<char>::empty());
        assert(s[113] == ']');
        assert(parse_labels(s, 113) == Some((Seq::<Seq<char>>::empty(), 114int)));
        assert(Seq::<Seq<char>>::empty() =~= xv);
    } else {
        assert(s.subrange(113, j) =~= lt + seq![']']);
        lemma_label_items_of_text(s, 113, xv, 0);
        assert(s[113] == '"') by {
            assert((lt + seq![']'])[0] == quoted(xv[0])[0]) by {
                if xv.len() == 1 {
                    assert(lt == quoted(xv[0]));
                } else {
                    assert(lt == quoted(xv[0]) + seq![','] + quoted_items_from(xv, 1));
                }
            }
            assert(s.subrange(113, j)[0] == s[113]);
        }
        assert(parse_labels(s, 113) == Some((xv.skip(0), j)));
        assert(xv.skip(0) =~= xv);
    }
}

/// The middle of a match text: the priority and the rule array, as the
/// parser will find them.
#[verifier::rlimit(100)]
proof fn lemma_match_text_middle(m: MatchView)
    requires
        -0x8000000000000000 <= m.tunnel_priority <= 0x7FFFFFFFFFFFFFFF,
    ensures
        ({
            let s = match_text(m);
            let j = 113 + quoted_items_from(m.tunnel_labels, 0).len() as int + 1;
            let k = j + 19 + int_text(m.tunnel_priority).len() as int;
            let l = k + 18 + quoted_items_from(
                m.routing_rules.map_values(|r: OutRule| rule_text(r)),
                0,
            ).len() as int + 1;
            &&& s.len() >= l
            &&& s.subrange(j, j + 19) == lit_priority()
            &&& parse_int(s, j + 19) == Some((m.tunnel_priority, k))
            &&& s.subrange(k, k + 18) == lit_rules()
            &&& parse_rules(s, k + 18) == Some((m.routing_rules, l))
        }),
{
    let s = match_text(m);
    let lt = quoted_items_from(m.tunnel_labels, 0);
    let pt = int_text(m.tunnel_priority);
    let rv = m.routing_rules.map_values(|r: OutRule| rule_text(r));
    let rt = quoted_items_from(rv, 0);
    let j = 113 + lt.len() as int + 1;
    let k = j + 19 + pt.len() as int;
    let l = k + 18 + rt.len() as int + 1;
    assert(s.subrange(j, j + 19) =~= lit_priority());
    assert(s.subrange(j + 19, k) =~= pt);
    assert(s[k] == ',');
    lemma_int_of_text(s, j + 19, m.tunnel_priority);
    assert(s.subrange(k, k + 18) =~= lit_rules());
    if rv.len() == 0 {
        assert(rt =~= Seq::<char>::empty());
        assert(s[k + 18] == ']');
        assert(parse_rules(s, k + 18) == Some((Seq::<OutRule>::empty(), k + 19)));
        assert(Seq::<OutRule>::empty() =~= m.routing_rules);
    } else {
        assert(s.subrange(k + 18, l) =~= rt + seq![']']);
        lemma_rule_items_of_text(s, k + 18, m.routing_rules, 0);
        assert(s[k + 18] == '"') by {
            assert((rt + seq![']'])[0] == quoted(rv[0])[0]) by {
                if rv.len() == 1 {
                    assert(rt == quoted(rv[0]));
                } else {
                    assert(rt == quoted(rv[0]) + seq![','] + quoted_items_from(rv, 1));
                }
            }
            assert(s.subrange(k + 18, l)[0] == s[k + 18]);
        }
        assert(parse_rules(s, k + 18) == Some((m.routing_rules.skip(0), l)));
        assert(m.routing_rules.skip(0) =~= m.routing_rules);
    }
}

/// The end of a match text: the address and the closing characters, as
/// the parser will find them.
#[verifier::rlimit(100)]
proof fn lemma_match_text_end(m: MatchView)
    ensures
        ({
            let s = match_text(m);
            let j = 113 + quoted_items_from(m.tunnel_labels, 0).len() as int + 1;
            let k = j + 19 + int_text(m.tunnel_priority).len() as int;
            let l = k + 18 + quoted_items_from(
                m.routing_rules.map_values(|r: OutRule| rule_text(r)),
                0,
            ).len() as int + 1;
            let e = l + 12 + addr_seq(m.address).len() as int;
            &&& s.len() == e + 2
            &&& s.subrange(l, l + 12) == lit_address()
            &&& parse_sockaddr(s, l + 12) == Some((m.address, e))
            &&& s[e] == '"'
            &&& s[e + 1] == '}'
        }),
{
    let s = match_text(m);
    let lt = quoted_items_from(m.tunnel_labels, 0);
    let pt = int_text(m.tunnel_priority);
    let rv = m.routing_rules.map_values(|r: OutRule| rule_text(r));
    let rt = quoted_items_from(rv, 0);
    let at = addr_seq(m.address);
    let j = 113 + lt.len() as int + 1;
    let k = j + 19 + pt.len() as int;
    let l = k + 18 + rt.len() as int + 1;
    let e = l + 12 + at.len() as int;
    assert(s.len() == e + 2);
    assert(s.subrange(l, l + 12) =~= lit_address());
    assert(s.subrange(l + 12, e) =~= at);
    assert(s[e] == '"');
    assert(s[e + 1] == '}');
    crate::addr::lemma_parse_sockaddr_of_text(s, l + 12, m.address);
}

/// Any well-formed match record decodes back from its own encoding.
#[verifier::rlimit(100)]
pub proof fn lemma_match_round_trip(m: MatchView)
    requires
        match_wf(m),
        -0x8000000000000000 <= m.tunnel_priority <= 0x7FFFFFFFFFFFFFFF,
    ensures
        parse_match(match_text(m)) == Some(m),
{
    let s = match_text(m);
    lemma_pow16_32();
    lemma_uuid_round(m.id.value as nat);
    lemma_uuid_round(m.tunnel_id.value as nat);
    lemma_match_text_front(m);
    lemma_match_text_middle(m);
    lemma_match_text_end(m);
    assert(uuid_val_of(s.subrange(7, 43)) == m.id.value);
    assert(uuid_val_of(s.subrange(58, 94)) == m.tunnel_id.value);
}

} // verus!
