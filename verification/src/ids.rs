//! Peer and tunnel identifiers: opaque 128-bit values rendered as the
//! familiar 36-character hyphenated lowercase hexadecimal text.

use vstd::prelude::*;

use crate::text::{
    digit_val_exec, is_base_digit, lemma_pow_n_mono,
    lemma_rep_fixed_len, lemma_rep_fixed_of_val, lemma_val_bound, lemma_val_rep_fixed, pow_n,
    rep_fixed, val_of,
};

verus! {

/// A 128-bit identifier of an IN or OUT peer.
#[derive(Clone, Copy, PartialEq, Eq, Structural, Debug, Hash)]
pub struct PeerId {
    pub value: u128,
}

/// A 128-bit identifier of a live tunnel, fresh per pairing.
#[derive(Clone, Copy, PartialEq, Eq, Structural, Debug, Hash)]
pub struct TunnelId {
    pub value: u128,
}

/// Relies on `uuid::Uuid::new_v4`: draws a fresh random 128-bit identifier.
/// Nothing can be promised of a random value.
#[verifier::external_body]
pub fn mint_tunnel_id() -> TunnelId {
    TunnelId { value: uuid::Uuid::new_v4().as_u128() }
}

/// Whether text position `k` (of 36) holds a hyphen.
pub open spec fn uuid_hyphen_pos(k: int) -> bool {
    k == 8 || k == 13 || k == 18 || k == 23
}

/// How many digit positions lie strictly before text position `k`.
pub open spec fn uuid_digit_index(k: int) -> int {
    k - (if k > 8 {
        1int
    } else {
        0int
    }) - (if k > 13 {
        1int
    } else {
        0int
    }) - (if k > 18 {
        1int
    } else {
        0int
    }) - (if k > 23 {
        1int
    } else {
        0int
    })
}

/// The text position of digit number `j` (of 32).
pub open spec fn uuid_char_pos(j: int) -> int {
    j + (if j >= 8 {
        1int
    } else {
        0int
    }) + (if j >= 12 {
        1int
    } else {
        0int
    }) + (if j >= 16 {
        1int
    } else {
        0int
    }) + (if j >= 20 {
        1int
    } else {
        0int
    })
}

/// The canonical 36-character text of a 128-bit identifier value.
pub open spec fn uuid_seq(v: nat) -> Seq<char> {
    Seq::new(
        36,
        |k: int|
            if uuid_hyphen_pos(k) {
                '-'
            } else {
                rep_fixed(v, 16, 32)[uuid_digit_index(k)]
            },
    )
}

/// Whether `s` has the shape of an identifier text: hyphens at their four
/// positions, lowercase hexadecimal digits everywhere else.
pub open spec fn uuid_shape(s: Seq<char>) -> bool {
    &&& s.len() == 36
    &&& forall|k: int| 0 <= k < 36 && uuid_hyphen_pos(k) ==> #[trigger] s[k] == '-'
    &&& forall|k: int| 0 <= k < 36 && !uuid_hyphen_pos(k) ==> is_base_digit(#[trigger] s[k], 16)
}

/// The 32 digit characters of an identifier text, hyphens removed.
pub open spec fn uuid_digits(s: Seq<char>) -> Seq<char> {
    Seq::new(32, |j: int| s[uuid_char_pos(j)])
}

/// The value encoded by an identifier text.
pub open spec fn uuid_val_of(s: Seq<char>) -> int {
    val_of(uuid_digits(s), 16)
}

/// Digit index and character position are inverse to one another.
pub proof fn lemma_uuid_pos_inverse(k: int)
    requires
        0 <= k < 36,
        !uuid_hyphen_pos(k),
    ensures
        0 <= uuid_digit_index(k) < 32,
        uuid_char_pos(uuid_digit_index(k)) == k,
{
}

/// Sixteen to the thirty-second power is the number of 128-bit values.
pub proof fn lemma_pow16_32()
    ensures
        pow_n(16, 32) == 0x100000000000000000000000000000000,
{
    reveal_with_fuel(pow_n, 33);
}

/// A shaped text is the canonical text of its own value.
pub proof fn lemma_uuid_of_shape(s: Seq<char>)
    requires
        uuid_shape(s),
    ensures
        0 <= uuid_val_of(s) < pow_n(16, 32),
        s == uuid_seq(uuid_val_of(s) as nat),
{
    let d = uuid_digits(s);
    assert(forall|j: int| 0 <= j < 32 ==> is_base_digit(#[trigger] d[j], 16)) by {
        assert forall|j: int| 0 <= j < 32 implies is_base_digit(#[trigger] d[j], 16) by {
            assert(d[j] == s[uuid_char_pos(j)]);
            assert(!uuid_hyphen_pos(uuid_char_pos(j)));
        }
    }
    lemma_val_bound(d, 16);
    crate::text::lemma_val_nonneg(d, 16);
    let v = uuid_val_of(s) as nat;
    lemma_rep_fixed_of_val(d, 16);
    assert(rep_fixed(v, 16, 32) == d);
    assert forall|k: int| 0 <= k < 36 implies s[k] == uuid_seq(v)[k] by {
        if uuid_hyphen_pos(k) {
        } else {
            lemma_uuid_pos_inverse(k);
            assert(uuid_seq(v)[k] == d[uuid_digit_index(k)]);
            assert(d[uuid_digit_index(k)] == s[uuid_char_pos(uuid_digit_index(k))]);
        }
    }
    assert(s =~= uuid_seq(v));
}

/// The canonical text of a value is shaped and reads back to that value.
pub proof fn lemma_uuid_round(v: nat)
    requires
        v < pow_n(16, 32),
    ensures
        uuid_shape(uuid_seq(v)),
        uuid_seq(v).len() == 36,
        uuid_val_of(uuid_seq(v)) == v,
{
    lemma_val_rep_fixed(v, 16, 32);
    let s = uuid_seq(v);
    assert forall|k: int| 0 <= k < 36 && !uuid_hyphen_pos(k) implies is_base_digit(
        #[trigger] s[k],
        16,
    ) by {
        lemma_uuid_pos_inverse(k);
        assert(s[k] == rep_fixed(v, 16, 32)[uuid_digit_index(k)]);
    }
    assert(uuid_shape(s));
    lemma_uuid_of_shape(s);
    assert(uuid_digits(s) =~= rep_fixed(v, 16, 32)) by {
        assert forall|j: int| 0 <= j < 32 implies uuid_digits(s)[j] == rep_fixed(v, 16, 32)[j] by {
            assert(!uuid_hyphen_pos(uuid_char_pos(j)));
            assert(uuid_digit_index(uuid_char_pos(j)) == j);
            assert(s[uuid_char_pos(j)] == rep_fixed(v, 16, 32)[j]);
        }
    }
}

/// Appends the canonical text of `v` to `out`.
pub fn push_uuid(out: &mut Vec<char>, v: u128)
    ensures
        final(out)@ == old(out)@ + uuid_seq(v as nat),
{
    let mut h: Vec<char> = Vec::new();
    crate::text::push_hex_fixed_u128(&mut h, v, 32);
    proof {
        lemma_rep_fixed_len(v as nat, 16, 32);
        assert(h@ =~= rep_fixed(v as nat, 16, 32));
    }
    let ghost base0 = out@;
    let mut k: usize = 0;
    while k < 36
        invariant
            h@ == rep_fixed(v as nat, 16, 32),
            h@.len() == 32,
            k <= 36,
            out@ == base0 + uuid_seq(v as nat).take(k as int),
        decreases 36 - k,
    {
        if k == 8 || k == 13 || k == 18 || k == 23 {
            out.push('-');
        } else {
            let mut idx: usize = k;
            if k > 8 {
                idx = idx - 1;
            }
            if k > 13 {
                idx = idx - 1;
            }
            if k > 18 {
                idx = idx - 1;
            }
            if k > 23 {
                idx = idx - 1;
            }
            proof {
                assert(idx == uuid_digit_index(k as int));
                assert(0 <= uuid_digit_index(k as int) < 32) by {
                    lemma_uuid_pos_inverse(k as int);
                }
            }
            let c = h[idx];
            out.push(c);
        }
        k = k + 1;
        proof {
            assert(out@ =~= base0 + uuid_seq(v as nat).take(k as int));
        }
    }
    proof {
        assert(uuid_seq(v as nat).take(36) =~= uuid_seq(v as nat));
    }
}

/// Reads a 36-character identifier text at `start`.  Succeeds exactly when
/// the canonical shape is present, and then returns its value.
pub fn scan_uuid(cs: &Vec<char>, start: usize) -> (r: Option<u128>)
    requires
        start <= cs@.len(),
    ensures
        match r {
            Some(v) => {
                &&& start + 36 <= cs@.len()
                &&& uuid_shape(cs@.subrange(start as int, start + 36))
                &&& cs@.subrange(start as int, start + 36) == uuid_seq(v as nat)
            },
            None => !(start + 36 <= cs@.len() && uuid_shape(
                cs@.subrange(start as int, start + 36),
            )),
        },
{
    if cs.len() - start < 36 {
        return None;
    }
    let ghost sub = cs@.subrange(start as int, start + 36);
    let mut k: usize = 0;
    let mut dc: usize = 0;
    let mut v: u128 = 0;
    while k < 36
        invariant
            start + 36 <= cs@.len(),
            sub == cs@.subrange(start as int, start + 36),
            k <= 36,
            dc == uuid_digit_index(k as int),
            0 <= dc <= 32,
            forall|p: int| 0 <= p < k && uuid_hyphen_pos(p) ==> #[trigger] sub[p] == '-',
            forall|p: int|
                0 <= p < k && !uuid_hyphen_pos(p) ==> is_base_digit(#[trigger] sub[p], 16),
            v as int == val_of(uuid_digits(sub).take(dc as int), 16),
            v < pow_n(16, dc as nat),
        decreases 36 - k,
    {
        let n = cs.len();
        let c = cs[start + k];
        proof {
            assert(sub[k as int] == cs@[start + k]);
        }
        if k == 8 || k == 13 || k == 18 || k == 23 {
            if c != '-' {
                return None;
            }
        } else {
            let d = digit_val_exec(c);
            if d >= 16 {
                proof {
                    assert(!is_base_digit(sub[k as int], 16));
                }
                return None;
            }
            proof {
                lemma_uuid_pos_inverse(k as int);
                assert(uuid_char_pos(dc as int) == k as int);
                assert(uuid_digits(sub)[dc as int] == sub[k as int]);
                assert(uuid_digits(sub).take(dc + 1).drop_last() =~= uuid_digits(sub).take(
                    dc as int,
                ));
                assert(uuid_digits(sub).take(dc + 1).last() == sub[k as int]);
                lemma_pow_n_mono(16, dc as nat, 31);
                lemma_pow16_32();
                assert(pow_n(16, 32) == 16 * pow_n(16, 31));
                assert(16 * (v as int) + (d as int) < 16 * pow_n(16, dc as nat))
                    by (nonlinear_arith)
                    requires
                        v < pow_n(16, dc as nat),
                        d < 16,
                ;
                assert(16 * pow_n(16, dc as nat) <= 16 * pow_n(16, 31)) by (nonlinear_arith)
                    requires
                        pow_n(16, dc as nat) <= pow_n(16, 31),
                ;
                assert(pow_n(16, (dc + 1) as nat) == 16 * pow_n(16, dc as nat));
            }
            v = v * 16 + (d as u128);
            dc = dc + 1;
        }
        k = k + 1;
    }
    proof {
        assert(uuid_shape(sub));
        assert(dc == 32);
        assert(uuid_digits(sub).take(32) =~= uuid_digits(sub));
        assert(v as int == uuid_val_of(sub));
        lemma_uuid_of_shape(sub);
    }
    Some(v)
}

} // verus!
