//! Textual rendering and parsing of unsigned numbers in a small base
//! (decimal and hexadecimal), the foundation of every wire encoding in
//! this crate.

use vstd::prelude::*;
use vstd::string::StrSliceExecFns;

verus! {

/// The character for a single digit value (lowercase for 10..16).
pub open spec fn digit_char(d: nat) -> char {
    if d == 0 {
        '0'
    } else if d == 1 {
        '1'
    } else if d == 2 {
        '2'
    } else if d == 3 {
        '3'
    } else if d == 4 {
        '4'
    } else if d == 5 {
        '5'
    } else if d == 6 {
        '6'
    } else if d == 7 {
        '7'
    } else if d == 8 {
        '8'
    } else if d == 9 {
        '9'
    } else if d == 10 {
        'a'
    } else if d == 11 {
        'b'
    } else if d == 12 {
        'c'
    } else if d == 13 {
        'd'
    } else if d == 14 {
        'e'
    } else if d == 15 {
        'f'
    } else {
        '?'
    }
}

/// The value of a digit character, or -1 when it is none.
pub open spec fn digit_val(c: char) -> int {
    if c == '0' {
        0
    } else if c == '1' {
        1
    } else if c == '2' {
        2
    } else if c == '3' {
        3
    } else if c == '4' {
        4
    } else if c == '5' {
        5
    } else if c == '6' {
        6
    } else if c == '7' {
        7
    } else if c == '8' {
        8
    } else if c == '9' {
        9
    } else if c == 'a' {
        10
    } else if c == 'b' {
        11
    } else if c == 'c' {
        12
    } else if c == 'd' {
        13
    } else if c == 'e' {
        14
    } else if c == 'f' {
        15
    } else {
        -1
    }
}

/// Whether `c` is a digit of the given base.
pub open spec fn is_base_digit(c: char, base: nat) -> bool {
    0 <= digit_val(c) < base
}

/// Minimal-length representation of `n` in `base`, most significant digit
/// first (so `rep(0, 10)` is `"0"`).
pub open spec fn rep(n: nat, base: nat) -> Seq<char>
    decreases n,
        when 2 <= base
        via rep_decreases
{
    if n < base {
        seq![digit_char(n)]
    } else {
        rep(n / base, base).push(digit_char(n % base))
    }
}

#[via_fn]
proof fn rep_decreases(n: nat, base: nat) {
    if n >= base {
        vstd::arithmetic::div_mod::lemma_div_is_strictly_smaller(n as int, base as int);
    }
}

/// Fixed-width representation of `n` in `base`, zero-padded on the left.
pub open spec fn rep_fixed(n: nat, base: nat, width: nat) -> Seq<char>
    decreases width,
{
    if width == 0 {
        seq![]
    } else {
        rep_fixed(n / base, base, (width - 1) as nat).push(digit_char(n % base))
    }
}

/// The value of a digit string read most significant digit first.
pub open spec fn val_of(s: Seq<char>, base: nat) -> int
    decreases s.len(),
{
    if s.len() == 0 {
        0
    } else {
        val_of(s.drop_last(), base) * base + digit_val(s.last())
    }
}

/// `base` raised to `e`.
pub open spec fn pow_n(base: nat, e: nat) -> nat
    decreases e,
{
    if e == 0 {
        1
    } else {
        base * pow_n(base, (e - 1) as nat)
    }
}

pub proof fn lemma_digit_char_val(d: nat)
    requires
        d < 16,
    ensures
        digit_val(digit_char(d)) == d,
{
}

/// Every character of `rep(n, base)` is a digit of `base`, and the
/// representation is never empty.
pub proof fn lemma_rep_digits(n: nat, base: nat)
    requires
        2 <= base <= 16,
    ensures
        rep(n, base).len() >= 1,
        forall|i: int|
            0 <= i < rep(n, base).len() ==> is_base_digit(#[trigger] rep(n, base)[i], base),
    decreases n,
{
    if n < base {
        lemma_digit_char_val(n);
    } else {
        vstd::arithmetic::div_mod::lemma_div_is_strictly_smaller(n as int, base as int);
        lemma_rep_digits(n / base, base);
        lemma_digit_char_val(n % base);
        assert forall|i: int| 0 <= i < rep(n, base).len() implies is_base_digit(
            #[trigger] rep(n, base)[i],
            base,
        ) by {
            if i < rep(n / base, base).len() {
                assert(rep(n, base)[i] == rep(n / base, base)[i]);
            } else {
                assert(rep(n, base)[i] == digit_char(n % base));
            }
        }
    }
}

/// Reading back the representation of `n` gives `n`.
pub proof fn lemma_val_rep(n: nat, base: nat)
    requires
        2 <= base <= 16,
    ensures
        val_of(rep(n, base), base) == n,
    decreases n,
{
    if n < base {
        lemma_digit_char_val(n);
        assert(rep(n, base) == seq![digit_char(n)]);
        assert(rep(n, base).drop_last() =~= Seq::<char>::empty());
        assert(rep(n, base).last() == digit_char(n));
        assert(val_of(rep(n, base), base) == val_of(Seq::<char>::empty(), base) * base
            + digit_val(digit_char(n)));
        assert(val_of(Seq::<char>::empty(), base) == 0);
    } else {
        vstd::arithmetic::div_mod::lemma_div_is_strictly_smaller(n as int, base as int);
        lemma_val_rep(n / base, base);
        lemma_digit_char_val(n % base);
        assert(rep(n, base) == rep(n / base, base).push(digit_char(n % base)));
        assert(rep(n, base).drop_last() =~= rep(n / base, base));
        assert(rep(n, base).last() == digit_char(n % base));
        assert(val_of(rep(n, base), base) == val_of(rep(n / base, base), base) * base
            + digit_val(digit_char(n % base)));
        vstd::arithmetic::div_mod::lemma_fundamental_div_mod(n as int, base as int);
        assert((n / base) * base == base * (n / base)) by (nonlinear_arith);
    }
}

/// A fixed-width representation has its stated width, all digits, and
/// reads back to `n` whenever `n` fits in the width.
pub proof fn lemma_val_rep_fixed(n: nat, base: nat, width: nat)
    requires
        2 <= base <= 16,
        n < pow_n(base, width),
    ensures
        rep_fixed(n, base, width).len() == width,
        forall|i: int|
            0 <= i < width ==> is_base_digit(#[trigger] rep_fixed(n, base, width)[i], base),
        val_of(rep_fixed(n, base, width), base) == n,
    decreases width,
{
    if width == 0 {
    } else {
        assert(n / base < pow_n(base, (width - 1) as nat)) by (nonlinear_arith)
            requires
                base >= 2,
                n < base * pow_n(base, (width - 1) as nat),
        ;
        lemma_val_rep_fixed(n / base, base, (width - 1) as nat);
        lemma_digit_char_val(n % base);
        assert(rep_fixed(n, base, width).drop_last() =~= rep_fixed(n / base, base, (width - 1) as nat));
        assert(rep_fixed(n, base, width).last() == digit_char(n % base));
        vstd::arithmetic::div_mod::lemma_fundamental_div_mod(n as int, base as int);
        assert((n / base) * base == base * (n / base)) by (nonlinear_arith);
        assert forall|i: int| 0 <= i < width implies is_base_digit(
            #[trigger] rep_fixed(n, base, width)[i],
            base,
        ) by {
            if i < width - 1 {
                assert(rep_fixed(n, base, width)[i] == rep_fixed(n / base, base, (width - 1) as nat)[i]);
            } else {
                assert(rep_fixed(n, base, width)[i] == digit_char(n % base));
            }
        }
    }
}

/// The value of a digit string is nonnegative.
pub proof fn lemma_val_nonneg(s: Seq<char>, base: nat)
    requires
        2 <= base <= 16,
        forall|i: int| 0 <= i < s.len() ==> is_base_digit(#[trigger] s[i], base),
    ensures
        val_of(s, base) >= 0,
    decreases s.len(),
{
    if s.len() > 0 {
        assert(forall|i: int|
            0 <= i < s.drop_last().len() ==> is_base_digit(#[trigger] s.drop_last()[i], base));
        lemma_val_nonneg(s.drop_last(), base);
        assert(digit_val(s.last()) >= 0);
    }
}

/// Taking a prefix of a digit string can only shrink its value.
pub proof fn lemma_val_prefix(s: Seq<char>, k: int, base: nat)
    requires
        2 <= base <= 16,
        0 <= k <= s.len(),
        forall|i: int| 0 <= i < s.len() ==> is_base_digit(#[trigger] s[i], base),
    ensures
        val_of(s.take(k), base) <= val_of(s, base),
    decreases s.len(),
{
    if k == s.len() {
        assert(s.take(k) =~= s);
    } else {
        assert(forall|i: int|
            0 <= i < s.drop_last().len() ==> is_base_digit(#[trigger] s.drop_last()[i], base));
        assert(s.drop_last().take(k) =~= s.take(k));
        lemma_val_prefix(s.drop_last(), k, base);
        lemma_val_nonneg(s.drop_last(), base);
        assert(digit_val(s.last()) >= 0);
        assert(val_of(s, base) >= val_of(s.drop_last(), base)) by (nonlinear_arith)
            requires
                val_of(s, base) == val_of(s.drop_last(), base) * base + digit_val(s.last()),
                val_of(s.drop_last(), base) >= 0,
                digit_val(s.last()) >= 0,
                base >= 2,
        ;
    }
}

/// The position where a run of digits starting at `i` ends.
pub open spec fn run_end(s: Seq<char>, i: int, base: nat) -> int
    decreases s.len() - i,
        when i <= s.len()
{
    if i < 0 || i >= s.len() || !is_base_digit(s[i], base) {
        i
    } else {
        run_end(s, i + 1, base)
    }
}

/// Characterization of `run_end`: it marks the maximal digit run.
pub proof fn lemma_run_end_of(s: Seq<char>, i: int, j: int, base: nat)
    requires
        0 <= i <= j <= s.len(),
        forall|k: int| i <= k < j ==> is_base_digit(#[trigger] s[k], base),
        j == s.len() || !is_base_digit(s[j as int], base),
    ensures
        run_end(s, i, base) == j,
    decreases j - i,
{
    if i == j {
    } else {
        lemma_run_end_of(s, i + 1, j, base);
    }
}

/// The digit character for a digit value, executable form.
pub fn digit_char_exec(d: u64) -> (c: char)
    requires
        d < 16,
    ensures
        c == digit_char(d as nat),
{
    if d == 0 {
        '0'
    } else if d == 1 {
        '1'
    } else if d == 2 {
        '2'
    } else if d == 3 {
        '3'
    } else if d == 4 {
        '4'
    } else if d == 5 {
        '5'
    } else if d == 6 {
        '6'
    } else if d == 7 {
        '7'
    } else if d == 8 {
        '8'
    } else if d == 9 {
        '9'
    } else if d == 10 {
        'a'
    } else if d == 11 {
        'b'
    } else if d == 12 {
        'c'
    } else if d == 13 {
        'd'
    } else if d == 14 {
        'e'
    } else {
        'f'
    }
}

/// The digit value of a character, executable form (16 means "no digit").
pub fn digit_val_exec(c: char) -> (d: u64)
    ensures
        d < 16 ==> d == digit_val(c),
        d == 16 ==> digit_val(c) == -1,
        d <= 16,
{
    if c == '0' {
        0
    } else if c == '1' {
        1
    } else if c == '2' {
        2
    } else if c == '3' {
        3
    } else if c == '4' {
        4
    } else if c == '5' {
        5
    } else if c == '6' {
        6
    } else if c == '7' {
        7
    } else if c == '8' {
        8
    } else if c == '9' {
        9
    } else if c == 'a' {
        10
    } else if c == 'b' {
        11
    } else if c == 'c' {
        12
    } else if c == 'd' {
        13
    } else if c == 'e' {
        14
    } else if c == 'f' {
        15
    } else {
        16
    }
}

/// Appends the minimal representation of `n` in `base`.
pub fn push_rep_u64(out: &mut Vec<char>, n: u64, base: u64)
    requires
        2 <= base <= 16,
    ensures
        final(out)@ == old(out)@ + rep(n as nat, base as nat),
    decreases n,
{
    if n >= base {
        proof {
            vstd::arithmetic::div_mod::lemma_div_is_strictly_smaller(n as int, base as int);
        }
        push_rep_u64(out, n / base, base);
    }
    out.push(digit_char_exec(n % base));
    proof {
        let a = old(out)@;
        let c = digit_char((n % base) as nat);
        if n >= base {
            let b = rep((n / base) as nat, base as nat);
            assert(out@ == (a + b).push(c));
            assert(rep(n as nat, base as nat) == b.push(c));
            assert(out@ =~= a + rep(n as nat, base as nat));
        } else {
            vstd::arithmetic::div_mod::lemma_small_mod(n as nat, base as nat);
            assert(out@ == a.push(c));
            assert(rep(n as nat, base as nat) == seq![c]);
            assert(out@ =~= a + rep(n as nat, base as nat));
        }
    }
}

/// Appends the fixed-width base-16 representation of `n`.
pub fn push_hex_fixed_u128(out: &mut Vec<char>, n: u128, width: usize)
    ensures
        final(out)@ == old(out)@ + rep_fixed(n as nat, 16, width as nat),
    decreases width,
{
    if width > 0 {
        push_hex_fixed_u128(out, n / 16, width - 1);
        out.push(digit_char_exec((n % 16) as u64));
    }
    proof {
        assert(out@ =~= old(out)@ + rep_fixed(n as nat, 16, width as nat));
    }
}

/// Scans the maximal digit run of `base` starting at `start`.  Returns the
/// run's value and its end, or `None` when there is no digit at `start` or
/// the value exceeds `u64::MAX`.
pub fn scan_uint(cs: &Vec<char>, start: usize, base: u64) -> (r: Option<(u64, usize)>)
    requires
        2 <= base <= 16,
        start <= cs@.len(),
    ensures
        ({
            let e = run_end(cs@, start as int, base as nat);
            match r {
                Some(p) => {
                    let (v, end) = p;
                    &&& end == e
                    &&& start < end <= cs@.len()
                    &&& v as int == val_of(cs@.subrange(start as int, e), base as nat)
                },
                None => e == start || val_of(cs@.subrange(start as int, e), base as nat)
                    > u64::MAX,
            }
        }),
{
    let ghost e = run_end(cs@, start as int, base as nat);
    let mut i: usize = start;
    let mut v: u128 = 0;
    loop
        invariant
            2 <= base <= 16,
            start <= i <= cs@.len(),
            e == run_end(cs@, start as int, base as nat),
            e == run_end(cs@, i as int, base as nat),
            forall|k: int| start <= k < i ==> is_base_digit(#[trigger] cs@[k], base as nat),
            v <= u64::MAX,
            v as int == val_of(cs@.subrange(start as int, i as int), base as nat),
        ensures
            start <= i <= cs@.len(),
            i == e,
            v <= u64::MAX,
            v as int == val_of(cs@.subrange(start as int, i as int), base as nat),
        decreases cs@.len() - i,
    {
        if i >= cs.len() {
            break;
        }
        let d = digit_val_exec(cs[i]);
        if d >= base {
            break;
        }
        proof {
            assert(is_base_digit(cs@[i as int], base as nat));
            assert(cs@.subrange(start as int, i + 1).drop_last() =~= cs@.subrange(
                start as int,
                i as int,
            ));
            assert(v as int * (base as int) + (d as int) < 0x100000000000000000000000000000000)
                by (nonlinear_arith)
                requires
                    v <= 0xFFFFFFFFFFFFFFFFu64,
                    base <= 16,
                    d <= 16,
            ;
        }
        let nv: u128 = v * (base as u128) + (d as u128);
        if nv > u64::MAX as u128 {
            proof {
                lemma_run_digits(cs@, start as int, base as nat);
                lemma_run_end_lb(cs@, i as int, base as nat);
                lemma_val_prefix_sub(cs@, start as int, i + 1, e, base as nat);
            }
            return None;
        }
        v = nv;
        i = i + 1;
    }
    if i == start {
        None
    } else {
        Some((v as u64, i))
    }
}

/// Every position before `run_end` holds a digit.
pub proof fn lemma_run_digits(s: Seq<char>, i: int, base: nat)
    requires
        0 <= i <= s.len(),
    ensures
        forall|k: int| i <= k < run_end(s, i, base) ==> is_base_digit(#[trigger] s[k], base),
        i <= run_end(s, i, base) <= s.len(),
    decreases s.len() - i,
{
    if i < s.len() && is_base_digit(s[i], base) {
        lemma_run_digits(s, i + 1, base);
    }
}

/// The run stops at the end of the string or at a non-digit.
pub proof fn lemma_run_end_stop(s: Seq<char>, i: int, base: nat)
    requires
        0 <= i <= s.len(),
    ensures
        run_end(s, i, base) == s.len() || !is_base_digit(s[run_end(s, i, base)], base),
    decreases s.len() - i,
{
    if i < s.len() && is_base_digit(s[i], base) {
        lemma_run_end_stop(s, i + 1, base);
    }
}

/// A digit at `i` pushes `run_end` strictly past it.
pub proof fn lemma_run_end_lb(s: Seq<char>, i: int, base: nat)
    requires
        0 <= i < s.len(),
        is_base_digit(s[i], base),
    ensures
        run_end(s, i, base) >= i + 1,
{
    lemma_run_digits(s, i + 1, base);
    assert(run_end(s, i, base) == run_end(s, i + 1, base));
}

/// Prefix bound stated on subranges of one sequence.
pub proof fn lemma_val_prefix_sub(s: Seq<char>, start: int, mid: int, e: int, base: nat)
    requires
        2 <= base <= 16,
        0 <= start <= mid <= e <= s.len(),
        forall|k: int| start <= k < e ==> is_base_digit(#[trigger] s[k], base),
    ensures
        val_of(s.subrange(start, mid), base) <= val_of(s.subrange(start, e), base),
{
    assert(s.subrange(start, e).take(mid - start) =~= s.subrange(start, mid));
    assert(forall|i: int|
        0 <= i < s.subrange(start, e).len() ==> is_base_digit(
            #[trigger] s.subrange(start, e)[i],
            base,
        ));
    lemma_val_prefix(s.subrange(start, e), mid - start, base);
}

/// When the characters from `start` are exactly `rep(n, base)` followed by a
/// non-digit (or the end), the scan finds exactly `n` there.
pub proof fn lemma_scan_of_rep(s: Seq<char>, start: int, n: nat, base: nat)
    requires
        2 <= base <= 16,
        0 <= start,
        start + rep(n, base).len() <= s.len(),
        s.subrange(start, start + rep(n, base).len()) == rep(n, base),
        start + rep(n, base).len() == s.len() || !is_base_digit(
            s[start + rep(n, base).len()],
            base,
        ),
    ensures
        run_end(s, start, base) == start + rep(n, base).len(),
        val_of(s.subrange(start, start + rep(n, base).len()), base) == n,
{
    lemma_rep_digits(n, base);
    assert(forall|k: int|
        start <= k < start + rep(n, base).len() ==> is_base_digit(#[trigger] s[k], base)) by {
        assert(forall|k: int|
            start <= k < start + rep(n, base).len() ==> s[k] == rep(n, base)[k - start]);
    }
    lemma_run_end_of(s, start, start + rep(n, base).len(), base);
    lemma_val_rep(n, base);
}

/// A digit character is recovered from its value.
pub proof fn lemma_digit_char_of_val(c: char)
    requires
        digit_val(c) >= 0,
    ensures
        digit_char(digit_val(c) as nat) == c,
{
}

/// A nonempty digit string without a leading zero has a positive value.
pub proof fn lemma_val_pos(s: Seq<char>, base: nat)
    requires
        2 <= base <= 16,
        s.len() >= 1,
        forall|i: int| 0 <= i < s.len() ==> is_base_digit(#[trigger] s[i], base),
        s[0] != '0',
    ensures
        val_of(s, base) >= 1,
    decreases s.len(),
{
    if s.len() == 1 {
        assert(s.last() == s[0]);
        assert(s.drop_last() =~= Seq::<char>::empty());
    } else {
        assert(forall|i: int|
            0 <= i < s.drop_last().len() ==> is_base_digit(#[trigger] s.drop_last()[i], base));
        assert(s.drop_last()[0] == s[0]);
        lemma_val_pos(s.drop_last(), base);
        assert(val_of(s.drop_last(), base) * base >= base) by (nonlinear_arith)
            requires
                val_of(s.drop_last(), base) >= 1,
                base >= 2,
        ;
        assert(digit_val(s.last()) >= 0);
    }
}

/// A fixed-width digit string is the canonical representation of its value.
pub proof fn lemma_rep_fixed_of_val(s: Seq<char>, base: nat)
    requires
        2 <= base <= 16,
        forall|i: int| 0 <= i < s.len() ==> is_base_digit(#[trigger] s[i], base),
    ensures
        rep_fixed(val_of(s, base) as nat, base, s.len()) == s,
    decreases s.len(),
{
    if s.len() > 0 {
        let d = s.drop_last();
        assert(forall|i: int| 0 <= i < d.len() ==> is_base_digit(#[trigger] d[i], base));
        lemma_rep_fixed_of_val(d, base);
        lemma_val_nonneg(d, base);
        lemma_val_nonneg(s, base);
        let v = val_of(s, base);
        vstd::arithmetic::div_mod::lemma_fundamental_div_mod_converse(
            v,
            base as int,
            val_of(d, base),
            digit_val(s.last()),
        );
        lemma_digit_char_of_val(s.last());
        assert(rep_fixed(v as nat, base, s.len()) =~= s);
    } else {
        assert(rep_fixed(0, base, 0) =~= s);
    }
}

/// A digit string without a leading zero is the canonical minimal
/// representation of its value.
pub proof fn lemma_rep_of_val(s: Seq<char>, base: nat)
    requires
        2 <= base <= 16,
        s.len() >= 1,
        forall|i: int| 0 <= i < s.len() ==> is_base_digit(#[trigger] s[i], base),
        s.len() > 1 ==> s[0] != '0',
    ensures
        rep(val_of(s, base) as nat, base) == s,
    decreases s.len(),
{
    let v = val_of(s, base);
    if s.len() == 1 {
        assert(s.last() == s[0]);
        assert(s.drop_last() =~= Seq::<char>::empty());
        assert(s.drop_last().len() == 0);
        assert(val_of(s.drop_last(), base) == 0);
        assert(v == val_of(s.drop_last(), base) * base + digit_val(s.last()));
        assert(v == digit_val(s[0]));
        lemma_digit_char_of_val(s[0]);
        assert(rep(v as nat, base) =~= s);
    } else {
        let d = s.drop_last();
        assert(forall|i: int| 0 <= i < d.len() ==> is_base_digit(#[trigger] d[i], base));
        assert(d[0] == s[0]);
        lemma_rep_of_val(d, base);
        lemma_val_pos(d, base);
        assert(val_of(d, base) * base >= base) by (nonlinear_arith)
            requires
                val_of(d, base) >= 1,
                base >= 2,
        ;
        assert(v >= base);
        vstd::arithmetic::div_mod::lemma_fundamental_div_mod_converse(
            v,
            base as int,
            val_of(d, base),
            digit_val(s.last()),
        );
        lemma_digit_char_of_val(s.last());
        assert(rep(v as nat, base) =~= s);
    }
}

/// A fixed-width representation has exactly its width.
pub proof fn lemma_rep_fixed_len(n: nat, base: nat, width: nat)
    requires
        2 <= base <= 16,
    ensures
        rep_fixed(n, base, width).len() == width,
    decreases width,
{
    if width > 0 {
        lemma_rep_fixed_len(n / base, base, (width - 1) as nat);
        assert(rep_fixed(n, base, width) == rep_fixed(n / base, base, (width - 1) as nat).push(
            digit_char(n % base),
        ));
    }
}

/// The value of a digit string is below `base` to the power of its length.
pub proof fn lemma_val_bound(s: Seq<char>, base: nat)
    requires
        2 <= base <= 16,
        forall|i: int| 0 <= i < s.len() ==> is_base_digit(#[trigger] s[i], base),
    ensures
        val_of(s, base) < pow_n(base, s.len()),
    decreases s.len(),
{
    if s.len() > 0 {
        let d = s.drop_last();
        assert(forall|i: int| 0 <= i < d.len() ==> is_base_digit(#[trigger] d[i], base));
        lemma_val_bound(d, base);
        assert(val_of(d, base) * base + digit_val(s.last()) < pow_n(base, d.len()) * base)
            by (nonlinear_arith)
            requires
                val_of(d, base) < pow_n(base, d.len()),
                0 <= digit_val(s.last()) < base,
                base >= 2,
        ;
        assert(pow_n(base, s.len()) == base * pow_n(base, d.len()));
        assert(pow_n(base, d.len()) * base == base * pow_n(base, d.len())) by (nonlinear_arith);
    }
}

/// Powers grow with the exponent.
pub proof fn lemma_pow_n_mono(base: nat, a: nat, b: nat)
    requires
        base >= 1,
        a <= b,
    ensures
        pow_n(base, a) <= pow_n(base, b),
    decreases b,
{
    if a < b {
        lemma_pow_n_mono(base, a, (b - 1) as nat);
        assert(pow_n(base, b) == base * pow_n(base, (b - 1) as nat));
        assert(base * pow_n(base, (b - 1) as nat) >= pow_n(base, (b - 1) as nat))
            by (nonlinear_arith)
            requires
                base >= 1,
                pow_n(base, (b - 1) as nat) >= 0,
        ;
    }
}

/// Relies on `FromIterator for String` (`collect`): the returned string
/// holds exactly the given characters.
#[verifier::external_body]
pub fn chars_to_string(v: &Vec<char>) -> (s: String)
    ensures
        s@ == v@,
{
    v.iter().collect()
}

/// The characters of a string slice, gathered into a vector.
pub fn str_to_chars(s: &str) -> (v: Vec<char>)
    ensures
        v@ == s@,
{
    let n = s.unicode_len();
    let mut v: Vec<char> = Vec::new();
    let mut i: usize = 0;
    while i < n
        invariant
            n == s@.len(),
            i <= n,
            v@ == s@.take(i as int),
        decreases n - i,
    {
        v.push(s.get_char(i));
        i = i + 1;
        proof {
            assert(v@ =~= s@.take(i as int));
        }
    }
    proof {
        assert(s@.take(n as int) =~= s@);
    }
    v
}

} // verus!

