//! Canonical decimal text for the integers that appear in token JSON.
//!
//! Rendering is the usual base-10 form with no leading zeros and a leading
//! `-` for negative values. Parsing accepts exactly that canonical form and
//! reports how many bytes it consumed, so the token parser can prove that a
//! parsed document is byte-identical to the canonical serialization.

use vstd::prelude::*;

verus! {

pub open spec fn is_digit(b: u8) -> bool {
    48 <= b <= 57
}

/// Canonical decimal bytes of a natural number.
pub open spec fn dec_nat(n: nat) -> Seq<u8>
    decreases n,
{
    if n < 10 {
        seq![(48 + n) as u8]
    } else {
        dec_nat(n / 10).push((48 + n % 10) as u8)
    }
}

/// Canonical decimal bytes of a signed 64-bit value.
pub open spec fn dec_i64(n: i64) -> Seq<u8> {
    if n >= 0 {
        dec_nat(n as nat)
    } else {
        seq![45u8] + dec_nat((-(n as int)) as nat)
    }
}

/// Value of a digit string (most significant digit first).
pub open spec fn dec_value(s: Seq<u8>) -> nat
    decreases s.len(),
{
    if s.len() == 0 {
        0
    } else {
        dec_value(s.drop_last()) * 10 + (s.last() - 48) as nat
    }
}

pub open spec fn all_digits(s: Seq<u8>) -> bool {
    forall|i: int| 0 <= i < s.len() ==> is_digit(#[trigger] s[i])
}

/// End of the digit run that starts at `i`.
pub open spec fn digit_run_end(s: Seq<u8>, i: int) -> int
    decreases s.len() - i,
{
    if 0 <= i < s.len() && is_digit(s[i]) {
        digit_run_end(s, i + 1)
    } else {
        i
    }
}

/// Strict parse of an unsigned 64-bit decimal at position `i`: the digit run
/// must be non-empty, carry no leading zero, and fit in a `u64`.
pub open spec fn spec_parse_u64(s: Seq<u8>, i: int) -> Option<(u64, int)> {
    let j = digit_run_end(s, i);
    if j == i {
        None
    } else if s[i] == 48 && j > i + 1 {
        None
    } else if dec_value(s.subrange(i, j)) > u64::MAX {
        None
    } else {
        Some((dec_value(s.subrange(i, j)) as u64, j))
    }
}

/// Strict parse of a signed 64-bit decimal at position `i`. `-0` and any
/// value outside the `i64` range are refused.
pub open spec fn spec_parse_i64(s: Seq<u8>, i: int) -> Option<(i64, int)> {
    if 0 <= i < s.len() && s[i] == 45 {
        match spec_parse_u64(s, i + 1) {
            Some((m, j)) => if m == 0 || m > 0x8000_0000_0000_0000u64 {
                None
            } else {
                Some(((-(m as int)) as i64, j))
            },
            None => None,
        }
    } else {
        match spec_parse_u64(s, i) {
            Some((m, j)) => if m > i64::MAX as u64 {
                None
            } else {
                Some((m as i64, j))
            },
            None => None,
        }
    }
}

pub proof fn lemma_dec_value_singleton(b: u8)
    ensures
        dec_value(seq![b]) == (b - 48) as nat,
{
    let s = seq![b];
    assert(s.last() == b);
    assert(s.drop_last() =~= Seq::<u8>::empty());
    assert(dec_value(s.drop_last()) == 0);
}

pub proof fn lemma_dec_nat_digits(n: nat)
    ensures
        dec_nat(n).len() >= 1,
        all_digits(dec_nat(n)),
        dec_nat(n)[0] == 48 ==> n == 0,
        n == 0 ==> dec_nat(n) == seq![48u8],
    decreases n,
{
    if n < 10 {
        assert(dec_nat(n) == seq![(48 + n) as u8]);
    } else {
        lemma_dec_nat_digits(n / 10);
        let p = dec_nat(n / 10);
        let w = p.push((48 + n % 10) as u8);
        assert(dec_nat(n) == w);
        assert(w[0] == p[0]);
        assert(forall|i: int| 0 <= i < w.len() ==> is_digit(#[trigger] w[i])) by {
            assert(forall|i: int| 0 <= i < p.len() ==> is_digit(#[trigger] p[i]));
            assert(w.last() == (48 + n % 10) as u8);
            assert(forall|i: int| 0 <= i < w.len() ==> w[i] == (if i < p.len() {
                p[i]
            } else {
                w.last()
            }));
        }
        assert(n / 10 > 0) by (nonlinear_arith)
            requires
                n >= 10,
        ;
    }
}

pub proof fn lemma_dec_value_of_dec_nat(n: nat)
    ensures
        dec_value(dec_nat(n)) == n,
    decreases n,
{
    if n < 10 {
        let s = dec_nat(n);
        assert(s == seq![(48 + n) as u8]);
        lemma_dec_value_singleton((48 + n) as u8);
    } else {
        lemma_dec_value_of_dec_nat(n / 10);
        let s = dec_nat(n);
        assert(s == dec_nat(n / 10).push((48 + n % 10) as u8));
        assert(s.drop_last() =~= dec_nat(n / 10));
        assert(dec_value(s) == (n / 10) * 10 + n % 10);
        assert((n / 10) * 10 + n % 10 == n) by (nonlinear_arith);
    }
}

/// Extending a digit string never lowers its value.
pub proof fn lemma_dec_value_prefix(s: Seq<u8>, k: int)
    requires
        0 <= k <= s.len(),
        all_digits(s),
    ensures
        dec_value(s.subrange(0, k)) <= dec_value(s),
    decreases s.len() - k,
{
    if k == s.len() {
        assert(s.subrange(0, k) =~= s);
    } else {
        lemma_dec_value_prefix(s, k + 1);
        let a = s.subrange(0, k);
        let b = s.subrange(0, k + 1);
        assert(b.drop_last() =~= a);
        assert(dec_value(b) == dec_value(a) * 10 + (b.last() - 48) as nat);
        assert(dec_value(a) * 10 >= dec_value(a)) by (nonlinear_arith);
    }
}

/// The digit run at `i` ends exactly where the digits stop.
pub proof fn lemma_digit_run_end(s: Seq<u8>, i: int, k: int)
    requires
        0 <= i <= k <= s.len(),
        forall|t: int| i <= t < k ==> is_digit(#[trigger] s[t]),
        k == s.len() || !is_digit(s[k]),
    ensures
        digit_run_end(s, i) == k,
    decreases k - i,
{
    if i == k {
    } else {
        lemma_digit_run_end(s, i + 1, k);
    }
}

/// Parsing at the start of a canonical unsigned rendering recovers the value.
pub proof fn lemma_parse_u64_canonical(s: Seq<u8>, i: int, n: u64)
    requires
        0 <= i,
        i + dec_nat(n as nat).len() <= s.len(),
        s.subrange(i, i + dec_nat(n as nat).len() as int) == dec_nat(n as nat),
        i + dec_nat(n as nat).len() == s.len() || !is_digit(
            s[i + dec_nat(n as nat).len() as int],
        ),
    ensures
        spec_parse_u64(s, i) == Some((n, i + dec_nat(n as nat).len() as int)),
{
    let d = dec_nat(n as nat);
    let k = i + d.len() as int;
    lemma_dec_nat_digits(n as nat);
    assert(forall|t: int| i <= t < k ==> is_digit(#[trigger] s[t])) by {
        assert(forall|t: int| i <= t < k ==> s[t] == d[t - i]);
    }
    lemma_digit_run_end(s, i, k);
    lemma_dec_value_of_dec_nat(n as nat);
    assert(s[i] == d[0]);
    if n == 0 {
        assert(d.len() == 1);
    } else {
        assert(d[0] != 48);
    }
}

/// Parsing at the start of a canonical signed rendering recovers the value.
pub proof fn lemma_parse_i64_canonical(s: Seq<u8>, i: int, n: i64)
    requires
        0 <= i,
        i + dec_i64(n).len() <= s.len(),
        s.subrange(i, i + dec_i64(n).len() as int) == dec_i64(n),
        i + dec_i64(n).len() == s.len() || !is_digit(s[i + dec_i64(n).len() as int]),
    ensures
        spec_parse_i64(s, i) == Some((n, i + dec_i64(n).len() as int)),
{
    let d = dec_i64(n);
    if n >= 0 {
        lemma_parse_u64_canonical(s, i, n as u64);
        lemma_dec_nat_digits(n as nat);
        assert(s[i] == s.subrange(i, i + d.len() as int)[0]);
        assert(s[i] == d[0]);
        assert(is_digit(s[i]));
        assert(!(s[i] == 45));
    } else {
        let m = (-(n as int)) as nat;
        let dm = dec_nat(m);
        assert(d == seq![45u8] + dm);
        assert(d[0] == 45);
        assert(s[i] == s.subrange(i, i + d.len() as int)[0]);
        assert(s[i] == 45);
        assert(s.subrange(i + 1, i + 1 + dm.len() as int) =~= dm) by {
            assert(forall|t: int| 0 <= t < dm.len() ==> s[i + 1 + t] == d[1 + t] && d[1 + t]
                == dm[t]);
        }
        lemma_parse_u64_canonical(s, i + 1, m as u64);
        assert(m >= 1);
        assert(m <= 0x8000_0000_0000_0000);
        assert((-(m as int)) as i64 == n);
    }
}

/// Decimal renderings are ASCII.
pub proof fn lemma_dec_ascii(n: i64)
    ensures
        crate::text::all_ascii(dec_i64(n)),
        crate::text::all_ascii(dec_nat(n as nat)),
{
    lemma_dec_nat_digits(n as nat);
    if n >= 0 {
    } else {
        let m = (-(n as int)) as nat;
        lemma_dec_nat_digits(m);
        crate::text::lemma_all_ascii_concat(seq![45u8], dec_nat(m));
    }
}

/// Unsigned decimal renderings are ASCII.
pub proof fn lemma_dec_nat_ascii(n: nat)
    ensures
        crate::text::all_ascii(dec_nat(n)),
{
    lemma_dec_nat_digits(n);
}

fn digit_value(b: u8) -> (d: u64)
    requires
        is_digit(b),
    ensures
        d == (b - 48) as nat,
        d < 10,
{
    (b - 48) as u64
}

/// Render a 64-bit natural as canonical decimal bytes.
pub fn render_u64(n: u64) -> (v: Vec<u8>)
    ensures
        v@ == dec_nat(n as nat),
    decreases n,
{
    if n < 10 {
        let mut v: Vec<u8> = Vec::new();
        v.push((48 + n) as u8);
        assert(v@ =~= dec_nat(n as nat));
        v
    } else {
        let mut v = render_u64(n / 10);
        v.push((48 + n % 10) as u8);
        v
    }
}

/// Render a signed 64-bit value as canonical decimal bytes.
pub fn render_i64(n: i64) -> (v: Vec<u8>)
    ensures
        v@ == dec_i64(n),
{
    if n >= 0 {
        render_u64(n as u64)
    } else {
        let m: u64 = ((-(n + 1)) as u64) + 1;
        assert(m as nat == (-(n as int)) as nat);
        let mut v: Vec<u8> = Vec::new();
        v.push(45u8);
        let mut tail = render_u64(m);
        v.append(&mut tail);
        assert(v@ =~= dec_i64(n));
        v
    }
}

/// Parse an unsigned 64-bit decimal at `i`; mirrors `spec_parse_u64` exactly.
pub fn parse_u64_at(s: &[u8], i: usize) -> (r: Option<(u64, usize)>)
    requires
        i <= s@.len(),
    ensures
        match r {
            Some((n, j)) => spec_parse_u64(s@, i as int) == Some((n, j as int)) && i < j <= s@.len(),
            None => spec_parse_u64(s@, i as int) is None,
        },
{
    if i == s.len() || !(48 <= s[i] && s[i] <= 57) {
        return None;
    }
    if s[i] == 48 {
        if i + 1 < s.len() && 48 <= s[i + 1] && s[i + 1] <= 57 {
            proof {
                assert(digit_run_end(s@, i as int) == digit_run_end(s@, i as int + 1));
                assert(digit_run_end(s@, i as int + 1) >= i as int + 2) by {
                    assert(digit_run_end(s@, i as int + 1) == digit_run_end(s@, i as int + 2));
                    lemma_run_end_lower(s@, i as int + 2);
                }
            }
            return None;
        }
        proof {
            lemma_digit_run_end(s@, i as int, i as int + 1);
            assert(s@.subrange(i as int, i as int + 1) =~= seq![48u8]);
            lemma_dec_value_singleton(48u8);
        }
        return Some((0, i + 1));
    }
    let mut j: usize = i;
    let mut acc: u64 = 0;
    while j < s.len() && 48 <= s[j] && s[j] <= 57
        invariant
            i <= j <= s@.len(),
            forall|t: int| i <= t < j ==> is_digit(#[trigger] s@[t]),
            acc as nat == dec_value(s@.subrange(i as int, j as int)),
            digit_run_end(s@, i as int) == digit_run_end(s@, j as int),
        decreases s@.len() - j,
    {
        let d = digit_value(s[j]);
        proof {
            let a = s@.subrange(i as int, j as int);
            let b = s@.subrange(i as int, j as int + 1);
            assert(b.drop_last() =~= a);
            assert(b.last() == s@[j as int]);
            assert(dec_value(b) == acc as nat * 10 + (s@[j as int] - 48) as nat);
        }
        let acc10 = match acc.checked_mul(10) {
            Some(x) => x,
            None => {
                proof {
                    lemma_overflow_run(s@, i as int, j as int, acc as nat * 10 + (s@[j as int]
                        - 48) as nat);
                }
                return None;
            },
        };
        let acc2 = match acc10.checked_add(d) {
            Some(x) => x,
            None => {
                proof {
                    lemma_overflow_run(s@, i as int, j as int, acc as nat * 10 + (s@[j as int]
                        - 48) as nat);
                }
                return None;
            },
        };
        acc = acc2;
        j = j + 1;
    }
    proof {
        assert(digit_run_end(s@, j as int) == j as int);
        assert(spec_parse_u64(s@, i as int) == Some((acc, j as int)));
    }
    Some((acc, j))
}

proof fn lemma_run_end_lower(s: Seq<u8>, i: int)
    requires
        0 <= i <= s.len(),
    ensures
        digit_run_end(s, i) >= i,
    decreases s.len() - i,
{
    if i < s.len() && is_digit(s[i]) {
        lemma_run_end_lower(s, i + 1);
    }
}

proof fn lemma_run_all_digits(s: Seq<u8>, i: int)
    requires
        0 <= i <= s.len(),
    ensures
        i <= digit_run_end(s, i) <= s.len(),
        forall|t: int| i <= t < digit_run_end(s, i) ==> is_digit(#[trigger] s[t]),
    decreases s.len() - i,
{
    if i < s.len() && is_digit(s[i]) {
        lemma_run_all_digits(s, i + 1);
    }
}

/// Once the value read so far exceeds `u64::MAX`, the whole run does.
proof fn lemma_overflow_run(s: Seq<u8>, i: int, j: int, partial: nat)
    requires
        0 <= i <= j < s.len(),
        is_digit(s[j]),
        partial == dec_value(s.subrange(i, j + 1)),
        partial > u64::MAX,
        forall|t: int| i <= t < j ==> is_digit(#[trigger] s[t]),
        digit_run_end(s, i) == digit_run_end(s, j),
    ensures
        spec_parse_u64(s, i) is None,
{
    let e = digit_run_end(s, i);
    assert(digit_run_end(s, j) == digit_run_end(s, j + 1));
    lemma_run_end_lower(s, j + 1);
    lemma_run_all_digits(s, j + 1);
    assert(e >= j + 1);
    let full = s.subrange(i, e);
    assert(all_digits(full)) by {
        assert(forall|t: int| 0 <= t < full.len() ==> full[t] == #[trigger] s[t + i]);
    }
    assert(s.subrange(i, j + 1) =~= full.subrange(0, j + 1 - i));
    lemma_dec_value_prefix(full, j + 1 - i);
    if e == i {
    } else if s[i] == 48 && e > i + 1 {
    } else {
        assert(dec_value(s.subrange(i, e)) > u64::MAX);
    }
}

/// Parse a signed 64-bit decimal at `i`; mirrors `spec_parse_i64` exactly.
pub fn parse_i64_at(s: &[u8], i: usize) -> (r: Option<(i64, usize)>)
    requires
        i <= s@.len(),
    ensures
        match r {
            Some((n, j)) => spec_parse_i64(s@, i as int) == Some((n, j as int)) && i < j <= s@.len(),
            None => spec_parse_i64(s@, i as int) is None,
        },
{
    if i < s.len() && s[i] == 45 {
        match parse_u64_at(s, i + 1) {
            Some((m, j)) => {
                if m == 0 || m > 0x8000_0000_0000_0000u64 {
                    None
                } else {
                    let n: i64 = if m == 0x8000_0000_0000_0000u64 {
                        i64::MIN
                    } else {
                        -(m as i64)
                    };
                    assert(n as int == -(m as int));
                    Some((n, j))
                }
            },
            None => None,
        }
    } else {
        match parse_u64_at(s, i) {
            Some((m, j)) => {
                if m > i64::MAX as u64 {
                    None
                } else {
                    Some((m as i64, j))
                }
            },
            None => None,
        }
    }
}

} // verus!
