//! Canonical JSON string bodies for the token's text fields.
//!
//! Text carried by a token (identifiers, usage payloads) is opaque: any
//! bytes except NUL, which marks malformed caller input. Inside a JSON
//! string the quote and the backslash are escaped with a backslash, bytes
//! outside the printable ASCII range are carried as byte-wise `\u00XX`
//! escapes with lowercase hexadecimal digits, and every printable byte
//! stands for itself — so the document stays printable ASCII whatever the
//! fields hold. The parser accepts exactly that form and stops at the
//! closing quote, so a parsed document is provably byte-identical to its
//! canonical serialization.

use vstd::prelude::*;
use vstd::string::StringSliceAdditionalSpecFns;

verus! {

pub const QUOTE: u8 = 34;

pub const BACKSLASH: u8 = 92;

/// Text a token may carry: any bytes except NUL.
pub open spec fn wf_text(s: Seq<u8>) -> bool {
    forall|i: int| 0 <= i < s.len() ==> #[trigger] s[i] != 0
}

/// Lowercase hexadecimal digit of a value below sixteen.
pub open spec fn hex_digit(n: u8) -> u8
    recommends
        n < 16,
{
    if n < 10 {
        (48 + n) as u8
    } else {
        (87 + n) as u8
    }
}

/// Value of a lowercase hexadecimal digit, `None` for any other byte.
pub open spec fn hex_value(b: u8) -> Option<u8> {
    if 48 <= b <= 57 {
        Some((b - 48) as u8)
    } else if 97 <= b <= 102 {
        Some((b - 87) as u8)
    } else {
        None
    }
}

/// The hexadecimal digit and its value invert each other.
proof fn lemma_hex_round_trip(n: u8, c: u8)
    ensures
        n < 16 ==> hex_value(hex_digit(n)) == Some(n),
        hex_value(c) matches Some(v) ==> hex_digit(v) == c && v < 16,
{
}

pub open spec fn esc_byte(b: u8) -> Seq<u8> {
    if b == QUOTE || b == BACKSLASH {
        seq![BACKSLASH, b]
    } else if 32 <= b <= 126 {
        seq![b]
    } else {
        seq![BACKSLASH, 117u8, 48u8, 48u8, hex_digit(b / 16), hex_digit(b % 16)]
    }
}

/// Escaped form of a string body.
pub open spec fn esc(s: Seq<u8>) -> Seq<u8>
    decreases s.len(),
{
    if s.len() == 0 {
        Seq::empty()
    } else {
        esc_byte(s[0]) + esc(s.skip(1))
    }
}

/// Strict parse of a JSON string body starting right after the opening
/// quote: unescapes, stops after the closing quote, refuses anything that is
/// not the canonical escape — in particular a `\u00XX` escape of a byte that
/// the canonical form carries raw.
pub open spec fn spec_parse_text(s: Seq<u8>, i: int) -> Option<(Seq<u8>, int)>
    decreases s.len() - i,
{
    if i < 0 || i >= s.len() {
        None
    } else if s[i] == QUOTE {
        Some((Seq::empty(), i + 1))
    } else if s[i] == BACKSLASH {
        if i + 1 < s.len() && (s[i + 1] == QUOTE || s[i + 1] == BACKSLASH) {
            match spec_parse_text(s, i + 2) {
                Some((t, j)) => Some((seq![s[i + 1]] + t, j)),
                None => None,
            }
        } else if i + 5 < s.len() && s[i + 1] == 117 && s[i + 2] == 48 && s[i + 3] == 48 {
            match (hex_value(s[i + 4]), hex_value(s[i + 5])) {
                (Some(h), Some(l)) => {
                    let b = (h * 16 + l) as u8;
                    if 32 <= b <= 126 {
                        None
                    } else {
                        match spec_parse_text(s, i + 6) {
                            Some((t, j)) => Some((seq![b] + t, j)),
                            None => None,
                        }
                    }
                },
                _ => None,
            }
        } else {
            None
        }
    } else if 32 <= s[i] <= 126 {
        match spec_parse_text(s, i + 1) {
            Some((t, j)) => Some((seq![s[i]] + t, j)),
            None => None,
        }
    } else {
        None
    }
}

proof fn lemma_esc_head(t: Seq<u8>)
    requires
        t.len() > 0,
    ensures
        esc(t) == esc_byte(t[0]) + esc(t.skip(1)),
{
}

/// Parsing at the start of a canonical escape recovers the body, whatever
/// bytes it holds.
pub proof fn lemma_parse_text_canonical(s: Seq<u8>, i: int, t: Seq<u8>)
    requires
        0 <= i,
        i + esc(t).len() + 1 <= s.len(),
        s.subrange(i, i + esc(t).len() + 1) == esc(t).push(QUOTE),
    ensures
        spec_parse_text(s, i) == Some((t, i + esc(t).len() + 1)),
    decreases t.len(),
{
    let e = esc(t);
    let w = e.push(QUOTE);
    assert(forall|k: int| 0 <= k < w.len() ==> s[i + k] == #[trigger] w[k]) by {
        assert(forall|k: int| 0 <= k < w.len() ==> s.subrange(i, i + e.len() + 1)[k]
            == #[trigger] w[k]);
    }
    if t.len() == 0 {
        assert(w[0] == QUOTE);
        assert(s[i + 0] == w[0]);
        assert(s[i] == QUOTE);
    } else {
        let b = t[0];
        let rest = t.skip(1);
        assert(e == esc_byte(b) + esc(rest));
        let hl = esc_byte(b).len() as int;
        assert(s.subrange(i + hl, i + hl + esc(rest).len() + 1) =~= esc(rest).push(QUOTE)) by {
            assert(forall|k: int| 0 <= k < esc(rest).len() + 1 ==> s[i + hl + k] == #[trigger] w[hl
                + k]);
            assert(forall|k: int| 0 <= k < esc(rest).len() ==> w[hl + k] == esc(rest)[k]);
            assert(w[hl + esc(rest).len()] == QUOTE);
        }
        lemma_parse_text_canonical(s, i + hl, rest);
        if b == QUOTE || b == BACKSLASH {
            assert(s[i] == w[0] && w[0] == BACKSLASH);
            assert(s[i + 1] == w[1] && w[1] == b);
            assert(seq![b] + rest =~= t);
        } else if 32 <= b <= 126 {
            assert(s[i] == w[0] && w[0] == b);
            assert(s[i] != QUOTE && s[i] != BACKSLASH);
            assert(seq![b] + rest =~= t);
        } else {
            assert(s[i] == w[0] && w[0] == BACKSLASH);
            assert(s[i + 1] == w[1] && w[1] == 117);
            assert(s[i + 2] == w[2] && w[2] == 48);
            assert(s[i + 3] == w[3] && w[3] == 48);
            assert(s[i + 4] == w[4] && w[4] == hex_digit(b / 16));
            assert(s[i + 5] == w[5] && w[5] == hex_digit(b % 16));
            lemma_hex_round_trip(b / 16, 0);
            lemma_hex_round_trip(b % 16, 0);
            assert(((b / 16) * 16 + b % 16) as u8 == b);
            assert(seq![b] + rest =~= t);
        }
    }
}

/// What the parser accepts is exactly the canonical escape of its result.
pub proof fn lemma_parse_text_sound(s: Seq<u8>, i: int)
    requires
        0 <= i <= s.len(),
    ensures
        match spec_parse_text(s, i) {
            Some((t, j)) => i < j <= s.len() && j == i + esc(t).len() + 1 && s.subrange(i, j)
                == esc(t).push(QUOTE),
            None => true,
        },
    decreases s.len() - i,
{
    if i < s.len() {
        if s[i] == QUOTE {
            assert(s.subrange(i, i + 1) =~= esc(Seq::<u8>::empty()).push(QUOTE));
        } else if s[i] == BACKSLASH {
            if i + 1 < s.len() && (s[i + 1] == QUOTE || s[i + 1] == BACKSLASH) {
                lemma_parse_text_sound(s, i + 2);
                match spec_parse_text(s, i + 2) {
                    Some((t, j)) => {
                        let full = seq![s[i + 1]] + t;
                        assert(esc(full) == esc_byte(s[i + 1]) + esc(t)) by {
                            lemma_esc_head(full);
                            assert(full[0] == s[i + 1]);
                            assert(full.skip(1) =~= t);
                        }
                        assert(s.subrange(i, j) =~= esc(full).push(QUOTE)) by {
                            assert(s.subrange(i + 2, j) == esc(t).push(QUOTE));
                            assert(forall|k: int| 0 <= k < j - i - 2 ==> s[i + 2 + k]
                                == #[trigger] s.subrange(i + 2, j)[k]);
                        }
                    },
                    None => {},
                }
            } else if i + 5 < s.len() && s[i + 1] == 117 && s[i + 2] == 48 && s[i + 3] == 48 {
                match (hex_value(s[i + 4]), hex_value(s[i + 5])) {
                    (Some(h), Some(l)) => {
                        let b = (h * 16 + l) as u8;
                        if !(32 <= b <= 126) {
                            lemma_parse_text_sound(s, i + 6);
                            match spec_parse_text(s, i + 6) {
                                Some((t, j)) => {
                                    let full = seq![b] + t;
                                    lemma_hex_round_trip(0, s[i + 4]);
                                    lemma_hex_round_trip(0, s[i + 5]);
                                    assert(b / 16 == h && b % 16 == l) by (nonlinear_arith)
                                        requires
                                            h < 16 && l < 16 && b == h * 16 + l,
                                    ;
                                    assert(esc_byte(b) == seq![
                                        BACKSLASH,
                                        117u8,
                                        48u8,
                                        48u8,
                                        s[i + 4],
                                        s[i + 5],
                                    ]);
                                    assert(esc(full) == esc_byte(b) + esc(t)) by {
                                        lemma_esc_head(full);
                                        assert(full[0] == b);
                                        assert(full.skip(1) =~= t);
                                    }
                                    assert(s.subrange(i, j) =~= esc(full).push(QUOTE)) by {
                                        assert(s.subrange(i + 6, j) == esc(t).push(QUOTE));
                                        assert(forall|k: int| 0 <= k < j - i - 6 ==> s[i + 6 + k]
                                            == #[trigger] s.subrange(i + 6, j)[k]);
                                    }
                                },
                                None => {},
                            }
                        }
                    },
                    _ => {},
                }
            }
        } else if 32 <= s[i] <= 126 {
            lemma_parse_text_sound(s, i + 1);
            match spec_parse_text(s, i + 1) {
                Some((t, j)) => {
                    let full = seq![s[i]] + t;
                    assert(esc(full) == esc_byte(s[i]) + esc(t)) by {
                        lemma_esc_head(full);
                        assert(full[0] == s[i]);
                        assert(full.skip(1) =~= t);
                    }
                    assert(s.subrange(i, j) =~= esc(full).push(QUOTE)) by {
                        assert(s.subrange(i + 1, j) == esc(t).push(QUOTE));
                        assert(forall|k: int| 0 <= k < j - i - 1 ==> s[i + 1 + k]
                            == #[trigger] s.subrange(i + 1, j)[k]);
                    }
                },
                None => {},
            }
        }
    }
}

/// Whether every byte is below 128.
pub open spec fn all_ascii(s: Seq<u8>) -> bool {
    forall|i: int| 0 <= i < s.len() ==> #[trigger] s[i] < 128
}

/// ASCII survives concatenation.
pub proof fn lemma_all_ascii_concat(a: Seq<u8>, b: Seq<u8>)
    requires
        all_ascii(a),
        all_ascii(b),
    ensures
        all_ascii(a + b),
{
    assert forall|i: int| 0 <= i < (a + b).len() implies #[trigger] (a + b)[i] < 128 by {
        if i < a.len() {
            assert((a + b)[i] == a[i]);
        } else {
            assert((a + b)[i] == b[i - a.len()]);
        }
    }
}

/// The bytes of an ASCII string literal are its characters' code points.
pub proof fn lemma_lit_ascii(s: &str)
    requires
        vstd::utf8::is_ascii_chars(s@),
    ensures
        all_ascii(s.spec_bytes()),
        s.spec_bytes().len() == s@.len(),
        forall|i: int| 0 <= i < s@.len() ==> s.spec_bytes()[i] == (#[trigger] s@[i]) as u8,
{
    broadcast use vstd::string::is_ascii_spec_bytes;

    assert(vstd::string::is_ascii(s));
    assert forall|i: int| 0 <= i < s.spec_bytes().len() implies #[trigger] s.spec_bytes()[i]
        < 128 by {
        assert(s.spec_bytes()[i] == s@[i] as u8);
        assert((s@[i] as u32) < 128);
    }
}

/// The escape of any text is printable ASCII.
pub proof fn lemma_esc_ascii(t: Seq<u8>)
    ensures
        all_ascii(esc(t)),
    decreases t.len(),
{
    if t.len() > 0 {
        lemma_esc_ascii(t.skip(1));
        assert(all_ascii(esc_byte(t[0]))) by {
            let b = t[0];
            if !(b == QUOTE || b == BACKSLASH) && !(32 <= b <= 126) {
                assert(hex_digit(b / 16) < 128 && hex_digit(b % 16) < 128);
            }
        }
        lemma_all_ascii_concat(esc_byte(t[0]), esc(t.skip(1)));
    }
}

/// Whether a byte slice is free of NUL bytes.
pub fn check_wf_text(s: &[u8]) -> (r: bool)
    ensures
        r == wf_text(s@),
{
    let mut i: usize = 0;
    while i < s.len()
        invariant
            0 <= i <= s@.len(),
            forall|k: int| 0 <= k < i ==> #[trigger] s@[k] != 0,
        decreases s@.len() - i,
    {
        if s[i] == 0 {
            return false;
        }
        i = i + 1;
    }
    true
}

fn hex_digit_exec(n: u8) -> (r: u8)
    requires
        n < 16,
    ensures
        r == hex_digit(n),
{
    if n < 10 {
        48 + n
    } else {
        87 + n
    }
}

fn hex_value_exec(b: u8) -> (r: Option<u8>)
    ensures
        r == hex_value(b),
{
    if 48 <= b && b <= 57 {
        Some(b - 48)
    } else if 97 <= b && b <= 102 {
        Some(b - 87)
    } else {
        None
    }
}

/// Append the canonical escape of `s` to `out`.
pub fn escape_into(out: &mut Vec<u8>, s: &[u8])
    ensures
        final(out)@ == old(out)@ + esc(s@),
{
    let ghost start = out@;
    let mut i: usize = 0;
    assert(esc(s@) == Seq::<u8>::empty() + esc(s@.skip(0))) by {
        assert(s@.skip(0) =~= s@);
        assert(Seq::<u8>::empty() + esc(s@) =~= esc(s@));
    }
    while i < s.len()
        invariant
            0 <= i <= s@.len(),
            esc(s@) == out@.skip(start.len() as int) + esc(s@.skip(i as int)),
            out@.len() >= start.len(),
            out@.subrange(0, start.len() as int) == start,
        decreases s@.len() - i,
    {
        let ghost before = out@;
        let b = s[i];
        if b == QUOTE || b == BACKSLASH {
            out.push(BACKSLASH);
            out.push(b);
        } else if 32 <= b && b <= 126 {
            out.push(b);
        } else {
            out.push(BACKSLASH);
            out.push(117);
            out.push(48);
            out.push(48);
            out.push(hex_digit_exec(b / 16));
            out.push(hex_digit_exec(b % 16));
        }
        proof {
            let tail = s@.skip(i as int);
            assert(tail.len() > 0 && tail[0] == b);
            assert(tail.skip(1) =~= s@.skip(i as int + 1));
            lemma_esc_head(tail);
            assert(out@.skip(start.len() as int) =~= before.skip(start.len() as int) + esc_byte(
                b,
            ));
            assert(out@.skip(start.len() as int) + esc(s@.skip(i as int + 1)) =~= before.skip(
                start.len() as int,
            ) + esc(tail));
            assert(out@.subrange(0, start.len() as int) =~= start);
        }
        i = i + 1;
    }
    proof {
        assert(esc(s@.skip(s@.len() as int)) =~= Seq::<u8>::empty()) by {
            assert(s@.skip(s@.len() as int) =~= Seq::<u8>::empty());
        }
        assert(out@.skip(start.len() as int) + Seq::<u8>::empty() =~= out@.skip(
            start.len() as int,
        ));
        assert(out@ =~= start + esc(s@));
    }
}

/// Parse a JSON string body at `i` (right after the opening quote); mirrors
/// `spec_parse_text` exactly.
pub fn parse_text_at(s: &[u8], i: usize) -> (r: Option<(Vec<u8>, usize)>)
    requires
        i <= s@.len(),
    ensures
        match r {
            Some((t, j)) => spec_parse_text(s@, i as int) == Some((t@, j as int)) && i < j
                <= s@.len(),
            None => spec_parse_text(s@, i as int) is None,
        },
{
    let mut out: Vec<u8> = Vec::new();
    let mut cur: usize = i;
    loop
        invariant
            i <= cur <= s@.len(),
            forall|t: Seq<u8>, j: int|
                spec_parse_text(s@, cur as int) == Some((t, j)) ==> spec_parse_text(s@, i as int)
                    == Some((out@ + t, j)),
            spec_parse_text(s@, cur as int) is None ==> spec_parse_text(s@, i as int) is None,
        decreases s@.len() - cur,
    {
        if cur == s.len() {
            return None;
        }
        let b = s[cur];
        if b == QUOTE {
            proof {
                assert(spec_parse_text(s@, cur as int) == Some((Seq::<u8>::empty(), cur as int
                    + 1)));
                assert(out@ + Seq::<u8>::empty() =~= out@);
            }
            return Some((out, cur + 1));
        } else if b == BACKSLASH {
            if cur + 1 < s.len() && (s[cur + 1] == QUOTE || s[cur + 1] == BACKSLASH) {
                let c = s[cur + 1];
                proof {
                    assert(forall|t: Seq<u8>, j: int|
                        spec_parse_text(s@, cur as int + 2) == Some((t, j))
                            ==> spec_parse_text(s@, cur as int) == Some((seq![c] + t, j)));
                    assert(forall|t: Seq<u8>| #[trigger] (out@.push(c) + t) =~= out@ + (seq![c]
                        + t));
                }
                out.push(c);
                cur = cur + 2;
            } else if s.len() - cur > 5 && s[cur + 1] == 117 && s[cur + 2] == 48 && s[cur + 3]
                == 48 {
                let h = match hex_value_exec(s[cur + 4]) {
                    Some(v) => v,
                    None => {
                        return None;
                    },
                };
                let l = match hex_value_exec(s[cur + 5]) {
                    Some(v) => v,
                    None => {
                        return None;
                    },
                };
                proof {
                    lemma_hex_round_trip(0, s@[cur as int + 4]);
                    lemma_hex_round_trip(0, s@[cur as int + 5]);
                }
                let d: u8 = h * 16 + l;
                if 32 <= d && d <= 126 {
                    return None;
                }
                proof {
                    assert(forall|t: Seq<u8>, j: int|
                        spec_parse_text(s@, cur as int + 6) == Some((t, j))
                            ==> spec_parse_text(s@, cur as int) == Some((seq![d] + t, j)));
                    assert(forall|t: Seq<u8>| #[trigger] (out@.push(d) + t) =~= out@ + (seq![d]
                        + t));
                }
                out.push(d);
                cur = cur + 6;
            } else {
                return None;
            }
        } else if 32 <= b && b <= 126 {
            proof {
                assert(forall|t: Seq<u8>, j: int|
                    spec_parse_text(s@, cur as int + 1) == Some((t, j))
                        ==> spec_parse_text(s@, cur as int) == Some((seq![b] + t, j)));
                assert(forall|t: Seq<u8>| #[trigger] (out@.push(b) + t) =~= out@ + (seq![b]
                    + t));
            }
            out.push(b);
            cur = cur + 1;
        } else {
            return None;
        }
    }
}

} // verus!
