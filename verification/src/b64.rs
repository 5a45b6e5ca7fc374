//! Base64 for the encrypted transport envelope.
//!
//! Standard alphabet with `=` padding. Decoding is strict: it accepts only
//! what encoding emits, including zeroed spare bits in a padded final group,
//! so a decoded envelope is provably the encoding of its content.

use vstd::prelude::*;

verus! {

pub const PAD: u8 = 61;

/// Alphabet byte of a 6-bit value.
pub open spec fn b64_char(v: u8) -> u8
    recommends
        v < 64,
{
    if v < 26 {
        (65 + v) as u8
    } else if v < 52 {
        (97 + (v - 26)) as u8
    } else if v < 62 {
        (48 + (v - 52)) as u8
    } else if v == 62 {
        43u8
    } else {
        47u8
    }
}

/// 6-bit value of an alphabet byte, `None` outside the alphabet.
pub open spec fn b64_value(b: u8) -> Option<u8> {
    if 65 <= b <= 90 {
        Some((b - 65) as u8)
    } else if 97 <= b <= 122 {
        Some((b - 97 + 26) as u8)
    } else if 48 <= b <= 57 {
        Some((b - 48 + 52) as u8)
    } else if b == 43 {
        Some(62u8)
    } else if b == 47 {
        Some(63u8)
    } else {
        None
    }
}

/// Decoding inverts the alphabet.
pub proof fn lemma_b64_char_value(v: u8)
    requires
        v < 64,
    ensures
        b64_value(b64_char(v)) == Some(v),
{
}

/// The four alphabet bytes of one full three-byte group.
pub open spec fn b64_group(b0: u8, b1: u8, b2: u8) -> Seq<u8> {
    seq![
        b64_char(b0 >> 2),
        b64_char(((b0 & 3) << 4) | (b1 >> 4)),
        b64_char(((b1 & 15) << 2) | (b2 >> 6)),
        b64_char(b2 & 63),
    ]
}

/// Base64 encoding with padding.
pub open spec fn b64_encode(s: Seq<u8>) -> Seq<u8>
    decreases s.len(),
{
    if s.len() == 0 {
        Seq::empty()
    } else if s.len() == 1 {
        seq![b64_char(s[0] >> 2), b64_char((s[0] & 3) << 4), PAD, PAD]
    } else if s.len() == 2 {
        seq![
            b64_char(s[0] >> 2),
            b64_char(((s[0] & 3) << 4) | (s[1] >> 4)),
            b64_char((s[1] & 15) << 2),
            PAD,
        ]
    } else {
        b64_group(s[0], s[1], s[2]) + b64_encode(s.skip(3))
    }
}

/// Strict decode of one final group of four bytes, honouring padding.
pub open spec fn b64_decode_last(s: Seq<u8>) -> Option<Seq<u8>>
    recommends
        s.len() == 4,
{
    match (b64_value(s[0]), b64_value(s[1])) {
        (Some(v0), Some(v1)) => {
            if s[2] == PAD && s[3] == PAD {
                if v1 & 15 == 0 {
                    Some(seq![(v0 << 2) | (v1 >> 4)])
                } else {
                    None
                }
            } else if s[3] == PAD {
                match b64_value(s[2]) {
                    Some(v2) => if v2 & 3 == 0 {
                        Some(seq![(v0 << 2) | (v1 >> 4), ((v1 & 15) << 4) | (v2 >> 2)])
                    } else {
                        None
                    },
                    None => None,
                }
            } else {
                match (b64_value(s[2]), b64_value(s[3])) {
                    (Some(v2), Some(v3)) => Some(
                        seq![
                            (v0 << 2) | (v1 >> 4),
                            ((v1 & 15) << 4) | (v2 >> 2),
                            ((v2 & 3) << 6) | v3,
                        ],
                    ),
                    _ => None,
                }
            }
        },
        _ => None,
    }
}

/// Strict base64 decode: length a multiple of four, padding only in the
/// final group, spare bits zero.
pub open spec fn b64_decode(s: Seq<u8>) -> Option<Seq<u8>>
    decreases s.len(),
{
    if s.len() == 0 {
        Some(Seq::empty())
    } else if s.len() < 4 {
        None
    } else if s.len() == 4 {
        b64_decode_last(s)
    } else {
        match (b64_value(s[0]), b64_value(s[1]), b64_value(s[2]), b64_value(s[3])) {
            (Some(v0), Some(v1), Some(v2), Some(v3)) => match b64_decode(s.skip(4)) {
                Some(rest) => Some(
                    seq![
                        (v0 << 2) | (v1 >> 4),
                        ((v1 & 15) << 4) | (v2 >> 2),
                        ((v2 & 3) << 6) | v3,
                    ] + rest,
                ),
                None => None,
            },
            _ => None,
        }
    }
}

/// The 6-bit pieces cut from any three bytes stay below 64.
proof fn lemma_b64_parts(b0: u8, b1: u8, b2: u8)
    ensures
        b0 >> 2 < 64,
        (((b0 & 3) << 4) | (b1 >> 4)) < 64,
        (((b1 & 15) << 2) | (b2 >> 6)) < 64,
        b2 & 63 < 64,
        ((b0 & 3) << 4) < 64,
        ((b1 & 15) << 2) < 64,
{
    assert(b0 >> 2 < 64 && (((b0 & 3) << 4) | (b1 >> 4)) < 64 && (((b1 & 15) << 2) | (b2 >> 6))
        < 64 && b2 & 63 < 64 && ((b0 & 3) << 4) < 64 && ((b1 & 15) << 2) < 64) by (bit_vector);
}

proof fn lemma_b64_char_ascii(v: u8)
    requires
        v < 64,
    ensures
        b64_char(v) < 128,
{
}

/// Base64 output is ASCII.
pub proof fn lemma_b64_encode_ascii(s: Seq<u8>)
    ensures
        crate::text::all_ascii(b64_encode(s)),
    decreases s.len(),
{
    if s.len() == 0 {
    } else if s.len() == 1 {
        lemma_b64_parts(s[0], 0, 0);
        lemma_b64_char_ascii(s[0] >> 2);
        lemma_b64_char_ascii((s[0] & 3) << 4);
    } else if s.len() == 2 {
        lemma_b64_parts(s[0], s[1], 0);
        lemma_b64_char_ascii(s[0] >> 2);
        lemma_b64_char_ascii(((s[0] & 3) << 4) | (s[1] >> 4));
        lemma_b64_char_ascii((s[1] & 15) << 2);
    } else {
        lemma_b64_parts(s[0], s[1], s[2]);
        lemma_b64_char_ascii(s[0] >> 2);
        lemma_b64_char_ascii(((s[0] & 3) << 4) | (s[1] >> 4));
        lemma_b64_char_ascii(((s[1] & 15) << 2) | (s[2] >> 6));
        lemma_b64_char_ascii(s[2] & 63);
        lemma_b64_encode_ascii(s.skip(3));
        crate::text::lemma_all_ascii_concat(b64_group(s[0], s[1], s[2]), b64_encode(s.skip(3)));
    }
}

/// Alphabet bytes are never padding or the envelope separator.
proof fn lemma_b64_char_plain(v: u8)
    requires
        v < 64,
    ensures
        b64_char(v) != PAD,
        b64_char(v) != 124,
{
}

/// No byte of an encoding is the envelope separator.
pub proof fn lemma_b64_encode_no_bar(s: Seq<u8>)
    ensures
        forall|i: int| 0 <= i < b64_encode(s).len() ==> #[trigger] b64_encode(s)[i] != 124,
    decreases s.len(),
{
    if s.len() == 0 {
    } else if s.len() == 1 {
        lemma_b64_parts(s[0], 0, 0);
    } else if s.len() == 2 {
        lemma_b64_parts(s[0], s[1], 0);
    } else {
        lemma_b64_parts(s[0], s[1], s[2]);
        lemma_b64_encode_no_bar(s.skip(3));
        let g = b64_group(s[0], s[1], s[2]);
        let rest = b64_encode(s.skip(3));
        assert(forall|i: int| 0 <= i < (g + rest).len() ==> #[trigger] (g + rest)[i] != 124) by {
            assert(forall|i: int| 0 <= i < g.len() ==> #[trigger] g[i] != 124);
            assert(forall|i: int| 0 <= i < (g + rest).len() ==> (g + rest)[i] == (if i < g.len() {
                g[i]
            } else {
                #[trigger] rest[i - g.len()]
            }));
        }
    }
}

/// Decoding inverts encoding: three bytes rebuilt from their 6-bit pieces.
proof fn lemma_b64_group_bytes(b0: u8, b1: u8, b2: u8)
    ensures
        ((b0 >> 2) << 2) | ((((b0 & 3) << 4) | (b1 >> 4)) >> 4) == b0,
        (((((b0 & 3) << 4) | (b1 >> 4)) & 15) << 4) | ((((b1 & 15) << 2) | (b2 >> 6)) >> 2) == b1,
        (((((b1 & 15) << 2) | (b2 >> 6)) & 3) << 6) | (b2 & 63) == b2,
        (((b0 & 3) << 4) & 15) == 0,
        (((b1 & 15) << 2) & 3) == 0,
        (((b0 & 3) << 4) >> 4) == (b0 & 3),
{
    assert(((b0 >> 2) << 2) | ((((b0 & 3) << 4) | (b1 >> 4)) >> 4) == b0 && (((((b0 & 3) << 4) | (
    b1 >> 4)) & 15) << 4) | ((((b1 & 15) << 2) | (b2 >> 6)) >> 2) == b1 && (((((b1 & 15) << 2) | (
    b2 >> 6)) & 3) << 6) | (b2 & 63) == b2 && (((b0 & 3) << 4) & 15) == 0 && (((b1 & 15) << 2) & 3)
        == 0 && (((b0 & 3) << 4) >> 4) == (b0 & 3)) by (bit_vector);
}

/// Decoding inverts encoding.
pub proof fn lemma_b64_round_trip(s: Seq<u8>)
    ensures
        b64_decode(b64_encode(s)) == Some(s),
    decreases s.len(),
{
    let w = b64_encode(s);
    if s.len() == 0 {
        assert(w.len() == 0);
        assert(Seq::<u8>::empty() =~= s);
    } else if s.len() == 1 {
        let b0 = s[0];
        lemma_b64_parts(b0, 0, 0);
        lemma_b64_char_value(b0 >> 2);
        lemma_b64_char_value((b0 & 3) << 4);
        lemma_b64_char_plain(b0 >> 2);
        lemma_b64_char_plain((b0 & 3) << 4);
        assert(w.len() == 4);
        assert((((b0 & 3) << 4) & 15) == 0 && ((b0 >> 2) << 2) | ((((b0 & 3) << 4)) >> 4) == b0)
            by (bit_vector);
        assert(b64_decode_last(w) == Some(seq![((b0 >> 2) << 2) | ((((b0 & 3) << 4)) >> 4)]));
        assert(seq![b0] =~= s);
    } else if s.len() == 2 {
        let b0 = s[0];
        let b1 = s[1];
        lemma_b64_parts(b0, b1, 0);
        lemma_b64_char_value(b0 >> 2);
        lemma_b64_char_value(((b0 & 3) << 4) | (b1 >> 4));
        lemma_b64_char_value((b1 & 15) << 2);
        lemma_b64_char_plain(b0 >> 2);
        lemma_b64_char_plain(((b0 & 3) << 4) | (b1 >> 4));
        lemma_b64_char_plain((b1 & 15) << 2);
        assert(w.len() == 4);
        let v0 = b0 >> 2;
        let v1 = ((b0 & 3) << 4) | (b1 >> 4);
        let v2 = (b1 & 15) << 2;
        assert((v2 & 3) == 0 && ((v0 << 2) | (v1 >> 4)) == b0 && (((v1 & 15) << 4) | (v2 >> 2))
            == b1) by (bit_vector)
            requires
                v0 == b0 >> 2 && v1 == ((b0 & 3) << 4) | (b1 >> 4) && v2 == (b1 & 15) << 2,
        ;
        assert(b64_decode_last(w) == Some(seq![b0, b1]));
        assert(seq![b0, b1] =~= s);
    } else {
        let b0 = s[0];
        let b1 = s[1];
        let b2 = s[2];
        lemma_b64_parts(b0, b1, b2);
        let v0 = b0 >> 2;
        let v1 = ((b0 & 3) << 4) | (b1 >> 4);
        let v2 = ((b1 & 15) << 2) | (b2 >> 6);
        let v3 = b2 & 63;
        lemma_b64_char_value(v0);
        lemma_b64_char_value(v1);
        lemma_b64_char_value(v2);
        lemma_b64_char_value(v3);
        lemma_b64_char_plain(v0);
        lemma_b64_char_plain(v1);
        lemma_b64_char_plain(v2);
        lemma_b64_char_plain(v3);
        lemma_b64_group_bytes(b0, b1, b2);
        lemma_b64_round_trip(s.skip(3));
        let g = b64_group(b0, b1, b2);
        let rest = b64_encode(s.skip(3));
        assert(w == g + rest);
        assert(w.len() == 4 + rest.len());
        assert(forall|k: int| 0 <= k < 4 ==> #[trigger] w[k] == g[k]);
        assert(w.skip(4) =~= rest);
        let three = seq![
            (v0 << 2) | (v1 >> 4),
            ((v1 & 15) << 4) | (v2 >> 2),
            ((v2 & 3) << 6) | v3,
        ];
        assert(three[0] == b0 && three[1] == b1 && three[2] == b2);
        if s.len() == 3 {
            assert(rest.len() == 0);
            assert(w.len() == 4);
            assert(w =~= g);
            assert(b64_decode_last(g) == Some(three));
            assert(three =~= s);
        } else {
            assert(s.skip(3).len() > 0);
            assert(rest.len() >= 4) by {
                if s.skip(3).len() == 1 || s.skip(3).len() == 2 {
                } else {
                }
            }
            assert(w.len() > 4);
            assert(b64_decode(w) == Some(three + s.skip(3)));
            assert(three + s.skip(3) =~= s);
        }
    }
}

fn b64_char_exec(v: u8) -> (r: u8)
    requires
        v < 64,
    ensures
        r == b64_char(v),
{
    if v < 26 {
        65 + v
    } else if v < 52 {
        97 + (v - 26)
    } else if v < 62 {
        48 + (v - 52)
    } else if v == 62 {
        43
    } else {
        47
    }
}

fn b64_value_exec(b: u8) -> (r: Option<u8>)
    ensures
        r == b64_value(b),
{
    if 65 <= b && b <= 90 {
        Some(b - 65)
    } else if 97 <= b && b <= 122 {
        Some(b - 97 + 26)
    } else if 48 <= b && b <= 57 {
        Some(b - 48 + 52)
    } else if b == 43 {
        Some(62)
    } else if b == 47 {
        Some(63)
    } else {
        None
    }
}

/// Base64-encode a byte slice.
pub fn encode(s: &[u8]) -> (v: Vec<u8>)
    ensures
        v@ == b64_encode(s@),
{
    let mut out: Vec<u8> = Vec::new();
    let mut i: usize = 0;
    let n = s.len();
    assert(s@.skip(0) =~= s@);
    assert(Seq::<u8>::empty() + b64_encode(s@) =~= b64_encode(s@));
    while n - i >= 3
        invariant
            0 <= i <= n,
            n == s@.len(),
            b64_encode(s@) == out@ + b64_encode(s@.skip(i as int)),
        decreases n - i,
    {
        let ghost tail = s@.skip(i as int);
        let b0 = s[i];
        let b1 = s[i + 1];
        let b2 = s[i + 2];
        proof {
            assert(tail.len() >= 3);
            assert(tail[0] == b0 && tail[1] == b1 && tail[2] == b2);
            assert(tail.skip(3) =~= s@.skip(i as int + 3));
            lemma_b64_parts(b0, b1, b2);
        }
        out.push(b64_char_exec(b0 >> 2));
        out.push(b64_char_exec(((b0 & 3) << 4) | (b1 >> 4)));
        out.push(b64_char_exec(((b1 & 15) << 2) | (b2 >> 6)));
        out.push(b64_char_exec(b2 & 63));
        proof {
            assert(out@ + b64_encode(s@.skip(i as int + 3)) =~= (out@.subrange(
                0,
                out@.len() - 4,
            ) + b64_group(b0, b1, b2)) + b64_encode(s@.skip(i as int + 3)));
            assert(out@.subrange(0, out@.len() - 4) + (b64_group(b0, b1, b2) + b64_encode(
                s@.skip(i as int + 3),
            )) =~= (out@.subrange(0, out@.len() - 4) + b64_group(b0, b1, b2)) + b64_encode(
                s@.skip(i as int + 3),
            ));
        }
        i = i + 3;
    }
    let ghost tail = s@.skip(i as int);
    if n - i == 1 {
        let b0 = s[i];
        assert(tail.len() == 1 && tail[0] == b0);
        proof {
            lemma_b64_parts(b0, 0, 0);
        }
        out.push(b64_char_exec(b0 >> 2));
        out.push(b64_char_exec((b0 & 3) << 4));
        out.push(PAD);
        out.push(PAD);
    } else if n - i == 2 {
        let b0 = s[i];
        let b1 = s[i + 1];
        assert(tail.len() == 2 && tail[0] == b0 && tail[1] == b1);
        proof {
            lemma_b64_parts(b0, b1, 0);
        }
        out.push(b64_char_exec(b0 >> 2));
        out.push(b64_char_exec(((b0 & 3) << 4) | (b1 >> 4)));
        out.push(b64_char_exec((b1 & 15) << 2));
        out.push(PAD);
    } else {
        assert(tail.len() == 0);
        assert(b64_encode(tail) =~= Seq::<u8>::empty());
    }
    assert(out@ =~= b64_encode(s@));
    out
}

/// Strict base64 decode of a byte slice; mirrors `b64_decode` exactly.
pub fn decode(s: &[u8]) -> (r: Option<Vec<u8>>)
    ensures
        match r {
            Some(v) => b64_decode(s@) == Some(v@),
            None => b64_decode(s@) is None,
        },
{
    let mut out: Vec<u8> = Vec::new();
    let mut i: usize = 0;
    let n = s.len();
    assert(s@.skip(0) =~= s@);
    loop
        invariant
            0 <= i <= n,
            n == s@.len(),
            b64_decode(s@) == (match b64_decode(s@.skip(i as int)) {
                Some(rest) => Some(out@ + rest),
                None => None,
            }),
        decreases n - i,
    {
        let ghost tail = s@.skip(i as int);
        if i == n {
            proof {
                assert(tail.len() == 0);
                assert(b64_decode(tail) == Some(Seq::<u8>::empty()));
                assert(out@ + Seq::<u8>::empty() =~= out@);
            }
            return Some(out);
        }
        if n - i < 4 {
            proof {
                assert(0 < tail.len() < 4);
            }
            return None;
        }
        let c0 = s[i];
        let c1 = s[i + 1];
        let c2 = s[i + 2];
        let c3 = s[i + 3];
        proof {
            assert(tail[0] == c0 && tail[1] == c1 && tail[2] == c2 && tail[3] == c3);
        }
        if n - i == 4 {
            let v0 = match b64_value_exec(c0) {
                Some(v) => v,
                None => {
                    return None;
                },
            };
            let v1 = match b64_value_exec(c1) {
                Some(v) => v,
                None => {
                    return None;
                },
            };
            if c2 == PAD && c3 == PAD {
                if v1 & 15 == 0 {
                    let ghost before = out@;
                    out.push((v0 << 2) | (v1 >> 4));
                    proof {
                        assert(b64_decode(tail) == Some(seq![(v0 << 2) | (v1 >> 4)]));
                        assert(out@ =~= before + seq![(v0 << 2) | (v1 >> 4)]);
                    }
                    return Some(out);
                }
                return None;
            }
            if c3 == PAD {
                let v2 = match b64_value_exec(c2) {
                    Some(v) => v,
                    None => {
                        return None;
                    },
                };
                if v2 & 3 == 0 {
                    let ghost before = out@;
                    out.push((v0 << 2) | (v1 >> 4));
                    out.push(((v1 & 15) << 4) | (v2 >> 2));
                    proof {
                        assert(b64_decode(tail) == Some(seq![
                            (v0 << 2) | (v1 >> 4),
                            ((v1 & 15) << 4) | (v2 >> 2),
                        ]));
                        assert(out@ =~= before + seq![
                            (v0 << 2) | (v1 >> 4),
                            ((v1 & 15) << 4) | (v2 >> 2),
                        ]);
                    }
                    return Some(out);
                }
                return None;
            }
            let v2 = match b64_value_exec(c2) {
                Some(v) => v,
                None => {
                    return None;
                },
            };
            let v3 = match b64_value_exec(c3) {
                Some(v) => v,
                None => {
                    return None;
                },
            };
            let ghost before = out@;
            out.push((v0 << 2) | (v1 >> 4));
            out.push(((v1 & 15) << 4) | (v2 >> 2));
            out.push(((v2 & 3) << 6) | v3);
            proof {
                assert(b64_decode(tail) == Some(seq![
                    (v0 << 2) | (v1 >> 4),
                    ((v1 & 15) << 4) | (v2 >> 2),
                    ((v2 & 3) << 6) | v3,
                ]));
                assert(out@ =~= before + seq![
                    (v0 << 2) | (v1 >> 4),
                    ((v1 & 15) << 4) | (v2 >> 2),
                    ((v2 & 3) << 6) | v3,
                ]);
            }
            return Some(out);
        }
        let v0 = match b64_value_exec(c0) {
            Some(v) => v,
            None => {
                return None;
            },
        };
        let v1 = match b64_value_exec(c1) {
            Some(v) => v,
            None => {
                return None;
            },
        };
        let v2 = match b64_value_exec(c2) {
            Some(v) => v,
            None => {
                return None;
            },
        };
        let v3 = match b64_value_exec(c3) {
            Some(v) => v,
            None => {
                return None;
            },
        };
        let ghost before = out@;
        out.push((v0 << 2) | (v1 >> 4));
        out.push(((v1 & 15) << 4) | (v2 >> 2));
        out.push(((v2 & 3) << 6) | v3);
        proof {
            let three = seq![
                (v0 << 2) | (v1 >> 4),
                ((v1 & 15) << 4) | (v2 >> 2),
                ((v2 & 3) << 6) | v3,
            ];
            assert(out@ =~= before + three);
            assert(tail.skip(4) =~= s@.skip(i as int + 4));
            assert(b64_decode(tail) == (match b64_decode(s@.skip(i as int + 4)) {
                Some(rest) => Some(three + rest),
                None => None,
            }));
            assert(forall|rest: Seq<u8>| #[trigger] ((before + three) + rest) =~= before + (three
                + rest));
        }
        i = i + 4;
    }
}

} // verus!
