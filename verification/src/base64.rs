//! A verified codec for the standard base64 text form (padded), in
//! which transaction envelopes travel between signers. Decoding is
//! strict: it accepts exactly the canonical encodings, so decoding an
//! encoding is the identity.

use vstd::prelude::*;

verus! {

/// The alphabet character of a 6-bit value.
pub open spec fn b64_char(v: int) -> u8
    recommends
        0 <= v < 64,
{
    if v < 26 {
        (65 + v) as u8
    } else if v < 52 {
        (97 + (v - 26)) as u8
    } else if v < 62 {
        (48 + (v - 52)) as u8
    } else if v == 62 {
        43u8
    } else {
        47u8
    }
}

/// The 6-bit value of an alphabet character, or -1 for any other byte.
pub open spec fn b64_val(c: u8) -> int {
    if 65 <= c <= 90 {
        c - 65
    } else if 97 <= c <= 122 {
        (c - 97) + 26
    } else if 48 <= c <= 57 {
        (c - 48) + 52
    } else if c == 43 {
        62
    } else if c == 47 {
        63
    } else {
        -1
    }
}

/// The canonical base64 encoding of a byte sequence, with padding.
pub open spec fn b64_encode(b: Seq<u8>) -> Seq<u8>
    decreases b.len(),
{
    if b.len() == 0 {
        Seq::empty()
    } else if b.len() == 1 {
        seq![
            b64_char(b[0] as int / 4),
            b64_char((b[0] as int % 4) * 16),
            61u8,
            61u8,
        ]
    } else if b.len() == 2 {
        seq![
            b64_char(b[0] as int / 4),
            b64_char((b[0] as int % 4) * 16 + b[1] as int / 16),
            b64_char((b[1] as int % 16) * 4),
            61u8,
        ]
    } else {
        seq![
            b64_char(b[0] as int / 4),
            b64_char((b[0] as int % 4) * 16 + b[1] as int / 16),
            b64_char((b[1] as int % 16) * 4 + b[2] as int / 64),
            b64_char(b[2] as int % 64),
        ] + b64_encode(b.skip(3))
    }
}

/// The strict base64 decoding of a text: the byte sequence whose
/// canonical encoding the text is, or nothing.
pub open spec fn b64_decode(s: Seq<u8>) -> Option<Seq<u8>>
    decreases s.len(),
{
    if s.len() == 0 {
        Some(Seq::empty())
    } else if s.len() < 4 {
        None
    } else {
        let c0 = b64_val(s[0]);
        let c1 = b64_val(s[1]);
        if c0 < 0 || c1 < 0 {
            None
        } else if s.len() == 4 && s[2] == 61 && s[3] == 61 {
            if c1 % 16 == 0 {
                Some(seq![(c0 * 4 + c1 / 16) as u8])
            } else {
                None
            }
        } else if s.len() == 4 && s[3] == 61 {
            let c2 = b64_val(s[2]);
            if c2 < 0 {
                None
            } else if c2 % 4 == 0 {
                Some(seq![(c0 * 4 + c1 / 16) as u8, ((c1 % 16) * 16 + c2 / 4) as u8])
            } else {
                None
            }
        } else {
            let c2 = b64_val(s[2]);
            let c3 = b64_val(s[3]);
            if c2 < 0 || c3 < 0 {
                None
            } else {
                match b64_decode(s.skip(4)) {
                    None => None,
                    Some(rest) => Some(
                        seq![
                            (c0 * 4 + c1 / 16) as u8,
                            ((c1 % 16) * 16 + c2 / 4) as u8,
                            ((c2 % 4) * 64 + c3) as u8,
                        ] + rest,
                    ),
                }
            }
        }
    }
}

/// Alphabet characters decode back to their values and are never the
/// padding character.
proof fn lemma_char_val(v: int)
    requires
        0 <= v < 64,
    ensures
        b64_val(b64_char(v)) == v,
        b64_char(v) != 61,
        b64_char(v) < 128,
{
}

/// Decoding the canonical encoding of a byte sequence yields that
/// sequence back.
pub proof fn lemma_b64_round_trip(b: Seq<u8>)
    ensures
        b64_decode(b64_encode(b)) == Some(b),
    decreases b.len(),
{
    if b.len() == 0 {
        assert(b64_encode(b) =~= Seq::<u8>::empty());
        assert(b64_decode(b64_encode(b)) == Some(Seq::<u8>::empty()));
        assert(b =~= Seq::<u8>::empty());
    } else if b.len() == 1 {
        let s = b64_encode(b);
        lemma_char_val(b[0] as int / 4);
        lemma_char_val((b[0] as int % 4) * 16);
        assert(((b[0] as int % 4) * 16) % 16 == 0) by (nonlinear_arith);
        assert(b64_val(s[0]) * 4 + b64_val(s[1]) / 16 == b[0]) by (nonlinear_arith)
            requires
                b64_val(s[0]) == b[0] as int / 4,
                b64_val(s[1]) == (b[0] as int % 4) * 16,
        ;
        assert(b64_decode(s) == Some(seq![b[0]]));
        assert(seq![b[0]] =~= b);
    } else if b.len() == 2 {
        let s = b64_encode(b);
        lemma_char_val(b[0] as int / 4);
        lemma_char_val((b[0] as int % 4) * 16 + b[1] as int / 16);
        lemma_char_val((b[1] as int % 16) * 4);
        let c1 = (b[0] as int % 4) * 16 + b[1] as int / 16;
        let c2 = (b[1] as int % 16) * 4;
        assert(c2 % 4 == 0) by (nonlinear_arith)
            requires
                c2 == (b[1] as int % 16) * 4,
        ;
        assert((b[0] as int / 4) * 4 + c1 / 16 == b[0] && (c1 % 16) * 16 + c2 / 4 == b[1]) by (
        nonlinear_arith)
            requires
                c1 == (b[0] as int % 4) * 16 + b[1] as int / 16,
                c2 == (b[1] as int % 16) * 4,
                0 <= b[0] < 256,
                0 <= b[1] < 256,
        ;
        assert(b64_decode(s) == Some(seq![b[0], b[1]]));
        assert(seq![b[0], b[1]] =~= b);
    } else {
        let rest = b.skip(3);
        lemma_b64_round_trip(rest);
        let s = b64_encode(b);
        let c0 = b[0] as int / 4;
        let c1 = (b[0] as int % 4) * 16 + b[1] as int / 16;
        let c2 = (b[1] as int % 16) * 4 + b[2] as int / 64;
        let c3 = b[2] as int % 64;
        lemma_char_val(c0);
        lemma_char_val(c1);
        lemma_char_val(c2);
        lemma_char_val(c3);
        lemma_encode_len(rest);
        assert(s.len() == 4 + b64_encode(rest).len());
        assert(s.skip(4) =~= b64_encode(rest));
        assert(c0 * 4 + c1 / 16 == b[0] && (c1 % 16) * 16 + c2 / 4 == b[1] && (c2 % 4) * 64 + c3
            == b[2]) by (nonlinear_arith)
            requires
                c0 == b[0] as int / 4,
                c1 == (b[0] as int % 4) * 16 + b[1] as int / 16,
                c2 == (b[1] as int % 16) * 4 + b[2] as int / 64,
                c3 == b[2] as int % 64,
                0 <= b[0] < 256,
                0 <= b[1] < 256,
                0 <= b[2] < 256,
        ;
        if b.len() == 3 {
            assert(b64_decode(s) == Some(seq![b[0], b[1], b[2]] + rest));
        } else {
            assert(s.len() > 4);
            assert(b64_decode(s) == Some(seq![b[0], b[1], b[2]] + rest));
        }
        assert(seq![b[0], b[1], b[2]] + rest =~= b);
    }
}

/// The encoding of a nonempty sequence holds at least four characters,
/// and every encoding's length is a multiple of four.
pub proof fn lemma_encode_len(b: Seq<u8>)
    ensures
        b64_encode(b).len() % 4 == 0,
        b.len() > 0 ==> b64_encode(b).len() >= 4,
    decreases b.len(),
{
    if b.len() == 0 {
    } else if b.len() <= 2 {
        assert(b64_encode(b).len() == 4);
    } else if b.len() == 3 {
        assert(b.skip(3).len() == 0);
        assert(b64_encode(b.skip(3)) =~= Seq::<u8>::empty());
        assert(b64_encode(b).len() == 4);
    } else {
        lemma_encode_len(b.skip(3));
        assert(b64_encode(b).len() == 4 + b64_encode(b.skip(3)).len());
    }
}

/// Every character of an encoding is ASCII.
pub proof fn lemma_encode_ascii(b: Seq<u8>)
    ensures
        forall|i: int| 0 <= i < b64_encode(b).len() ==> b64_encode(b)[i] < 128,
    decreases b.len(),
{
    if b.len() == 0 {
    } else if b.len() == 1 {
        lemma_char_val(b[0] as int / 4);
        lemma_char_val((b[0] as int % 4) * 16);
    } else if b.len() == 2 {
        lemma_char_val(b[0] as int / 4);
        lemma_char_val((b[0] as int % 4) * 16 + b[1] as int / 16);
        lemma_char_val((b[1] as int % 16) * 4);
    } else {
        lemma_char_val(b[0] as int / 4);
        lemma_char_val((b[0] as int % 4) * 16 + b[1] as int / 16);
        lemma_char_val((b[1] as int % 16) * 4 + b[2] as int / 64);
        lemma_char_val(b[2] as int % 64);
        lemma_encode_ascii(b.skip(3));
        assert forall|i: int| 0 <= i < b64_encode(b).len() implies b64_encode(b)[i] < 128 by {
            if i >= 4 {
                assert(b64_encode(b)[i] == b64_encode(b.skip(3))[i - 4]);
            }
        }
    }
}

/// The alphabet character of a 6-bit value.
fn b64_char_of(v: u8) -> (r: u8)
    requires
        v < 64,
    ensures
        r == b64_char(v as int),
{
    if v < 26 {
        65 + v
    } else if v < 52 {
        97 + (v - 26)
    } else if v < 62 {
        48 + (v - 52)
    } else if v == 62 {
        43
    } else {
        47
    }
}

/// The 6-bit value of an alphabet character.
fn b64_val_of(c: u8) -> (r: Option<u8>)
    ensures
        r matches Some(v) ==> v == b64_val(c) && v < 64,
        r is None ==> b64_val(c) < 0,
{
    if 65 <= c && c <= 90 {
        Some(c - 65)
    } else if 97 <= c && c <= 122 {
        Some((c - 97) + 26)
    } else if 48 <= c && c <= 57 {
        Some((c - 48) + 52)
    } else if c == 43 {
        Some(62)
    } else if c == 47 {
        Some(63)
    } else {
        None
    }
}

/// Encodes a byte sequence in its canonical base64 text form.
pub fn base64_encode(b: &[u8]) -> (r: Vec<u8>)
    ensures
        r@ == b64_encode(b@),
{
    let n = b.len();
    let mut out: Vec<u8> = Vec::new();
    let mut i: usize = 0;
    proof {
        assert(b@.skip(0) =~= b@);
        assert(out@ + b64_encode(b@) =~= b64_encode(b@));
    }
    while i < n && n - i >= 3
        invariant
            n == b@.len(),
            0 <= i <= n,
            i % 3 == 0,
            out@ + b64_encode(b@.skip(i as int)) == b64_encode(b@),
        decreases n - i,
    {
        let ghost tail = b@.skip(i as int);
        let b0 = b[i];
        let b1 = b[i + 1];
        let b2 = b[i + 2];
        proof {
            assert(tail[0] == b@[i as int] && tail[1] == b@[i + 1] && tail[2] == b@[i + 2]);
            assert(tail.len() >= 3);
            assert(tail.skip(3) =~= b@.skip(i + 3));
        }
        out.push(b64_char_of(b0 / 4));
        out.push(b64_char_of((b0 % 4) * 16 + b1 / 16));
        out.push(b64_char_of((b1 % 16) * 4 + b2 / 64));
        out.push(b64_char_of(b2 % 64));
        proof {
            assert(out@ + b64_encode(b@.skip(i + 3)) =~= b64_encode(b@));
        }
        i = i + 3;
    }
    let ghost tail = b@.skip(i as int);
    if i == n {
        proof {
            assert(tail =~= Seq::<u8>::empty());
            assert(out@ =~= b64_encode(b@));
        }
    } else if i + 1 == n {
        let b0 = b[i];
        proof {
            assert(tail.len() == 1 && tail[0] == b@[i as int]);
        }
        out.push(b64_char_of(b0 / 4));
        out.push(b64_char_of((b0 % 4) * 16));
        out.push(61);
        out.push(61);
        proof {
            assert(out@ =~= b64_encode(b@));
        }
    } else {
        let b0 = b[i];
        let b1 = b[i + 1];
        proof {
            assert(tail.len() == 2 && tail[0] == b@[i as int] && tail[1] == b@[i + 1]);
        }
        out.push(b64_char_of(b0 / 4));
        out.push(b64_char_of((b0 % 4) * 16 + b1 / 16));
        out.push(b64_char_of((b1 % 16) * 4));
        out.push(61);
        proof {
            assert(out@ =~= b64_encode(b@));
        }
    }
    out
}

/// Decodes a base64 text strictly: exactly the canonical encodings are
/// accepted.
pub fn base64_decode(s: &[u8]) -> (r: Option<Vec<u8>>)
    ensures
        r matches Some(v) ==> b64_decode(s@) == Some(v@),
        r is None ==> b64_decode(s@) is None,
{
    let n = s.len();
    if n == 0 {
        let empty: Vec<u8> = Vec::new();
        proof {
            assert(b64_decode(s@) == Some(Seq::<u8>::empty()));
            assert(empty@ =~= Seq::<u8>::empty());
        }
        return Some(empty);
    }
    if n % 4 != 0 {
        proof {
            lemma_decode_len(s@);
        }
        return None;
    }
    let mut out: Vec<u8> = Vec::new();
    let mut i: usize = 0;
    proof {
        assert(s@.skip(0) =~= s@);
    }
    while n - i > 4
        invariant
            n == s@.len(),
            n % 4 == 0,
            0 <= i < n,
            i % 4 == 0,
            b64_decode(s@) is Some <==> b64_decode(s@.skip(i as int)) is Some,
            b64_decode(s@) matches Some(w) ==> b64_decode(s@.skip(i as int)) matches Some(rest)
                && w == out@ + rest,
        decreases n - i,
    {
        let ghost tail = s@.skip(i as int);
        let ghost out_before = out@;
        proof {
            assert(tail.len() == n - i >= 8);
            assert(tail[0] == s@[i as int] && tail[1] == s@[i + 1] && tail[2] == s@[i + 2]
                && tail[3] == s@[i + 3]);
            assert(tail.skip(4) =~= s@.skip(i + 4));
        }
        let c0 = match b64_val_of(s[i]) {
            Some(v) => v,
            None => {
                proof {
                    assert(b64_decode(tail) is None);
                }
                return None;
            },
        };
        let c1 = match b64_val_of(s[i + 1]) {
            Some(v) => v,
            None => {
                proof {
                    assert(b64_decode(tail) is None);
                }
                return None;
            },
        };
        let c2 = match b64_val_of(s[i + 2]) {
            Some(v) => v,
            None => {
                proof {
                    assert(b64_decode(tail) is None);
                }
                return None;
            },
        };
        let c3 = match b64_val_of(s[i + 3]) {
            Some(v) => v,
            None => {
                proof {
                    assert(b64_decode(tail) is None);
                }
                return None;
            },
        };
        let g0 = c0 * 4 + c1 / 16;
        let g1 = (c1 % 16) * 16 + c2 / 4;
        let g2 = (c2 % 4) * 64 + c3;
        out.push(g0);
        out.push(g1);
        out.push(g2);
        proof {
            let d0 = b64_val(tail[0]);
            let d1 = b64_val(tail[1]);
            let d2 = b64_val(tail[2]);
            let d3 = b64_val(tail[3]);
            assert(d0 == c0 && d1 == c1 && d2 == c2 && d3 == c3);
            assert(g0 == (d0 * 4 + d1 / 16) as u8 && g1 == ((d1 % 16) * 16 + d2 / 4) as u8 && g2
                == ((d2 % 4) * 64 + d3) as u8);
            assert(b64_decode(tail) == (match b64_decode(tail.skip(4)) {
                None => None::<Seq<u8>>,
                Some(rest) => Some(seq![g0, g1, g2] + rest),
            }));
            assert(out@ =~= out_before + seq![g0, g1, g2]);
            if b64_decode(s@) is Some {
                let rest4 = b64_decode(s@.skip(i + 4)).unwrap();
                assert(b64_decode(s@).unwrap() == out_before + (seq![g0, g1, g2] + rest4));
                assert(out_before + (seq![g0, g1, g2] + rest4) =~= out@ + rest4);
            }
        }
        i = i + 4;
    }
    let ghost tail = s@.skip(i as int);
    let ghost out_before = out@;
    proof {
        assert(tail.len() == n - i == 4);
        assert(tail[0] == s@[i as int] && tail[1] == s@[i + 1] && tail[2] == s@[i + 2] && tail[3]
            == s@[i + 3]);
        assert(tail.skip(4) =~= Seq::<u8>::empty());
    }
    let c0 = match b64_val_of(s[i]) {
        Some(v) => v,
        None => {
            proof {
                assert(b64_decode(tail) is None);
            }
            return None;
        },
    };
    let c1 = match b64_val_of(s[i + 1]) {
        Some(v) => v,
        None => {
            proof {
                assert(b64_decode(tail) is None);
            }
            return None;
        },
    };
    if s[i + 2] == 61 && s[i + 3] == 61 {
        if c1 % 16 != 0 {
            proof {
                assert(b64_decode(tail) is None);
            }
            return None;
        }
        let g0 = c0 * 4 + c1 / 16;
        out.push(g0);
        proof {
            assert(g0 == (b64_val(tail[0]) * 4 + b64_val(tail[1]) / 16) as u8);
            assert(b64_decode(tail) == Some(seq![g0]));
            if b64_decode(s@) is Some {
                assert(b64_decode(s@).unwrap() =~= out@);
            }
        }
        return Some(out);
    }
    if s[i + 3] == 61 {
        let c2 = match b64_val_of(s[i + 2]) {
            Some(v) => v,
            None => {
                proof {
                    assert(b64_decode(tail) is None);
                }
                return None;
            },
        };
        if c2 % 4 != 0 {
            proof {
                assert(b64_decode(tail) is None);
            }
            return None;
        }
        let g0 = c0 * 4 + c1 / 16;
        let g1 = (c1 % 16) * 16 + c2 / 4;
        out.push(g0);
        out.push(g1);
        proof {
            assert(g0 == (b64_val(tail[0]) * 4 + b64_val(tail[1]) / 16) as u8);
            assert(g1 == ((b64_val(tail[1]) % 16) * 16 + b64_val(tail[2]) / 4) as u8);
            assert(b64_decode(tail) == Some(seq![g0, g1]));
            if b64_decode(s@) is Some {
                assert(b64_decode(s@).unwrap() =~= out@);
            }
        }
        return Some(out);
    }
    let c2 = match b64_val_of(s[i + 2]) {
        Some(v) => v,
        None => {
            proof {
                assert(b64_decode(tail) is None);
            }
            return None;
        },
    };
    let c3 = match b64_val_of(s[i + 3]) {
        Some(v) => v,
        None => {
            proof {
                assert(b64_decode(tail) is None);
            }
            return None;
        },
    };
    let g0 = c0 * 4 + c1 / 16;
    let g1 = (c1 % 16) * 16 + c2 / 4;
    let g2 = (c2 % 4) * 64 + c3;
    out.push(g0);
    out.push(g1);
    out.push(g2);
    proof {
        assert(g0 == (b64_val(tail[0]) * 4 + b64_val(tail[1]) / 16) as u8);
        assert(g1 == ((b64_val(tail[1]) % 16) * 16 + b64_val(tail[2]) / 4) as u8);
        assert(g2 == ((b64_val(tail[2]) % 4) * 64 + b64_val(tail[3])) as u8);
        assert(tail.len() == 4);
        assert(!(tail[2] == 61 && tail[3] == 61) && tail[3] != 61);
        assert(b64_val(tail[0]) >= 0 && b64_val(tail[1]) >= 0 && b64_val(tail[2]) >= 0 && b64_val(
            tail[3],
        ) >= 0);
        assert(b64_decode(tail.skip(4)) == Some(Seq::<u8>::empty()));
        assert(b64_decode(tail) == Some(seq![g0, g1, g2] + Seq::<u8>::empty()));
        if b64_decode(s@) is Some {
            assert(b64_decode(s@).unwrap() =~= out@);
        }
    }
    Some(out)
}

/// A text whose length is not a multiple of four decodes to nothing.
proof fn lemma_decode_len(s: Seq<u8>)
    requires
        s.len() % 4 != 0,
    ensures
        b64_decode(s) is None,
    decreases s.len(),
{
    if s.len() > 4 {
        lemma_decode_len(s.skip(4));
    }
}

} // verus!
