//! Base64url without padding: the textual armor of the token's header and
//! payload segments. Encoding and decoding are verified inverses.

use vstd::prelude::*;

verus! {

/// The alphabet: values 0..64 map to `A-Z`, `a-z`, `0-9`, `-`, `_`.
pub open spec fn b64_char(v: int) -> u8
    recommends
        0 <= v < 64,
{
    if v < 26 {
        (65 + v) as u8
    } else if v < 52 {
        (71 + v) as u8
    } else if v < 62 {
        (v - 4) as u8
    } else if v == 62 {
        45u8
    } else {
        95u8
    }
}

/// The value of an alphabet byte, or -1 for a byte outside the alphabet.
pub open spec fn b64_val(b: u8) -> int {
    if 65 <= b <= 90 {
        b - 65
    } else if 97 <= b <= 122 {
        b - 71
    } else if 48 <= b <= 57 {
        b + 4
    } else if b == 45 {
        62
    } else if b == 95 {
        63
    } else {
        -1
    }
}

/// A byte of the alphabet.
pub open spec fn is_b64_byte(b: u8) -> bool {
    b64_val(b) >= 0
}

/// Base64url encoding without padding, three input bytes to four output
/// bytes, with two- and three-byte tails for the last group.
pub open spec fn b64_encode(s: Seq<u8>) -> Seq<u8>
    decreases s.len(),
{
    if s.len() == 0 {
        Seq::empty()
    } else if s.len() == 1 {
        seq![b64_char(s[0] as int / 4), b64_char((s[0] % 4) * 16)]
    } else if s.len() == 2 {
        seq![
            b64_char(s[0] as int / 4),
            b64_char((s[0] % 4) * 16 + s[1] / 16),
            b64_char((s[1] % 16) * 4),
        ]
    } else {
        seq![
            b64_char(s[0] as int / 4),
            b64_char((s[0] % 4) * 16 + s[1] / 16),
            b64_char((s[1] % 16) * 4 + s[2] / 64),
            b64_char(s[2] as int % 64),
        ] + b64_encode(s.skip(3))
    }
}

/// Base64url decoding without padding: four alphabet bytes to three output
/// bytes; a tail of two or three is a final group; a tail of one, or any byte
/// outside the alphabet, is invalid. Unused bits of a final group are
/// ignored.
pub open spec fn b64_decode(s: Seq<u8>) -> Option<Seq<u8>>
    decreases s.len(),
{
    if s.len() == 0 {
        Some(Seq::empty())
    } else if s.len() == 1 {
        None
    } else if s.len() == 2 {
        if is_b64_byte(s[0]) && is_b64_byte(s[1]) {
            Some(seq![(b64_val(s[0]) * 4 + b64_val(s[1]) / 16) as u8])
        } else {
            None
        }
    } else if s.len() == 3 {
        if is_b64_byte(s[0]) && is_b64_byte(s[1]) && is_b64_byte(s[2]) {
            Some(
                seq![
                    (b64_val(s[0]) * 4 + b64_val(s[1]) / 16) as u8,
                    ((b64_val(s[1]) % 16) * 16 + b64_val(s[2]) / 4) as u8,
                ],
            )
        } else {
            None
        }
    } else {
        if is_b64_byte(s[0]) && is_b64_byte(s[1]) && is_b64_byte(s[2]) && is_b64_byte(s[3]) {
            match b64_decode(s.skip(4)) {
                Some(rest) => Some(
                    seq![
                        (b64_val(s[0]) * 4 + b64_val(s[1]) / 16) as u8,
                        ((b64_val(s[1]) % 16) * 16 + b64_val(s[2]) / 4) as u8,
                        ((b64_val(s[2]) % 4) * 64 + b64_val(s[3])) as u8,
                    ] + rest,
                ),
                None => None,
            }
        } else {
            None
        }
    }
}

/// Decoding undoes encoding.
pub proof fn lemma_b64_round_trip(s: Seq<u8>)
    ensures
        b64_decode(b64_encode(s)) == Some(s),
    decreases s.len(),
{
    lemma_b64_char_val();
    if s.len() == 0 {
        assert(b64_decode(b64_encode(s)) == Some(s));
        assert(s =~= Seq::<u8>::empty());
    } else if s.len() == 1 {
        let b0 = s[0];
        let e = b64_encode(s);
        assert(e.len() == 2);
        assert(b64_val(e[0]) == b0 / 4 && b64_val(e[1]) == (b0 % 4) * 16);
        assert(b64_val(e[0]) * 4 + b64_val(e[1]) / 16 == b0) by (nonlinear_arith)
            requires
                b64_val(e[0]) == b0 / 4 && b64_val(e[1]) == (b0 % 4) * 16,
        ;
        assert(b64_decode(e)->Some_0 =~= s);
    } else if s.len() == 2 {
        let b0 = s[0];
        let b1 = s[1];
        let e = b64_encode(s);
        assert(e.len() == 3);
        assert(b64_val(e[0]) == b0 / 4 && b64_val(e[1]) == (b0 % 4) * 16 + b1 / 16 && b64_val(
            e[2],
        ) == (b1 % 16) * 4);
        lemma_b64_group_inverse(b0, b1, 0);
        assert(b64_decode(e)->Some_0 =~= s);
    } else {
        let b0 = s[0];
        let b1 = s[1];
        let b2 = s[2];
        let tail = b64_encode(s.skip(3));
        let e = b64_encode(s);
        assert(e =~= seq![
            b64_char(b0 as int / 4),
            b64_char((b0 % 4) * 16 + b1 / 16),
            b64_char((b1 % 16) * 4 + b2 / 64),
            b64_char(b2 as int % 64),
        ] + tail);
        lemma_b64_round_trip(s.skip(3));
        if s.len() == 3 {
            assert(tail =~= Seq::<u8>::empty());
            assert(e.len() == 4);
            lemma_b64_group_inverse(b0, b1, b2);
            assert(b64_decode(e.skip(4)) == Some(Seq::<u8>::empty()));
            assert(b64_decode(e)->Some_0 =~= s);
        } else {
            assert(tail.len() >= 2);
            assert(e.len() >= 6);
            assert(e.skip(4) =~= tail);
            lemma_b64_group_inverse(b0, b1, b2);
            assert(b64_decode(e)->Some_0 =~= seq![b0, b1, b2] + s.skip(3));
            assert(seq![b0, b1, b2] + s.skip(3) =~= s);
        }
    }
}

/// The alphabet map and its inverse cancel.
proof fn lemma_b64_char_val()
    ensures
        forall|v: int| 0 <= v < 64 ==> #[trigger] b64_val(b64_char(v)) == v,
{
}

/// The three bytes of a full group are recovered from the four alphabet
/// values of its encoding.
proof fn lemma_b64_group_inverse(b0: u8, b1: u8, b2: u8)
    ensures
        (b0 / 4) * 4 + ((b0 % 4) * 16 + b1 / 16) / 16 == b0,
        (((b0 % 4) * 16 + b1 / 16) % 16) * 16 + ((b1 % 16) * 4 + b2 / 64) / 4 == b1,
        (((b1 % 16) * 4 + b2 / 64) % 4) * 64 + b2 % 64 == b2,
{
    assert((b0 / 4) * 4 + ((b0 % 4) * 16 + b1 / 16) / 16 == b0) by (nonlinear_arith);
    assert((((b0 % 4) * 16 + b1 / 16) % 16) * 16 + ((b1 % 16) * 4 + b2 / 64) / 4 == b1)
        by (nonlinear_arith);
    assert((((b1 % 16) * 4 + b2 / 64) % 4) * 64 + b2 % 64 == b2) by (nonlinear_arith);
}

/// Every byte of an encoding is in the alphabet; in particular no encoding
/// contains a separator dot, and every encoding is ASCII.
pub proof fn lemma_b64_encode_alphabet(s: Seq<u8>)
    ensures
        forall|i: int|
            0 <= i < b64_encode(s).len() ==> #[trigger] is_b64_byte(b64_encode(s)[i]),
    decreases s.len(),
{
    lemma_b64_char_val();
    assert forall|v: int| 0 <= v < 64 implies #[trigger] is_b64_byte(b64_char(v)) by {
        assert(b64_val(b64_char(v)) == v);
    }
    if s.len() <= 2 {
    } else {
        lemma_b64_encode_alphabet(s.skip(3));
        let e = b64_encode(s);
        let tail = b64_encode(s.skip(3));
        assert forall|i: int| 0 <= i < e.len() implies #[trigger] is_b64_byte(e[i]) by {
            if i >= 4 {
                assert(e[i] == tail[i - 4]);
            }
        }
    }
}

/// An alphabet byte is ASCII and is not a dot.
pub proof fn lemma_b64_byte_shape(b: u8)
    ensures
        is_b64_byte(b) ==> b < 128 && b != 46,
{
}

/// The table lookup for one alphabet byte.
fn b64_char_of(v: u8) -> (r: u8)
    requires
        v < 64,
    ensures
        r == b64_char(v as int),
{
    if v < 26 {
        65 + v
    } else if v < 52 {
        71 + v
    } else if v < 62 {
        v - 4
    } else if v == 62 {
        45
    } else {
        95
    }
}

/// The inverse table lookup: the value of an alphabet byte, or `None`.
fn b64_val_of(b: u8) -> (r: Option<u8>)
    ensures
        match r {
            Some(v) => b64_val(b) == v as int && v < 64,
            None => b64_val(b) == -1,
        },
{
    if 65 <= b && b <= 90 {
        Some(b - 65)
    } else if 97 <= b && b <= 122 {
        Some(b - 71)
    } else if 48 <= b && b <= 57 {
        Some(b + 4)
    } else if b == 45 {
        Some(62)
    } else if b == 95 {
        Some(63)
    } else {
        None
    }
}

/// Base64url-encode a byte string.
pub fn encode(s: &[u8]) -> (r: Vec<u8>)
    ensures
        r@ == b64_encode(s@),
{
    let mut out: Vec<u8> = Vec::new();
    let mut i: usize = 0;
    proof {
        assert(s@.skip(0) =~= s@);
    }
    while s.len() - i >= 3
        invariant
            i <= s.len(),
            b64_encode(s@) =~= out@ + b64_encode(s@.skip(i as int)),
        decreases s.len() - i,
    {
        let b0 = s[i];
        let b1 = s[i + 1];
        let b2 = s[i + 2];
        proof {
            let rest = s@.skip(i as int);
            assert(rest.len() >= 3);
            assert(rest[0] == b0 && rest[1] == b1 && rest[2] == b2);
            assert(rest.skip(3) =~= s@.skip(i + 3));
        }
        out.push(b64_char_of(b0 / 4));
        out.push(b64_char_of((b0 % 4) * 16 + b1 / 16));
        out.push(b64_char_of((b1 % 16) * 4 + b2 / 64));
        out.push(b64_char_of(b2 % 64));
        i = i + 3;
        proof {
            assert(b64_encode(s@) =~= out@ + b64_encode(s@.skip(i as int)));
        }
    }
    if s.len() - i == 1 {
        let b0 = s[i];
        proof {
            let rest = s@.skip(i as int);
            assert(rest.len() == 1 && rest[0] == b0);
        }
        out.push(b64_char_of(b0 / 4));
        out.push(b64_char_of((b0 % 4) * 16));
        proof {
            assert(out@ =~= b64_encode(s@));
        }
    } else if s.len() - i == 2 {
        let b0 = s[i];
        let b1 = s[i + 1];
        proof {
            let rest = s@.skip(i as int);
            assert(rest.len() == 2 && rest[0] == b0 && rest[1] == b1);
        }
        out.push(b64_char_of(b0 / 4));
        out.push(b64_char_of((b0 % 4) * 16 + b1 / 16));
        out.push(b64_char_of((b1 % 16) * 4));
        proof {
            assert(out@ =~= b64_encode(s@));
        }
    } else {
        proof {
            assert(s@.skip(i as int).len() == 0);
            assert(out@ =~= b64_encode(s@));
        }
    }
    out
}

/// Base64url-decode a byte string, or report that it is not a valid
/// encoding.
pub fn decode(s: &[u8]) -> (r: Option<Vec<u8>>)
    ensures
        match r {
            Some(v) => b64_decode(s@) == Some(v@),
            None => b64_decode(s@) is None,
        },
{
    let mut out: Vec<u8> = Vec::new();
    let mut i: usize = 0;
    proof {
        assert(s@.skip(0) =~= s@);
    }
    while s.len() - i >= 4
        invariant
            i <= s.len(),
            b64_decode(s@) is Some <==> b64_decode(s@.skip(i as int)) is Some,
            b64_decode(s@) is Some ==> b64_decode(s@)->Some_0 == out@ + b64_decode(
                s@.skip(i as int),
            )->Some_0,
        decreases s.len() - i,
    {
        let c0 = b64_val_of(s[i]);
        let c1 = b64_val_of(s[i + 1]);
        let c2 = b64_val_of(s[i + 2]);
        let c3 = b64_val_of(s[i + 3]);
        proof {
            let rest = s@.skip(i as int);
            assert(rest.len() >= 4);
            assert(rest[0] == s@[i as int] && rest[1] == s@[i + 1] && rest[2] == s@[i + 2]
                && rest[3] == s@[i + 3]);
            assert(rest.skip(4) =~= s@.skip(i + 4));
        }
        match (c0, c1, c2, c3) {
            (Some(v0), Some(v1), Some(v2), Some(v3)) => {
                let ghost before = out@;
                out.push(v0 * 4 + v1 / 16);
                out.push((v1 % 16) * 16 + v2 / 4);
                out.push((v2 % 4) * 64 + v3);
                i = i + 4;
                proof {
                    let x0 = out@[out@.len() - 3];
                    let x1 = out@[out@.len() - 2];
                    let x2 = out@[out@.len() - 1];
                    assert(out@ =~= before + seq![x0, x1, x2]);
                    if b64_decode(s@.skip(i as int)) is Some {
                        assert(before + (seq![x0, x1, x2] + b64_decode(
                            s@.skip(i as int),
                        )->Some_0) =~= out@ + b64_decode(s@.skip(i as int))->Some_0);
                    }
                }
            },
            _ => {
                return None;
            },
        }
    }
    let n = s.len() - i;
    if n == 0 {
        proof {
            assert(s@.skip(i as int).len() == 0);
            assert(b64_decode(s@)->Some_0 =~= out@);
        }
        Some(out)
    } else if n == 2 {
        let c0 = b64_val_of(s[i]);
        let c1 = b64_val_of(s[i + 1]);
        proof {
            let rest = s@.skip(i as int);
            assert(rest.len() == 2);
            assert(rest[0] == s@[i as int] && rest[1] == s@[i + 1]);
        }
        match (c0, c1) {
            (Some(v0), Some(v1)) => {
                let ghost before = out@;
                out.push(v0 * 4 + v1 / 16);
                proof {
                    assert(out@ =~= before + seq![out@[out@.len() - 1]]);
                    assert(b64_decode(s@)->Some_0 =~= out@);
                }
                Some(out)
            },
            _ => None,
        }
    } else if n == 3 {
        let c0 = b64_val_of(s[i]);
        let c1 = b64_val_of(s[i + 1]);
        let c2 = b64_val_of(s[i + 2]);
        proof {
            let rest = s@.skip(i as int);
            assert(rest.len() == 3);
            assert(rest[0] == s@[i as int] && rest[1] == s@[i + 1] && rest[2] == s@[i + 2]);
        }
        match (c0, c1, c2) {
            (Some(v0), Some(v1), Some(v2)) => {
                let ghost before = out@;
                out.push(v0 * 4 + v1 / 16);
                out.push((v1 % 16) * 16 + v2 / 4);
                proof {
                    assert(out@ =~= before + seq![out@[out@.len() - 2], out@[out@.len() - 1]]);
                    assert(b64_decode(s@)->Some_0 =~= out@);
                }
                Some(out)
            },
            _ => None,
        }
    } else {
        proof {
            assert(s@.skip(i as int).len() == 1);
        }
        None
    }
}

} // verus!
