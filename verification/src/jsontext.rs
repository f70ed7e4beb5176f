//! JSON string bodies at the byte level: escaping when the payload is
//! rendered, unescaping when it is read back. The two are verified inverses.
//!
//! A quote, a backslash and the control bytes are escaped; every other byte
//! passes through, so a multi-byte character's bytes are untouched.

use vstd::prelude::*;

verus! {

/// The lower-case hex digit of a value below sixteen.
pub open spec fn hex_lower(v: int) -> u8
    recommends
        0 <= v < 16,
{
    if v < 10 {
        (48 + v) as u8
    } else {
        (87 + v) as u8
    }
}

/// The value of a lower-case hex digit byte, or -1.
pub open spec fn hex_val(b: u8) -> int {
    if 48 <= b <= 57 {
        b - 48
    } else if 97 <= b <= 102 {
        b - 87
    } else {
        -1
    }
}

/// The escape of one byte: `\"` and `\\` for quote and backslash, `\u00XX`
/// for a control byte, the byte itself otherwise.
pub open spec fn esc_byte(b: u8) -> Seq<u8> {
    if b == 34 {
        seq![92u8, 34u8]
    } else if b == 92 {
        seq![92u8, 92u8]
    } else if b < 32 {
        seq![92u8, 117u8, 48u8, 48u8, hex_lower(b as int / 16), hex_lower(b as int % 16)]
    } else {
        seq![b]
    }
}

/// The escape of a byte string.
pub open spec fn esc(s: Seq<u8>) -> Seq<u8>
    decreases s.len(),
{
    if s.len() == 0 {
        Seq::empty()
    } else {
        esc_byte(s[0]) + esc(s.skip(1))
    }
}

/// Reading an escaped string body up to and including its closing quote:
/// the unescaped bytes and the number of bytes consumed. `None` when the
/// closing quote is missing, on a raw control byte, or on an escape the
/// escaper never writes.
pub open spec fn parse_str_body(s: Seq<u8>) -> Option<(Seq<u8>, int)>
    decreases s.len(),
{
    if s.len() == 0 {
        None
    } else if s[0] == 34 {
        Some((Seq::empty(), 1))
    } else if s[0] == 92 {
        if s.len() < 2 {
            None
        } else if s[1] == 34 || s[1] == 92 {
            match parse_str_body(s.skip(2)) {
                Some(p) => Some((seq![s[1]] + p.0, 2 + p.1)),
                None => None,
            }
        } else if s[1] == 117 {
            if s.len() < 6 {
                None
            } else if s[2] == 48 && s[3] == 48 && hex_val(s[4]) >= 0 && hex_val(s[5]) >= 0
                && hex_val(s[4]) * 16 + hex_val(s[5]) < 32 {
                match parse_str_body(s.skip(6)) {
                    Some(p) => Some(
                        ((seq![(hex_val(s[4]) * 16 + hex_val(s[5])) as u8] + p.0), 6 + p.1),
                    ),
                    None => None,
                }
            } else {
                None
            }
        } else {
            None
        }
    } else if s[0] < 32 {
        None
    } else {
        match parse_str_body(s.skip(1)) {
            Some(p) => Some((seq![s[0]] + p.0, 1 + p.1)),
            None => None,
        }
    }
}

/// Escaping distributes over concatenation.
pub proof fn lemma_esc_concat(a: Seq<u8>, b: Seq<u8>)
    ensures
        esc(a + b) == esc(a) + esc(b),
    decreases a.len(),
{
    if a.len() == 0 {
        assert(a + b =~= b);
        assert(esc(a) + esc(b) =~= esc(b));
    } else {
        lemma_esc_concat(a.skip(1), b);
        assert((a + b).skip(1) =~= a.skip(1) + b);
        assert(esc(a + b) =~= esc_byte(a[0]) + (esc(a.skip(1)) + esc(b)));
        assert(esc_byte(a[0]) + (esc(a.skip(1)) + esc(b)) =~= esc(a) + esc(b));
    }
}

/// The hex digit map and its inverse cancel.
proof fn lemma_hex_cancel()
    ensures
        forall|v: int| 0 <= v < 16 ==> #[trigger] hex_val(hex_lower(v)) == v,
{
}

/// Unescaping undoes escaping: reading the escape of `s` followed by the
/// closing quote and anything more yields `s` back.
pub proof fn lemma_str_round_trip(s: Seq<u8>, rest: Seq<u8>)
    ensures
        parse_str_body(esc(s) + seq![34u8] + rest) == Some((s, esc(s).len() + 1int)),
    decreases s.len(),
{
    let input = esc(s) + seq![34u8] + rest;
    if s.len() == 0 {
        assert(input =~= seq![34u8] + rest);
        assert(input[0] == 34);
        assert(parse_str_body(input)->Some_0.0 =~= s);
    } else {
        let b = s[0];
        let e1 = esc_byte(b);
        let tail = esc(s.skip(1)) + seq![34u8] + rest;
        assert(input =~= e1 + tail);
        lemma_str_round_trip(s.skip(1), rest);
        lemma_hex_cancel();
        if b == 34 {
            assert(input[0] == 92 && input[1] == 34);
            assert(input.skip(2) =~= tail);
            assert(parse_str_body(input)->Some_0.0 =~= s);
        } else if b == 92 {
            assert(input[0] == 92 && input[1] == 92);
            assert(input.skip(2) =~= tail);
            assert(parse_str_body(input)->Some_0.0 =~= s);
        } else if b < 32 {
            assert(input[0] == 92 && input[1] == 117 && input[2] == 48 && input[3] == 48);
            assert(input[4] == hex_lower(b as int / 16) && input[5] == hex_lower(b as int % 16));
            assert(hex_val(input[4]) == b as int / 16 && hex_val(input[5]) == b as int % 16);
            assert((b as int / 16) * 16 + b as int % 16 == b) by (nonlinear_arith);
            assert(input.skip(6) =~= tail);
            assert(parse_str_body(input)->Some_0.0 =~= s);
        } else {
            assert(input[0] == b);
            assert(input.skip(1) =~= tail);
            assert(parse_str_body(input)->Some_0.0 =~= s);
        }
    }
}

/// The lower-case hex digit of a value below sixteen.
fn hex_lower_of(v: u8) -> (r: u8)
    requires
        v < 16,
    ensures
        r == hex_lower(v as int),
{
    if v < 10 {
        48 + v
    } else {
        87 + v
    }
}

/// Append the escape of `s` to `out`.
pub fn escape_into(out: &mut Vec<u8>, s: &[u8])
    ensures
        final(out)@ == old(out)@ + esc(s@),
{
    let mut j: usize = 0;
    proof {
        assert(s@.take(0) =~= Seq::<u8>::empty());
        assert(out@ =~= out@ + esc(s@.take(0)));
    }
    while j < s.len()
        invariant
            j <= s@.len(),
            out@ == old(out)@ + esc(s@.take(j as int)),
        decreases s@.len() - j,
    {
        let b = s[j];
        proof {
            assert(s@.take(j + 1) =~= s@.take(j as int) + seq![b]);
            lemma_esc_concat(s@.take(j as int), seq![b]);
            assert(seq![b].skip(1) =~= Seq::<u8>::empty());
            assert(esc(Seq::<u8>::empty()) == Seq::<u8>::empty());
            assert(esc(seq![b]) =~= esc_byte(b) + esc(seq![b].skip(1)));
            assert(esc(seq![b]) =~= esc_byte(b));
        }
        if b == 34 {
            out.push(92);
            out.push(34);
        } else if b == 92 {
            out.push(92);
            out.push(92);
        } else if b < 32 {
            out.push(92);
            out.push(117);
            out.push(48);
            out.push(48);
            out.push(hex_lower_of(b / 16));
            out.push(hex_lower_of(b % 16));
        } else {
            out.push(b);
        }
        j = j + 1;
        proof {
            assert(out@ =~= old(out)@ + esc(s@.take(j as int)));
        }
    }
    proof {
        assert(s@.take(j as int) =~= s@);
    }
}

/// The value of a lower-case hex digit byte, or `None`.
fn hex_val_of(b: u8) -> (r: Option<u8>)
    ensures
        match r {
            Some(v) => hex_val(b) == v as int && v < 16,
            None => hex_val(b) == -1,
        },
{
    if 48 <= b && b <= 57 {
        Some(b - 48)
    } else if 97 <= b && b <= 102 {
        Some(b - 87)
    } else {
        None
    }
}

/// Read an escaped string body at position `i` of `s`, up to and including
/// its closing quote; the unescaped bytes and the position after the quote.
pub fn read_str_body(s: &[u8], i: usize) -> (r: Option<(Vec<u8>, usize)>)
    requires
        i <= s@.len(),
    ensures
        match r {
            Some(p) => parse_str_body(s@.skip(i as int)) == Some((p.0@, p.1 - i)) && i < p.1
                <= s@.len(),
            None => parse_str_body(s@.skip(i as int)) is None,
        },
{
    let mut out: Vec<u8> = Vec::new();
    let mut j: usize = i;
    loop
        invariant
            i <= j <= s@.len(),
            parse_str_body(s@.skip(i as int)) is Some <==> parse_str_body(
                s@.skip(j as int),
            ) is Some,
            parse_str_body(s@.skip(i as int)) is Some ==> {
                let whole = parse_str_body(s@.skip(i as int))->Some_0;
                let part = parse_str_body(s@.skip(j as int))->Some_0;
                whole.0 == out@ + part.0 && whole.1 == (j - i) + part.1
            },
        decreases s@.len() - j,
    {
        let ghost cur = s@.skip(j as int);
        if j >= s.len() {
            proof {
                assert(cur.len() == 0);
            }
            return None;
        }
        let b = s[j];
        proof {
            assert(cur[0] == b);
        }
        if b == 34 {
            proof {
                assert(parse_str_body(cur) == Some((Seq::<u8>::empty(), 1int)));
                let whole = parse_str_body(s@.skip(i as int))->Some_0;
                assert(whole.0 =~= out@);
            }
            return Some((out, j + 1));
        } else if b == 92 {
            if j + 1 >= s.len() {
                proof {
                    assert(cur.len() < 2);
                }
                return None;
            }
            let e = s[j + 1];
            proof {
                assert(cur[1] == e);
                assert(cur.skip(2) =~= s@.skip(j + 2));
            }
            if e == 34 || e == 92 {
                let ghost before = out@;
                out.push(e);
                j = j + 2;
                proof {
                    assert(out@ =~= before + seq![e]);
                    if parse_str_body(s@.skip(j as int)) is Some {
                        let part = parse_str_body(s@.skip(j as int))->Some_0;
                        assert(before + (seq![e] + part.0) =~= out@ + part.0);
                    }
                }
            } else if e == 117 {
                if s.len() - j < 6 {
                    proof {
                        assert(cur.len() < 6);
                    }
                    return None;
                }
                proof {
                    assert(cur[2] == s@[j + 2] && cur[3] == s@[j + 3] && cur[4] == s@[j + 4]
                        && cur[5] == s@[j + 5]);
                    assert(cur.skip(6) =~= s@.skip(j + 6));
                }
                if s[j + 2] != 48 || s[j + 3] != 48 {
                    return None;
                }
                let h = hex_val_of(s[j + 4]);
                let l = hex_val_of(s[j + 5]);
                match (h, l) {
                    (Some(hv), Some(lv)) => {
                        let v: u8 = hv * 16 + lv;
                        if v >= 32 {
                            return None;
                        }
                        let ghost before = out@;
                        out.push(v);
                        j = j + 6;
                        proof {
                            assert(out@ =~= before + seq![v]);
                            if parse_str_body(s@.skip(j as int)) is Some {
                                let part = parse_str_body(s@.skip(j as int))->Some_0;
                                assert(before + (seq![v] + part.0) =~= out@ + part.0);
                            }
                        }
                    },
                    _ => {
                        return None;
                    },
                }
            } else {
                return None;
            }
        } else if b < 32 {
            return None;
        } else {
            let ghost before = out@;
            out.push(b);
            j = j + 1;
            proof {
                assert(cur.skip(1) =~= s@.skip(j as int));
                assert(out@ =~= before + seq![b]);
                if parse_str_body(s@.skip(j as int)) is Some {
                    let part = parse_str_body(s@.skip(j as int))->Some_0;
                    assert(before + (seq![b] + part.0) =~= out@ + part.0);
                }
            }
        }
    }
}

} // verus!
