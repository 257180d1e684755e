//! Standard base64 with padding, stated as a spec-level codec and implemented
//! by verified loops. The encoding is bit-exact with the usual alphabet
//! (`A`-`Z`, `a`-`z`, `0`-`9`, `+`, `/`, pad `=`), so the transported fields
//! interoperate with any standard decoder.

use vstd::arithmetic::div_mod::lemma_fundamental_div_mod;
use vstd::arithmetic::div_mod::lemma_fundamental_div_mod_converse_div;
use vstd::arithmetic::div_mod::lemma_fundamental_div_mod_converse_mod;
use vstd::prelude::*;

verus! {

/// Alphabet byte for a 6-bit value.
pub open spec fn b64_char(v: u8) -> u8 {
    if v < 26 {
        (0x41 + v) as u8
    } else if v < 52 {
        (0x61 + (v - 26)) as u8
    } else if v < 62 {
        (0x30 + (v - 52)) as u8
    } else if v == 62 {
        0x2b
    } else {
        0x2f
    }
}

/// Whether a byte is in the base64 alphabet (the pad byte is not).
pub open spec fn is_b64_char(c: u8) -> bool {
    (0x41 <= c <= 0x5a) || (0x61 <= c <= 0x7a) || (0x30 <= c <= 0x39) || c == 0x2b || c == 0x2f
}

/// The 6-bit value of an alphabet byte.
pub open spec fn b64_val(c: u8) -> int {
    if 0x41 <= c <= 0x5a {
        c - 0x41
    } else if 0x61 <= c <= 0x7a {
        c - 0x61 + 26
    } else if 0x30 <= c <= 0x39 {
        c - 0x30 + 52
    } else if c == 0x2b {
        62
    } else {
        63
    }
}

/// `b64_char` hits only alphabet bytes and `b64_val` inverts it.
pub proof fn lemma_b64_char_inverse(v: u8)
    requires
        v < 64,
    ensures
        is_b64_char(b64_char(v)),
        b64_val(b64_char(v)) == v,
        b64_char(v) != 0x3d,
{
}

/// Base64 encoding of a byte sequence, most significant bits first, with
/// `=` padding in the final group.
pub open spec fn b64_encode(s: Seq<u8>) -> Seq<u8>
    decreases s.len(),
{
    if s.len() == 0 {
        Seq::empty()
    } else if s.len() == 1 {
        let b0 = s[0];
        seq![b64_char((b0 / 4) as u8), b64_char(((b0 % 4) * 16) as u8), 0x3du8, 0x3du8]
    } else if s.len() == 2 {
        let b0 = s[0];
        let b1 = s[1];
        seq![
            b64_char((b0 / 4) as u8),
            b64_char(((b0 % 4) * 16 + b1 / 16) as u8),
            b64_char(((b1 % 16) * 4) as u8),
            0x3du8,
        ]
    } else {
        let b0 = s[0];
        let b1 = s[1];
        let b2 = s[2];
        seq![
            b64_char((b0 / 4) as u8),
            b64_char(((b0 % 4) * 16 + b1 / 16) as u8),
            b64_char(((b1 % 16) * 4 + b2 / 64) as u8),
            b64_char((b2 % 64) as u8),
        ] + b64_encode(s.skip(3))
    }
}

/// Encoding splits at any byte offset that is a multiple of three.
pub proof fn lemma_b64_split(s: Seq<u8>, i: int)
    requires
        0 <= i <= s.len(),
        i % 3 == 0,
    ensures
        b64_encode(s) == b64_encode(s.take(i)) + b64_encode(s.skip(i)),
    decreases i,
{
    if i == 0 {
        assert(s.take(0) =~= Seq::<u8>::empty());
        assert(s.skip(0) =~= s);
        assert(b64_encode(s) =~= b64_encode(s.take(0)) + b64_encode(s.skip(0)));
    } else {
        assert(i >= 3);
        lemma_b64_split(s.skip(3), i - 3);
        assert(s.skip(3).take(i - 3) =~= s.take(i).skip(3));
        assert(s.skip(3).skip(i - 3) =~= s.skip(i));
        assert(s.take(i)[0] == s[0] && s.take(i)[1] == s[1] && s.take(i)[2] == s[2]);
        assert(b64_encode(s) =~= b64_encode(s.take(i)) + b64_encode(s.skip(i)));
    }
}

/// The length of an encoding: four bytes for every started triple.
pub proof fn lemma_b64_encode_len(s: Seq<u8>)
    ensures
        b64_encode(s).len() == 4 * ((s.len() + 2) / 3),
    decreases s.len(),
{
    if s.len() >= 3 {
        lemma_b64_encode_len(s.skip(3));
    }
}

/// Every byte of an encoding is left alone by JSON string escaping.
pub proof fn lemma_b64_encode_plain(s: Seq<u8>)
    ensures
        forall|i: int|
            0 <= i < b64_encode(s).len() ==> crate::jsonesc::is_plain(#[trigger] b64_encode(s)[i]),
    decreases s.len(),
{
    if s.len() == 0 {
    } else if s.len() <= 2 {
        assert forall|i: int|
            0 <= i < b64_encode(s).len() implies crate::jsonesc::is_plain(
            #[trigger] b64_encode(s)[i],
        ) by {
            lemma_b64_char_plain((s[0] / 4) as u8);
            lemma_b64_char_plain(((s[0] % 4) * 16) as u8);
            if s.len() == 2 {
                lemma_b64_char_plain(((s[0] % 4) * 16 + s[1] / 16) as u8);
                lemma_b64_char_plain(((s[1] % 16) * 4) as u8);
            }
        }
    } else {
        lemma_b64_encode_plain(s.skip(3));
        assert forall|i: int|
            0 <= i < b64_encode(s).len() implies crate::jsonesc::is_plain(
            #[trigger] b64_encode(s)[i],
        ) by {
            if i < 4 {
                lemma_b64_char_plain((s[0] / 4) as u8);
                lemma_b64_char_plain(((s[0] % 4) * 16 + s[1] / 16) as u8);
                lemma_b64_char_plain(((s[1] % 16) * 4 + s[2] / 64) as u8);
                lemma_b64_char_plain((s[2] % 64) as u8);
            } else {
                assert(b64_encode(s)[i] == b64_encode(s.skip(3))[i - 4]);
            }
        }
    }
}

/// Alphabet bytes and the pad byte are plain for JSON escaping.
proof fn lemma_b64_char_plain(v: u8)
    requires
        v < 64,
    ensures
        crate::jsonesc::is_plain(b64_char(v)),
{
}

/// Alphabet byte for a 6-bit value.
fn b64c(v: u8) -> (c: u8)
    requires
        v < 64,
    ensures
        c == b64_char(v),
{
    if v < 26 {
        0x41 + v
    } else if v < 52 {
        0x61 + (v - 26)
    } else if v < 62 {
        0x30 + (v - 52)
    } else if v == 62 {
        0x2b
    } else {
        0x2f
    }
}

/// 6-bit value of an alphabet byte, `None` outside the alphabet.
fn b64v(c: u8) -> (r: Option<u8>)
    ensures
        (r is Some) == is_b64_char(c),
        r matches Some(v) ==> v == b64_val(c),
{
    if 0x41 <= c && c <= 0x5a {
        Some(c - 0x41)
    } else if 0x61 <= c && c <= 0x7a {
        Some(c - 0x61 + 26)
    } else if 0x30 <= c && c <= 0x39 {
        Some(c - 0x30 + 52)
    } else if c == 0x2b {
        Some(62)
    } else if c == 0x2f {
        Some(63)
    } else {
        None
    }
}

/// Base64-encode a byte slice.
pub fn b64_encode_bytes(s: &[u8]) -> (r: Vec<u8>)
    ensures
        r@ == b64_encode(s@),
{
    let n = s.len();
    let mut out: Vec<u8> = Vec::new();
    let mut i: usize = 0;
    proof {
        assert(s@.take(0) =~= Seq::<u8>::empty());
    }
    while n - i >= 3
        invariant
            i <= n == s@.len(),
            i % 3 == 0,
            out@ == b64_encode(s@.take(i as int)),
        decreases n - i,
    {
        let b0 = s[i];
        let b1 = s[i + 1];
        let b2 = s[i + 2];
        out.push(b64c(b0 / 4));
        out.push(b64c((b0 % 4) * 16 + b1 / 16));
        out.push(b64c((b1 % 16) * 4 + b2 / 64));
        out.push(b64c(b2 % 64));
        proof {
            lemma_b64_split(s@.take(i + 3), i as int);
            assert(s@.take(i + 3).take(i as int) =~= s@.take(i as int));
            let tail = s@.take(i + 3).skip(i as int);
            assert(tail.len() == 3);
            assert(tail[0] == b0 && tail[1] == b1 && tail[2] == b2);
            assert(tail.skip(3) =~= Seq::<u8>::empty());
            assert(b64_encode(tail) == seq![
                b64_char((tail[0] / 4) as u8),
                b64_char(((tail[0] % 4) * 16 + tail[1] / 16) as u8),
                b64_char(((tail[1] % 16) * 4 + tail[2] / 64) as u8),
                b64_char((tail[2] % 64) as u8),
            ] + b64_encode(tail.skip(3)));
            assert(b64_encode(tail.skip(3)) == Seq::<u8>::empty());
            assert(b64_encode(tail) =~= seq![
                b64_char((b0 / 4) as u8),
                b64_char(((b0 % 4) * 16 + b1 / 16) as u8),
                b64_char(((b1 % 16) * 4 + b2 / 64) as u8),
                b64_char((b2 % 64) as u8),
            ]);
            assert(out@ =~= b64_encode(s@.take(i + 3)));
        }
        i += 3;
    }
    proof {
        lemma_b64_split(s@, i as int);
    }
    if i < s.len() {
        if s.len() - i == 1 {
            let b0 = s[i];
            out.push(b64c(b0 / 4));
            out.push(b64c((b0 % 4) * 16));
            out.push(0x3d);
            out.push(0x3d);
            proof {
                let tail = s@.skip(i as int);
                assert(tail.len() == 1 && tail[0] == b0);
                assert(out@ =~= b64_encode(s@));
            }
        } else {
            let b0 = s[i];
            let b1 = s[i + 1];
            out.push(b64c(b0 / 4));
            out.push(b64c((b0 % 4) * 16 + b1 / 16));
            out.push(b64c((b1 % 16) * 4));
            out.push(0x3d);
            proof {
                let tail = s@.skip(i as int);
                assert(tail.len() == 2 && tail[0] == b0 && tail[1] == b1);
                assert(out@ =~= b64_encode(s@));
            }
        }
    } else {
        proof {
            assert(s@.skip(i as int) =~= Seq::<u8>::empty());
            assert(out@ =~= b64_encode(s@));
        }
    }
    out
}

/// Base64 decoding: `None` on anything but a well-formed encoding.
pub open spec fn b64_decode_spec(s: Seq<u8>) -> Option<Seq<u8>>
    decreases s.len(),
{
    if s.len() == 0 {
        Some(Seq::empty())
    } else if s.len() < 4 {
        None
    } else {
        let c0 = s[0];
        let c1 = s[1];
        let c2 = s[2];
        let c3 = s[3];
        if !is_b64_char(c0) || !is_b64_char(c1) {
            None
        } else if c2 == 0x3d && c3 == 0x3d {
            if s.len() != 4 || b64_val(c1) % 16 != 0 {
                None
            } else {
                Some(seq![(b64_val(c0) * 4 + b64_val(c1) / 16) as u8])
            }
        } else if c3 == 0x3d {
            if s.len() != 4 || !is_b64_char(c2) || b64_val(c2) % 4 != 0 {
                None
            } else {
                Some(
                    seq![
                        (b64_val(c0) * 4 + b64_val(c1) / 16) as u8,
                        ((b64_val(c1) % 16) * 16 + b64_val(c2) / 4) as u8,
                    ],
                )
            }
        } else if !is_b64_char(c2) || !is_b64_char(c3) {
            None
        } else {
            match b64_decode_spec(s.skip(4)) {
                Some(rest) => Some(
                    seq![
                        (b64_val(c0) * 4 + b64_val(c1) / 16) as u8,
                        ((b64_val(c1) % 16) * 16 + b64_val(c2) / 4) as u8,
                        ((b64_val(c2) % 4) * 64 + b64_val(c3)) as u8,
                    ] + rest,
                ),
                None => None,
            }
        }
    }
}

/// Decoding inverts encoding on every byte sequence.
pub proof fn lemma_b64_decode_encode(x: Seq<u8>)
    ensures
        b64_decode_spec(b64_encode(x)) == Some(x),
    decreases x.len(),
{
    if x.len() == 0 {
    } else if x.len() == 1 {
        let b0 = x[0];
        lemma_b64_char_inverse((b0 / 4) as u8);
        lemma_b64_char_inverse(((b0 % 4) * 16) as u8);
        lemma_fundamental_div_mod(b0 as int, 4);
        assert(((b0 % 4) * 16) % 16 == 0) by {
            lemma_fundamental_div_mod_converse_mod((b0 % 4) * 16, 16, b0 as int % 4, 0);
        }
        assert(((b0 % 4) * 16) / 16 == b0 % 4) by {
            lemma_fundamental_div_mod_converse_div((b0 % 4) * 16, 16, b0 as int % 4, 0);
        }
        assert(b64_decode_spec(b64_encode(x)) =~= Some(x)) by {
            assert((b0 / 4) * 4 + b0 % 4 == b0);
            assert(b64_encode(x).len() == 4);
            assert(b64_decode_spec(b64_encode(x))->0 =~= x);
        }
    } else if x.len() == 2 {
        let b0 = x[0];
        let b1 = x[1];
        let v0 = (b0 / 4) as u8;
        let v1 = ((b0 % 4) * 16 + b1 / 16) as u8;
        let v2 = ((b1 % 16) * 4) as u8;
        lemma_b64_char_inverse(v0);
        lemma_b64_char_inverse(v1);
        lemma_b64_char_inverse(v2);
        lemma_fundamental_div_mod(b0 as int, 4);
        lemma_fundamental_div_mod(b1 as int, 16);
        assert(v1 % 16 == b1 / 16 && v1 / 16 == b0 % 4) by {
            lemma_fundamental_div_mod_converse_mod(v1 as int, 16, b0 as int % 4, b1 as int / 16);
            lemma_fundamental_div_mod_converse_div(v1 as int, 16, b0 as int % 4, b1 as int / 16);
        }
        assert(v2 % 4 == 0 && v2 / 4 == b1 % 16) by {
            lemma_fundamental_div_mod_converse_mod(v2 as int, 4, b1 as int % 16, 0);
            lemma_fundamental_div_mod_converse_div(v2 as int, 4, b1 as int % 16, 0);
        }
        assert(b64_decode_spec(b64_encode(x)) =~= Some(x)) by {
            assert(b64_encode(x).len() == 4);
            assert(b64_decode_spec(b64_encode(x))->0 =~= x);
        }
    } else {
        let b0 = x[0];
        let b1 = x[1];
        let b2 = x[2];
        let v0 = (b0 / 4) as u8;
        let v1 = ((b0 % 4) * 16 + b1 / 16) as u8;
        let v2 = ((b1 % 16) * 4 + b2 / 64) as u8;
        let v3 = (b2 % 64) as u8;
        lemma_b64_char_inverse(v0);
        lemma_b64_char_inverse(v1);
        lemma_b64_char_inverse(v2);
        lemma_b64_char_inverse(v3);
        lemma_fundamental_div_mod(b0 as int, 4);
        lemma_fundamental_div_mod(b1 as int, 16);
        lemma_fundamental_div_mod(b2 as int, 64);
        assert(v1 % 16 == b1 / 16 && v1 / 16 == b0 % 4) by {
            lemma_fundamental_div_mod_converse_mod(v1 as int, 16, b0 as int % 4, b1 as int / 16);
            lemma_fundamental_div_mod_converse_div(v1 as int, 16, b0 as int % 4, b1 as int / 16);
        }
        assert(v2 % 4 == b2 / 64 && v2 / 4 == b1 % 16) by {
            lemma_fundamental_div_mod_converse_mod(v2 as int, 4, b1 as int % 16, b2 as int / 64);
            lemma_fundamental_div_mod_converse_div(v2 as int, 4, b1 as int % 16, b2 as int / 64);
        }
        lemma_b64_decode_encode(x.skip(3));
        let s = b64_encode(x);
        assert(s.skip(4) =~= b64_encode(x.skip(3)));
        assert(b64_decode_spec(s) is Some);
        assert(b64_decode_spec(s)->0 =~= x);
    }
}

/// Base64-decode a byte slice; `None` on malformed input.
pub fn b64_decode_bytes(s: &[u8]) -> (r: Option<Vec<u8>>)
    ensures
        r matches Some(v) ==> b64_decode_spec(s@) == Some(v@),
        r is None ==> b64_decode_spec(s@) is None,
{
    let n = s.len();
    if n % 4 != 0 {
        proof {
            lemma_b64_decode_len(s@);
        }
        return None;
    }
    let mut out: Vec<u8> = Vec::new();
    let mut i: usize = 0;
    proof {
        assert(s@.skip(0) =~= s@);
        if b64_decode_spec(s@) is Some {
            assert(Seq::<u8>::empty() + b64_decode_spec(s@)->0 =~= b64_decode_spec(s@)->0);
        }
    }
    while n - i >= 4
        invariant
            i <= n == s@.len(),
            i % 4 == 0,
            n % 4 == 0,
            b64_decode_spec(s@) == match b64_decode_spec(s@.skip(i as int)) {
                Some(q) => Some(out@ + q),
                None => None::<Seq<u8>>,
            },
        decreases n - i,
    {
        let ghost tail = s@.skip(i as int);
        let ghost prev = out@;
        proof {
            assert(tail.len() >= 4);
            assert(tail[0] == s@[i as int] && tail[1] == s@[i as int + 1] && tail[2] == s@[i as int
                + 2] && tail[3] == s@[i as int + 3]);
        }
        let c0 = s[i];
        let c1 = s[i + 1];
        let c2 = s[i + 2];
        let c3 = s[i + 3];
        let v0 = match b64v(c0) {
            Some(v) => v,
            None => {
                proof {
                    assert(b64_decode_spec(tail) is None);
                }
                return None;
            },
        };
        let v1 = match b64v(c1) {
            Some(v) => v,
            None => {
                proof {
                    assert(b64_decode_spec(tail) is None);
                }
                return None;
            },
        };
        if c2 == 0x3d && c3 == 0x3d {
            if n - i != 4 || v1 % 16 != 0 {
                proof {
                    assert(b64_decode_spec(tail) is None);
                }
                return None;
            }
            out.push(v0 * 4 + v1 / 16);
            i += 4;
            proof {
                let chunk = seq![(b64_val(c0) * 4 + b64_val(c1) / 16) as u8];
                assert(tail.len() == 4);
                assert(b64_decode_spec(tail) == Some(chunk));
                assert(s@.skip(i as int) =~= Seq::<u8>::empty());
                assert(out@ =~= prev + chunk);
                assert(out@ + Seq::<u8>::empty() =~= out@);
            }
        } else if c3 == 0x3d {
            let v2 = match b64v(c2) {
                Some(v) => v,
                None => {
                    proof {
                        assert(b64_decode_spec(tail) is None);
                    }
                    return None;
                },
            };
            if n - i != 4 || v2 % 4 != 0 {
                proof {
                    assert(b64_decode_spec(tail) is None);
                }
                return None;
            }
            out.push(v0 * 4 + v1 / 16);
            out.push((v1 % 16) * 16 + v2 / 4);
            i += 4;
            proof {
                let chunk = seq![
                    (b64_val(c0) * 4 + b64_val(c1) / 16) as u8,
                    ((b64_val(c1) % 16) * 16 + b64_val(c2) / 4) as u8,
                ];
                assert(tail.len() == 4);
                assert(b64_decode_spec(tail) == Some(chunk));
                assert(s@.skip(i as int) =~= Seq::<u8>::empty());
                assert(out@ =~= prev + chunk);
                assert(out@ + Seq::<u8>::empty() =~= out@);
            }
        } else {
            let v2 = match b64v(c2) {
                Some(v) => v,
                None => {
                    proof {
                        assert(b64_decode_spec(tail) is None);
                    }
                    return None;
                },
            };
            let v3 = match b64v(c3) {
                Some(v) => v,
                None => {
                    proof {
                        assert(b64_decode_spec(tail) is None);
                    }
                    return None;
                },
            };
            out.push(v0 * 4 + v1 / 16);
            out.push((v1 % 16) * 16 + v2 / 4);
            out.push((v2 % 4) * 64 + v3);
            i += 4;
            proof {
                let chunk = seq![
                    (b64_val(c0) * 4 + b64_val(c1) / 16) as u8,
                    ((b64_val(c1) % 16) * 16 + b64_val(c2) / 4) as u8,
                    ((b64_val(c2) % 4) * 64 + b64_val(c3)) as u8,
                ];
                assert(tail.skip(4) =~= s@.skip(i as int));
                assert(out@ =~= prev + chunk);
                if b64_decode_spec(s@.skip(i as int)) is Some {
                    let rest = b64_decode_spec(s@.skip(i as int))->0;
                    assert(b64_decode_spec(tail) == Some(chunk + rest));
                    assert(prev + (chunk + rest) =~= out@ + rest);
                } else {
                    assert(b64_decode_spec(tail) is None);
                }
            }
        }
    }
    proof {
        assert(i == n) by {
            vstd::arithmetic::div_mod::lemma_sub_mod_noop(n as int, i as int, 4);
            vstd::arithmetic::div_mod::lemma_fundamental_div_mod((n - i) as int, 4);
        }
        assert(s@.skip(i as int) =~= Seq::<u8>::empty());
        assert(out@ + Seq::<u8>::empty() =~= out@);
    }
    Some(out)
}

/// A well-formed encoding has a length that is a multiple of four.
proof fn lemma_b64_decode_len(s: Seq<u8>)
    requires
        s.len() % 4 != 0,
    ensures
        b64_decode_spec(s) is None,
    decreases s.len(),
{
    if s.len() < 4 {
    } else {
        lemma_b64_decode_len(s.skip(4));
    }
}

} // verus!
