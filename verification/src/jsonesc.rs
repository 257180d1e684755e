//! Compact JSON assembly at the byte level: string escaping exactly as the
//! reference serializer emits it (short escapes for the common control
//! characters, `\u00XX` with lowercase hex for the rest, all other bytes
//! passed through unchanged).

use vstd::prelude::*;

verus! {

/// Lowercase hexadecimal digit for a value below 16.
pub open spec fn hex_lower(v: u8) -> u8 {
    if v < 10 {
        (0x30 + v) as u8
    } else {
        (0x57 + v) as u8
    }
}

/// The escaping of one byte inside a JSON string literal.
pub open spec fn esc_byte(b: u8) -> Seq<u8> {
    if b == 0x22 {  // quote
        seq![0x5cu8, 0x22u8]
    } else if b == 0x5c {  // backslash
        seq![0x5cu8, 0x5cu8]
    } else if b == 0x08 {
        seq![0x5cu8, 0x62u8]
    } else if b == 0x09 {
        seq![0x5cu8, 0x74u8]
    } else if b == 0x0a {
        seq![0x5cu8, 0x6eu8]
    } else if b == 0x0c {
        seq![0x5cu8, 0x66u8]
    } else if b == 0x0d {
        seq![0x5cu8, 0x72u8]
    } else if b < 0x20 {
        seq![0x5cu8, 0x75u8, 0x30u8, 0x30u8, hex_lower(b / 16), hex_lower(b % 16)]
    } else {
        seq![b]
    }
}

/// The body of a JSON string literal holding the bytes `s`.
pub open spec fn json_escaped(s: Seq<u8>) -> Seq<u8>
    decreases s.len(),
{
    if s.len() == 0 {
        Seq::empty()
    } else {
        esc_byte(s.first()) + json_escaped(s.drop_first())
    }
}

/// Escaping distributes over dropping the last byte.
pub proof fn lemma_json_escaped_snoc(s: Seq<u8>)
    requires
        s.len() > 0,
    ensures
        json_escaped(s) == json_escaped(s.drop_last()) + esc_byte(s.last()),
    decreases s.len(),
{
    if s.len() == 1 {
        assert(s.drop_last() =~= Seq::<u8>::empty());
        assert(s.drop_first() =~= Seq::<u8>::empty());
        assert(json_escaped(s) == esc_byte(s.first()) + json_escaped(s.drop_first()));
        assert(s.first() == s.last());
        assert(json_escaped(s) =~= json_escaped(s.drop_last()) + esc_byte(s.last()));
    } else {
        lemma_json_escaped_snoc(s.drop_first());
        assert(s.drop_last().first() == s.first());
        assert(s.drop_last().drop_first() =~= s.drop_first().drop_last());
        assert(s.drop_first().last() == s.last());
        assert(json_escaped(s.drop_last()) == esc_byte(s.first()) + json_escaped(
            s.drop_last().drop_first(),
        ));
        assert(json_escaped(s) =~= json_escaped(s.drop_last()) + esc_byte(s.last()));
    }
}

/// Append the JSON string-escaping of `s` to `out`.
pub fn push_json_escaped(out: &mut Vec<u8>, s: &[u8])
    ensures
        final(out)@ == old(out)@ + json_escaped(s@),
{
    let ghost orig = out@;
    let mut i: usize = 0;
    while i < s.len()
        invariant
            i <= s@.len(),
            out@ == orig + json_escaped(s@.take(i as int)),
        decreases s@.len() - i,
    {
        let b = s[i];
        if b == 0x22 {
            out.push(0x5c);
            out.push(0x22);
        } else if b == 0x5c {
            out.push(0x5c);
            out.push(0x5c);
        } else if b == 0x08 {
            out.push(0x5c);
            out.push(0x62);
        } else if b == 0x09 {
            out.push(0x5c);
            out.push(0x74);
        } else if b == 0x0a {
            out.push(0x5c);
            out.push(0x6e);
        } else if b == 0x0c {
            out.push(0x5c);
            out.push(0x66);
        } else if b == 0x0d {
            out.push(0x5c);
            out.push(0x72);
        } else if b < 0x20 {
            out.push(0x5c);
            out.push(0x75);
            out.push(0x30);
            out.push(0x30);
            let hi = b / 16;
            let lo = b % 16;
            out.push(if hi < 10 { 0x30 + hi } else { 0x57 + hi });
            out.push(if lo < 10 { 0x30 + lo } else { 0x57 + lo });
        } else {
            out.push(b);
        }
        proof {
            lemma_json_escaped_snoc(s@.take(i as int + 1));
            assert(s@.take(i as int + 1).drop_last() =~= s@.take(i as int));
            assert(s@.take(i as int + 1).last() == s@[i as int]);
            assert(out@ =~= orig + json_escaped(s@.take(i as int + 1)));
        }
        i += 1;
    }
    proof {
        assert(s@.take(s@.len() as int) =~= s@);
    }
}

/// A byte the escaping passes through unchanged.
pub open spec fn is_plain(b: u8) -> bool {
    b >= 0x20 && b != 0x22 && b != 0x5c
}

/// Escaping is the identity on sequences of plain bytes.
pub proof fn lemma_json_escaped_plain(s: Seq<u8>)
    requires
        forall|i: int| 0 <= i < s.len() ==> is_plain(#[trigger] s[i]),
    ensures
        json_escaped(s) == s,
    decreases s.len(),
{
    if s.len() == 0 {
        assert(json_escaped(s) =~= s);
    } else {
        assert(is_plain(s[0]));
        assert forall|i: int| 0 <= i < s.drop_first().len() implies is_plain(
            #[trigger] s.drop_first()[i],
        ) by {
            assert(s.drop_first()[i] == s[i + 1]);
        }
        lemma_json_escaped_plain(s.drop_first());
        assert(json_escaped(s) =~= s);
    }
}

/// Value of a lowercase hexadecimal digit byte, `-1` for anything else.
pub open spec fn hex_val(c: u8) -> int {
    if 0x30 <= c <= 0x39 {
        c - 0x30
    } else if 0x61 <= c <= 0x66 {
        c - 0x61 + 10
    } else {
        -1
    }
}

/// Scan a JSON string body up to its closing quote: the decoded bytes and
/// the number of input bytes consumed, closing quote included. `None` when
/// the input ends or holds a malformed escape before a closing quote.
pub open spec fn scan_str(s: Seq<u8>) -> Option<(Seq<u8>, int)>
    decreases s.len(),
{
    if s.len() == 0 {
        None
    } else if s[0] == 0x22 {
        Some((Seq::empty(), 1))
    } else if s[0] == 0x5c {
        if s.len() < 2 {
            None
        } else if s[1] == 0x75 {
            if s.len() < 6 || s[2] != 0x30 || s[3] != 0x30 || hex_val(s[4]) < 0 || hex_val(s[5])
                < 0 {
                None
            } else {
                match scan_str(s.skip(6)) {
                    Some(tk) => Some(
                        (seq![(hex_val(s[4]) * 16 + hex_val(s[5])) as u8] + tk.0, tk.1 + 6),
                    ),
                    None => None,
                }
            }
        } else {
            let d: int = if s[1] == 0x22 {
                0x22
            } else if s[1] == 0x5c {
                0x5c
            } else if s[1] == 0x62 {
                0x08
            } else if s[1] == 0x74 {
                0x09
            } else if s[1] == 0x6e {
                0x0a
            } else if s[1] == 0x66 {
                0x0c
            } else if s[1] == 0x72 {
                0x0d
            } else {
                -1
            };
            if d < 0 {
                None
            } else {
                match scan_str(s.skip(2)) {
                    Some(tk) => Some((seq![d as u8] + tk.0, tk.1 + 2)),
                    None => None,
                }
            }
        }
    } else {
        match scan_str(s.skip(1)) {
            Some(tk) => Some((seq![s[0]] + tk.0, tk.1 + 1)),
            None => None,
        }
    }
}

/// Scanning an escaped string followed by its closing quote recovers the
/// original bytes and consumes exactly through the quote.
pub proof fn lemma_scan_escaped(t: Seq<u8>, rest: Seq<u8>)
    ensures
        scan_str(json_escaped(t) + seq![0x22u8] + rest) == Some::<(Seq<u8>, int)>(
            (t, json_escaped(t).len() as int + 1),
        ),
    decreases t.len(),
{
    let s = json_escaped(t) + seq![0x22u8] + rest;
    if t.len() == 0 {
        assert(json_escaped(t) =~= Seq::<u8>::empty());
        assert(s[0] == 0x22);
        assert(scan_str(s) == Some::<(Seq<u8>, int)>((Seq::empty(), 1)));
    } else {
        let b = t.first();
        let t2 = t.drop_first();
        let e = esc_byte(b);
        lemma_scan_escaped(t2, rest);
        let s2 = json_escaped(t2) + seq![0x22u8] + rest;
        assert(json_escaped(t) == e + json_escaped(t2));
        assert(s =~= e + s2);
        assert(forall|i: int| 0 <= i < e.len() ==> s[i] == e[i]);
        if b == 0x22 || b == 0x5c || b == 0x08 || b == 0x09 || b == 0x0a || b == 0x0c || b
            == 0x0d {
            assert(e.len() == 2 && e[0] == 0x5c);
            assert(s.skip(2) =~= s2);
            assert(seq![b] + t2 =~= t);
        } else if b < 0x20 {
            assert(e.len() == 6 && e[0] == 0x5c && e[1] == 0x75 && e[2] == 0x30 && e[3] == 0x30);
            assert(hex_val(hex_lower(b / 16)) == b / 16);
            assert(hex_val(hex_lower(b % 16)) == b % 16);
            assert(hex_val(s[4]) * 16 + hex_val(s[5]) == b) by {
                vstd::arithmetic::div_mod::lemma_fundamental_div_mod(b as int, 16);
            }
            assert(s.skip(6) =~= s2);
            assert(seq![b] + t2 =~= t);
        } else {
            assert(e.len() == 1 && e[0] == b);
            assert(s[0] == b && b != 0x22 && b != 0x5c);
            assert(s.skip(1) =~= s2);
            assert(seq![b] + t2 =~= t);
        }
    }
}

/// Decode one lowercase hexadecimal digit byte.
fn hexv(c: u8) -> (r: Option<u8>)
    ensures
        (r is Some) == (hex_val(c) >= 0),
        r matches Some(v) ==> v == hex_val(c),
{
    if 0x30 <= c && c <= 0x39 {
        Some(c - 0x30)
    } else if 0x61 <= c && c <= 0x66 {
        Some(c - 0x61 + 10)
    } else {
        None
    }
}

/// Scan a JSON string body starting at `start`, returning the decoded bytes
/// and the position just past the closing quote.
pub fn scan_json_string(s: &[u8], start: usize) -> (r: Option<(Vec<u8>, usize)>)
    requires
        start <= s@.len(),
    ensures
        r matches Some(v) ==> scan_str(s@.skip(start as int)) == Some::<(Seq<u8>, int)>(
            (v.0@, v.1 - start),
        ) && start <= v.1 <= s@.len(),
        r is None ==> scan_str(s@.skip(start as int)) is None,
{
    let n = s.len();
    let mut acc: Vec<u8> = Vec::new();
    let mut pos: usize = start;
    proof {
        if scan_str(s@.skip(start as int)) is Some {
            let tk = scan_str(s@.skip(start as int))->0;
            assert(Seq::<u8>::empty() + tk.0 =~= tk.0);
        }
    }
    loop
        invariant
            start <= pos <= n == s@.len(),
            scan_str(s@.skip(start as int)) == match scan_str(s@.skip(pos as int)) {
                Some(tk) => Some::<(Seq<u8>, int)>((acc@ + tk.0, tk.1 + pos - start)),
                None => None::<(Seq<u8>, int)>,
            },
        decreases n - pos,
    {
        if pos >= n {
            proof {
                assert(s@.skip(pos as int) =~= Seq::<u8>::empty());
            }
            return None;
        }
        let ghost tail = s@.skip(pos as int);
        proof {
            assert(tail.len() == n - pos);
            assert(forall|k: int| 0 <= k < tail.len() ==> tail[k] == s@[pos + k]);
        }
        let c = s[pos];
        if c == 0x22 {
            proof {
                assert(scan_str(tail) == Some::<(Seq<u8>, int)>((Seq::empty(), 1)));
                assert(acc@ + Seq::<u8>::empty() =~= acc@);
            }
            return Some((acc, pos + 1));
        } else if c == 0x5c {
            if pos + 1 >= n {
                return None;
            }
            let e = s[pos + 1];
            if e == 0x75 {
                if n - pos < 6 || s[pos + 2] != 0x30 || s[pos + 3] != 0x30 {
                    return None;
                }
                let hi = match hexv(s[pos + 4]) {
                    Some(v) => v,
                    None => {
                        return None;
                    },
                };
                let lo = match hexv(s[pos + 5]) {
                    Some(v) => v,
                    None => {
                        return None;
                    },
                };
                let ghost oldacc = acc@;
                acc.push(hi * 16 + lo);
                pos = pos + 6;
                proof {
                    assert(tail.skip(6) =~= s@.skip(pos as int));
                    assert(acc@ =~= oldacc + seq![(hex_val(tail[4]) * 16 + hex_val(tail[5])) as u8]);
                    lemma_scan_step(tail, oldacc, acc@, seq![(hex_val(tail[4]) * 16 + hex_val(
                        tail[5],
                    )) as u8], 6);
                }
            } else {
                let d: u8 = if e == 0x22 {
                    0x22
                } else if e == 0x5c {
                    0x5c
                } else if e == 0x62 {
                    0x08
                } else if e == 0x74 {
                    0x09
                } else if e == 0x6e {
                    0x0a
                } else if e == 0x66 {
                    0x0c
                } else if e == 0x72 {
                    0x0d
                } else {
                    0xff
                };
                if d == 0xff {
                    return None;
                }
                let ghost oldacc = acc@;
                acc.push(d);
                pos = pos + 2;
                proof {
                    assert(tail.skip(2) =~= s@.skip(pos as int));
                    assert(acc@ =~= oldacc + seq![d]);
                    lemma_scan_step(tail, oldacc, acc@, seq![d], 2);
                }
            }
        } else {
            let ghost oldacc = acc@;
            acc.push(c);
            pos = pos + 1;
            proof {
                assert(tail.skip(1) =~= s@.skip(pos as int));
                assert(acc@ =~= oldacc + seq![c]);
                lemma_scan_step(tail, oldacc, acc@, seq![c], 1);
            }
        }
    }
}

/// One consumed chunk moves the scan result across the accumulator.
proof fn lemma_scan_step(tail: Seq<u8>, oldacc: Seq<u8>, newacc: Seq<u8>, piece: Seq<u8>, used: int)
    requires
        newacc == oldacc + piece,
        scan_str(tail) == match scan_str(tail.skip(used)) {
            Some(tk) => Some::<(Seq<u8>, int)>((piece + tk.0, tk.1 + used)),
            None => None::<(Seq<u8>, int)>,
        },
    ensures
        (match scan_str(tail.skip(used)) {
            Some(tk) => Some::<(Seq<u8>, int)>((newacc + tk.0, tk.1 + used)),
            None => None::<(Seq<u8>, int)>,
        }) == match scan_str(tail) {
            Some(tk) => Some::<(Seq<u8>, int)>((oldacc + tk.0, tk.1)),
            None => None::<(Seq<u8>, int)>,
        },
{
    match scan_str(tail.skip(used)) {
        Some(tk) => {
            assert(oldacc + (piece + tk.0) =~= newacc + tk.0);
        },
        None => {},
    }
}

} // verus!
