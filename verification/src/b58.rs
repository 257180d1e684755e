//! Bitcoin-style base58: leading zero bytes become leading `1` characters,
//! the rest of the input is read as one big-endian integer and written in
//! base 58 with an alphabet that avoids `0`, `O`, `I` and `l`. A verified
//! decoder inverts the encoder exactly.

use crate::strbytes::ascii_chars_of;
use vstd::arithmetic::div_mod::lemma_div_decreases;
use vstd::arithmetic::div_mod::lemma_fundamental_div_mod;
use vstd::arithmetic::div_mod::lemma_fundamental_div_mod_converse_div;
use vstd::arithmetic::div_mod::lemma_fundamental_div_mod_converse_mod;
use vstd::prelude::*;
use vstd::string::StringSliceAdditionalSpecFns;
use vstd::string::StrSliceExecFns;

verus! {

/// Value of a byte sequence read as a big-endian base-256 integer.
pub open spec fn be_val256(s: Seq<u8>) -> nat
    decreases s.len(),
{
    if s.len() == 0 {
        0
    } else {
        be_val256(s.drop_last()) * 256 + s.last() as nat
    }
}

/// Minimal big-endian base-256 digits of `n` (empty for zero).
pub open spec fn be_bytes_min(n: nat) -> Seq<u8>
    decreases n,
{
    if n == 0 {
        Seq::empty()
    } else {
        be_bytes_min(n / 256).push((n % 256) as u8)
    }
}

/// Big-endian base-58 digit values of `n` (empty for zero).
pub open spec fn b58_digits(n: nat) -> Seq<u8>
    decreases n,
{
    if n == 0 {
        Seq::empty()
    } else {
        b58_digits(n / 58).push((n % 58) as u8)
    }
}

/// Alphabet byte of a base-58 digit value below 58; digit 0 is `'1'`.
pub open spec fn b58_char(d: u8) -> u8 {
    if d < 9 {
        (0x31 + d) as u8  // '1'..'9'
    } else if d < 17 {
        (0x41 + (d - 9)) as u8  // 'A'..'H'
    } else if d < 22 {
        (0x4a + (d - 17)) as u8  // 'J'..'N'
    } else if d < 33 {
        (0x50 + (d - 22)) as u8  // 'P'..'Z'
    } else if d < 44 {
        (0x61 + (d - 33)) as u8  // 'a'..'k'
    } else {
        (0x6d + (d - 44)) as u8  // 'm'..'z'
    }
}

/// Whether a byte is in the base-58 alphabet.
pub open spec fn is_b58_char(c: u8) -> bool {
    (0x31 <= c <= 0x39) || (0x41 <= c <= 0x48) || (0x4a <= c <= 0x4e) || (0x50 <= c <= 0x5a) || (
    0x61 <= c <= 0x6b) || (0x6d <= c <= 0x7a)
}

/// Digit value of an alphabet byte.
pub open spec fn b58_val(c: u8) -> int {
    if 0x31 <= c <= 0x39 {
        c - 0x31
    } else if 0x41 <= c <= 0x48 {
        c - 0x41 + 9
    } else if 0x4a <= c <= 0x4e {
        c - 0x4a + 17
    } else if 0x50 <= c <= 0x5a {
        c - 0x50 + 22
    } else if 0x61 <= c <= 0x6b {
        c - 0x61 + 33
    } else {
        c - 0x6d + 44
    }
}

/// `b58_char` hits only alphabet bytes, `b58_val` inverts it, and only the
/// zero digit maps to `'1'`.
pub proof fn lemma_b58_char_inverse(d: u8)
    requires
        d < 58,
    ensures
        is_b58_char(b58_char(d)),
        b58_val(b58_char(d)) == d,
        (b58_char(d) == 0x31) == (d == 0),
{
}

/// Number of leading zero bytes.
pub open spec fn lead_zeros(s: Seq<u8>) -> nat
    decreases s.len(),
{
    if s.len() == 0 || s.first() != 0 {
        0
    } else {
        (1 + lead_zeros(s.drop_first())) as nat
    }
}

/// Number of leading `'1'` bytes.
pub open spec fn lead_ones(s: Seq<u8>) -> nat
    decreases s.len(),
{
    if s.len() == 0 || s.first() != 0x31 {
        0
    } else {
        (1 + lead_ones(s.drop_first())) as nat
    }
}

/// A run of `n` zero bytes.
pub open spec fn zero_run(n: nat) -> Seq<u8> {
    Seq::new(n, |i: int| 0u8)
}

/// A run of `n` `'1'` bytes.
pub open spec fn one_run(n: nat) -> Seq<u8> {
    Seq::new(n, |i: int| 0x31u8)
}

/// Alphabet bytes of a digit-value sequence.
pub open spec fn b58_alpha_map(s: Seq<u8>) -> Seq<u8> {
    Seq::new(s.len(), |i: int| b58_char(s[i]))
}

/// The base58 encoding of a byte sequence.
pub open spec fn b58_of(v: Seq<u8>) -> Seq<u8> {
    let z = lead_zeros(v);
    one_run(z) + b58_alpha_map(b58_digits(be_val256(v.skip(z as int))))
}

/// Value of a sequence of alphabet bytes read as base-58 digits.
pub open spec fn b58_str_val(s: Seq<u8>) -> nat
    decreases s.len(),
{
    if s.len() == 0 {
        0
    } else {
        (b58_str_val(s.drop_last()) * 58 + b58_val(s.last())) as nat
    }
}

/// The base58 decoding of a byte sequence: leading `'1'` bytes become zero
/// bytes, the rest must be alphabet bytes and is read as a base-58 integer.
pub open spec fn b58_decode_spec(s: Seq<u8>) -> Option<Seq<u8>> {
    let z = lead_ones(s);
    let ds = s.skip(z as int);
    if forall|i: int| 0 <= i < ds.len() ==> is_b58_char(#[trigger] ds[i]) {
        Some(zero_run(z) + be_bytes_min(b58_str_val(ds)))
    } else {
        None
    }
}

/// Characterization of `lead_zeros` by its defining properties.
pub proof fn lemma_lead_zeros_is(s: Seq<u8>, z: nat)
    requires
        z <= s.len(),
        forall|i: int| 0 <= i < z ==> s[i] == 0,
        z < s.len() ==> s[z as int] != 0,
    ensures
        lead_zeros(s) == z,
    decreases s.len(),
{
    if z == 0 {
    } else {
        lemma_lead_zeros_is(s.drop_first(), (z - 1) as nat);
    }
}

/// Characterization of `lead_ones` by its defining properties.
pub proof fn lemma_lead_ones_is(s: Seq<u8>, z: nat)
    requires
        z <= s.len(),
        forall|i: int| 0 <= i < z ==> s[i] == 0x31,
        z < s.len() ==> s[z as int] != 0x31,
    ensures
        lead_ones(s) == z,
    decreases s.len(),
{
    if z == 0 {
    } else {
        lemma_lead_ones_is(s.drop_first(), (z - 1) as nat);
    }
}

/// The first `lead_zeros` bytes are zero and the next one, if any, is not.
pub proof fn lemma_lead_zeros_bytes(s: Seq<u8>)
    ensures
        lead_zeros(s) <= s.len(),
        forall|i: int| 0 <= i < lead_zeros(s) ==> s[i] == 0,
        lead_zeros(s) < s.len() ==> s[lead_zeros(s) as int] != 0,
    decreases s.len(),
{
    if s.len() == 0 || s.first() != 0 {
    } else {
        lemma_lead_zeros_bytes(s.drop_first());
        assert forall|i: int| 0 <= i < lead_zeros(s) implies s[i] == 0 by {
            if i > 0 {
                assert(s.drop_first()[i - 1] == s[i]);
            }
        }
        if lead_zeros(s) < s.len() {
            assert(s.drop_first()[lead_zeros(s) - 1] == s[lead_zeros(s) as int]);
        }
    }
}

/// A big-endian value with a nonzero leading byte is positive.
pub proof fn lemma_be_val_pos(s: Seq<u8>)
    requires
        s.len() > 0,
        s[0] != 0,
    ensures
        be_val256(s) > 0,
    decreases s.len(),
{
    if s.len() == 1 {
        assert(s.drop_last() =~= Seq::<u8>::empty());
        assert(s.last() == s[0]);
    } else {
        assert(s.drop_last()[0] == s[0]);
        lemma_be_val_pos(s.drop_last());
    }
}

/// The minimal base-256 digits of the value of a sequence without a leading
/// zero byte are that sequence itself.
pub proof fn lemma_be_bytes_min_id(s: Seq<u8>)
    requires
        s.len() > 0 ==> s[0] != 0,
    ensures
        be_bytes_min(be_val256(s)) == s,
    decreases s.len(),
{
    if s.len() == 0 {
        assert(be_bytes_min(be_val256(s)) =~= s);
    } else {
        let front = s.drop_last();
        let last = s.last();
        let v = be_val256(s);
        let fv = be_val256(front);
        assert(v == fv * 256 + last);
        if s.len() == 1 {
            assert(front =~= Seq::<u8>::empty());
            assert(fv == 0);
            assert(v == last && last != 0);
            lemma_fundamental_div_mod_converse_div(v as int, 256, 0, last as int);
            lemma_fundamental_div_mod_converse_mod(v as int, 256, 0, last as int);
            assert(v / 256 == 0 && v % 256 == last);
            assert(be_bytes_min(v) == be_bytes_min(v / 256).push((v % 256) as u8));
            assert(be_bytes_min(0nat) == Seq::<u8>::empty());
            assert(be_bytes_min(v) =~= s);
        } else {
            assert(front[0] == s[0]);
            lemma_be_bytes_min_id(front);
            lemma_be_val_pos(front);
            lemma_fundamental_div_mod_converse_div(v as int, 256, fv as int, last as int);
            lemma_fundamental_div_mod_converse_mod(v as int, 256, fv as int, last as int);
            assert(v / 256 == fv && v % 256 == last);
            assert(v > 0);
            assert(be_bytes_min(v) == be_bytes_min(fv).push(last));
            assert(be_bytes_min(v) =~= s);
        }
    }
}

/// Reading the alphabet form of the base-58 digits of `n` back as a base-58
/// integer yields `n`.
pub proof fn lemma_b58_digits_val(n: nat)
    ensures
        b58_str_val(b58_alpha_map(b58_digits(n))) == n,
    decreases n,
{
    if n == 0 {
        assert(b58_alpha_map(b58_digits(0)) =~= Seq::<u8>::empty());
    } else {
        lemma_b58_digits_val(n / 58);
        lemma_fundamental_div_mod(n as int, 58);
        lemma_b58_char_inverse((n % 58) as u8);
        let w = b58_alpha_map(b58_digits(n));
        assert(w.drop_last() =~= b58_alpha_map(b58_digits(n / 58)));
        assert(w.last() == b58_char((n % 58) as u8));
    }
}

/// The leading digit of a positive number is nonzero, so its alphabet byte
/// is not `'1'`.
pub proof fn lemma_b58_digits_first(n: nat)
    requires
        n > 0,
    ensures
        b58_digits(n).len() > 0,
        b58_digits(n)[0] != 0,
    decreases n,
{
    if n < 58 {
        vstd::arithmetic::div_mod::lemma_small_div_converse(n as int, 58);
        vstd::arithmetic::div_mod::lemma_small_mod(n, 58);
        assert(b58_digits(n) == b58_digits(0nat).push((n % 58) as u8));
        assert(b58_digits(n)[0] == (n % 58) as u8);
    } else {
        lemma_div_decreases(n as int, 58);
        lemma_fundamental_div_mod(n as int, 58);
        lemma_b58_digits_first(n / 58);
        assert(b58_digits(n)[0] == b58_digits(n / 58)[0]);
    }
}

/// Alphabet bytes are valid and the digit part of an encoding starts with a
/// byte other than `'1'`, so the decoder finds exactly the zero run.
pub proof fn lemma_b58_decode_encode(v: Seq<u8>)
    ensures
        b58_decode_spec(b58_of(v)) == Some(v),
{
    let z = lead_zeros(v);
    lemma_lead_zeros_bytes(v);
    let t = v.skip(z as int);
    let n = be_val256(t);
    let w = b58_alpha_map(b58_digits(n));
    let e = b58_of(v);
    assert(e == one_run(z) + w);
    assert forall|i: int| 0 <= i < w.len() implies is_b58_char(#[trigger] w[i]) by {
        lemma_b58_digits_bound(n);
        lemma_b58_char_inverse(b58_digits(n)[i]);
    }
    if t.len() == 0 {
        assert(n == 0);
        assert(w =~= Seq::<u8>::empty());
        assert(e =~= one_run(z));
        lemma_lead_ones_is(e, z);
        let ds = e.skip(z as int);
        assert(ds =~= Seq::<u8>::empty());
        assert(b58_str_val(ds) == 0);
        assert(zero_run(z) + be_bytes_min(0) =~= v);
        assert(b58_decode_spec(e) == Some(v));
    } else {
        assert(t[0] == v[z as int]);
        lemma_be_val_pos(t);
        lemma_b58_digits_first(n);
        lemma_b58_digits_bound(n);
        lemma_b58_char_inverse(b58_digits(n)[0]);
        assert(w[0] != 0x31);
        assert forall|i: int| 0 <= i < z implies e[i] == 0x31 by {}
        assert(e[z as int] == w[0]);
        lemma_lead_ones_is(e, z);
        let ds = e.skip(z as int);
        assert(ds =~= w);
        lemma_b58_digits_val(n);
        lemma_be_bytes_min_id(t);
        assert(zero_run(z) + t =~= v);
        assert(b58_decode_spec(e) == Some(zero_run(z) + be_bytes_min(n)));
    }
}

/// Every base-58 digit value is below 58.
pub proof fn lemma_b58_digits_bound(n: nat)
    ensures
        forall|i: int| 0 <= i < b58_digits(n).len() ==> #[trigger] b58_digits(n)[i] < 58,
    decreases n,
{
    if n == 0 {
    } else {
        lemma_div_decreases(n as int, 58);
        lemma_b58_digits_bound(n / 58);
        assert forall|i: int| 0 <= i < b58_digits(n).len() implies #[trigger] b58_digits(n)[i]
            < 58 by {
            if i < b58_digits(n).len() - 1 {
                assert(b58_digits(n)[i] == b58_digits(n / 58)[i]);
            }
        }
    }
}

/// Alphabet byte of a digit value below 58.
fn b58c(d: u8) -> (c: u8)
    requires
        d < 58,
    ensures
        c == b58_char(d),
{
    if d < 9 {
        0x31 + d
    } else if d < 17 {
        0x41 + (d - 9)
    } else if d < 22 {
        0x4a + (d - 17)
    } else if d < 33 {
        0x50 + (d - 22)
    } else if d < 44 {
        0x61 + (d - 33)
    } else {
        0x6d + (d - 44)
    }
}

/// Digit value of an alphabet byte, `None` outside the alphabet.
fn b58vd(c: u8) -> (r: Option<u8>)
    ensures
        (r is Some) == is_b58_char(c),
        r matches Some(v) ==> v == b58_val(c) && v < 58,
{
    if 0x31 <= c && c <= 0x39 {
        Some(c - 0x31)
    } else if 0x41 <= c && c <= 0x48 {
        Some(c - 0x41 + 9)
    } else if 0x4a <= c && c <= 0x4e {
        Some(c - 0x4a + 17)
    } else if 0x50 <= c && c <= 0x5a {
        Some(c - 0x50 + 22)
    } else if 0x61 <= c && c <= 0x6b {
        Some(c - 0x61 + 33)
    } else if 0x6d <= c && c <= 0x7a {
        Some(c - 0x6d + 44)
    } else {
        None
    }
}

/// Divide a big-endian base-256 number by 58, returning quotient digits (same
/// width) and remainder.
fn divmod58(v: &Vec<u8>) -> (qr: (Vec<u8>, u8))
    ensures
        qr.0@.len() == v@.len(),
        qr.1 < 58,
        be_val256(v@) == be_val256(qr.0@) * 58 + qr.1,
        be_val256(qr.0@) == be_val256(v@) / 58,
        qr.1 == be_val256(v@) % 58,
{
    let mut q: Vec<u8> = Vec::new();
    let mut rem: u16 = 0;
    let mut i: usize = 0;
    proof {
        assert(v@.take(0) =~= Seq::<u8>::empty());
        assert(q@ =~= Seq::<u8>::empty());
    }
    while i < v.len()
        invariant
            i <= v@.len(),
            q@.len() == i,
            rem < 58,
            be_val256(v@.take(i as int)) == be_val256(q@) * 58 + rem,
        decreases v@.len() - i,
    {
        let ghost old_q = q@;
        let ghost old_rem = rem;
        let b = v[i];
        let acc: u16 = rem * 256 + b as u16;
        let d: u16 = acc / 58;
        rem = acc % 58;
        q.push(d as u8);
        proof {
            assert(v@.take(i + 1).drop_last() =~= v@.take(i as int));
            assert(v@.take(i + 1).last() == b);
            assert(q@.drop_last() =~= old_q);
            assert(q@.last() == d as u8);
            assert(acc == old_rem * 256 + b);
            assert(d < 256) by {
                assert(acc < 58 * 256);
            }
            lemma_fundamental_div_mod(acc as int, 58);
            assert(be_val256(v@.take(i + 1)) == be_val256(v@.take(i as int)) * 256 + b);
            assert(be_val256(q@) == be_val256(old_q) * 256 + d);
            assert(be_val256(v@.take(i + 1)) == be_val256(q@) * 58 + rem);
        }
        i += 1;
    }
    proof {
        assert(v@.take(v@.len() as int) =~= v@);
        lemma_fundamental_div_mod_converse_div(
            be_val256(v@) as int,
            58,
            be_val256(q@) as int,
            rem as int,
        );
        lemma_fundamental_div_mod_converse_mod(
            be_val256(v@) as int,
            58,
            be_val256(q@) as int,
            rem as int,
        );
    }
    (q, rem as u8)
}

/// Whether all bytes are zero, i.e. the big-endian value is zero.
fn be_is_zero(v: &Vec<u8>) -> (r: bool)
    ensures
        r == (be_val256(v@) == 0),
{
    let mut i: usize = 0;
    let mut all0 = true;
    while i < v.len()
        invariant
            i <= v@.len(),
            all0 == (forall|j: int| 0 <= j < i ==> v@[j] == 0),
        decreases v@.len() - i,
    {
        if v[i] != 0 {
            all0 = false;
        }
        i += 1;
    }
    proof {
        lemma_be_val_zero(v@);
    }
    all0
}

/// A big-endian value is zero exactly when every byte is zero.
proof fn lemma_be_val_zero(s: Seq<u8>)
    ensures
        (be_val256(s) == 0) == (forall|j: int| 0 <= j < s.len() ==> s[j] == 0),
    decreases s.len(),
{
    if s.len() == 0 {
    } else {
        lemma_be_val_zero(s.drop_last());
        if be_val256(s) == 0 {
            assert(forall|j: int| 0 <= j < s.len() - 1 ==> s[j] == s.drop_last()[j]);
        } else {
            if forall|j: int| 0 <= j < s.len() ==> s[j] == 0 {
                assert(forall|j: int| 0 <= j < s.len() - 1 ==> s.drop_last()[j] == 0);
                assert(be_val256(s.drop_last()) == 0);
                assert(s.last() == 0);
            }
        }
    }
}

/// Base58-encode a byte slice, Bitcoin style: each leading zero byte becomes
/// a leading `'1'`, the rest is the big-endian value written in base 58.
pub fn base58_encode(v: &[u8]) -> (r: String)
    ensures
        r@ == ascii_chars_of(b58_of(v@)),
{
    let n = v.len();
    let mut z: usize = 0;
    while z < n && v[z] == 0
        invariant
            z <= n == v@.len(),
            forall|i: int| 0 <= i < z ==> v@[i] == 0,
        decreases n - z,
    {
        z += 1;
    }
    proof {
        lemma_lead_zeros_is(v@, z as nat);
    }
    let mut out: Vec<u8> = Vec::new();
    let mut k: usize = 0;
    while k < z
        invariant
            k <= z,
            out@ =~= one_run(k as nat),
        decreases z - k,
    {
        out.push(0x31);
        k += 1;
        proof {
            assert(out@ =~= one_run(k as nat));
        }
    }
    let mut cur: Vec<u8> = Vec::new();
    let mut j: usize = z;
    while j < n
        invariant
            z <= j <= n == v@.len(),
            cur@ =~= v@.subrange(z as int, j as int),
        decreases n - j,
    {
        cur.push(v[j]);
        j += 1;
        proof {
            assert(cur@ =~= v@.subrange(z as int, j as int));
        }
    }
    proof {
        assert(cur@ =~= v@.skip(z as int));
    }
    let ghost total: nat = be_val256(v@.skip(z as int));
    let mut digits: Vec<u8> = Vec::new();
    proof {
        assert(b58_digits(total) =~= b58_digits(be_val256(cur@)) + digits@.reverse());
    }
    while !be_is_zero(&cur)
        invariant
            b58_digits(total) =~= b58_digits(be_val256(cur@)) + digits@.reverse(),
            forall|i: int| 0 <= i < digits@.len() ==> #[trigger] digits@[i] < 58,
        decreases be_val256(cur@),
    {
        let ghost old_digits = digits@;
        let ghost cv = be_val256(cur@);
        let (q, r) = divmod58(&cur);
        digits.push(r);
        cur = q;
        proof {
            lemma_div_decreases(cv as int, 58);
            assert(b58_digits(cv) == b58_digits(cv / 58).push((cv % 58) as u8));
            assert((cv % 58) as u8 == r);
            assert(digits@.reverse() =~= seq![r] + old_digits.reverse());
            assert(b58_digits(cv / 58).push(r) + old_digits.reverse() =~= b58_digits(cv / 58) + (
            seq![r] + old_digits.reverse()));
            assert(b58_digits(total) =~= b58_digits(be_val256(cur@)) + digits@.reverse());
        }
    }
    proof {
        assert(b58_digits(total) =~= digits@.reverse());
    }
    let dn = digits.len();
    let mut k2: usize = dn;
    while k2 > 0
        invariant
            k2 <= dn == digits@.len(),
            forall|i: int| 0 <= i < digits@.len() ==> #[trigger] digits@[i] < 58,
            b58_digits(total) =~= digits@.reverse(),
            out@ =~= one_run(z as nat) + b58_alpha_map(digits@.reverse().take(dn - k2)),
        decreases k2,
    {
        k2 -= 1;
        let d = digits[k2];
        out.push(b58c(d));
        proof {
            let rev = digits@.reverse();
            assert(rev[dn - k2 - 1] == digits@[k2 as int]);
            assert(b58_alpha_map(rev.take(dn - k2)) =~= b58_alpha_map(rev.take(dn - k2 - 1)).push(
                b58_char(digits@[k2 as int]),
            ));
            assert(out@ =~= one_run(z as nat) + b58_alpha_map(rev.take(dn - k2)));
        }
    }
    proof {
        assert(digits@.reverse().take(dn as int) =~= digits@.reverse());
        assert(out@ =~= b58_of(v@));
        lemma_b58_of_ascii(v@);
    }
    crate::strbytes::ascii_string(out)
}

/// Value of a byte sequence read as a little-endian base-256 integer.
pub open spec fn le_val256(s: Seq<u8>) -> nat
    decreases s.len(),
{
    if s.len() == 0 {
        0
    } else {
        (s.first() as nat + 256 * le_val256(s.drop_first())) as nat
    }
}

/// Big-endian reading of a reversed sequence is the little-endian reading.
proof fn lemma_be_of_reverse(s: Seq<u8>)
    ensures
        be_val256(s.reverse()) == le_val256(s),
    decreases s.len(),
{
    if s.len() == 0 {
        assert(s.reverse() =~= Seq::<u8>::empty());
    } else {
        lemma_be_of_reverse(s.drop_first());
        assert(s.reverse().drop_last() =~= s.drop_first().reverse());
        assert(s.reverse().last() == s.first());
    }
}

/// Multiply the little-endian number held from index `j` on by 58 and add
/// `carry`, in place. The top byte stays nonzero, so the digits remain
/// minimal.
fn mul58add(m: &mut Vec<u8>, j: usize, carry: u8)
    requires
        j <= old(m)@.len(),
        carry < 58,
        old(m)@.len() > j ==> old(m)@.last() != 0,
    ensures
        old(m)@.len() <= final(m)@.len() <= old(m)@.len() + 1,
        final(m)@.len() > j ==> final(m)@.last() != 0,
        final(m)@.subrange(0, j as int) == old(m)@.subrange(0, j as int),
        le_val256(final(m)@.skip(j as int)) == le_val256(old(m)@.skip(j as int)) * 58 + carry,
    decreases old(m)@.len() - j,
{
    if j == m.len() {
        proof {
            assert(old(m)@.skip(j as int) =~= Seq::<u8>::empty());
        }
        if carry > 0 {
            m.push(carry);
            proof {
                assert(m@.subrange(0, j as int) =~= old(m)@.subrange(0, j as int));
                assert(m@.skip(j as int) =~= seq![carry]);
                assert(m@.skip(j as int).drop_first() =~= Seq::<u8>::empty());
            }
        } else {
            proof {
                assert(m@.subrange(0, j as int) =~= old(m)@.subrange(0, j as int));
            }
        }
    } else {
        let b = m[j];
        let t: u16 = b as u16 * 58 + carry as u16;
        let low: u8 = (t % 256) as u8;
        let c2: u8 = (t / 256) as u8;
        m.set(j, low);
        let ghost mid = m@;
        proof {
            assert(c2 < 58) by {
                assert(t < 256 * 58);
            }
            assert(mid.len() == old(m)@.len());
            assert(mid.last() == old(m)@.last() || j == old(m)@.len() - 1);
            if mid.len() > j + 1 {
                assert(mid.last() == old(m)@.last());
            }
        }
        mul58add(m, j + 1, c2);
        proof {
            assert(mid.skip(j + 1) =~= old(m)@.skip(j as int + 1));
            assert(m@.subrange(0, j as int) =~= old(m)@.subrange(0, j as int)) by {
                assert(m@.subrange(0, j + 1) == mid.subrange(0, j + 1));
                assert forall|i: int| 0 <= i < j implies m@[i] == old(m)@[i] by {
                    assert(m@.subrange(0, j + 1)[i] == mid.subrange(0, j + 1)[i]);
                }
            }
            if m@.len() > j {
                if m@.len() > j + 1 {
                } else {
                    assert(m@.len() == j + 1);
                    assert(old(m)@.len() == j + 1);
                    assert(m@.subrange(0, j + 1) == mid.subrange(0, j + 1));
                    assert(m@[j as int] == m@.subrange(0, j + 1)[j as int]);
                    assert(mid[j as int] == mid.subrange(0, j + 1)[j as int]);
                    assert(m@[j as int] == mid[j as int]);
                    assert(m@[j as int] == low);
                    assert(m@.last() == low);
                    assert(mid.skip(j + 1) =~= Seq::<u8>::empty());
                    assert(le_val256(m@.skip(j + 1)) == c2);
                    if low == 0 {
                        assert(old(m)@.last() == b && b > 0);
                        assert(t >= 58);
                        assert(t % 256 == 0);
                        assert(t >= 256);
                        assert(c2 >= 1);
                        assert(m@.len() >= j + 2);
                        assert(false);
                    }
                }
            }
            let fs = m@.skip(j as int);
            let os = old(m)@.skip(j as int);
            assert(fs.first() == m@[j as int]);
            assert(m@[j as int] == low) by {
                assert(m@.subrange(0, j + 1) == mid.subrange(0, j + 1));
                assert(m@.subrange(0, j + 1)[j as int] == mid.subrange(0, j + 1)[j as int]);
            }
            assert(fs.drop_first() =~= m@.skip(j + 1));
            assert(os.first() == b);
            assert(os.drop_first() =~= old(m)@.skip(j + 1));
            assert(le_val256(fs) == low + 256 * le_val256(m@.skip(j + 1)));
            assert(le_val256(m@.skip(j + 1)) == le_val256(old(m)@.skip(j + 1)) * 58 + c2);
            assert(t == 256 * (t as int / 256) + t as int % 256) by {
                lemma_fundamental_div_mod(t as int, 256);
            }
            assert(le_val256(os) == b + 256 * le_val256(old(m)@.skip(j + 1)));
            assert(le_val256(fs) == le_val256(os) * 58 + carry);
        }
    }
}

/// Base58-decode a string; `None` when a character is outside the alphabet.
pub fn base58_decode(s: &str) -> (r: Option<Vec<u8>>)
    ensures
        r matches Some(v) ==> b58_decode_spec(s.spec_bytes()) == Some(v@),
        r is None ==> b58_decode_spec(s.spec_bytes()) is None,
{
    let bytes = s.as_bytes_vec();
    let n = bytes.len();
    let mut z: usize = 0;
    while z < n && bytes[z] == 0x31
        invariant
            z <= n == bytes@.len(),
            forall|i: int| 0 <= i < z ==> bytes@[i] == 0x31,
        decreases n - z,
    {
        z += 1;
    }
    proof {
        lemma_lead_ones_is(bytes@, z as nat);
    }
    let ghost ds = bytes@.skip(z as int);
    let mut cur: Vec<u8> = Vec::new();
    let mut j: usize = z;
    proof {
        assert(ds.subrange(0, 0) =~= Seq::<u8>::empty());
    }
    while j < n
        invariant
            z <= j <= n == bytes@.len(),
            bytes@ == s.spec_bytes(),
            lead_ones(bytes@) == z as nat,
            ds == bytes@.skip(z as int),
            forall|i: int| z <= i < j ==> is_b58_char(#[trigger] bytes@[i]),
            cur@.len() > 0 ==> cur@.last() != 0,
            le_val256(cur@) == b58_str_val(ds.subrange(0, j - z)),
        decreases n - j,
    {
        let c = bytes[j];
        let d = match b58vd(c) {
            Some(d) => d,
            None => {
                proof {
                    assert(ds[j - z] == bytes@[j as int]);
                    assert(!is_b58_char(ds[j - z]));
                    assert(!(forall|i: int| 0 <= i < ds.len() ==> is_b58_char(#[trigger] ds[i])));
                    assert(b58_decode_spec(s.spec_bytes()) is None);
                }
                return None;
            },
        };
        let ghost oldcur = cur@;
        mul58add(&mut cur, 0, d);
        j += 1;
        proof {
            assert(oldcur.skip(0) =~= oldcur);
            assert(cur@.skip(0) =~= cur@);
            let pre = ds.subrange(0, j - 1 - z);
            let now = ds.subrange(0, j - z);
            assert(now.drop_last() =~= pre);
            assert(now.last() == bytes@[j - 1]);
            lemma_b58_char_val_bound(bytes@[j - 1]);
            assert(b58_str_val(now) == b58_str_val(pre) * 58 + b58_val(bytes@[j - 1]));
        }
    }
    proof {
        assert(ds.subrange(0, n - z) =~= ds);
    }
    let mut out: Vec<u8> = Vec::new();
    let mut k: usize = 0;
    while k < z
        invariant
            k <= z,
            out@ =~= zero_run(k as nat),
        decreases z - k,
    {
        out.push(0);
        k += 1;
        proof {
            assert(out@ =~= zero_run(k as nat));
        }
    }
    let cn = cur.len();
    let mut k2: usize = cn;
    while k2 > 0
        invariant
            k2 <= cn == cur@.len(),
            out@ =~= zero_run(z as nat) + cur@.reverse().take(cn - k2),
        decreases k2,
    {
        k2 -= 1;
        out.push(cur[k2]);
        proof {
            let rev = cur@.reverse();
            assert(rev[cn - k2 - 1] == cur@[k2 as int]);
            assert(out@ =~= zero_run(z as nat) + rev.take(cn - k2));
        }
    }
    proof {
        assert(cur@.reverse().take(cn as int) =~= cur@.reverse());
        lemma_be_of_reverse(cur@);
        if cur@.len() > 0 {
            assert(cur@.reverse()[0] == cur@.last());
        }
        lemma_be_bytes_min_id(cur@.reverse());
        assert(be_bytes_min(b58_str_val(ds)) == cur@.reverse());
        assert(out@ =~= zero_run(z as nat) + be_bytes_min(b58_str_val(ds)));
    }
    Some(out)
}

/// A valid alphabet byte has a digit value below 58.
proof fn lemma_b58_char_val_bound(c: u8)
    requires
        is_b58_char(c),
    ensures
        0 <= b58_val(c) < 58,
{
}

/// Every byte of a base58 encoding is ASCII.
pub proof fn lemma_b58_of_ascii(v: Seq<u8>)
    ensures
        crate::strbytes::all_ascii(b58_of(v)),
{
    let z = lead_zeros(v);
    let n = be_val256(v.skip(z as int));
    lemma_b58_digits_bound(n);
    assert forall|i: int| 0 <= i < b58_of(v).len() implies b58_of(v)[i] < 128 by {
        if i >= z {
            lemma_b58_char_inverse(b58_digits(n)[i - z]);
        }
    }
}

} // verus!
