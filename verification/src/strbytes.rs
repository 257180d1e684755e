//! Byte-level string helpers: ASCII byte/character conversion and decimal
//! formatting of integers.

use vstd::prelude::*;
use vstd::string::StringSliceAdditionalSpecFns;
use vstd::utf8::encode_utf8;
use vstd::utf8::is_ascii_chars;
use vstd::utf8::is_ascii_chars_encode_utf8;

verus! {

/// The characters of an ASCII byte sequence, one character per byte.
pub open spec fn ascii_chars_of(s: Seq<u8>) -> Seq<char> {
    Seq::new(s.len(), |i: int| s[i] as char)
}

/// Every byte of the sequence is in the ASCII range.
pub open spec fn all_ascii(s: Seq<u8>) -> bool {
    forall|i: int| 0 <= i < s.len() ==> s[i] < 128
}

/// Reading an ASCII byte sequence as characters and encoding those characters
/// back to UTF-8 yields the original bytes.
pub proof fn lemma_ascii_chars_bytes(s: Seq<u8>)
    requires
        all_ascii(s),
    ensures
        is_ascii_chars(ascii_chars_of(s)),
        encode_utf8(ascii_chars_of(s)) == s,
{
    let cs = ascii_chars_of(s);
    assert forall|i: int| 0 <= i < cs.len() implies '\0' <= #[trigger] cs[i] <= '\u{7f}' by {
        assert(s[i] < 128);
    }
    is_ascii_chars_encode_utf8(cs);
    assert(encode_utf8(cs) =~= s);
}

/// Relies on std's `String::from_utf8`: a buffer of ASCII bytes decodes to a
/// string with one character per byte.
#[verifier::external_body]
pub(crate) fn ascii_string(bytes: Vec<u8>) -> (r: String)
    requires
        all_ascii(bytes@),
    ensures
        r@ == ascii_chars_of(bytes@),
{
    String::from_utf8(bytes).unwrap_or_default()
}

/// String equality by byte comparison: two strings are equal exactly when
/// their UTF-8 bytes are.
pub fn str_eq(a: &str, b: &str) -> (r: bool)
    ensures
        r == (a@ == b@),
{
    proof {
        vstd::utf8::encode_utf8_decode_utf8(a@);
        vstd::utf8::encode_utf8_decode_utf8(b@);
    }
    let ab = a.as_bytes();
    let bb = b.as_bytes();
    if ab.len() != bb.len() {
        return false;
    }
    let mut i: usize = 0;
    while i < ab.len()
        invariant
            i <= ab@.len() == bb@.len(),
            ab@ == a.spec_bytes() && bb@ == b.spec_bytes(),
            forall|j: int| 0 <= j < i ==> ab@[j] == bb@[j],
        decreases ab@.len() - i,
    {
        if ab[i] != bb[i] {
            proof {
                assert(a.spec_bytes()[i as int] != b.spec_bytes()[i as int]);
            }
            return false;
        }
        i += 1;
    }
    proof {
        assert(a.spec_bytes() =~= b.spec_bytes());
        vstd::utf8::encode_utf8_decode_utf8(a@);
        vstd::utf8::encode_utf8_decode_utf8(b@);
        assert(a@ == vstd::utf8::decode_utf8(a.spec_bytes()));
    }
    true
}

/// Append all bytes of a slice to `out`.
pub fn push_all(out: &mut Vec<u8>, s: &[u8])
    ensures
        final(out)@ == old(out)@ + s@,
{
    let ghost orig = out@;
    let mut i: usize = 0;
    while i < s.len()
        invariant
            i <= s@.len(),
            out@ == orig + s@.take(i as int),
        decreases s@.len() - i,
    {
        out.push(s[i]);
        i += 1;
        proof {
            assert(out@ =~= orig + s@.take(i as int));
        }
    }
    proof {
        assert(s@.take(s@.len() as int) =~= s@);
    }
}

/// Relies on std's `String::from_utf8_lossy`: ASCII bytes come back as one
/// character per byte.
#[verifier::external_body]
pub(crate) fn utf8_string(bytes: Vec<u8>) -> (r: String)
    ensures
        all_ascii(bytes@) ==> r@ == ascii_chars_of(bytes@),
{
    String::from_utf8_lossy(&bytes).into_owned()
}

/// The ASCII decimal digits of `n`, most significant first; `0` is `"0"`.
pub open spec fn dec_digits(n: nat) -> Seq<u8>
    decreases n,
{
    if n < 10 {
        seq![(0x30 + n) as u8]
    } else {
        dec_digits(n / 10).push((0x30 + n % 10) as u8)
    }
}

/// Append the decimal digits of `n` to `out`.
pub fn push_dec(out: &mut Vec<u8>, n: u64)
    ensures
        final(out)@ == old(out)@ + dec_digits(n as nat),
    decreases n,
{
    if n < 10 {
        out.push(0x30 + n as u8);
        assert(out@ =~= old(out)@ + dec_digits(n as nat));
    } else {
        push_dec(out, n / 10);
        out.push(0x30 + (n % 10) as u8);
        assert(out@ =~= old(out)@ + dec_digits(n as nat));
    }
}

} // verus!
