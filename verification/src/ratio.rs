//! Aspect-ratio arithmetic: greatest common divisor, ratio reduction, and
//! ratio parsing.

use vstd::arithmetic::div_mod::lemma_add_mod_noop;
use vstd::arithmetic::div_mod::lemma_fundamental_div_mod;
use vstd::arithmetic::div_mod::lemma_mod_multiples_basic;
use vstd::arithmetic::div_mod::lemma_mod_self_0;
use vstd::arithmetic::div_mod::lemma_small_mod;
use vstd::prelude::*;

verus! {

/// Mathematical greatest common divisor, by the Euclidean recursion.
pub open spec fn gcd_spec(a: nat, b: nat) -> nat
    decreases b,
{
    if b == 0 {
        a
    } else {
        gcd_spec(b, a % b)
    }
}

/// Euclid's algorithm.
pub fn gcd(a: u32, b: u32) -> (d: u32)
    ensures
        d == gcd_spec(a as nat, b as nat),
{
    let mut x = a;
    let mut y = b;
    while y != 0
        invariant
            gcd_spec(x as nat, y as nat) == gcd_spec(a as nat, b as nat),
        decreases y,
    {
        let temp: u32 = y;
        y = x % y;
        x = temp;
    }
    x
}

/// The greatest common divisor of two numbers, not both zero, is positive and
/// divides both.
pub proof fn lemma_gcd_divides(a: nat, b: nat)
    requires
        a != 0 || b != 0,
    ensures
        gcd_spec(a, b) != 0,
        a % gcd_spec(a, b) == 0,
        b % gcd_spec(a, b) == 0,
    decreases b,
{
    if b == 0 {
        lemma_mod_self_0(a as int);
        lemma_small_mod(0, a);
    } else {
        lemma_gcd_divides(b, a % b);
        let d = gcd_spec(b, a % b) as int;
        let q = a as int / b as int;
        let r = a as int % b as int;
        lemma_fundamental_div_mod(a as int, b as int);
        lemma_fundamental_div_mod(b as int, d);
        assert((q * (b as int)) % d == 0) by {
            lemma_mod_multiples_basic(q * (b as int / d), d);
            assert(q * (b as int) == (q * (b as int / d)) * d) by (nonlinear_arith)
                requires
                    b as int == d * (b as int / d) + 0,
            ;
        }
        lemma_add_mod_noop(q * (b as int), r, d);
        lemma_small_mod(0, d as nat);
    }
}

/// Reduce a width/height pair by their greatest common divisor; a pair with a
/// zero component is returned unchanged.
pub fn get_aspect_ratio(width: u32, height: u32) -> (r: (u32, u32))
    ensures
        (width == 0 || height == 0) ==> r == (width, height),
        (width != 0 && height != 0) ==> {
            let d = gcd_spec(width as nat, height as nat);
            d != 0 && r.0 == width as nat / d && r.1 == height as nat / d
        },
{
    if width == 0 || height == 0 {
        return (width, height);
    }
    let divisor: u32 = gcd(width, height);
    proof {
        lemma_gcd_divides(width as nat, height as nat);
    }
    (width / divisor, height / divisor)
}

/// Why a ratio string was rejected.
#[derive(Clone, Copy, PartialEq, Eq, Structural, Debug)]
pub enum ParseError {
    InvalidFormat,
    InvalidNumbers,
    NonPositiveNumbers,
    TooLarge,
}

/// A ratio separator: `x`, `:`, or the multiplication sign.
pub open spec fn is_sep(c: char) -> bool {
    c == 'x' || c == ':' || c == '\u{d7}'
}

/// Whether a character separates the two dimensions.
fn sep_char(c: char) -> (r: bool)
    ensures
        r == is_sep(c),
{
    c == 'x' || c == ':' || c == '\u{d7}'
}

/// Index of the first separator, or the length when there is none.
pub open spec fn first_sep(s: Seq<char>) -> int
    decreases s.len(),
{
    if s.len() == 0 {
        0
    } else if is_sep(s[0]) {
        0
    } else {
        1 + first_sep(s.drop_first())
    }
}

proof fn lemma_first_sep_is(s: Seq<char>, k: int)
    requires
        0 <= k <= s.len(),
        forall|i: int| 0 <= i < k ==> !is_sep(#[trigger] s[i]),
        k < s.len() ==> is_sep(s[k]),
    ensures
        first_sep(s) == k,
    decreases s.len(),
{
    if k > 0 {
        lemma_first_sep_is(s.drop_first(), k - 1);
    }
}

/// An ASCII decimal digit character.
pub open spec fn is_digit_char(c: char) -> bool {
    0x30 <= c as u32 <= 0x39
}

/// The number written by a digit string, most significant first.
pub open spec fn digits_val(s: Seq<char>) -> nat
    decreases s.len(),
{
    if s.len() == 0 {
        0
    } else {
        digits_val(s.drop_last()) * 10 + (s.last() as u32 - 0x30) as nat
    }
}

/// The digit part of a number: everything after an optional leading `+`.
pub open spec fn num_digits(s: Seq<char>) -> Seq<char> {
    if s.len() > 0 && s[0] == '+' {
        s.drop_first()
    } else {
        s
    }
}

/// A well-formed unsigned number: an optional `+`, then at least one digit.
pub open spec fn num_ok(s: Seq<char>) -> bool {
    num_digits(s).len() > 0 && forall|i: int|
        0 <= i < num_digits(s).len() ==> is_digit_char(#[trigger] num_digits(s)[i])
}

/// Appending digits never shrinks the value.
proof fn lemma_digits_val_grows(s: Seq<char>, i: int)
    requires
        0 <= i <= s.len(),
    ensures
        digits_val(s.take(i)) <= digits_val(s),
    decreases s.len() - i,
{
    if i < s.len() {
        lemma_digits_val_grows(s, i + 1);
        assert(s.take(i + 1).drop_last() =~= s.take(i));
        assert(digits_val(s.take(i + 1)) == digits_val(s.take(i)) * 10 + (s.take(i + 1).last()
            as u32 - 0x30) as nat);
    } else {
        assert(s.take(i) =~= s);
    }
}

/// Parse an unsigned 32-bit number from a character range of a string.
pub fn parse_u32_range(s: &str, from: usize, to: usize) -> (r: Option<u32>)
    requires
        from <= to <= s@.len(),
    ensures
        ({
            let t = s@.subrange(from as int, to as int);
            &&& (r is Some) == (num_ok(t) && digits_val(num_digits(t)) <= u32::MAX)
            &&& (r matches Some(v) ==> v == digits_val(num_digits(t)))
        }),
{
    let ghost t = s@.subrange(from as int, to as int);
    let mut i: usize = from;
    if i < to && s.get_char(i) == '+' {
        i += 1;
    }
    proof {
        assert(num_digits(t) =~= s@.subrange(i as int, to as int));
    }
    let ghost d = num_digits(t);
    if i == to {
        return None;
    }
    let mut acc: u64 = 0;
    let mut j: usize = i;
    proof {
        assert(d.take(0) =~= Seq::<char>::empty());
    }
    while j < to
        invariant
            from <= i <= j <= to <= s@.len(),
            d == s@.subrange(i as int, to as int),
            d == num_digits(s@.subrange(from as int, to as int)),
            d.len() == to - i,
            forall|p: int| 0 <= p < j - i ==> is_digit_char(#[trigger] d[p]),
            acc == digits_val(d.take(j - i)),
            acc <= u32::MAX,
        decreases to - j,
    {
        let c = s.get_char(j);
        let u = c as u32;
        if u < 0x30 || u > 0x39 {
            proof {
                assert(d[j - i] == s@[j as int]);
                assert(!is_digit_char(d[j - i]));
            }
            return None;
        }
        acc = acc * 10 + (u - 0x30) as u64;
        j += 1;
        proof {
            assert(d[j - 1 - i] == s@[j - 1]);
            assert(d.take(j - i).drop_last() =~= d.take(j - 1 - i));
            assert(d.take(j - i).last() == d[j - 1 - i]);
        }
        if acc > 0xffffffff {
            proof {
                lemma_digits_val_grows(d, j - i);
            }
            return None;
        }
    }
    proof {
        assert(d.take(to - i) =~= d);
    }
    Some(acc as u32)
}

/// Parse `WxH`, `W:H` or `W×H` into a positive pair of dimensions, each at
/// most one hundred million.
pub fn parse_ratio(input: &str) -> (r: Result<(u32, u32), ParseError>)
    ensures
        ({
            let cs = input@;
            let k = first_sep(cs);
            &&& (r matches Err(ParseError::InvalidFormat)) == (k >= cs.len())
            &&& (r matches Ok(wh) ==> ({
                let wt = crate::passwords::trim_line(cs.take(k));
                let ht = crate::passwords::trim_line(cs.skip(k + 1));
                &&& num_ok(wt) && num_ok(ht)
                &&& wh.0 == digits_val(num_digits(wt)) && wh.1 == digits_val(num_digits(ht))
                &&& 1 <= wh.0 <= 100000000 && 1 <= wh.1 <= 100000000
            }))
        }),
{
    let n = input.unicode_len();
    let mut k: usize = 0;
    while k < n && !sep_char(input.get_char(k))
        invariant
            k <= n == input@.len(),
            forall|i: int| 0 <= i < k ==> !is_sep(#[trigger] input@[i]),
        decreases n - k,
    {
        k += 1;
    }
    proof {
        if k < n {
            assert(is_sep(input@[k as int]));
        }
        lemma_first_sep_is(input@, k as int);
    }
    if k >= n {
        return Err(ParseError::InvalidFormat);
    }
    let w = match parse_trimmed_u32(input, 0, k) {
        Some(v) => v,
        None => {
            return Err(ParseError::InvalidNumbers);
        },
    };
    let h = match parse_trimmed_u32(input, k + 1, n) {
        Some(v) => v,
        None => {
            return Err(ParseError::InvalidNumbers);
        },
    };
    if w == 0 || h == 0 {
        return Err(ParseError::NonPositiveNumbers);
    }
    if w > 100000000 || h > 100000000 {
        return Err(ParseError::TooLarge);
    }
    proof {
        assert(input@.subrange(0, k as int) =~= input@.take(k as int));
        assert(input@.subrange(k + 1, n as int) =~= input@.skip(k + 1));
    }
    Ok((w, h))
}

/// Parse a number from a character range with surrounding padding removed.
fn parse_trimmed_u32(s: &str, from: usize, to: usize) -> (r: Option<u32>)
    requires
        from <= to <= s@.len(),
    ensures
        ({
            let t = crate::passwords::trim_line(s@.subrange(from as int, to as int));
            &&& (r is Some) == (num_ok(t) && digits_val(num_digits(t)) <= u32::MAX)
            &&& (r matches Some(v) ==> v == digits_val(num_digits(t)))
        }),
{
    let ghost seg = s@.subrange(from as int, to as int);
    let mut a: usize = from;
    while a < to && crate::passwords::pad_char(s.get_char(a))
        invariant
            from <= a <= to <= s@.len(),
            forall|i: int| from <= i < a ==> crate::passwords::is_pad(#[trigger] s@[i]),
        decreases to - a,
    {
        a += 1;
    }
    let mut b: usize = to;
    while b > a && crate::passwords::pad_char(s.get_char(b - 1))
        invariant
            a <= b <= to <= s@.len(),
            forall|i: int| b <= i < to ==> crate::passwords::is_pad(#[trigger] s@[i]),
        decreases b - a,
    {
        b -= 1;
    }
    proof {
        assert forall|i: int| 0 <= i < a - from implies crate::passwords::is_pad(
            #[trigger] seg[i],
        ) by {
            assert(seg[i] == s@[from + i]);
        }
        if a < to {
            assert(seg[a - from] == s@[a as int]);
        }
        crate::passwords::lemma_ltrim_is(seg, a as int - from);
        let rest = seg.skip(a as int - from);
        assert forall|i: int| b - a <= i < rest.len() implies crate::passwords::is_pad(
            #[trigger] rest[i],
        ) by {
            assert(rest[i] == s@[a + i]);
        }
        if b > a {
            assert(rest[b - a - 1] == s@[b - 1]);
        }
        crate::passwords::lemma_rtrim_is(rest, b as int - a);
        assert(crate::passwords::trim_line(seg) =~= s@.subrange(a as int, b as int));
    }
    parse_u32_range(s, a, b)
}

/// The shells for which completions can be generated.
#[derive(Clone, Copy, PartialEq, Eq, Structural, Debug)]
pub enum SupportedShell {
    Bash,
    Zsh,
    Fish,
    PowerShell,
    Elvish,
}

/// ASCII lowercase folding of one character, as its scalar value.
pub open spec fn lower_u32(c: char) -> u32 {
    if 0x41 <= c as u32 <= 0x5a {
        (c as u32 + 0x20) as u32
    } else {
        c as u32
    }
}

/// Whether the string, ASCII-lowercased, spells the given word.
pub open spec fn lower_eq_spec(s: Seq<char>, t: Seq<char>) -> bool {
    s.len() == t.len() && forall|i: int| 0 <= i < s.len() ==> lower_u32(s[i]) == #[trigger] t[i] as u32
}

/// Whether the ASCII-lowercased string equals a given lowercase word.
pub fn lower_eq(s: &str, lit: &str) -> (r: bool)
    ensures
        r == lower_eq_spec(s@, lit@),
{
    let n = s.unicode_len();
    let m = lit.unicode_len();
    if n != m {
        return false;
    }
    let mut i: usize = 0;
    while i < n
        invariant
            i <= n == s@.len() == lit@.len(),
            forall|j: int| 0 <= j < i ==> lower_u32(s@[j]) == #[trigger] lit@[j] as u32,
        decreases n - i,
    {
        let cu = s.get_char(i) as u32;
        let lu = lit.get_char(i) as u32;
        let folded = if 0x41 <= cu && cu <= 0x5a {
            cu + 0x20
        } else {
            cu
        };
        if folded != lu {
            return false;
        }
        i += 1;
    }
    true
}

impl SupportedShell {
    /// Recognize a shell name, ASCII case-insensitively.
    pub fn from_str(s: &str) -> (r: Option<SupportedShell>)
        ensures
            r == Some(SupportedShell::Bash) <==> lower_eq_spec(s@, ("bash")@),
            r == Some(SupportedShell::Zsh) <==> lower_eq_spec(s@, ("zsh")@),
            r == Some(SupportedShell::Fish) <==> lower_eq_spec(s@, ("fish")@),
            r == Some(SupportedShell::PowerShell) <==> lower_eq_spec(s@, ("powershell")@),
            r == Some(SupportedShell::Elvish) <==> lower_eq_spec(s@, ("elvish")@),
    {
        proof {
            reveal_strlit("bash");
            reveal_strlit("zsh");
            reveal_strlit("fish");
            reveal_strlit("powershell");
            reveal_strlit("elvish");
        }
        let b = lower_eq(s, "bash");
        let f = lower_eq(s, "fish");
        proof {
            assert(!(b && f)) by {
                if lower_eq_spec(s@, ("bash")@) && lower_eq_spec(s@, ("fish")@) {
                    assert(lower_u32(s@[0]) == ("bash")@[0] as u32);
                    assert(lower_u32(s@[0]) == ("fish")@[0] as u32);
                }
            }
        }
        if b {
            Some(SupportedShell::Bash)
        } else if lower_eq(s, "zsh") {
            Some(SupportedShell::Zsh)
        } else if f {
            Some(SupportedShell::Fish)
        } else if lower_eq(s, "powershell") {
            Some(SupportedShell::PowerShell)
        } else if lower_eq(s, "elvish") {
            Some(SupportedShell::Elvish)
        } else {
            None
        }
    }

    /// All recognized shell names.
    pub fn all() -> (r: Vec<&'static str>)
        ensures
            r@.len() == 5,
            r@[0]@ == ("bash")@,
            r@[1]@ == ("zsh")@,
            r@[2]@ == ("fish")@,
            r@[3]@ == ("powershell")@,
            r@[4]@ == ("elvish")@,
    {
        let mut v: Vec<&'static str> = Vec::new();
        v.push("bash");
        v.push("zsh");
        v.push("fish");
        v.push("powershell");
        v.push("elvish");
        v
    }
}

/// Scale one dimension of a ratio to a target for the other: the target
/// width times the ratio height over the ratio width, `None` on overflow or
/// a zero divisor.
pub fn convert_dimension(target: u32, num: u32, den: u32) -> (r: Option<u32>)
    ensures
        (r is Some) == (target * num <= u32::MAX && den != 0),
        r matches Some(v) ==> v == (target * num) as nat / den as nat,
{
    proof {
        vstd::arithmetic::mul::lemma_mul_upper_bound(
            target as int,
            0xffffffff,
            num as int,
            0xffffffff,
        );
    }
    let prod = target as u64 * num as u64;
    if prod > 0xffffffff || den == 0 {
        return None;
    }
    Some((prod / den as u64) as u32)
}

} // verus!
