//! Paste bookkeeping for the hosting CLI: visibility levels, the error
//! taxonomy, terminal colors, and finding a paste's identifier in the
//! listing that the CLI prints.

use crate::strbytes::all_ascii;
use crate::strbytes::ascii_chars_of;
use crate::strbytes::ascii_string;
use vstd::prelude::*;
use vstd::string::StringExecFns;
use vstd::string::StringSliceAdditionalSpecFns;
use vstd::string::StrSliceExecFns;

verus! {

/// Who may see a paste.
#[derive(Clone, Copy, PartialEq, Eq, Structural, Debug)]
pub enum Visibility {
    Public,
    Unlisted,
    Private,
}

impl Visibility {
    /// The wire word for a visibility level.
    pub fn as_str(&self) -> (r: &'static str)
        ensures
            self is Public ==> r@ == ("public")@,
            self is Unlisted ==> r@ == ("unlisted")@,
            self is Private ==> r@ == ("private")@,
    {
        match self {
            Visibility::Public => "public",
            Visibility::Unlisted => "unlisted",
            Visibility::Private => "private",
        }
    }
}

/// The errors of the paste CLI.
#[derive(Debug)]
pub enum AppError {
    /// An operating-system error, carried as its message.
    IoError(String),
    /// The external command failed.
    CommandError(String),
    /// The environment is not usable.
    ValidationError(String),
    /// No paste matched.
    PasteNotFound(String),
}

/// Plain ANSI colouring of terminal text.
pub trait Colorize {
    /// The characters being coloured.
    spec fn text(&self) -> Seq<char>;

    /// Bold green.
    fn green(&self) -> (r: String)
        ensures
            r@ == ("\u{1b}[32m\u{1b}[1m")@ + self.text() + ("\u{1b}[0m")@,
    ;

    /// Bold blue.
    fn blue(&self) -> (r: String)
        ensures
            r@ == ("\u{1b}[34m\u{1b}[1m")@ + self.text() + ("\u{1b}[0m")@,
    ;

    /// Bold cyan.
    fn cyan(&self) -> (r: String)
        ensures
            r@ == ("\u{1b}[36m\u{1b}[1m")@ + self.text() + ("\u{1b}[0m")@,
    ;

    /// Bold.
    fn bold(&self) -> (r: String)
        ensures
            r@ == ("\u{1b}[1m")@ + self.text() + ("\u{1b}[0m")@,
    ;
}

impl Colorize for &str {
    open spec fn text(&self) -> Seq<char> {
        self@
    }

    fn green(&self) -> (r: String) {
        let mut s = String::from_str("\u{1b}[32m\u{1b}[1m");
        s.append(self);
        s.append("\u{1b}[0m");
        s
    }

    fn blue(&self) -> (r: String) {
        let mut s = String::from_str("\u{1b}[34m\u{1b}[1m");
        s.append(self);
        s.append("\u{1b}[0m");
        s
    }

    fn cyan(&self) -> (r: String) {
        let mut s = String::from_str("\u{1b}[36m\u{1b}[1m");
        s.append(self);
        s.append("\u{1b}[0m");
        s
    }

    fn bold(&self) -> (r: String) {
        let mut s = String::from_str("\u{1b}[1m");
        s.append(self);
        s.append("\u{1b}[0m");
        s
    }
}

impl Colorize for String {
    open spec fn text(&self) -> Seq<char> {
        self@
    }

    fn green(&self) -> (r: String) {
        let mut s = String::from_str("\u{1b}[32m\u{1b}[1m");
        s.append(self.as_str());
        s.append("\u{1b}[0m");
        s
    }

    fn blue(&self) -> (r: String) {
        let mut s = String::from_str("\u{1b}[34m\u{1b}[1m");
        s.append(self.as_str());
        s.append("\u{1b}[0m");
        s
    }

    fn cyan(&self) -> (r: String) {
        let mut s = String::from_str("\u{1b}[36m\u{1b}[1m");
        s.append(self.as_str());
        s.append("\u{1b}[0m");
        s
    }

    fn bold(&self) -> (r: String) {
        let mut s = String::from_str("\u{1b}[1m");
        s.append(self.as_str());
        s.append("\u{1b}[0m");
        s
    }
}

/// Inline whitespace inside a listing line.
pub open spec fn is_ws(b: u8) -> bool {
    b == 0x20 || b == 0x09 || b == 0x0d
}

/// An ASCII hexadecimal digit.
pub open spec fn is_hex_digit(b: u8) -> bool {
    (0x30 <= b <= 0x39) || (0x41 <= b <= 0x46) || (0x61 <= b <= 0x66)
}

/// The line with leading whitespace removed.
pub open spec fn skip_ws(s: Seq<u8>) -> Seq<u8>
    decreases s.len(),
{
    if s.len() > 0 && is_ws(s[0]) {
        skip_ws(s.drop_first())
    } else {
        s
    }
}

/// The leading whitespace-free run.
pub open spec fn take_token(s: Seq<u8>) -> Seq<u8>
    decreases s.len(),
{
    if s.len() > 0 && !is_ws(s[0]) {
        seq![s[0]] + take_token(s.drop_first())
    } else {
        Seq::empty()
    }
}

/// The first whitespace-separated token of a line.
pub open spec fn token_of(line: Seq<u8>) -> Seq<u8> {
    take_token(skip_ws(line))
}

/// A nonempty all-hexadecimal token.
pub open spec fn hex_token(t: Seq<u8>) -> bool {
    t.len() > 0 && forall|i: int| 0 <= i < t.len() ==> is_hex_digit(#[trigger] t[i])
}

/// Index of the first newline, or the length when there is none.
pub open spec fn first_nl(s: Seq<u8>) -> int
    decreases s.len(),
{
    if s.len() == 0 {
        0
    } else if s[0] == 0x0a {
        0
    } else {
        1 + first_nl(s.drop_first())
    }
}

/// `first_nl` from its defining properties.
pub proof fn lemma_first_nl_is(s: Seq<u8>, k: int)
    requires
        0 <= k <= s.len(),
        forall|i: int| 0 <= i < k ==> s[i] != 0x0a,
        k < s.len() ==> s[k] == 0x0a,
    ensures
        first_nl(s) == k,
    decreases s.len(),
{
    if k == 0 {
    } else {
        lemma_first_nl_is(s.drop_first(), k - 1);
    }
}

/// `first_nl` is a position in the string.
pub proof fn lemma_first_nl_bounds(s: Seq<u8>)
    ensures
        0 <= first_nl(s) <= s.len(),
    decreases s.len(),
{
    if s.len() > 0 && s[0] != 0x0a {
        lemma_first_nl_bounds(s.drop_first());
    }
}

/// The first hexadecimal first-token among the listing's lines, scanned top
/// to bottom.
pub open spec fn find_id(s: Seq<u8>) -> Option<Seq<u8>>
    decreases s.len(),
    via find_id_decreases
{
    if s.len() == 0 {
        None
    } else {
        let k = first_nl(s);
        let line = s.take(k);
        if hex_token(token_of(line)) {
            Some(token_of(line))
        } else if k >= s.len() {
            None
        } else {
            find_id(s.skip(k + 1))
        }
    }
}

#[via_fn]
proof fn find_id_decreases(s: Seq<u8>) {
    lemma_first_nl_bounds(s);
}

/// `skip_ws` from its defining properties.
proof fn lemma_skip_ws_is(s: Seq<u8>, a: int)
    requires
        0 <= a <= s.len(),
        forall|i: int| 0 <= i < a ==> is_ws(#[trigger] s[i]),
        a < s.len() ==> !is_ws(s[a]),
    ensures
        skip_ws(s) == s.skip(a),
    decreases s.len(),
{
    if a == 0 {
        assert(s.skip(0) =~= s);
    } else {
        lemma_skip_ws_is(s.drop_first(), a - 1);
        assert(s.drop_first().skip(a - 1) =~= s.skip(a));
    }
}

/// `take_token` from its defining properties.
proof fn lemma_take_token_is(s: Seq<u8>, b: int)
    requires
        0 <= b <= s.len(),
        forall|i: int| 0 <= i < b ==> !is_ws(#[trigger] s[i]),
        b < s.len() ==> is_ws(s[b]),
    ensures
        take_token(s) == s.take(b),
    decreases s.len(),
{
    if b == 0 {
        assert(s.take(0) =~= Seq::<u8>::empty());
    } else {
        lemma_take_token_is(s.drop_first(), b - 1);
        assert(s.drop_first().take(b - 1) =~= s.take(b).drop_first());
        assert(take_token(s) == seq![s[0]] + take_token(s.drop_first()));
        assert(seq![s[0]] + s.drop_first().take(b - 1) =~= s.take(b));
    }
}

/// Find the identifier of a paste in the CLI's listing output: the first
/// line whose first whitespace-separated token is hexadecimal names it.
pub fn find_paste_id(listing: &str, source_file: &str) -> (r: Result<String, AppError>)
    ensures
        r matches Ok(id) ==> (find_id(listing.spec_bytes()) matches Some(t) && id@
            == ascii_chars_of(t)),
        r matches Err(e) ==> find_id(listing.spec_bytes()) is None && (e matches
            AppError::PasteNotFound(m) && m@ == ("No paste ID found for ")@ + source_file@),
{
    let bytes = listing.as_bytes();
    let n = bytes.len();
    let mut pos: usize = 0;
    proof {
        assert(bytes@.skip(0) =~= bytes@);
    }
    while pos < n
        invariant
            pos <= n == bytes@.len(),
            bytes@ == listing.spec_bytes(),
            find_id(bytes@) == find_id(bytes@.skip(pos as int)),
            bytes@.skip(n as int) =~= Seq::<u8>::empty(),
        ensures
            find_id(bytes@) is None,
        decreases n - pos,
    {
        let ghost tail = bytes@.skip(pos as int);
        // find the end of the line
        let mut k: usize = pos;
        while k < n && bytes[k] != 0x0a
            invariant
                pos <= k <= n == bytes@.len(),
                forall|i: int| pos <= i < k ==> bytes@[i] != 0x0a,
            decreases n - k,
        {
            k += 1;
        }
        proof {
            assert forall|i: int| 0 <= i < k - pos implies tail[i] != 0x0a by {
                assert(tail[i] == bytes@[pos + i]);
            }
            if k < n {
                assert(tail[k - pos] == bytes@[k as int]);
            }
            lemma_first_nl_is(tail, k as int - pos);
        }
        // find the first token of the line
        let mut a: usize = pos;
        while a < k && (bytes[a] == 0x20 || bytes[a] == 0x09 || bytes[a] == 0x0d)
            invariant
                pos <= a <= k <= n == bytes@.len(),
                forall|i: int| pos <= i < a ==> is_ws(#[trigger] bytes@[i]),
            decreases k - a,
        {
            a += 1;
        }
        let mut b: usize = a;
        while b < k && !(bytes[b] == 0x20 || bytes[b] == 0x09 || bytes[b] == 0x0d)
            invariant
                a <= b <= k <= n == bytes@.len(),
                forall|i: int| a <= i < b ==> !is_ws(#[trigger] bytes@[i]),
            decreases k - b,
        {
            b += 1;
        }
        let ghost line = tail.take(k as int - pos);
        proof {
            assert forall|i: int| 0 <= i < a - pos implies is_ws(#[trigger] line[i]) by {
                assert(line[i] == bytes@[pos + i]);
            }
            if a < k {
                assert(line[a - pos] == bytes@[a as int]);
            }
            lemma_skip_ws_is(line, a as int - pos);
            let rest = line.skip(a as int - pos);
            assert forall|i: int| 0 <= i < b - a implies !is_ws(#[trigger] rest[i]) by {
                assert(rest[i] == bytes@[a + i]);
            }
            if b < k {
                assert(rest[b - a] == bytes@[b as int]);
            }
            lemma_take_token_is(rest, b as int - a);
            assert(token_of(line) =~= bytes@.subrange(a as int, b as int));
        }
        // check the token is nonempty and hexadecimal
        let mut all_hex = a < b;
        let mut j: usize = a;
        while j < b
            invariant
                a <= j <= b <= n == bytes@.len(),
                all_hex == (a < b && forall|i: int|
                    a <= i < j ==> is_hex_digit(#[trigger] bytes@[i])),
            decreases b - j,
        {
            let c = bytes[j];
            if !(0x30 <= c && c <= 0x39 || 0x41 <= c && c <= 0x46 || 0x61 <= c && c <= 0x66) {
                all_hex = false;
            }
            j += 1;
        }
        if all_hex {
            let mut id_bytes: Vec<u8> = Vec::new();
            let mut m: usize = a;
            while m < b
                invariant
                    a <= m <= b <= n == bytes@.len(),
                    id_bytes@ =~= bytes@.subrange(a as int, m as int),
                decreases b - m,
            {
                id_bytes.push(bytes[m]);
                m += 1;
                proof {
                    assert(id_bytes@ =~= bytes@.subrange(a as int, m as int));
                }
            }
            proof {
                assert(hex_token(token_of(line))) by {
                    assert(forall|i: int|
                        a <= i < b ==> is_hex_digit(#[trigger] bytes@[i]));
                    assert forall|i: int|
                        0 <= i < token_of(line).len() implies is_hex_digit(
                        #[trigger] token_of(line)[i],
                    ) by {
                        assert(token_of(line)[i] == bytes@[a + i]);
                    }
                }
                assert(find_id(tail) == Some(token_of(line)));
                assert(all_ascii(id_bytes@));
            }
            return Ok(ascii_string(id_bytes));
        }
        proof {
            assert(!hex_token(token_of(line))) by {
                if a < b {
                    let w = choose|i: int| a <= i < b && !is_hex_digit(#[trigger] bytes@[i]);
                    assert(token_of(line)[w - a] == bytes@[w]);
                } else {
                    assert(token_of(line).len() == 0);
                }
            }
            if k < n {
                assert(tail.skip(k as int - pos + 1) =~= bytes@.skip(k as int + 1));
                assert(find_id(tail) == find_id(bytes@.skip(k as int + 1)));
            } else {
                assert(find_id(tail) is None);
                assert(find_id(bytes@) is None);
            }
        }
        if k >= n {
            break;
        }
        pos = k + 1;
    }
    let mut msg = String::from_str("No paste ID found for ");
    msg.append(source_file);
    Err(AppError::PasteNotFound(msg))
}

} // verus!
