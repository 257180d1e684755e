//! Password fetching support: the API URL, parsing the plain-text reply
//! into passwords, and the two output formats.

use crate::strbytes::all_ascii;
use crate::strbytes::ascii_chars_of;
use crate::wallabag::dec_chars;
use vstd::prelude::*;
use vstd::string::StringExecFns;
use vstd::string::StrSliceExecFns;
use vstd::utf8::encode_utf8;

verus! {

/// How the passwords are presented.
#[derive(Clone, Copy, PartialEq, Eq, Structural, Debug)]
pub enum OutputType {
    Plain,
    Alfred,
}

impl OutputType {
    /// Recognize an output type name, ASCII case-insensitively.
    pub fn from_str(s: &str) -> (r: Result<OutputType, String>)
        ensures
            r == Ok::<OutputType, String>(OutputType::Plain) <==> crate::ratio::lower_eq_spec(
                s@,
                ("plain")@,
            ),
            r == Ok::<OutputType, String>(OutputType::Alfred) <==> crate::ratio::lower_eq_spec(
                s@,
                ("alfred")@,
            ),
            r matches Err(m) ==> m@ == ("Invalid output type: ")@ + s@ + (
            ". Must be 'plain' or 'alfred'")@,
    {
        proof {
            reveal_strlit("plain");
            reveal_strlit("alfred");
        }
        if crate::ratio::lower_eq(s, "plain") {
            Ok(OutputType::Plain)
        } else if crate::ratio::lower_eq(s, "alfred") {
            Ok(OutputType::Alfred)
        } else {
            let mut m = String::from_str("Invalid output type: ");
            m.append(s);
            m.append(". Must be 'plain' or 'alfred'");
            Err(m)
        }
    }
}

/// The generator endpoint with the requested count and length.
pub fn build_api_url(count: u64, length: u64) -> (r: String)
    ensures
        r@ == ("https://www.random.org/passwords/?num=")@ + dec_chars(count as nat) + ("&len=")@
            + dec_chars(length as nat) + ("&format=plain&rnd=new")@,
{
    let mut url = String::from_str("https://www.random.org/passwords/?num=");
    let c = crate::wallabag::dec_string(count);
    url.append(c.as_str());
    url.append("&len=");
    let l = crate::wallabag::dec_string(length);
    url.append(l.as_str());
    url.append("&format=plain&rnd=new");
    url
}

/// Whitespace that may pad a line: the Unicode white-space characters, the
/// same set the standard library's trimming removes.
pub open spec fn is_pad(c: char) -> bool {
    let u = c as u32;
    (0x09 <= u <= 0x0d) || u == 0x20 || u == 0x85 || u == 0xa0 || u == 0x1680 || (0x2000 <= u
        <= 0x200a) || u == 0x2028 || u == 0x2029 || u == 0x202f || u == 0x205f || u == 0x3000
}

/// Whether a character is line padding.
pub fn pad_char(c: char) -> (r: bool)
    ensures
        r == is_pad(c),
{
    let u = c as u32;
    (0x09 <= u && u <= 0x0d) || u == 0x20 || u == 0x85 || u == 0xa0 || u == 0x1680 || (0x2000 <= u
        && u <= 0x200a) || u == 0x2028 || u == 0x2029 || u == 0x202f || u == 0x205f || u == 0x3000
}

/// Leading padding removed.
pub open spec fn ltrim(s: Seq<char>) -> Seq<char>
    decreases s.len(),
{
    if s.len() > 0 && is_pad(s.first()) {
        ltrim(s.drop_first())
    } else {
        s
    }
}

/// Trailing padding removed.
pub open spec fn rtrim(s: Seq<char>) -> Seq<char>
    decreases s.len(),
{
    if s.len() > 0 && is_pad(s.last()) {
        rtrim(s.drop_last())
    } else {
        s
    }
}

/// A line with padding removed on both sides.
pub open spec fn trim_line(s: Seq<char>) -> Seq<char> {
    rtrim(ltrim(s))
}

/// Index of the first newline, or the length when there is none.
pub open spec fn first_nlc(s: Seq<char>) -> int
    decreases s.len(),
{
    if s.len() == 0 {
        0
    } else if s[0] == '\n' {
        0
    } else {
        1 + first_nlc(s.drop_first())
    }
}

proof fn lemma_first_nlc_bounds(s: Seq<char>)
    ensures
        0 <= first_nlc(s) <= s.len(),
    decreases s.len(),
{
    if s.len() > 0 && s[0] != '\n' {
        lemma_first_nlc_bounds(s.drop_first());
    }
}

proof fn lemma_first_nlc_is(s: Seq<char>, k: int)
    requires
        0 <= k <= s.len(),
        forall|i: int| 0 <= i < k ==> s[i] != '\n',
        k < s.len() ==> s[k] == '\n',
    ensures
        first_nlc(s) == k,
    decreases s.len(),
{
    if k > 0 {
        lemma_first_nlc_is(s.drop_first(), k - 1);
    }
}

pub proof fn lemma_ltrim_is(s: Seq<char>, a: int)
    requires
        0 <= a <= s.len(),
        forall|i: int| 0 <= i < a ==> is_pad(#[trigger] s[i]),
        a < s.len() ==> !is_pad(s[a]),
    ensures
        ltrim(s) == s.skip(a),
    decreases s.len(),
{
    if a == 0 {
        assert(s.skip(0) =~= s);
    } else {
        lemma_ltrim_is(s.drop_first(), a - 1);
        assert(s.drop_first().skip(a - 1) =~= s.skip(a));
    }
}

pub proof fn lemma_rtrim_is(s: Seq<char>, b: int)
    requires
        0 <= b <= s.len(),
        forall|i: int| b <= i < s.len() ==> is_pad(#[trigger] s[i]),
        b > 0 ==> !is_pad(s[b - 1]),
    ensures
        rtrim(s) == s.take(b),
    decreases s.len(),
{
    if b == s.len() {
        if s.len() == 0 || !is_pad(s.last()) {
            assert(s.take(b) =~= s);
        } else {
            assert(!is_pad(s[b - 1]));
            assert(false);
        }
    } else {
        lemma_rtrim_is(s.drop_last(), b);
        assert(s.drop_last().take(b) =~= s.take(b));
    }
}

/// The nonempty trimmed lines of the reply, in order.
pub open spec fn clean_lines(s: Seq<char>) -> Seq<Seq<char>>
    decreases s.len(),
    via clean_lines_decreases
{
    if s.len() == 0 {
        Seq::empty()
    } else {
        let k = first_nlc(s);
        let seg = trim_line(s.take(k));
        (if seg.len() > 0 {
            seq![seg]
        } else {
            Seq::<Seq<char>>::empty()
        }) + (if k >= s.len() {
            Seq::<Seq<char>>::empty()
        } else {
            clean_lines(s.skip(k + 1))
        })
    }
}

#[via_fn]
proof fn clean_lines_decreases(s: Seq<char>) {
    lemma_first_nlc_bounds(s);
}

/// Parse the generator's plain-text reply: one password per line, padding
/// trimmed, blank lines dropped.
pub fn parse_api_response(body: &str) -> (r: Vec<String>)
    ensures
        r.deep_view() == clean_lines(body@),
{
    let n = body.unicode_len();
    let mut acc: Vec<String> = Vec::new();
    let mut pos: usize = 0;
    proof {
        assert(body@.skip(0) =~= body@);
    }
    while pos < n
        invariant_except_break
            clean_lines(body@) == acc.deep_view() + clean_lines(body@.skip(pos as int)),
        invariant
            pos <= n == body@.len(),
            body@.skip(n as int) =~= Seq::<char>::empty(),
            acc.deep_view() + Seq::<Seq<char>>::empty() =~= acc.deep_view(),
        ensures
            clean_lines(body@) == acc.deep_view(),
        decreases n - pos,
    {
        let ghost tail = body@.skip(pos as int);
        let mut k: usize = pos;
        while k < n && body.get_char(k) != '\n'
            invariant
                pos <= k <= n == body@.len(),
                forall|i: int| pos <= i < k ==> body@[i] != '\n',
            decreases n - k,
        {
            k += 1;
        }
        proof {
            assert forall|i: int| 0 <= i < k - pos implies tail[i] != '\n' by {
                assert(tail[i] == body@[pos + i]);
            }
            if k < n {
                assert(tail[k - pos] == body@[k as int]);
            }
            lemma_first_nlc_is(tail, k as int - pos);
        }
        let mut a: usize = pos;
        while a < k && pad_char(body.get_char(a))
            invariant
                pos <= a <= k <= n == body@.len(),
                forall|i: int| pos <= i < a ==> is_pad(#[trigger] body@[i]),
            decreases k - a,
        {
            a += 1;
        }
        let mut b: usize = k;
        while b > a && pad_char(body.get_char(b - 1))
            invariant
                a <= b <= k <= n == body@.len(),
                forall|i: int| b <= i < k ==> is_pad(#[trigger] body@[i]),
            decreases b - a,
        {
            b -= 1;
        }
        let ghost line = tail.take(k as int - pos);
        proof {
            assert forall|i: int| 0 <= i < a - pos implies is_pad(#[trigger] line[i]) by {
                assert(line[i] == body@[pos + i]);
            }
            if a < k {
                assert(line[a - pos] == body@[a as int]);
            }
            lemma_ltrim_is(line, a as int - pos);
            let rest = line.skip(a as int - pos);
            assert forall|i: int| b - a <= i < rest.len() implies is_pad(#[trigger] rest[i]) by {
                assert(rest[i] == body@[a + i]);
            }
            if b > a {
                assert(rest[b - a - 1] == body@[b - 1]);
            }
            lemma_rtrim_is(rest, b as int - a);
            assert(trim_line(line) =~= body@.subrange(a as int, b as int));
        }
        let ghost olddv = acc.deep_view();
        if b > a {
            let seg = body.substring_char(a, b).to_owned();
            acc.push(seg);
            proof {
                assert(seg@ =~= trim_line(line));
                assert(acc.deep_view() =~= olddv.push(seg@));
            }
        }
        proof {
            let segopt: Seq<Seq<char>> = if trim_line(line).len() > 0 {
                seq![trim_line(line)]
            } else {
                Seq::<Seq<char>>::empty()
            };
            assert(acc.deep_view() =~= olddv + segopt);
            if k < n {
                assert(tail.skip(k as int - pos + 1) =~= body@.skip(k as int + 1));
                assert(clean_lines(tail) == segopt + clean_lines(body@.skip(k as int + 1)));
                assert(olddv + (segopt + clean_lines(body@.skip(k as int + 1))) =~= acc.deep_view()
                    + clean_lines(body@.skip(k as int + 1)));
            } else {
                assert(clean_lines(tail) == segopt + Seq::<Seq<char>>::empty());
                assert(olddv + (segopt + Seq::<Seq<char>>::empty()) =~= acc.deep_view());
                assert(clean_lines(body@) == acc.deep_view());
            }
        }
        if k >= n {
            break ;
        }
        pos = k + 1;
    }
    acc
}

/// Whether exactly the expected number of passwords came back.
pub fn is_valid_password_count(passwords: &Vec<String>, expected_count: usize) -> (r: bool)
    ensures
        r == (passwords@.len() == expected_count),
{
    passwords.len() == expected_count
}

/// The sequences of `ss` that are nonempty, in order.
pub open spec fn nonempty_of(ss: Seq<Seq<char>>) -> Seq<Seq<char>>
    decreases ss.len(),
{
    if ss.len() == 0 {
        Seq::empty()
    } else if ss.last().len() > 0 {
        nonempty_of(ss.drop_last()).push(ss.last())
    } else {
        nonempty_of(ss.drop_last())
    }
}

/// The sequences joined with a newline between neighbours.
pub open spec fn joined(ts: Seq<Seq<char>>) -> Seq<char>
    decreases ts.len(),
{
    if ts.len() == 0 {
        Seq::empty()
    } else if ts.len() == 1 {
        ts[0]
    } else {
        joined(ts.drop_last()) + ("\n")@ + ts.last()
    }
}

/// The nonempty passwords, one per line.
pub fn format_plain_text(passwords: Vec<String>) -> (r: String)
    ensures
        r@ == joined(nonempty_of(passwords.deep_view())),
{
    let mut out = String::new();
    let mut started = false;
    let mut i: usize = 0;
    let ghost dv = passwords.deep_view();
    proof {
        assert(dv.take(0) =~= Seq::<Seq<char>>::empty());
    }
    while i < passwords.len()
        invariant
            i <= passwords@.len(),
            dv == passwords.deep_view(),
            dv.len() == passwords@.len(),
            forall|j: int| 0 <= j < dv.len() ==> dv[j] == passwords@[j]@,
            started == (nonempty_of(dv.take(i as int)).len() > 0),
            out@ == joined(nonempty_of(dv.take(i as int))),
        decreases passwords@.len() - i,
    {
        let p = &passwords[i];
        if !p.as_str().is_empty() {
            if started {
                out.append("\n");
            }
            out.append(p.as_str());
            started = true;
        }
        proof {
            assert(dv.take(i + 1).drop_last() =~= dv.take(i as int));
            assert(dv.take(i + 1).last() == dv[i as int]);
            assert(dv[i as int] == passwords@[i as int]@);
            if p@.len() > 0 {
                assert(nonempty_of(dv.take(i + 1)) == nonempty_of(dv.take(i as int)).push(
                    dv[i as int],
                ));
                let ne = nonempty_of(dv.take(i + 1));
                assert(ne.drop_last() =~= nonempty_of(dv.take(i as int)));
                assert(out@ =~= joined(ne));
            } else {
                assert(nonempty_of(dv.take(i + 1)) == nonempty_of(dv.take(i as int)));
            }
        }
        i += 1;
    }
    proof {
        assert(dv.take(dv.len() as int) =~= dv);
    }
    out
}

/// One pick-list entry of the launcher output.
pub struct AlfredItem {
    pub title: String,
    pub subtitle: String,
    pub arg: String,
}

/// One launcher entry per nonempty password: the password as title and
/// argument, a fixed subtitle.
pub fn create_alfred_items(passwords: Vec<String>) -> (r: Vec<AlfredItem>)
    ensures
        r@.len() == nonempty_of(passwords.deep_view()).len(),
        forall|i: int|
            0 <= i < r@.len() ==> (#[trigger] r@[i]).title@ == nonempty_of(passwords.deep_view())[i]
                && r@[i].arg@ == nonempty_of(passwords.deep_view())[i] && r@[i].subtitle@ == (
            "Click to copy to clipboard")@,
{
    let mut out: Vec<AlfredItem> = Vec::new();
    let mut i: usize = 0;
    let ghost dv = passwords.deep_view();
    proof {
        assert(dv.take(0) =~= Seq::<Seq<char>>::empty());
    }
    while i < passwords.len()
        invariant
            i <= passwords@.len(),
            dv == passwords.deep_view(),
            dv.len() == passwords@.len(),
            forall|j: int| 0 <= j < dv.len() ==> dv[j] == passwords@[j]@,
            out@.len() == nonempty_of(dv.take(i as int)).len(),
            forall|j: int|
                0 <= j < out@.len() ==> (#[trigger] out@[j]).title@ == nonempty_of(
                    dv.take(i as int),
                )[j] && out@[j].arg@ == nonempty_of(dv.take(i as int))[j] && out@[j].subtitle@ == (
                "Click to copy to clipboard")@,
        decreases passwords@.len() - i,
    {
        let p = &passwords[i];
        if !p.as_str().is_empty() {
            let item = AlfredItem {
                title: p.clone(),
                subtitle: String::from_str("Click to copy to clipboard"),
                arg: p.clone(),
            };
            out.push(item);
        }
        proof {
            assert(dv.take(i + 1).drop_last() =~= dv.take(i as int));
            assert(dv.take(i + 1).last() == dv[i as int]);
            assert(dv[i as int] == passwords@[i as int]@);
        }
        i += 1;
    }
    proof {
        assert(dv.take(dv.len() as int) =~= dv);
    }
    out
}

/// `{"title":`
pub open spec fn lit_title_key() -> Seq<u8> {
    seq![0x7bu8, 0x22, 0x74, 0x69, 0x74, 0x6c, 0x65, 0x22, 0x3a]
}

/// `,"subtitle":`
pub open spec fn lit_subtitle_key() -> Seq<u8> {
    seq![0x2cu8, 0x22, 0x73, 0x75, 0x62, 0x74, 0x69, 0x74, 0x6c, 0x65, 0x22, 0x3a]
}

/// `,"arg":`
pub open spec fn lit_arg_key() -> Seq<u8> {
    seq![0x2cu8, 0x22, 0x61, 0x72, 0x67, 0x22, 0x3a]
}

/// `{"items":[`
pub open spec fn lit_items_open() -> Seq<u8> {
    seq![0x7bu8, 0x22, 0x69, 0x74, 0x65, 0x6d, 0x73, 0x22, 0x3a, 0x5b]
}

/// One launcher entry as compact JSON.
pub open spec fn alfred_item_json(it: AlfredItem) -> Seq<u8> {
    lit_title_key() + crate::codec::json_str(encode_utf8(it.title@)) + lit_subtitle_key()
        + crate::codec::json_str(encode_utf8(it.subtitle@)) + lit_arg_key()
        + crate::codec::json_str(encode_utf8(it.arg@)) + seq![0x7du8]
}

/// The entries joined with commas.
pub open spec fn alfred_list_json(items: Seq<AlfredItem>) -> Seq<u8>
    decreases items.len(),
{
    if items.len() == 0 {
        Seq::empty()
    } else if items.len() == 1 {
        alfred_item_json(items[0])
    } else {
        alfred_list_json(items.drop_last()) + seq![0x2cu8] + alfred_item_json(items.last())
    }
}

/// The whole launcher document.
pub open spec fn alfred_json(items: Seq<AlfredItem>) -> Seq<u8> {
    lit_items_open() + alfred_list_json(items) + seq![0x5du8, 0x7d]
}

/// Serialize launcher entries to the exact compact JSON bytes.
#[verifier::rlimit(100)]
pub fn alfred_json_bytes(items: &Vec<AlfredItem>) -> (r: Vec<u8>)
    ensures
        r@ == alfred_json(items@),
{
    let mut out: Vec<u8> = Vec::new();
    out.push(0x7b);
    out.push(0x22);
    out.push(0x69);
    out.push(0x74);
    out.push(0x65);
    out.push(0x6d);
    out.push(0x73);
    out.push(0x22);
    out.push(0x3a);
    out.push(0x5b);
    proof {
        assert(out@ =~= lit_items_open());
        assert(items@.take(0) =~= Seq::<AlfredItem>::empty());
    }
    let mut i: usize = 0;
    while i < items.len()
        invariant
            i <= items@.len(),
            out@ == lit_items_open() + alfred_list_json(items@.take(i as int)),
        decreases items@.len() - i,
    {
        if i > 0 {
            out.push(0x2c);
        }
        let it = &items[i];
        out.push(0x7b);
        out.push(0x22);
        out.push(0x74);
        out.push(0x69);
        out.push(0x74);
        out.push(0x6c);
        out.push(0x65);
        out.push(0x22);
        out.push(0x3a);
        crate::codec::push_json_str(&mut out, it.title.as_str().as_bytes());
        out.push(0x2c);
        out.push(0x22);
        out.push(0x73);
        out.push(0x75);
        out.push(0x62);
        out.push(0x74);
        out.push(0x69);
        out.push(0x74);
        out.push(0x6c);
        out.push(0x65);
        out.push(0x22);
        out.push(0x3a);
        crate::codec::push_json_str(&mut out, it.subtitle.as_str().as_bytes());
        out.push(0x2c);
        out.push(0x22);
        out.push(0x61);
        out.push(0x72);
        out.push(0x67);
        out.push(0x22);
        out.push(0x3a);
        crate::codec::push_json_str(&mut out, it.arg.as_str().as_bytes());
        out.push(0x7d);
        proof {
            assert(items@.take(i + 1).drop_last() =~= items@.take(i as int));
            assert(items@.take(i + 1).last() == items@[i as int]);
            if i == 0 {
                assert(alfred_list_json(items@.take(1)) == alfred_item_json(items@[0]));
            }
            assert(out@ =~= lit_items_open() + alfred_list_json(items@.take(i + 1)));
        }
        i += 1;
    }
    proof {
        assert(items@.take(items@.len() as int) =~= items@);
    }
    out.push(0x5d);
    out.push(0x7d);
    proof {
        assert(out@ =~= alfred_json(items@));
    }
    out
}

/// The launcher document for the nonempty passwords, as a string.
pub fn format_alfred_json(passwords: Vec<String>) -> (r: String)
    ensures
        exists|items: Seq<AlfredItem>|
            #![auto]
            items.len() == nonempty_of(passwords.deep_view()).len() && (all_ascii(
                alfred_json(items),
            ) ==> r@ == ascii_chars_of(alfred_json(items))),
{
    let items = create_alfred_items(passwords);
    let bytes = alfred_json_bytes(&items);
    crate::strbytes::utf8_string(bytes)
}

/// Render the passwords in the requested format.
pub fn format_output(passwords: Vec<String>, output_type: OutputType) -> (r: String)
    ensures
        output_type is Plain ==> r@ == joined(nonempty_of(passwords.deep_view())),
{
    match output_type {
        OutputType::Plain => format_plain_text(passwords),
        OutputType::Alfred => format_alfred_json(passwords),
    }
}

} // verus!
