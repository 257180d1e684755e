//! Parsing the code-signing tool's verbose report: a line scanner that
//! collects the identifier, format, notarization state, authority chain,
//! code-directory hash and executable path, and the classifications derived
//! from them.

use crate::hutpaste::first_nl;
use crate::hutpaste::lemma_first_nl_bounds;
use crate::hutpaste::lemma_first_nl_is;
use vstd::prelude::*;
use vstd::string::StringExecFns;
use vstd::string::StringSliceAdditionalSpecFns;

verus! {

/// `Identifier=`
pub open spec fn lit_identifier_key() -> Seq<u8> {
    seq![0x49u8, 0x64, 0x65, 0x6e, 0x74, 0x69, 0x66, 0x69, 0x65, 0x72, 0x3d]
}

/// `Format=`
pub open spec fn lit_format_key() -> Seq<u8> {
    seq![0x46u8, 0x6f, 0x72, 0x6d, 0x61, 0x74, 0x3d]
}

/// `Notarization Ticket=`
pub open spec fn lit_notarization_key() -> Seq<u8> {
    seq![
        0x4eu8,
        0x6f,
        0x74,
        0x61,
        0x72,
        0x69,
        0x7a,
        0x61,
        0x74,
        0x69,
        0x6f,
        0x6e,
        0x20,
        0x54,
        0x69,
        0x63,
        0x6b,
        0x65,
        0x74,
        0x3d,
    ]
}

/// `Authority=`
pub open spec fn lit_authority_key() -> Seq<u8> {
    seq![0x41u8, 0x75, 0x74, 0x68, 0x6f, 0x72, 0x69, 0x74, 0x79, 0x3d]
}

/// `CDHash=`
pub open spec fn lit_cdhash_key() -> Seq<u8> {
    seq![0x43u8, 0x44, 0x48, 0x61, 0x73, 0x68, 0x3d]
}

/// `CandidateCDHashFull sha256=`
pub open spec fn lit_candidate_key() -> Seq<u8> {
    seq![
        0x43u8,
        0x61,
        0x6e,
        0x64,
        0x69,
        0x64,
        0x61,
        0x74,
        0x65,
        0x43,
        0x44,
        0x48,
        0x61,
        0x73,
        0x68,
        0x46,
        0x75,
        0x6c,
        0x6c,
        0x20,
        0x73,
        0x68,
        0x61,
        0x32,
        0x35,
        0x36,
        0x3d,
    ]
}

/// `Executable=`
pub open spec fn lit_executable_key() -> Seq<u8> {
    seq![0x45u8, 0x78, 0x65, 0x63, 0x75, 0x74, 0x61, 0x62, 0x6c, 0x65, 0x3d]
}

/// `stapled`
pub open spec fn lit_stapled() -> Seq<u8> {
    seq![0x73u8, 0x74, 0x61, 0x70, 0x6c, 0x65, 0x64]
}

/// Whether `p` is a prefix of `s`.
pub open spec fn starts_with(s: Seq<u8>, p: Seq<u8>) -> bool {
    p.len() <= s.len() && s.take(p.len() as int) == p
}

/// Whether `p` occurs anywhere inside `s`.
pub open spec fn contains_sub(s: Seq<u8>, p: Seq<u8>) -> bool {
    exists|i: int| 0 <= i <= s.len() - p.len() && #[trigger] s.subrange(i, i + p.len() as int) == p
}

/// Index of the first `=`, or the length when there is none.
pub open spec fn first_eq(s: Seq<u8>) -> int
    decreases s.len(),
{
    if s.len() == 0 {
        0
    } else if s[0] == 0x3d {
        0
    } else {
        1 + first_eq(s.drop_first())
    }
}

proof fn lemma_first_eq_is(s: Seq<u8>, k: int)
    requires
        0 <= k <= s.len(),
        forall|i: int| 0 <= i < k ==> s[i] != 0x3d,
        k < s.len() ==> s[k] == 0x3d,
    ensures
        first_eq(s) == k,
    decreases s.len(),
{
    if k > 0 {
        lemma_first_eq_is(s.drop_first(), k - 1);
    }
}

/// The piece between the first and second `=` of a line — what the report's
/// `key=value` lines carry — or nothing when the line has no `=`.
pub open spec fn eq_value(line: Seq<u8>) -> Seq<u8> {
    let i = first_eq(line);
    if i >= line.len() {
        Seq::empty()
    } else {
        let rest = line.skip(i + 1);
        rest.take(first_eq(rest))
    }
}

/// ASCII uppercase folding of one byte.
pub open spec fn upper_byte(b: u8) -> u8 {
    if 0x61 <= b <= 0x7a {
        (b - 0x20) as u8
    } else {
        b
    }
}

/// ASCII uppercase folding of a byte sequence.
pub open spec fn upper_bytes(s: Seq<u8>) -> Seq<u8> {
    Seq::new(s.len(), |i: int| upper_byte(s[i]))
}

/// A line with one trailing carriage return removed, as the line iterator
/// hands it out.
pub open spec fn chomp_cr(line: Seq<u8>) -> Seq<u8> {
    if line.len() > 0 && line.last() == 0x0d {
        line.drop_last()
    } else {
        line
    }
}

/// Everything the scan of a report collects.
#[verifier::ext_equal]
pub ghost struct ScanV {
    pub identifier: Seq<u8>,
    pub format: Seq<u8>,
    pub notarized: bool,
    pub authorities: Seq<Seq<u8>>,
    pub cd_hash: Seq<u8>,
    pub executable: Option<Seq<u8>>,
}

/// The scan before any line: everything empty.
pub open spec fn scan_init() -> ScanV {
    ScanV {
        identifier: Seq::empty(),
        format: Seq::empty(),
        notarized: false,
        authorities: Seq::empty(),
        cd_hash: Seq::empty(),
        executable: None,
    }
}

/// How one report line changes the scan: later `Identifier=`, `Format=`,
/// `Notarization Ticket=`, `CDHash=` and `Executable=` lines win, every
/// `Authority=` line is kept in order, and a candidate hash fills in only
/// while no hash is known yet.
pub open spec fn scan_line(st: ScanV, line: Seq<u8>) -> ScanV {
    if starts_with(line, lit_identifier_key()) {
        ScanV { identifier: eq_value(line), ..st }
    } else if starts_with(line, lit_format_key()) {
        ScanV { format: eq_value(line), ..st }
    } else if starts_with(line, lit_notarization_key()) {
        ScanV { notarized: contains_sub(line, lit_stapled()), ..st }
    } else if starts_with(line, lit_authority_key()) {
        ScanV { authorities: st.authorities.push(eq_value(line)), ..st }
    } else if starts_with(line, lit_cdhash_key()) {
        ScanV { cd_hash: upper_bytes(eq_value(line)), ..st }
    } else if starts_with(line, lit_candidate_key()) {
        if st.cd_hash.len() == 0 {
            ScanV { cd_hash: upper_bytes(eq_value(line)), ..st }
        } else {
            st
        }
    } else if starts_with(line, lit_executable_key()) {
        ScanV { executable: Some(eq_value(line)), ..st }
    } else {
        st
    }
}

/// The scan folded over the report's lines, top to bottom.
pub open spec fn scan_from(st: ScanV, s: Seq<u8>) -> ScanV
    decreases s.len(),
    via scan_from_decreases
{
    if s.len() == 0 {
        st
    } else {
        let k = first_nl(s);
        let st2 = scan_line(st, chomp_cr(s.take(k)));
        if k >= s.len() {
            st2
        } else {
            scan_from(st2, s.skip(k + 1))
        }
    }
}

#[via_fn]
proof fn scan_from_decreases(st: ScanV, s: Seq<u8>) {
    lemma_first_nl_bounds(s);
}

/// The collected report fields, as raw bytes.
pub struct CodesignScan {
    pub identifier: Vec<u8>,
    pub format: Vec<u8>,
    pub notarized: bool,
    pub authorities: Vec<Vec<u8>>,
    pub cd_hash: Vec<u8>,
    pub executable: Option<Vec<u8>>,
}

impl View for CodesignScan {
    type V = ScanV;

    open spec fn view(&self) -> ScanV {
        ScanV {
            identifier: self.identifier@,
            format: self.format@,
            notarized: self.notarized,
            authorities: self.authorities.deep_view(),
            cd_hash: self.cd_hash@,
            executable: match self.executable {
                Some(e) => Some(e@),
                None => None,
            },
        }
    }
}

/// Whether the bytes at `[a, b)` of `s` start with the pattern.
fn range_starts_with(s: &[u8], a: usize, b: usize, pat: &Vec<u8>) -> (r: bool)
    requires
        a <= b <= s@.len(),
    ensures
        r == starts_with(s@.subrange(a as int, b as int), pat@),
{
    let m = pat.len();
    if b - a < m {
        return false;
    }
    let mut i: usize = 0;
    while i < m
        invariant
            i <= m == pat@.len(),
            a + m <= b <= s@.len(),
            forall|j: int| 0 <= j < i ==> s@[a + j] == pat@[j],
        decreases m - i,
    {
        if s[a + i] != pat[i] {
            proof {
                assert(s@.subrange(a as int, b as int)[i as int] != pat@[i as int]);
            }
            return false;
        }
        i += 1;
    }
    proof {
        assert(s@.subrange(a as int, b as int).take(m as int) =~= pat@);
    }
    true
}

/// Whether the bytes at `[a, b)` of `s` contain the pattern.
fn range_contains(s: &[u8], a: usize, b: usize, pat: &Vec<u8>) -> (r: bool)
    requires
        a <= b <= s@.len(),
    ensures
        r == contains_sub(s@.subrange(a as int, b as int), pat@),
{
    let ghost t = s@.subrange(a as int, b as int);
    let m = pat.len();
    if b - a < m {
        proof {
            assert(!contains_sub(t, pat@)) by {
                if contains_sub(t, pat@) {
                    let i = choose|i: int|
                        0 <= i <= t.len() - pat@.len() && #[trigger] t.subrange(
                            i,
                            i + pat@.len() as int,
                        ) == pat@;
                }
            }
        }
        return false;
    }
    let mut i: usize = 0;
    while i <= (b - a) - m
        invariant
            a <= b <= s@.len(),
            m == pat@.len() <= b - a,
            t == s@.subrange(a as int, b as int),
            i <= t.len(),
            forall|j: int| 0 <= j < i ==> #[trigger] t.subrange(j, j + pat@.len() as int) != pat@,
        decreases b - a - i,
    {
        let mut k: usize = 0;
        let mut hit = true;
        while k < m
            invariant
                k <= m == pat@.len(),
                i + m <= b - a,
                i <= (b - a) - m,
                a <= b <= s@.len(),
                t == s@.subrange(a as int, b as int),
                hit == (forall|j: int| 0 <= j < k ==> t[i + j] == pat@[j]),
            decreases m - k,
        {
            if s[a + i + k] != pat[k] {
                proof {
                    assert(t[i + k] == s@[a + i + k]);
                }
                hit = false;
            }
            k += 1;
        }
        if hit {
            proof {
                assert(t.subrange(i as int, i + pat@.len() as int) =~= pat@);
            }
            return true;
        }
        proof {
            assert(t.subrange(i as int, i + pat@.len() as int) != pat@) by {
                let w = choose|j: int| 0 <= j < m && t[i + j] != pat@[j];
                assert(t.subrange(i as int, i + pat@.len() as int)[w] == t[i + w]);
            }
        }
        i += 1;
    }
    proof {
        assert(!contains_sub(t, pat@)) by {
            if contains_sub(t, pat@) {
                let w = choose|j: int|
                    0 <= j <= t.len() - pat@.len() && #[trigger] t.subrange(
                        j,
                        j + pat@.len() as int,
                    ) == pat@;
                assert(w < i);
            }
        }
    }
    false
}

/// Copy the value between the first and second `=` of the line at `[a, b)`.
fn extract_eq_value(s: &[u8], a: usize, b: usize) -> (r: Vec<u8>)
    requires
        a <= b <= s@.len(),
    ensures
        r@ == eq_value(s@.subrange(a as int, b as int)),
{
    let ghost line = s@.subrange(a as int, b as int);
    let mut i: usize = a;
    while i < b && s[i] != 0x3d
        invariant
            a <= i <= b <= s@.len(),
            forall|j: int| a <= j < i ==> s@[j] != 0x3d,
        decreases b - i,
    {
        i += 1;
    }
    proof {
        assert forall|j: int| 0 <= j < i - a implies line[j] != 0x3d by {
            assert(line[j] == s@[a + j]);
        }
        if i < b {
            assert(line[i - a] == s@[i as int]);
        }
        lemma_first_eq_is(line, i as int - a);
    }
    if i >= b {
        proof {
            assert(eq_value(line) =~= Seq::<u8>::empty());
        }
        return Vec::new();
    }
    let start = i + 1;
    let mut j: usize = start;
    while j < b && s[j] != 0x3d
        invariant
            start <= j <= b <= s@.len(),
            forall|p: int| start <= p < j ==> s@[p] != 0x3d,
        decreases b - j,
    {
        j += 1;
    }
    let ghost rest = line.skip(i as int - a + 1);
    proof {
        assert forall|p: int| 0 <= p < j - start implies rest[p] != 0x3d by {
            assert(rest[p] == s@[start + p]);
        }
        if j < b {
            assert(rest[j - start] == s@[j as int]);
        }
        lemma_first_eq_is(rest, j as int - start);
    }
    let mut out: Vec<u8> = Vec::new();
    let mut p: usize = start;
    while p < j
        invariant
            start <= p <= j <= s@.len(),
            out@ =~= s@.subrange(start as int, p as int),
        decreases j - p,
    {
        out.push(s[p]);
        p += 1;
        proof {
            assert(out@ =~= s@.subrange(start as int, p as int));
        }
    }
    proof {
        assert(rest.take(j as int - start) =~= s@.subrange(start as int, j as int));
        assert(eq_value(line) == rest.take(first_eq(rest)));
    }
    out
}

/// ASCII-uppercase a byte vector in place of the original's case folding.
fn to_upper_bytes(v: Vec<u8>) -> (r: Vec<u8>)
    ensures
        r@ == upper_bytes(v@),
{
    let mut out: Vec<u8> = Vec::new();
    let mut i: usize = 0;
    while i < v.len()
        invariant
            i <= v@.len(),
            out@.len() == i,
            forall|j: int| 0 <= j < i ==> out@[j] == upper_byte(#[trigger] v@[j]),
        decreases v@.len() - i,
    {
        let b = v[i];
        out.push(if 0x61 <= b && b <= 0x7a { b - 0x20 } else { b });
        i += 1;
    }
    proof {
        assert(out@ =~= upper_bytes(v@));
    }
    out
}

/// Scan a verbose code-signing report: fold every line into the collected
/// fields, exactly as `scan_from` describes.
#[verifier::rlimit(100)]
pub fn scan_codesign_output(stderr: &str) -> (r: CodesignScan)
    ensures
        r@ == scan_from(scan_init(), stderr.spec_bytes()),
{
    let bytes = stderr.as_bytes();
    let n = bytes.len();
    let key_identifier = lit_identifier_vec();
    let key_format = lit_format_vec();
    let key_notarization = lit_notarization_vec();
    let key_authority = lit_authority_vec();
    let key_cdhash = lit_cdhash_vec();
    let key_candidate = lit_candidate_vec();
    let key_executable = lit_executable_vec();
    let key_stapled = lit_stapled_vec();
    let mut st = CodesignScan {
        identifier: Vec::new(),
        format: Vec::new(),
        notarized: false,
        authorities: Vec::new(),
        cd_hash: Vec::new(),
        executable: None,
    };
    let mut pos: usize = 0;
    proof {
        assert(bytes@.skip(0) =~= bytes@);
        assert(st@ =~~= scan_init());
    }
    while pos < n
        invariant_except_break
            scan_from(scan_init(), bytes@) == scan_from(st@, bytes@.skip(pos as int)),
        invariant
            pos <= n == bytes@.len(),
            bytes@ == stderr.spec_bytes(),
            key_identifier@ == lit_identifier_key(),
            key_format@ == lit_format_key(),
            key_notarization@ == lit_notarization_key(),
            key_authority@ == lit_authority_key(),
            key_cdhash@ == lit_cdhash_key(),
            key_candidate@ == lit_candidate_key(),
            key_executable@ == lit_executable_key(),
            key_stapled@ == lit_stapled(),
            bytes@.skip(n as int) =~= Seq::<u8>::empty(),
        ensures
            scan_from(scan_init(), bytes@) == st@,
        decreases n - pos,
    {
        let ghost tail = bytes@.skip(pos as int);
        let mut k: usize = pos;
        while k < n && bytes[k] != 0x0a
            invariant
                pos <= k <= n == bytes@.len(),
                forall|i: int| pos <= i < k ==> bytes@[i] != 0x0a,
            decreases n - k,
        {
            k += 1;
        }
        proof {
            assert forall|i: int| 0 <= i < k - pos implies tail[i] != 0x0a by {
                assert(tail[i] == bytes@[pos + i]);
            }
            if k < n {
                assert(tail[k - pos] == bytes@[k as int]);
            }
            lemma_first_nl_is(tail, k as int - pos);
        }
        let kend = if k > pos && bytes[k - 1] == 0x0d {
            k - 1
        } else {
            k
        };
        let ghost line = chomp_cr(tail.take(k as int - pos));
        proof {
            if k > pos && bytes@[k - 1] == 0x0d {
                assert(tail.take(k as int - pos).last() == bytes@[k - 1]);
                assert(line =~= bytes@.subrange(pos as int, kend as int));
            } else {
                if k > pos {
                    assert(tail.take(k as int - pos).last() == bytes@[k - 1]);
                }
                assert(line =~= bytes@.subrange(pos as int, kend as int));
            }
        }
        let ghost prev = st@;
        if range_starts_with(bytes, pos, kend, &key_identifier) {
            st.identifier = extract_eq_value(bytes, pos, kend);
        } else if range_starts_with(bytes, pos, kend, &key_format) {
            st.format = extract_eq_value(bytes, pos, kend);
        } else if range_starts_with(bytes, pos, kend, &key_notarization) {
            st.notarized = range_contains(bytes, pos, kend, &key_stapled);
        } else if range_starts_with(bytes, pos, kend, &key_authority) {
            let ghost olddv = st.authorities.deep_view();
            let v = extract_eq_value(bytes, pos, kend);
            st.authorities.push(v);
            proof {
                assert(st.authorities.deep_view() =~~= olddv.push(eq_value(line)));
            }
        } else if range_starts_with(bytes, pos, kend, &key_cdhash) {
            st.cd_hash = to_upper_bytes(extract_eq_value(bytes, pos, kend));
        } else if range_starts_with(bytes, pos, kend, &key_candidate) {
            if st.cd_hash.len() == 0 {
                st.cd_hash = to_upper_bytes(extract_eq_value(bytes, pos, kend));
            }
        } else if range_starts_with(bytes, pos, kend, &key_executable) {
            st.executable = Some(extract_eq_value(bytes, pos, kend));
        }
        proof {
            assert(st@ =~~= scan_line(prev, line));
            if k < n {
                assert(tail.skip(k as int - pos + 1) =~= bytes@.skip(k as int + 1));
                assert(scan_from(prev, tail) == scan_from(st@, bytes@.skip(k as int + 1)));
            } else {
                assert(scan_from(prev, tail) == st@);
                assert(scan_from(scan_init(), bytes@) == st@);
            }
        }
        if k >= n {
            break ;
        }
        pos = k + 1;
    }
    st
}

/// `Developer ID`
pub open spec fn lit_developer_id() -> Seq<u8> {
    seq![0x44u8, 0x65, 0x76, 0x65, 0x6c, 0x6f, 0x70, 0x65, 0x72, 0x20, 0x49, 0x44]
}

/// `Apple`
pub open spec fn lit_apple() -> Seq<u8> {
    seq![0x41u8, 0x70, 0x70, 0x6c, 0x65]
}

/// `app bundle`
pub open spec fn lit_app_bundle() -> Seq<u8> {
    seq![0x61u8, 0x70, 0x70, 0x20, 0x62, 0x75, 0x6e, 0x64, 0x6c, 0x65]
}

/// `Mach-O`
pub open spec fn lit_mach_o() -> Seq<u8> {
    seq![0x4du8, 0x61, 0x63, 0x68, 0x2d, 0x4f]
}

/// The kinds of signed artifact the report distinguishes.
#[derive(Clone, Copy, PartialEq, Eq, Structural, Debug)]
pub enum AppFormat {
    Application,
    Executable,
    Unknown,
}

/// Artifact kind, judged from the report's format line.
pub open spec fn app_format_of(format: Seq<u8>) -> AppFormat {
    if contains_sub(format, lit_app_bundle()) {
        AppFormat::Application
    } else if contains_sub(format, lit_mach_o()) {
        AppFormat::Executable
    } else {
        AppFormat::Unknown
    }
}

/// The signer, judged from the first authority in the chain.
pub open spec fn signer_type_text(auths: Seq<Seq<u8>>) -> Seq<char> {
    if auths.len() == 0 {
        ("Unknown")@
    } else if contains_sub(auths[0], lit_developer_id()) {
        ("Apple Developer ID")@
    } else if contains_sub(auths[0], lit_apple()) {
        ("Apple")@
    } else {
        ("Unknown")@
    }
}

/// Index of the last `.`, or `-1` when there is none.
pub open spec fn last_dot_idx(s: Seq<u8>) -> int
    decreases s.len(),
{
    if s.len() == 0 {
        -1
    } else if s.last() == 0x2e {
        s.len() - 1
    } else {
        last_dot_idx(s.drop_last())
    }
}

proof fn lemma_last_dot_is(s: Seq<u8>, k: int)
    requires
        -1 <= k < s.len(),
        k >= 0 ==> s[k] == 0x2e,
        forall|i: int| k < i < s.len() ==> s[i] != 0x2e,
    ensures
        last_dot_idx(s) == k,
    decreases s.len(),
{
    if s.len() > 0 && s.last() != 0x2e {
        lemma_last_dot_is(s.drop_last(), k);
    }
}

proof fn lemma_last_dot_bounds(s: Seq<u8>)
    ensures
        -1 <= last_dot_idx(s) < s.len(),
    decreases s.len(),
{
    if s.len() > 0 && s.last() != 0x2e {
        lemma_last_dot_bounds(s.drop_last());
    }
}

/// An ASCII identifier has an ASCII display name.
proof fn lemma_display_name_ascii(id: Seq<u8>)
    requires
        crate::strbytes::all_ascii(id),
    ensures
        crate::strbytes::all_ascii(display_name(id)),
{
    lemma_last_dot_bounds(id);
    let k = last_dot_idx(id);
    if k >= 0 {
        let seg = id.skip(k + 1);
        assert forall|i: int| 0 <= i < display_name(id).len() implies display_name(id)[i]
            < 128 by {
            if seg.len() > 0 {
                if i == 0 {
                    assert(seg[0] == id[k + 1]);
                } else {
                    assert(display_name(id)[i] == id[k + 1 + i]);
                }
            }
        }
    }
}

/// The display name read from an identifier: the identifier itself when it
/// has no dots, else the part after the last dot with its first byte
/// ASCII-uppercased.
pub open spec fn display_name(id: Seq<u8>) -> Seq<u8> {
    let k = last_dot_idx(id);
    if k < 0 {
        id
    } else {
        let seg = id.skip(k + 1);
        if seg.len() == 0 {
            seg
        } else {
            seq![upper_byte(seg[0])] + seg.drop_first()
        }
    }
}

/// Compute an identifier's display name.
fn display_name_bytes(id: &Vec<u8>) -> (r: Vec<u8>)
    ensures
        r@ == display_name(id@),
{
    let n = id.len();
    let mut k: usize = n;
    while k > 0 && id[k - 1] != 0x2e
        invariant
            k <= n == id@.len(),
            forall|i: int| k <= i < n ==> id@[i] != 0x2e,
        decreases k,
    {
        k -= 1;
    }
    if k == 0 {
        proof {
            lemma_last_dot_is(id@, -1);
        }
        return id.clone();
    }
    proof {
        lemma_last_dot_is(id@, k as int - 1);
    }
    if k == n {
        proof {
            assert(id@.skip(k as int).len() == 0);
        }
        return Vec::new();
    }
    let mut out: Vec<u8> = Vec::new();
    let first = id[k];
    out.push(if 0x61 <= first && first <= 0x7a { first - 0x20 } else { first });
    let mut p: usize = k + 1;
    while p < n
        invariant
            k < p <= n == id@.len(),
            out@.len() == p - k,
            out@[0] == upper_byte(id@[k as int]),
            forall|j: int| 1 <= j < out@.len() ==> out@[j] == id@[k + j],
        decreases n - p,
    {
        out.push(id[p]);
        p += 1;
    }
    proof {
        let seg = id@.skip(k as int);
        assert(seg.len() == n - k);
        assert(seg[0] == id@[k as int]);
        assert(out@ =~= seq![upper_byte(seg[0])] + seg.drop_first());
    }
    out
}

/// One file's digests, as the inspector reports them.
pub struct HashInfo {
    pub md5: String,
    pub sha1: String,
    pub sha256: String,
    pub sha512: String,
    pub code_directory: String,
}

/// Everything the inspector reports about one signature. The path, validity
/// flag, digests and entitlements are filled in by later steps.
pub struct SignatureInfo {
    pub identifier: String,
    pub name: String,
    pub path: String,
    pub resolved_path: Option<String>,
    pub format: AppFormat,
    pub is_notarized: bool,
    pub is_valid: bool,
    pub signer_type: String,
    pub authorities: Vec<String>,
    pub hashes: Option<HashInfo>,
    pub entitlements: Option<String>,
}

/// Parse the verbose report into the signature description and the
/// executable path it names, when any. Byte-level facts are exact; string
/// fields are pinned down whenever the underlying bytes are ASCII, which
/// they are for every report the tool emits.
pub fn parse_codesign_output(stderr: &str) -> (r: (SignatureInfo, Option<String>))
    ensures
        ({
            let sc = scan_from(scan_init(), stderr.spec_bytes());
            &&& r.0.is_notarized == sc.notarized
            &&& r.0.is_valid == false
            &&& r.0.path@.len() == 0
            &&& r.0.resolved_path is None
            &&& r.0.hashes is None
            &&& r.0.entitlements is None
            &&& r.0.format == app_format_of(sc.format)
            &&& r.0.signer_type@ == signer_type_text(sc.authorities)
            &&& (crate::strbytes::all_ascii(sc.identifier) ==> r.0.identifier@
                == crate::strbytes::ascii_chars_of(sc.identifier) && r.0.name@
                == crate::strbytes::ascii_chars_of(display_name(sc.identifier)))
            &&& r.0.authorities@.len() == sc.authorities.len()
            &&& (forall|i: int|
                0 <= i < sc.authorities.len() && crate::strbytes::all_ascii(#[trigger] sc.authorities[i])
                    ==> r.0.authorities@[i]@ == crate::strbytes::ascii_chars_of(sc.authorities[i]))
            &&& (r.1 is Some) == (sc.executable is Some)
            &&& (sc.executable matches Some(e) ==> (crate::strbytes::all_ascii(e) ==> (r.1 matches
                Some(p) && p@ == crate::strbytes::ascii_chars_of(e))))
        }),
{
    let scan = scan_codesign_output(stderr);
    let ghost sc = scan_from(scan_init(), stderr.spec_bytes());
    let signer_type = if scan.authorities.len() == 0 {
        String::from_str("Unknown")
    } else {
        let first = &scan.authorities[0];
        if range_contains(first.as_slice(), 0, first.len(), &lit_developer_id_vec()) {
            String::from_str("Apple Developer ID")
        } else if range_contains(first.as_slice(), 0, first.len(), &lit_apple_vec()) {
            String::from_str("Apple")
        } else {
            String::from_str("Unknown")
        }
    };
    proof {
        if sc.authorities.len() > 0 {
            assert(scan.authorities@[0]@ == sc.authorities[0]);
            assert(scan.authorities@[0]@.subrange(0, scan.authorities@[0]@.len() as int) =~= sc.authorities[0]);
        }
    }
    let format = {
        let f = &scan.format;
        if range_contains(f.as_slice(), 0, f.len(), &lit_app_bundle_vec()) {
            AppFormat::Application
        } else if range_contains(f.as_slice(), 0, f.len(), &lit_mach_o_vec()) {
            AppFormat::Executable
        } else {
            AppFormat::Unknown
        }
    };
    proof {
        assert(scan.format@.subrange(0, scan.format@.len() as int) =~= sc.format);
    }
    let name_bytes = display_name_bytes(&scan.identifier);
    let mut authorities: Vec<String> = Vec::new();
    let mut i: usize = 0;
    while i < scan.authorities.len()
        invariant
            i <= scan.authorities@.len(),
            scan@ == sc,
            authorities@.len() == i,
            forall|j: int|
                0 <= j < i && crate::strbytes::all_ascii(#[trigger] sc.authorities[j])
                    ==> authorities@[j]@ == crate::strbytes::ascii_chars_of(sc.authorities[j]),
        decreases scan.authorities@.len() - i,
    {
        let a = scan.authorities[i].clone();
        proof {
            assert(a@ == sc.authorities[i as int]);
        }
        authorities.push(crate::strbytes::utf8_string(a));
        i += 1;
    }
    let executable = match scan.executable {
        Some(e) => Some(crate::strbytes::utf8_string(e)),
        None => None,
    };
    let info = SignatureInfo {
        identifier: crate::strbytes::utf8_string(scan.identifier),
        name: crate::strbytes::utf8_string(name_bytes),
        path: String::new(),
        resolved_path: None,
        format,
        is_notarized: scan.notarized,
        is_valid: false,
        signer_type,
        authorities,
        hashes: None,
        entitlements: None,
    };
    proof {
        if crate::strbytes::all_ascii(sc.identifier) {
            lemma_display_name_ascii(sc.identifier);
        }
    }
    (info, executable)
}

/// `Developer ID` as bytes.
fn lit_developer_id_vec() -> (r: Vec<u8>)
    ensures
        r@ == lit_developer_id(),
{
    let mut v: Vec<u8> = Vec::new();
    v.push(0x44);
    v.push(0x65);
    v.push(0x76);
    v.push(0x65);
    v.push(0x6c);
    v.push(0x6f);
    v.push(0x70);
    v.push(0x65);
    v.push(0x72);
    v.push(0x20);
    v.push(0x49);
    v.push(0x44);
    proof {
        assert(v@ =~= lit_developer_id());
    }
    v
}

/// `Apple` as bytes.
fn lit_apple_vec() -> (r: Vec<u8>)
    ensures
        r@ == lit_apple(),
{
    let mut v: Vec<u8> = Vec::new();
    v.push(0x41);
    v.push(0x70);
    v.push(0x70);
    v.push(0x6c);
    v.push(0x65);
    proof {
        assert(v@ =~= lit_apple());
    }
    v
}

/// `app bundle` as bytes.
fn lit_app_bundle_vec() -> (r: Vec<u8>)
    ensures
        r@ == lit_app_bundle(),
{
    let mut v: Vec<u8> = Vec::new();
    v.push(0x61);
    v.push(0x70);
    v.push(0x70);
    v.push(0x20);
    v.push(0x62);
    v.push(0x75);
    v.push(0x6e);
    v.push(0x64);
    v.push(0x6c);
    v.push(0x65);
    proof {
        assert(v@ =~= lit_app_bundle());
    }
    v
}

/// `Mach-O` as bytes.
fn lit_mach_o_vec() -> (r: Vec<u8>)
    ensures
        r@ == lit_mach_o(),
{
    let mut v: Vec<u8> = Vec::new();
    v.push(0x4d);
    v.push(0x61);
    v.push(0x63);
    v.push(0x68);
    v.push(0x2d);
    v.push(0x4f);
    proof {
        assert(v@ =~= lit_mach_o());
    }
    v
}

/// `Identifier=` as bytes.
fn lit_identifier_vec() -> (r: Vec<u8>)
    ensures
        r@ == lit_identifier_key(),
{
    let mut v: Vec<u8> = Vec::new();
    v.push(0x49);
    v.push(0x64);
    v.push(0x65);
    v.push(0x6e);
    v.push(0x74);
    v.push(0x69);
    v.push(0x66);
    v.push(0x69);
    v.push(0x65);
    v.push(0x72);
    v.push(0x3d);
    proof {
        assert(v@ =~= lit_identifier_key());
    }
    v
}

/// `Format=` as bytes.
fn lit_format_vec() -> (r: Vec<u8>)
    ensures
        r@ == lit_format_key(),
{
    let mut v: Vec<u8> = Vec::new();
    v.push(0x46);
    v.push(0x6f);
    v.push(0x72);
    v.push(0x6d);
    v.push(0x61);
    v.push(0x74);
    v.push(0x3d);
    proof {
        assert(v@ =~= lit_format_key());
    }
    v
}

/// `Notarization Ticket=` as bytes.
fn lit_notarization_vec() -> (r: Vec<u8>)
    ensures
        r@ == lit_notarization_key(),
{
    let mut v: Vec<u8> = Vec::new();
    v.push(0x4e);
    v.push(0x6f);
    v.push(0x74);
    v.push(0x61);
    v.push(0x72);
    v.push(0x69);
    v.push(0x7a);
    v.push(0x61);
    v.push(0x74);
    v.push(0x69);
    v.push(0x6f);
    v.push(0x6e);
    v.push(0x20);
    v.push(0x54);
    v.push(0x69);
    v.push(0x63);
    v.push(0x6b);
    v.push(0x65);
    v.push(0x74);
    v.push(0x3d);
    proof {
        assert(v@ =~= lit_notarization_key());
    }
    v
}

/// `Authority=` as bytes.
fn lit_authority_vec() -> (r: Vec<u8>)
    ensures
        r@ == lit_authority_key(),
{
    let mut v: Vec<u8> = Vec::new();
    v.push(0x41);
    v.push(0x75);
    v.push(0x74);
    v.push(0x68);
    v.push(0x6f);
    v.push(0x72);
    v.push(0x69);
    v.push(0x74);
    v.push(0x79);
    v.push(0x3d);
    proof {
        assert(v@ =~= lit_authority_key());
    }
    v
}

/// `CDHash=` as bytes.
fn lit_cdhash_vec() -> (r: Vec<u8>)
    ensures
        r@ == lit_cdhash_key(),
{
    let mut v: Vec<u8> = Vec::new();
    v.push(0x43);
    v.push(0x44);
    v.push(0x48);
    v.push(0x61);
    v.push(0x73);
    v.push(0x68);
    v.push(0x3d);
    proof {
        assert(v@ =~= lit_cdhash_key());
    }
    v
}

/// `CandidateCDHashFull sha256=` as bytes.
fn lit_candidate_vec() -> (r: Vec<u8>)
    ensures
        r@ == lit_candidate_key(),
{
    let mut v: Vec<u8> = Vec::new();
    v.push(0x43);
    v.push(0x61);
    v.push(0x6e);
    v.push(0x64);
    v.push(0x69);
    v.push(0x64);
    v.push(0x61);
    v.push(0x74);
    v.push(0x65);
    v.push(0x43);
    v.push(0x44);
    v.push(0x48);
    v.push(0x61);
    v.push(0x73);
    v.push(0x68);
    v.push(0x46);
    v.push(0x75);
    v.push(0x6c);
    v.push(0x6c);
    v.push(0x20);
    v.push(0x73);
    v.push(0x68);
    v.push(0x61);
    v.push(0x32);
    v.push(0x35);
    v.push(0x36);
    v.push(0x3d);
    proof {
        assert(v@ =~= lit_candidate_key());
    }
    v
}

/// `Executable=` as bytes.
fn lit_executable_vec() -> (r: Vec<u8>)
    ensures
        r@ == lit_executable_key(),
{
    let mut v: Vec<u8> = Vec::new();
    v.push(0x45);
    v.push(0x78);
    v.push(0x65);
    v.push(0x63);
    v.push(0x75);
    v.push(0x74);
    v.push(0x61);
    v.push(0x62);
    v.push(0x6c);
    v.push(0x65);
    v.push(0x3d);
    proof {
        assert(v@ =~= lit_executable_key());
    }
    v
}

/// `stapled` as bytes.
fn lit_stapled_vec() -> (r: Vec<u8>)
    ensures
        r@ == lit_stapled(),
{
    let mut v: Vec<u8> = Vec::new();
    v.push(0x73);
    v.push(0x74);
    v.push(0x61);
    v.push(0x70);
    v.push(0x6c);
    v.push(0x65);
    v.push(0x64);
    proof {
        assert(v@ =~= lit_stapled());
    }
    v
}

} // verus!
