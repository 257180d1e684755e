//! File-kind checks over MIME type strings, and the registry names the
//! package search accepts.

use crate::signscan::starts_with;
use crate::strbytes::str_eq;
use vstd::prelude::*;
use vstd::string::StringSliceAdditionalSpecFns;

verus! {

/// `image/`
pub open spec fn lit_image_prefix() -> Seq<u8> {
    seq![0x69u8, 0x6d, 0x61, 0x67, 0x65, 0x2f]
}

/// `video/`
pub open spec fn lit_video_prefix() -> Seq<u8> {
    seq![0x76u8, 0x69, 0x64, 0x65, 0x6f, 0x2f]
}

/// `application/pdf`
pub open spec fn lit_pdf_prefix() -> Seq<u8> {
    seq![
        0x61u8,
        0x70,
        0x70,
        0x6c,
        0x69,
        0x63,
        0x61,
        0x74,
        0x69,
        0x6f,
        0x6e,
        0x2f,
        0x70,
        0x64,
        0x66,
    ]
}

/// Whether the string starts with the given bytes.
fn str_starts_with_bytes(s: &str, pat: &Vec<u8>) -> (r: bool)
    ensures
        r == starts_with(s.spec_bytes(), pat@),
{
    let b = s.as_bytes();
    let m = pat.len();
    if b.len() < m {
        return false;
    }
    let mut i: usize = 0;
    while i < m
        invariant
            i <= m == pat@.len() <= b@.len(),
            b@ == s.spec_bytes(),
            forall|j: int| 0 <= j < i ==> b@[j] == pat@[j],
        decreases m - i,
    {
        if b[i] != pat[i] {
            proof {
                assert(s.spec_bytes().take(m as int)[i as int] == b@[i as int]);
            }
            return false;
        }
        i += 1;
    }
    proof {
        assert(s.spec_bytes().take(m as int) =~= pat@);
    }
    true
}

/// Whether a MIME type names an image.
pub fn is_image(mime: &str) -> (r: bool)
    ensures
        r == starts_with(mime.spec_bytes(), lit_image_prefix()),
{
    let mut pat: Vec<u8> = Vec::new();
    pat.push(0x69);
    pat.push(0x6d);
    pat.push(0x61);
    pat.push(0x67);
    pat.push(0x65);
    pat.push(0x2f);
    proof {
        assert(pat@ =~= lit_image_prefix());
    }
    str_starts_with_bytes(mime, &pat)
}

/// Whether a MIME type names a video.
pub fn is_video(mime: &str) -> (r: bool)
    ensures
        r == starts_with(mime.spec_bytes(), lit_video_prefix()),
{
    let mut pat: Vec<u8> = Vec::new();
    pat.push(0x76);
    pat.push(0x69);
    pat.push(0x64);
    pat.push(0x65);
    pat.push(0x6f);
    pat.push(0x2f);
    proof {
        assert(pat@ =~= lit_video_prefix());
    }
    str_starts_with_bytes(mime, &pat)
}

/// Whether a MIME type names a PDF document.
pub fn is_pdf(mime: &str) -> (r: bool)
    ensures
        r == starts_with(mime.spec_bytes(), lit_pdf_prefix()),
{
    let mut pat: Vec<u8> = Vec::new();
    pat.push(0x61);
    pat.push(0x70);
    pat.push(0x70);
    pat.push(0x6c);
    pat.push(0x69);
    pat.push(0x63);
    pat.push(0x61);
    pat.push(0x74);
    pat.push(0x69);
    pat.push(0x6f);
    pat.push(0x6e);
    pat.push(0x2f);
    pat.push(0x70);
    pat.push(0x64);
    pat.push(0x66);
    proof {
        assert(pat@ =~= lit_pdf_prefix());
    }
    str_starts_with_bytes(mime, &pat)
}

/// Whether a package search source is one the tool supports.
pub fn validate_source(source: &str) -> (r: bool)
    ensures
        r == (source@ == ("npm")@ || source@ == ("docker")@ || source@ == ("jsdelivr")@ || source@
            == ("crates")@ || source@ == ("composer")@),
{
    str_eq(source, "npm") || str_eq(source, "docker") || str_eq(source, "jsdelivr") || str_eq(
        source,
        "crates",
    ) || str_eq(source, "composer")
}

} // verus!
