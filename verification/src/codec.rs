//! The wire payload pieces: the plaintext blob (compact JSON, fixed key
//! order `paste`, `attachment`, `attachment_name`, absent fields omitted) and
//! the associated-data document. The associated data is authenticated byte
//! for byte by the cipher, so both builders state the exact byte sequence
//! they produce.

use crate::b64::b64_encode;
use crate::b64::b64_encode_bytes;
use crate::jsonesc::json_escaped;
use crate::jsonesc::push_json_escaped;
use crate::zlib::deflate_of;
use crate::zlib::zlib_compress;
use vstd::prelude::*;
use vstd::string::StringSliceAdditionalSpecFns;
use vstd::utf8::encode_utf8;

verus! {

/// An attachment handed in by the caller: file name, MIME type, raw bytes.
pub struct PasteAttachment {
    pub name: String,
    pub mime: String,
    pub data: Vec<u8>,
}

/// What a paste carries: text, an attachment, or both.
pub struct PasteContent {
    pub text: Option<String>,
    pub attachment: Option<PasteAttachment>,
}

/// Mathematical model of an attachment, as byte sequences.
pub ghost struct AttachmentV {
    pub name: Seq<u8>,
    pub mime: Seq<u8>,
    pub data: Seq<u8>,
}

/// Mathematical model of paste content.
pub ghost struct ContentV {
    pub text: Option<Seq<u8>>,
    pub attachment: Option<AttachmentV>,
}

impl View for PasteAttachment {
    type V = AttachmentV;

    open spec fn view(&self) -> AttachmentV {
        AttachmentV {
            name: encode_utf8(self.name@),
            mime: encode_utf8(self.mime@),
            data: self.data@,
        }
    }
}

impl View for PasteContent {
    type V = ContentV;

    open spec fn view(&self) -> ContentV {
        ContentV {
            text: match self.text {
                Some(t) => Some(encode_utf8(t@)),
                None => None,
            },
            attachment: match self.attachment {
                Some(a) => Some(a@),
                None => None,
            },
        }
    }
}

/// Content is well formed when it holds at least one of text or attachment.
pub open spec fn content_wf(c: ContentV) -> bool {
    c.text is Some || c.attachment is Some
}

/// A JSON string literal: quote, escaped bytes, quote.
pub open spec fn json_str(b: Seq<u8>) -> Seq<u8> {
    seq![0x22u8] + json_escaped(b) + seq![0x22u8]
}

/// `"paste":`
pub open spec fn lit_paste_key() -> Seq<u8> {
    seq![0x22u8, 0x70, 0x61, 0x73, 0x74, 0x65, 0x22, 0x3a]
}

/// `"attachment":`
pub open spec fn lit_attachment_key() -> Seq<u8> {
    seq![0x22u8, 0x61, 0x74, 0x74, 0x61, 0x63, 0x68, 0x6d, 0x65, 0x6e, 0x74, 0x22, 0x3a]
}

/// `"attachment_name":`
pub open spec fn lit_attachment_name_key() -> Seq<u8> {
    seq![
        0x22u8,
        0x61,
        0x74,
        0x74,
        0x61,
        0x63,
        0x68,
        0x6d,
        0x65,
        0x6e,
        0x74,
        0x5f,
        0x6e,
        0x61,
        0x6d,
        0x65,
        0x22,
        0x3a,
    ]
}

/// `data:`
pub open spec fn lit_data_prefix() -> Seq<u8> {
    seq![0x64u8, 0x61, 0x74, 0x61, 0x3a]
}

/// `;base64,`
pub open spec fn lit_base64_sep() -> Seq<u8> {
    seq![0x3bu8, 0x62, 0x61, 0x73, 0x65, 0x36, 0x34, 0x2c]
}

/// The base64 data URI carrying an attachment's bytes.
pub open spec fn data_uri(mime: Seq<u8>, data: Seq<u8>) -> Seq<u8> {
    lit_data_prefix() + mime + lit_base64_sep() + b64_encode(data)
}

/// The plaintext blob before compression: compact JSON with fixed key order
/// and absent fields omitted.
pub open spec fn plaintext_json(c: ContentV) -> Seq<u8> {
    let text_part = match c.text {
        Some(t) => lit_paste_key() + json_str(t),
        None => Seq::empty(),
    };
    let att_part = match c.attachment {
        Some(a) => (if c.text is Some {
            seq![0x2cu8]
        } else {
            Seq::empty()
        }) + lit_attachment_key() + json_str(data_uri(a.mime, a.data)) + seq![0x2cu8]
            + lit_attachment_name_key() + json_str(a.name),
        None => Seq::empty(),
    };
    seq![0x7bu8] + text_part + att_part + seq![0x7du8]
}

/// Append `data:<mime>;base64,<data>` for an attachment.
fn build_data_uri(a: &PasteAttachment) -> (r: Vec<u8>)
    ensures
        r@ == data_uri(a@.mime, a@.data),
{
    let mut uri: Vec<u8> = Vec::new();
    uri.push(0x64);
    uri.push(0x61);
    uri.push(0x74);
    uri.push(0x61);
    uri.push(0x3a);
    proof {
        assert(uri@ =~= lit_data_prefix());
    }
    let ghost chk1 = uri@;
    let mime_bytes = a.mime.as_str().as_bytes();
    let mut k: usize = 0;
    while k < mime_bytes.len()
        invariant
            k <= mime_bytes@.len(),
            uri@ == chk1 + mime_bytes@.take(k as int),
        decreases mime_bytes@.len() - k,
    {
        uri.push(mime_bytes[k]);
        k += 1;
        proof {
            assert(uri@ =~= chk1 + mime_bytes@.take(k as int));
        }
    }
    proof {
        assert(mime_bytes@.take(mime_bytes@.len() as int) =~= mime_bytes@);
    }
    uri.push(0x3b);
    uri.push(0x62);
    uri.push(0x61);
    uri.push(0x73);
    uri.push(0x65);
    uri.push(0x36);
    uri.push(0x34);
    uri.push(0x2c);
    proof {
        assert(uri@ =~= lit_data_prefix() + a@.mime + lit_base64_sep());
    }
    let mut enc = b64_encode_bytes(a.data.as_slice());
    uri.append(&mut enc);
    proof {
        assert(uri@ =~= data_uri(a@.mime, a@.data));
    }
    uri
}

/// Append a quoted, escaped JSON string literal.
pub fn push_json_str(out: &mut Vec<u8>, b: &[u8])
    ensures
        final(out)@ == old(out)@ + json_str(b@),
{
    out.push(0x22);
    push_json_escaped(out, b);
    out.push(0x22);
    proof {
        assert(out@ =~= old(out)@ + json_str(b@));
    }
}

/// Serialize the paste content to the exact plaintext blob bytes.
#[verifier::rlimit(100)]
pub fn plaintext_bytes(content: &PasteContent) -> (r: Vec<u8>)
    ensures
        r@ == plaintext_json(content@),
{
    let mut out: Vec<u8> = Vec::new();
    out.push(0x7b);
    match &content.text {
        Some(t) => {
            out.push(0x22);
            out.push(0x70);
            out.push(0x61);
            out.push(0x73);
            out.push(0x74);
            out.push(0x65);
            out.push(0x22);
            out.push(0x3a);
            proof {
                assert(out@ =~= seq![0x7bu8] + lit_paste_key());
            }
            push_json_str(&mut out, t.as_str().as_bytes());
        },
        None => {},
    }
    let ghost after_text = out@;
    match &content.attachment {
        Some(a) => {
            if content.text.is_some() {
                out.push(0x2c);
            }
            out.push(0x22);
            out.push(0x61);
            out.push(0x74);
            out.push(0x74);
            out.push(0x61);
            out.push(0x63);
            out.push(0x68);
            out.push(0x6d);
            out.push(0x65);
            out.push(0x6e);
            out.push(0x74);
            out.push(0x22);
            out.push(0x3a);
            proof {
                if content@.text is Some {
                    assert(out@ =~= after_text + seq![0x2cu8] + lit_attachment_key());
                } else {
                    assert(out@ =~= after_text + lit_attachment_key());
                }
            }
            let uri = build_data_uri(a);
            push_json_str(&mut out, uri.as_slice());
            out.push(0x2c);
            out.push(0x22);
            out.push(0x61);
            out.push(0x74);
            out.push(0x74);
            out.push(0x61);
            out.push(0x63);
            out.push(0x68);
            out.push(0x6d);
            out.push(0x65);
            out.push(0x6e);
            out.push(0x74);
            out.push(0x5f);
            out.push(0x6e);
            out.push(0x61);
            out.push(0x6d);
            out.push(0x65);
            out.push(0x22);
            out.push(0x3a);
            push_json_str(&mut out, a.name.as_str().as_bytes());
        },
        None => {},
    }
    out.push(0x7d);
    proof {
        assert(out@ =~= plaintext_json(content@));
    }
    out
}

/// Build the blob that will be sealed: the plaintext JSON, run through the
/// zlib compressor when compression is requested.
pub fn prepare_paste_data(content: &PasteContent, compress: bool) -> (r: Vec<u8>)
    ensures
        compress ==> r@ == deflate_of(plaintext_json(content@)),
        !compress ==> r@ == plaintext_json(content@),
{
    let blob = plaintext_bytes(content);
    if compress {
        zlib_compress(blob.as_slice())
    } else {
        blob
    }
}

/// `{"paste":"`
pub open spec fn lit_paste_prefix() -> Seq<u8> {
    seq![0x7bu8, 0x22, 0x70, 0x61, 0x73, 0x74, 0x65, 0x22, 0x3a, 0x22]
}

/// Recover the text bytes from a plaintext blob whose content held text:
/// check the `{"paste":"` prefix and scan the string literal after it.
pub fn parse_paste_text(blob: &[u8]) -> (r: Option<Vec<u8>>)
    ensures
        forall|c: ContentV|
            blob@ == plaintext_json(c) && c.text is Some ==> (r matches Some(v) && Some(v@)
                == c.text),
{
    if blob.len() < 10 {
        proof {
            lemma_paste_prefix(blob@);
        }
        return None;
    }
    if blob[0] != 0x7b || blob[1] != 0x22 || blob[2] != 0x70 || blob[3] != 0x61 || blob[4] != 0x73
        || blob[5] != 0x74 || blob[6] != 0x65 || blob[7] != 0x22 || blob[8] != 0x3a || blob[9]
        != 0x22 {
        proof {
            lemma_paste_prefix(blob@);
        }
        return None;
    }
    let scanned = crate::jsonesc::scan_json_string(blob, 10);
    proof {
        lemma_paste_prefix(blob@);
    }
    match scanned {
        Some((text, _end)) => Some(text),
        None => None,
    }
}

/// For a blob holding text, the first ten bytes are `{"paste":"` and the
/// scan after them recovers exactly the text bytes.
proof fn lemma_paste_prefix(blob: Seq<u8>)
    ensures
        forall|c: ContentV|
            blob == plaintext_json(c) && c.text is Some ==> (blob.len() >= 10 && (forall|k: int|
                0 <= k < 10 ==> blob[k] == #[trigger] lit_paste_prefix()[k]) && (
            crate::jsonesc::scan_str(blob.skip(10)) matches Some(tk) && tk.0 == c.text->0)),
{
    assert forall|c: ContentV|
        blob == plaintext_json(c) && c.text is Some implies (blob.len() >= 10 && (forall|k: int|
        0 <= k < 10 ==> blob[k] == #[trigger] lit_paste_prefix()[k]) && (
    crate::jsonesc::scan_str(blob.skip(10)) matches Some(tk) && tk.0 == c.text->0)) by {
        let t = c.text->0;
        let att_part = match c.attachment {
            Some(a) => seq![0x2cu8] + lit_attachment_key() + json_str(data_uri(a.mime, a.data))
                + seq![0x2cu8] + lit_attachment_name_key() + json_str(a.name),
            None => Seq::<u8>::empty(),
        };
        let rest = att_part + seq![0x7du8];
        assert(blob =~= lit_paste_prefix() + (json_escaped(t) + seq![0x22u8] + rest));
        assert(forall|k: int| 0 <= k < 10 ==> blob[k] == #[trigger] lit_paste_prefix()[k]);
        assert(blob.skip(10) =~= json_escaped(t) + seq![0x22u8] + rest);
        crate::jsonesc::lemma_scan_escaped(t, rest);
    }
}

/// `[[`
pub open spec fn lit_adata_open() -> Seq<u8> {
    seq![0x5bu8, 0x5b]
}

/// `,100000,256,96,"aes","gcm",` — iterations, key bits, nonce bits (96 is
/// the nonce length in bits, not the tag length), cipher and mode.
pub open spec fn lit_cipher_params() -> Seq<u8> {
    seq![
        0x2cu8,
        0x31,
        0x30,
        0x30,
        0x30,
        0x30,
        0x30,
        0x2c,
        0x32,
        0x35,
        0x36,
        0x2c,
        0x39,
        0x36,
        0x2c,
        0x22,
        0x61,
        0x65,
        0x73,
        0x22,
        0x2c,
        0x22,
        0x67,
        0x63,
        0x6d,
        0x22,
        0x2c,
    ]
}

/// `zlib`
pub open spec fn lit_zlib() -> Seq<u8> {
    seq![0x7au8, 0x6c, 0x69, 0x62]
}

/// `none`
pub open spec fn lit_none() -> Seq<u8> {
    seq![0x6eu8, 0x6f, 0x6e, 0x65]
}

/// The associated-data document, authenticated byte for byte:
/// `[[<iv_b64>,<salt_b64>,100000,256,96,"aes","gcm",<comp>],<formatter>,<0|1>,<0|1>]`.
pub open spec fn adata_json(
    nonce: Seq<u8>,
    salt: Seq<u8>,
    formatter: Seq<u8>,
    opendiscussion: bool,
    burn: bool,
    compress: bool,
) -> Seq<u8> {
    lit_adata_open() + json_str(b64_encode(nonce)) + seq![0x2cu8] + json_str(b64_encode(salt))
        + lit_cipher_params() + json_str(
        if compress {
            lit_zlib()
        } else {
            lit_none()
        },
    ) + seq![0x5du8, 0x2c] + json_str(formatter) + seq![0x2cu8] + seq![
        if opendiscussion {
            0x31u8
        } else {
            0x30u8
        },
    ] + seq![0x2cu8] + seq![
        if burn {
            0x31u8
        } else {
            0x30u8
        },
    ] + seq![0x5du8]
}

/// The associated data is stable: equal fields give equal bytes; and it is
/// sensitive: any difference in nonce, salt, compression, formatter,
/// open-discussion or burn flag shows in the bytes. Stated for the wire's
/// actual shapes — a 12-byte nonce, an 8-byte salt, and a formatter word
/// that JSON escaping leaves alone.
#[verifier::rlimit(100)]
pub proof fn lemma_adata_identifies_fields(
    n1: Seq<u8>,
    s1: Seq<u8>,
    f1: Seq<u8>,
    o1: bool,
    b1: bool,
    c1: bool,
    n2: Seq<u8>,
    s2: Seq<u8>,
    f2: Seq<u8>,
    o2: bool,
    b2: bool,
    c2: bool,
)
    requires
        n1.len() == 12,
        n2.len() == 12,
        s1.len() == 8,
        s2.len() == 8,
        forall|i: int| 0 <= i < f1.len() ==> crate::jsonesc::is_plain(#[trigger] f1[i]),
        forall|i: int| 0 <= i < f2.len() ==> crate::jsonesc::is_plain(#[trigger] f2[i]),
    ensures
        adata_json(n1, s1, f1, o1, b1, c1) == adata_json(n2, s2, f2, o2, b2, c2) <==> (n1 == n2
            && s1 == s2 && f1 == f2 && o1 == o2 && b1 == b2 && c1 == c2),
{
    let e1 = adata_json(n1, s1, f1, o1, b1, c1);
    let e2 = adata_json(n2, s2, f2, o2, b2, c2);
    if n1 == n2 && s1 == s2 && f1 == f2 && o1 == o2 && b1 == b2 && c1 == c2 {
        assert(e1 == e2);
    }
    if e1 == e2 {
        crate::b64::lemma_b64_encode_len(n1);
        crate::b64::lemma_b64_encode_len(n2);
        crate::b64::lemma_b64_encode_len(s1);
        crate::b64::lemma_b64_encode_len(s2);
        crate::b64::lemma_b64_encode_plain(n1);
        crate::b64::lemma_b64_encode_plain(n2);
        crate::b64::lemma_b64_encode_plain(s1);
        crate::b64::lemma_b64_encode_plain(s2);
        crate::jsonesc::lemma_json_escaped_plain(b64_encode(n1));
        crate::jsonesc::lemma_json_escaped_plain(b64_encode(n2));
        crate::jsonesc::lemma_json_escaped_plain(b64_encode(s1));
        crate::jsonesc::lemma_json_escaped_plain(b64_encode(s2));
        crate::jsonesc::lemma_json_escaped_plain(f1);
        crate::jsonesc::lemma_json_escaped_plain(f2);
        crate::jsonesc::lemma_json_escaped_plain(lit_zlib());
        crate::jsonesc::lemma_json_escaped_plain(lit_none());
        assert(b64_encode(n1).len() == 16 && b64_encode(n2).len() == 16);
        assert(b64_encode(s1).len() == 12 && b64_encode(s2).len() == 12);
        assert(e1.len() == 77 + f1.len() && e2.len() == 77 + f2.len());
        assert(f1.len() == f2.len());
        // the nonce occupies a fixed window
        assert(b64_encode(n1) =~= b64_encode(n2)) by {
            assert forall|i: int| 0 <= i < 16 implies b64_encode(n1)[i] == b64_encode(n2)[i] by {
                assert(e1[3 + i] == b64_encode(n1)[i]);
                assert(e2[3 + i] == b64_encode(n2)[i]);
            }
        }
        crate::b64::lemma_b64_decode_encode(n1);
        crate::b64::lemma_b64_decode_encode(n2);
        assert(n1 == n2);
        // so does the salt
        assert(b64_encode(s1) =~= b64_encode(s2)) by {
            assert forall|i: int| 0 <= i < 12 implies b64_encode(s1)[i] == b64_encode(s2)[i] by {
                assert(e1[22 + i] == b64_encode(s1)[i]);
                assert(e2[22 + i] == b64_encode(s2)[i]);
            }
        }
        crate::b64::lemma_b64_decode_encode(s1);
        crate::b64::lemma_b64_decode_encode(s2);
        assert(s1 == s2);
        // the compression word starts right after the cipher constants
        assert(c1 == c2) by {
            assert(e1[63] == (if c1 {
                lit_zlib()[0]
            } else {
                lit_none()[0]
            }));
            assert(e2[63] == (if c2 {
                lit_zlib()[0]
            } else {
                lit_none()[0]
            }));
        }
        // the formatter fills the window before the fixed five-byte tail
        assert(f1 =~= f2) by {
            assert forall|i: int| 0 <= i < f1.len() implies f1[i] == f2[i] by {
                assert(e1[71 + i] == f1[i]);
                assert(e2[71 + i] == f2[i]);
            }
        }
        // the two flags are single digits at fixed offsets from the end
        assert(o1 == o2) by {
            assert(e1[73 + f1.len() as int] == (if o1 {
                0x31u8
            } else {
                0x30u8
            }));
            assert(e2[73 + f2.len() as int] == (if o2 {
                0x31u8
            } else {
                0x30u8
            }));
        }
        assert(b1 == b2) by {
            assert(e1[75 + f1.len() as int] == (if b1 {
                0x31u8
            } else {
                0x30u8
            }));
            assert(e2[75 + f2.len() as int] == (if b2 {
                0x31u8
            } else {
                0x30u8
            }));
        }
    }
}

/// Serialize the associated data for one paste to its exact bytes. Any
/// compatible decryptor must rebuild this byte sequence identically, or
/// authentication fails.
#[verifier::rlimit(100)]
pub fn prepare_associated_data(
    cipher_iv: &[u8],
    kdf_salt: &[u8],
    formatter: &str,
    opendiscussion: bool,
    burn: bool,
    compress: bool,
) -> (r: Vec<u8>)
    ensures
        r@ == adata_json(
            cipher_iv@,
            kdf_salt@,
            formatter.spec_bytes(),
            opendiscussion,
            burn,
            compress,
        ),
{
    let mut out: Vec<u8> = Vec::new();
    out.push(0x5b);
    out.push(0x5b);
    let iv64 = b64_encode_bytes(cipher_iv);
    push_json_str(&mut out, iv64.as_slice());
    out.push(0x2c);
    proof {
        assert(out@ =~= lit_adata_open() + json_str(b64_encode(cipher_iv@)) + seq![0x2cu8]);
    }
    let salt64 = b64_encode_bytes(kdf_salt);
    push_json_str(&mut out, salt64.as_slice());
    out.push(0x2c);
    out.push(0x31);
    out.push(0x30);
    out.push(0x30);
    out.push(0x30);
    out.push(0x30);
    out.push(0x30);
    out.push(0x2c);
    out.push(0x32);
    out.push(0x35);
    out.push(0x36);
    out.push(0x2c);
    out.push(0x39);
    out.push(0x36);
    out.push(0x2c);
    out.push(0x22);
    out.push(0x61);
    out.push(0x65);
    out.push(0x73);
    out.push(0x22);
    out.push(0x2c);
    out.push(0x22);
    out.push(0x67);
    out.push(0x63);
    out.push(0x6d);
    out.push(0x22);
    out.push(0x2c);
    proof {
        assert(out@ =~= lit_adata_open() + json_str(b64_encode(cipher_iv@)) + seq![0x2cu8]
            + json_str(b64_encode(kdf_salt@)) + lit_cipher_params());
    }
    let ghost mid = out@;
    if compress {
        out.push(0x22);
        out.push(0x7a);
        out.push(0x6c);
        out.push(0x69);
        out.push(0x62);
        out.push(0x22);
        proof {
            assert(json_escaped(lit_zlib()) =~= lit_zlib()) by {
                crate::jsonesc::lemma_json_escaped_snoc(lit_zlib());
                crate::jsonesc::lemma_json_escaped_snoc(lit_zlib().drop_last());
                crate::jsonesc::lemma_json_escaped_snoc(lit_zlib().drop_last().drop_last());
                crate::jsonesc::lemma_json_escaped_snoc(
                    lit_zlib().drop_last().drop_last().drop_last(),
                );
            }
            assert(out@ =~= mid + json_str(lit_zlib()));
        }
    } else {
        out.push(0x22);
        out.push(0x6e);
        out.push(0x6f);
        out.push(0x6e);
        out.push(0x65);
        out.push(0x22);
        proof {
            assert(json_escaped(lit_none()) =~= lit_none()) by {
                crate::jsonesc::lemma_json_escaped_snoc(lit_none());
                crate::jsonesc::lemma_json_escaped_snoc(lit_none().drop_last());
                crate::jsonesc::lemma_json_escaped_snoc(lit_none().drop_last().drop_last());
                crate::jsonesc::lemma_json_escaped_snoc(
                    lit_none().drop_last().drop_last().drop_last(),
                );
            }
            assert(out@ =~= mid + json_str(lit_none()));
        }
    }
    out.push(0x5d);
    out.push(0x2c);
    push_json_str(&mut out, formatter.as_bytes());
    out.push(0x2c);
    out.push(if opendiscussion { 0x31 } else { 0x30 });
    out.push(0x2c);
    out.push(if burn { 0x31 } else { 0x30 });
    out.push(0x5d);
    proof {
        assert(out@ =~= adata_json(
            cipher_iv@,
            kdf_salt@,
            formatter.spec_bytes(),
            opendiscussion,
            burn,
            compress,
        ));
    }
    out
}

} // verus!
