//! The paste-creation protocol: validate the caller's options, derive the
//! secrets, build the exact wire document, and classify every server reply.
//! The network round trip itself is driven from outside; this module decides
//! what each outcome means and whether it may be retried.

use crate::aead::gcm_seal_of;
use crate::aead::seal;
use crate::aead::SealError;
use crate::b58::b58_of;
use crate::b64::b64_encode;
use crate::b64::b64_encode_bytes;
use crate::codec::adata_json;
use crate::codec::content_wf;
use crate::codec::json_str;
use crate::codec::plaintext_json;
use crate::codec::prepare_associated_data;
use crate::codec::prepare_paste_data;
use crate::codec::ContentV;
use crate::codec::PasteContent;
use crate::jsonesc::json_escaped;
use crate::kdf::derived_key_of;
use crate::kdf::generate_kdf_key;
use crate::response::split_dots;
use crate::response::trim_of;
use crate::response::ServerResponse;
use crate::retry::pow2_u64;
use crate::rng::random_bytes;
use crate::strbytes::ascii_chars_of;
use crate::strbytes::push_all;
use crate::zlib::deflate_of;
use vstd::arithmetic::power2::pow2;
use vstd::prelude::*;
use vstd::string::StringExecFns;
use vstd::string::StringSliceAdditionalSpecFns;
use vstd::string::StrSliceExecFns;
use vstd::utf8::encode_utf8;

verus! {

/// Options for one paste creation.
pub struct PasteOptions {
    pub url: String,
    pub password: Option<String>,
    pub expire: String,
    pub formatter: String,
    pub burn: bool,
    pub opendiscussion: bool,
    pub compress: bool,
    pub max_retries: u32,
    pub initial_delay_ms: u64,
}

/// Why the caller's input was rejected before any network traffic.
#[derive(Clone, Copy, PartialEq, Eq, Structural, Debug)]
pub enum InvalidReason {
    /// Neither text nor attachment was supplied.
    NoContent,
    /// The base URL does not start with `http://` or `https://`.
    BadUrl,
}

/// A field the server must return on success.
#[derive(Clone, Copy, PartialEq, Eq, Structural, Debug)]
pub enum RequiredField {
    Id,
    Url,
    DeleteToken,
}

/// The error taxonomy of paste creation.
#[derive(Debug)]
pub enum PasteError {
    /// Rejected input; never retried.
    InvalidOptions(InvalidReason),
    /// A local cryptographic invariant failed; never retried.
    EncryptionError(SealError),
    /// The request never completed; retried up to the attempt ceiling.
    TransportError { detail: String },
    /// The server rejected the paste or answered with an error status;
    /// `body` carries the raw reply when there was one.
    ApiError { status: Option<u16>, message: String, errors: Vec<String>, body: Option<String> },
    /// The reply could not be understood; `missing` names an absent required
    /// field, `None` means the body was not JSON.
    InvalidResponse { body: String, missing: Option<RequiredField> },
}

/// The operator-facing summary line of an error. The structured `errors`
/// list of an `ApiError` is not folded in; callers print it beneath.
pub open spec fn error_text(e: &PasteError) -> Seq<char> {
    match e {
        PasteError::InvalidOptions(InvalidReason::NoContent) => ("Error: No content to paste")@,
        PasteError::InvalidOptions(InvalidReason::BadUrl) => ("Error: Invalid URL")@,
        PasteError::EncryptionError(SealError::BadKeyLength) => (
        "Error: Encryption failed: wrong key length")@,
        PasteError::EncryptionError(SealError::BadNonceLength) => (
        "Error: Encryption failed: wrong nonce length")@,
        PasteError::EncryptionError(SealError::OversizePlaintext) => (
        "Error: Encryption failed: plaintext too large")@,
        PasteError::TransportError { detail } => ("Error: API request failed: ")@ + detail@,
        PasteError::ApiError { status, message, .. } => ("Error: API request failed: ")@ + message@
            + (match status {
            Some(st) => (" (Status: ")@ + crate::wallabag::dec_chars(*st as nat) + (")")@,
            None => Seq::<char>::empty(),
        }),
        PasteError::InvalidResponse { body, .. } => ("Error: Invalid response from server: ")@
            + body@,
    }
}

impl PasteError {
    /// The operator-facing summary line for this error.
    pub fn message(&self) -> (r: String)
        ensures
            r@ == error_text(self),
    {
        match self {
            PasteError::InvalidOptions(InvalidReason::NoContent) => String::from_str(
                "Error: No content to paste",
            ),
            PasteError::InvalidOptions(InvalidReason::BadUrl) => String::from_str(
                "Error: Invalid URL",
            ),
            PasteError::EncryptionError(SealError::BadKeyLength) => String::from_str(
                "Error: Encryption failed: wrong key length",
            ),
            PasteError::EncryptionError(SealError::BadNonceLength) => String::from_str(
                "Error: Encryption failed: wrong nonce length",
            ),
            PasteError::EncryptionError(SealError::OversizePlaintext) => String::from_str(
                "Error: Encryption failed: plaintext too large",
            ),
            PasteError::TransportError { detail } => {
                let mut s = String::from_str("Error: API request failed: ");
                s.append(detail.as_str());
                s
            },
            PasteError::ApiError { status, message, .. } => {
                let mut s = String::from_str("Error: API request failed: ");
                s.append(message.as_str());
                match status {
                    Some(st) => {
                        s.append(" (Status: ");
                        let d = crate::wallabag::dec_string(*st as u64);
                        s.append(d.as_str());
                        s.append(")");
                    },
                    None => {},
                }
                s
            },
            PasteError::InvalidResponse { body, .. } => {
                let mut s = String::from_str("Error: Invalid response from server: ");
                s.append(body.as_str());
                s
            },
        }
    }
}

/// What a successful creation hands back.
pub struct PasteHandle {
    pub id: String,
    pub url: String,
    pub delete_token: String,
    pub shareable_secret: String,
}

/// The driver's next move after one attempt.
pub enum SessionStep {
    /// The paste exists; stop.
    Done(PasteHandle),
    /// A terminal error; stop.
    Failed(PasteError),
    /// Wait this long, then send the same request again.
    RetryAfter { delay_ms: u64 },
}

/// The passphrase bytes joined with the optional password bytes, with no
/// separator: the secret the key is derived from.
pub open spec fn kdf_secret(passphrase: Seq<u8>, password: Option<String>) -> Seq<u8> {
    match password {
        Some(p) => passphrase + encode_utf8(p@),
        None => passphrase,
    }
}

/// The blob handed to the cipher: the plaintext JSON, compressed on request.
pub open spec fn sealed_blob(c: ContentV, compress: bool) -> Seq<u8> {
    if compress {
        deflate_of(plaintext_json(c))
    } else {
        plaintext_json(c)
    }
}

/// `{"v":2,"adata":`
pub open spec fn lit_payload_open() -> Seq<u8> {
    seq![0x7bu8, 0x22, 0x76, 0x22, 0x3a, 0x32, 0x2c, 0x22, 0x61, 0x64, 0x61, 0x74, 0x61, 0x22, 0x3a]
}

/// `,"ct":`
pub open spec fn lit_ct_key() -> Seq<u8> {
    seq![0x2cu8, 0x22, 0x63, 0x74, 0x22, 0x3a]
}

/// `,"meta":{"expire":`
pub open spec fn lit_meta_key() -> Seq<u8> {
    seq![
        0x2cu8,
        0x22,
        0x6d,
        0x65,
        0x74,
        0x61,
        0x22,
        0x3a,
        0x7b,
        0x22,
        0x65,
        0x78,
        0x70,
        0x69,
        0x72,
        0x65,
        0x22,
        0x3a,
    ]
}

/// The exact request document POSTed to the server.
pub open spec fn payload_json(adata: Seq<u8>, ct_b64: Seq<u8>, expire: Seq<u8>) -> Seq<u8> {
    lit_payload_open() + adata + lit_ct_key() + json_str(ct_b64) + lit_meta_key() + json_str(expire)
        + seq![0x7du8, 0x7d]
}

/// The endpoint a paste is POSTed to: the base URL with `api/new` appended,
/// reusing the base's trailing slash when it has one.
pub open spec fn request_url_of(base: Seq<char>) -> Seq<char> {
    if base.len() > 0 && base.last() == '/' {
        base + ("api/new")@
    } else {
        base + ("/api/new")@
    }
}

/// A base URL must carry an explicit `http` or `https` scheme.
pub open spec fn url_ok(u: Seq<u8>) -> bool {
    (u.len() >= 7 && u.subrange(0, 7) == seq![0x68u8, 0x74, 0x74, 0x70, 0x3a, 0x2f, 0x2f]) || (
    u.len() >= 8 && u.subrange(0, 8) == seq![0x68u8, 0x74, 0x74, 0x70, 0x73, 0x3a, 0x2f, 0x2f])
}

/// Whether the string starts with `http://` or `https://`.
pub fn url_has_scheme(u: &str) -> (r: bool)
    ensures
        r == url_ok(u.spec_bytes()),
{
    let b = u.as_bytes();
    let ghost bs = u.spec_bytes();
    if b.len() >= 7 && b[0] == 0x68 && b[1] == 0x74 && b[2] == 0x74 && b[3] == 0x70 {
        if b[4] == 0x3a && b[5] == 0x2f && b[6] == 0x2f {
            proof {
                assert(bs.subrange(0, 7) =~= seq![0x68u8, 0x74, 0x74, 0x70, 0x3a, 0x2f, 0x2f]);
            }
            return true;
        }
        if b.len() >= 8 && b[4] == 0x73 && b[5] == 0x3a && b[6] == 0x2f && b[7] == 0x2f {
            proof {
                assert(bs.subrange(0, 8) =~= seq![0x68u8, 0x74, 0x74, 0x70, 0x73, 0x3a, 0x2f, 0x2f]);
            }
            return true;
        }
    }
    proof {
        if url_ok(bs) {
            if bs.len() >= 7 && bs.subrange(0, 7) == seq![0x68u8, 0x74, 0x74, 0x70, 0x3a, 0x2f,
            0x2f] {
                assert(bs[0] == bs.subrange(0, 7)[0]);
                assert(bs[1] == bs.subrange(0, 7)[1]);
                assert(bs[2] == bs.subrange(0, 7)[2]);
                assert(bs[3] == bs.subrange(0, 7)[3]);
                assert(bs[4] == bs.subrange(0, 7)[4]);
                assert(bs[5] == bs.subrange(0, 7)[5]);
                assert(bs[6] == bs.subrange(0, 7)[6]);
            } else {
                assert(bs[0] == bs.subrange(0, 8)[0]);
                assert(bs[1] == bs.subrange(0, 8)[1]);
                assert(bs[2] == bs.subrange(0, 8)[2]);
                assert(bs[3] == bs.subrange(0, 8)[3]);
                assert(bs[4] == bs.subrange(0, 8)[4]);
                assert(bs[5] == bs.subrange(0, 8)[5]);
                assert(bs[6] == bs.subrange(0, 8)[6]);
                assert(bs[7] == bs.subrange(0, 8)[7]);
            }
        }
    }
    false
}

/// One in-flight paste creation: the fixed request document, the secrets it
/// was built from, and the retry state.
pub struct PasteSession {
    pub request_body: Vec<u8>,
    pub request_url: String,
    pub passphrase: Vec<u8>,
    pub salt: Vec<u8>,
    pub nonce: Vec<u8>,
    pub adata: Vec<u8>,
    pub ct_b64: Vec<u8>,
    pub url: String,
    pub formatter: String,
    pub compress: bool,
    pub max_retries: u32,
    pub initial_delay_ms: u64,
    pub attempt: u32,
}

impl PasteSession {
    /// Structural invariant of a session.
    pub open spec fn wf(&self) -> bool {
        &&& self.passphrase@.len() == 32
        &&& self.salt@.len() == 8
        &&& self.nonce@.len() == 12
        &&& 1 <= self.max_retries <= 32
        &&& self.initial_delay_ms <= 1000000
        &&& self.attempt <= self.max_retries
    }

    /// One attempt has been recorded; everything else is unchanged.
    pub open spec fn stepped(pre: PasteSession, post: PasteSession) -> bool {
        &&& post.attempt == pre.attempt + 1
        &&& post.request_body@ == pre.request_body@
        &&& post.request_url@ == pre.request_url@
        &&& post.passphrase@ == pre.passphrase@
        &&& post.salt@ == pre.salt@
        &&& post.nonce@ == pre.nonce@
        &&& post.adata@ == pre.adata@
        &&& post.ct_b64@ == pre.ct_b64@
        &&& post.url@ == pre.url@
        &&& post.formatter@ == pre.formatter@
        &&& post.compress == pre.compress
        &&& post.max_retries == pre.max_retries
        &&& post.initial_delay_ms == pre.initial_delay_ms
    }
}

/// A size bound under which the uncompressed plaintext blob provably fits
/// the cipher's input limit.
pub open spec fn content_small(c: ContentV) -> bool {
    &&& match c.text {
        Some(t) => t.len() <= 0x8000000,
        None => true,
    }
    &&& match c.attachment {
        Some(a) => a.name.len() <= 0x8000000 && a.mime.len() <= 0x8000000 && a.data.len()
            <= 0x8000000,
        None => true,
    }
}

/// Escaping at most sextuples the length.
proof fn lemma_json_escaped_len(s: Seq<u8>)
    ensures
        json_escaped(s).len() <= 6 * s.len(),
    decreases s.len(),
{
    if s.len() > 0 {
        lemma_json_escaped_len(s.drop_first());
    }
}

/// Base64 grows the length by at most a factor of two plus padding.
proof fn lemma_b64_len(s: Seq<u8>)
    ensures
        b64_encode(s).len() <= 2 * s.len() + 4,
    decreases s.len(),
{
    if s.len() >= 3 {
        lemma_b64_len(s.skip(3));
    }
}

/// A small content's plaintext blob fits the cipher's input limit.
proof fn lemma_plaintext_json_len(c: ContentV)
    requires
        content_small(c),
    ensures
        plaintext_json(c).len() < 0x800000000,
{
    match c.text {
        Some(t) => lemma_json_escaped_len(t),
        None => {},
    }
    match c.attachment {
        Some(a) => {
            lemma_json_escaped_len(a.name);
            lemma_b64_len(a.data);
            lemma_json_escaped_len(
                crate::codec::lit_data_prefix() + a.mime + crate::codec::lit_base64_sep()
                    + b64_encode(a.data),
            );
        },
        None => {},
    }
}

/// Assemble the request document from its finished pieces.
#[verifier::rlimit(100)]
fn assemble_payload(adata: &[u8], ct_b64: &[u8], expire: &str) -> (r: Vec<u8>)
    ensures
        r@ == payload_json(adata@, ct_b64@, expire.spec_bytes()),
{
    let mut body: Vec<u8> = Vec::new();
    body.push(0x7b);
    body.push(0x22);
    body.push(0x76);
    body.push(0x22);
    body.push(0x3a);
    body.push(0x32);
    body.push(0x2c);
    body.push(0x22);
    body.push(0x61);
    body.push(0x64);
    body.push(0x61);
    body.push(0x74);
    body.push(0x61);
    body.push(0x22);
    body.push(0x3a);
    proof {
        assert(body@ =~= lit_payload_open());
    }
    push_all(&mut body, adata);
    body.push(0x2c);
    body.push(0x22);
    body.push(0x63);
    body.push(0x74);
    body.push(0x22);
    body.push(0x3a);
    proof {
        assert(body@ =~= lit_payload_open() + adata@ + lit_ct_key());
    }
    crate::codec::push_json_str(&mut body, ct_b64);
    body.push(0x2c);
    body.push(0x22);
    body.push(0x6d);
    body.push(0x65);
    body.push(0x74);
    body.push(0x61);
    body.push(0x22);
    body.push(0x3a);
    body.push(0x7b);
    body.push(0x22);
    body.push(0x65);
    body.push(0x78);
    body.push(0x70);
    body.push(0x69);
    body.push(0x72);
    body.push(0x65);
    body.push(0x22);
    body.push(0x3a);
    proof {
        assert(body@ =~= lit_payload_open() + adata@ + lit_ct_key() + json_str(ct_b64@)
            + lit_meta_key());
    }
    crate::codec::push_json_str(&mut body, expire.as_bytes());
    body.push(0x7d);
    body.push(0x7d);
    proof {
        assert(body@ =~= payload_json(adata@, ct_b64@, expire.spec_bytes()));
    }
    body
}

impl PasteSession {
    /// Validate the options, draw the per-paste secrets, and build the exact
    /// request document. No network traffic happens here; everything this
    /// produces is a mathematical function of the content, the options and
    /// the freshly drawn randomness.
    pub fn begin(content: &PasteContent, opts: &PasteOptions) -> (r: Result<PasteSession, PasteError>)
        requires
            content_small(content@),
            1 <= opts.max_retries <= 32,
            opts.initial_delay_ms <= 1000000,
        ensures
            r matches Err(PasteError::InvalidOptions(InvalidReason::NoContent)) <==> !content_wf(
                content@,
            ),
            r matches Err(PasteError::InvalidOptions(InvalidReason::BadUrl)) <==> content_wf(
                content@,
            ) && !url_ok(encode_utf8(opts.url@)),
            content_wf(content@) && url_ok(encode_utf8(opts.url@)) && !opts.compress ==> r is Ok,
            content_wf(content@) && url_ok(encode_utf8(opts.url@)) && opts.compress && sealed_blob(
                content@,
                true,
            ).len() < 0x800000000 ==> r is Ok,
            r matches Err(e) ==> (e is InvalidOptions || e is EncryptionError),
            r matches Ok(s) ==> s.wf() && s.attempt == 0 && s.compress == opts.compress
                && s.max_retries == opts.max_retries && s.initial_delay_ms == opts.initial_delay_ms
                && s.url@ == opts.url@ && s.request_url@ == request_url_of(opts.url@)
                && s.formatter@ == opts.formatter@ && s.adata@ == adata_json(
                s.nonce@,
                s.salt@,
                encode_utf8(opts.formatter@),
                opts.opendiscussion,
                opts.burn,
                opts.compress,
            ) && s.ct_b64@ == b64_encode(
                gcm_seal_of(
                    derived_key_of(kdf_secret(s.passphrase@, opts.password), s.salt@),
                    s.nonce@,
                    s.adata@,
                    sealed_blob(content@, opts.compress),
                ),
            ) && s.request_body@ == payload_json(s.adata@, s.ct_b64@, encode_utf8(opts.expire@)),
    {
        if content.text.is_none() && content.attachment.is_none() {
            return Err(PasteError::InvalidOptions(InvalidReason::NoContent));
        }
        if !url_has_scheme(opts.url.as_str()) {
            return Err(PasteError::InvalidOptions(InvalidReason::BadUrl));
        }
        let passphrase = random_bytes(32);
        let mut secret: Vec<u8> = Vec::new();
        push_all(&mut secret, passphrase.as_slice());
        match &opts.password {
            Some(p) => {
                push_all(&mut secret, p.as_str().as_bytes());
            },
            None => {},
        }
        proof {
            assert(secret@ =~= kdf_secret(passphrase@, opts.password));
        }
        let (key, salt) = generate_kdf_key(secret.as_slice());
        let nonce = random_bytes(12);
        let blob = prepare_paste_data(content, opts.compress);
        let adata = prepare_associated_data(
            nonce.as_slice(),
            salt.as_slice(),
            opts.formatter.as_str(),
            opts.opendiscussion,
            opts.burn,
            opts.compress,
        );
        proof {
            if !opts.compress {
                lemma_plaintext_json_len(content@);
            }
        }
        let ct = match seal(key.as_slice(), nonce.as_slice(), adata.as_slice(), blob.as_slice()) {
            Ok(ct) => ct,
            Err(e) => {
                return Err(PasteError::EncryptionError(e));
            },
        };
        let ct_b64 = b64_encode_bytes(ct.as_slice());
        let body = assemble_payload(adata.as_slice(), ct_b64.as_slice(), opts.expire.as_str());
        let mut request_url = opts.url.clone();
        let url_chars = opts.url.as_str().unicode_len();
        if url_chars > 0 && opts.url.as_str().get_char(url_chars - 1) == '/' {
            request_url.append("api/new");
        } else {
            request_url.append("/api/new");
        }
        Ok(
            PasteSession {
                request_body: body,
                request_url,
                passphrase,
                salt,
                nonce,
                adata,
                ct_b64,
                url: opts.url.clone(),
                formatter: opts.formatter.clone(),
                compress: opts.compress,
                max_retries: opts.max_retries,
                initial_delay_ms: opts.initial_delay_ms,
                attempt: 0,
            },
        )
    }

    /// The passphrase in its typeable form, for the URL fragment.
    pub fn shareable_secret(&self) -> (r: String)
        ensures
            r@ == ascii_chars_of(b58_of(self.passphrase@)),
    {
        crate::b58::base58_encode(self.passphrase.as_slice())
    }

    /// Backoff before the next attempt, after the attempt just recorded.
    fn next_delay(&self) -> (r: u64)
        requires
            self.wf(),
            1 <= self.attempt,
        ensures
            r == self.initial_delay_ms * pow2((self.attempt - 1) as nat),
    {
        proof {
            vstd::arithmetic::power2::lemma2_to64();
            let e = (self.attempt - 1) as nat;
            if e < 31 {
                vstd::arithmetic::power2::lemma_pow2_strictly_increases(e, 31);
            }
            assert(pow2(e) <= 0x80000000);
        }
        let p = pow2_u64(self.attempt - 1);
        proof {
            vstd::arithmetic::mul::lemma_mul_upper_bound(
                self.initial_delay_ms as int,
                1000000,
                p as int,
                0x80000000,
            );
        }
        self.initial_delay_ms * p
    }

    /// The attempt never reached the server or its reply never arrived:
    /// retry with backoff while attempts remain, else fail with a transport
    /// error.
    pub fn on_transport_failure(&mut self, detail: String) -> (r: SessionStep)
        requires
            old(self).wf(),
            old(self).attempt < old(self).max_retries,
        ensures
            final(self).wf(),
            PasteSession::stepped(*old(self), *final(self)),
            old(self).attempt + 1 < old(self).max_retries ==> (r matches
                SessionStep::RetryAfter { delay_ms } && delay_ms == old(self).initial_delay_ms
                * pow2(old(self).attempt as nat)),
            old(self).attempt + 1 >= old(self).max_retries ==> (r matches SessionStep::Failed(e)
                && (e matches PasteError::TransportError { detail: d } && d@ == detail@)),
    {
        self.attempt = self.attempt + 1;
        if self.attempt < self.max_retries {
            SessionStep::RetryAfter { delay_ms: self.next_delay() }
        } else {
            SessionStep::Failed(PasteError::TransportError { detail })
        }
    }

    /// The server answered with an empty body: classify by HTTP status and
    /// retry with backoff while attempts remain — nothing was created, so
    /// repeating the request is safe.
    pub fn on_empty_response(&mut self, status: u16) -> (r: SessionStep)
        requires
            old(self).wf(),
            old(self).attempt < old(self).max_retries,
        ensures
            final(self).wf(),
            PasteSession::stepped(*old(self), *final(self)),
            old(self).attempt + 1 < old(self).max_retries ==> (r matches
                SessionStep::RetryAfter { delay_ms } && delay_ms == old(self).initial_delay_ms
                * pow2(old(self).attempt as nat)),
            old(self).attempt + 1 >= old(self).max_retries ==> (r matches SessionStep::Failed(e)
                && (e matches PasteError::ApiError { status: st, message, errors, body } && st
                == Some(status) && message@ == empty_reply_message(status) && errors@.len() == 0
                && body is None)),
    {
        self.attempt = self.attempt + 1;
        if self.attempt < self.max_retries {
            SessionStep::RetryAfter { delay_ms: self.next_delay() }
        } else {
            let message = empty_reply_text(status);
            SessionStep::Failed(
                PasteError::ApiError { status: Some(status), message, errors: Vec::new(), body: None },
            )
        }
    }

    /// The server answered with a JSON body (or something pretending to be
    /// one): application-level outcomes are terminal, never retried, since
    /// repeating an accepted request would create duplicate pastes.
    pub fn on_parsed_response(&mut self, status: u16, body: String, fields: ServerResponse) -> (r:
        SessionStep)
        requires
            old(self).wf(),
            old(self).attempt < old(self).max_retries,
        ensures
            final(self).wf(),
            PasteSession::stepped(*old(self), *final(self)),
            !(r is RetryAfter),
            reply_outcome(
                r,
                status,
                body@,
                fields.parsed,
                opt_int(fields.status),
                opt_chars(fields.id),
                opt_chars(fields.url),
                opt_chars(fields.deletetoken),
                opt_chars(fields.message),
                old(self).passphrase@,
            ),
    {
        self.attempt = self.attempt + 1;
        if !fields.parsed {
            return SessionStep::Failed(PasteError::InvalidResponse { body, missing: None });
        }
        let rejected = match fields.status {
            Some(st) => st != 0,
            None => false,
        };
        if rejected {
            let message = rejection_text(status, &fields.message);
            let errors = match &fields.message {
                Some(m) => crate::response::split_errors(m.as_str()),
                None => Vec::new(),
            };
            proof {
                match fields.message {
                    Some(_) => {},
                    None => {
                        assert(errors.deep_view() =~= Seq::<Seq<char>>::empty());
                    },
                }
            }
            return SessionStep::Failed(
                PasteError::ApiError { status: Some(status), message, errors, body: Some(body) },
            );
        }
        let id = match fields.id {
            Some(v) => v,
            None => {
                return SessionStep::Failed(
                    PasteError::InvalidResponse { body, missing: Some(RequiredField::Id) },
                );
            },
        };
        let url = match fields.url {
            Some(v) => v,
            None => {
                return SessionStep::Failed(
                    PasteError::InvalidResponse { body, missing: Some(RequiredField::Url) },
                );
            },
        };
        let delete_token = match fields.deletetoken {
            Some(v) => v,
            None => {
                return SessionStep::Failed(
                    PasteError::InvalidResponse { body, missing: Some(RequiredField::DeleteToken) },
                );
            },
        };
        let shareable_secret = self.shareable_secret();
        SessionStep::Done(PasteHandle { id, url, delete_token, shareable_secret })
    }

    /// Classify one HTTP reply: an empty body is transient and follows the
    /// retry policy; a reply with content is decided for good.
    pub fn on_http_response(&mut self, status: u16, body: String) -> (r: SessionStep)
        requires
            old(self).wf(),
            old(self).attempt < old(self).max_retries,
        ensures
            final(self).wf(),
            PasteSession::stepped(*old(self), *final(self)),
            trim_of(body@).len() == 0 && old(self).attempt + 1 < old(self).max_retries ==> (r
                matches SessionStep::RetryAfter { delay_ms } && delay_ms == old(
                self,
            ).initial_delay_ms * pow2(old(self).attempt as nat)),
            trim_of(body@).len() == 0 && old(self).attempt + 1 >= old(self).max_retries ==> (r
                matches SessionStep::Failed(e) && (e matches PasteError::ApiError {
                status: st,
                message,
                errors,
                body: rb,
            } && st == Some(status) && message@ == empty_reply_message(status) && errors@.len()
                == 0 && rb is None)),
            trim_of(body@).len() != 0 ==> !(r is RetryAfter),
            trim_of(body@).len() != 0 ==> reply_outcome(
                r,
                status,
                body@,
                crate::response::parsed_of(body@),
                crate::response::status_of(body@),
                crate::response::id_of(body@),
                crate::response::url_of(body@),
                crate::response::deletetoken_of(body@),
                crate::response::message_of(body@),
                old(self).passphrase@,
            ),
    {
        if crate::response::trimmed_is_empty(body.as_str()) {
            self.on_empty_response(status)
        } else {
            let fields = crate::response::parse_response_fields(body.as_str());
            proof {
                assert(opt_int(fields.status) == crate::response::status_of(body@)) by {
                    match fields.status {
                        Some(_) => {},
                        None => {},
                    }
                }
                assert(opt_chars(fields.id) == crate::response::id_of(body@)) by {
                    match fields.id {
                        Some(_) => {},
                        None => {},
                    }
                }
                assert(opt_chars(fields.url) == crate::response::url_of(body@)) by {
                    match fields.url {
                        Some(_) => {},
                        None => {},
                    }
                }
                assert(opt_chars(fields.deletetoken) == crate::response::deletetoken_of(body@))
                    by {
                    match fields.deletetoken {
                        Some(_) => {},
                        None => {},
                    }
                }
                assert(opt_chars(fields.message) == crate::response::message_of(body@)) by {
                    match fields.message {
                        Some(_) => {},
                        None => {},
                    }
                }
            }
            self.on_parsed_response(status, body, fields)
        }
    }
}

/// The round-trip law of the pipeline: the document that `begin` seals,
/// opened again with the key derived from the returned shareable secret and
/// the same optional password, yields back exactly the paste text. With
/// compression off this always succeeds; whenever it returns bytes, they are
/// the original text.
pub fn paste_round_trip(text: String, opts: &PasteOptions) -> (r: Option<Vec<u8>>)
    requires
        encode_utf8(text@).len() <= 0x8000000,
        url_ok(encode_utf8(opts.url@)),
        1 <= opts.max_retries <= 32,
        opts.initial_delay_ms <= 1000000,
    ensures
        !opts.compress ==> r is Some,
        opts.compress && sealed_blob(
            ContentV { text: Some(encode_utf8(text@)), attachment: None },
            true,
        ).len() < 0x800000000 ==> r is Some,
        r matches Some(v) ==> v@ == encode_utf8(text@),
{
    let content = PasteContent { text: Some(text), attachment: None };
    let s = match PasteSession::begin(&content, opts) {
        Ok(s) => s,
        Err(_) => {
            return None;
        },
    };
    let ghost pass = s.passphrase@;
    let ghost sealed_spec = gcm_seal_of(
        derived_key_of(kdf_secret(pass, opts.password), s.salt@),
        s.nonce@,
        s.adata@,
        sealed_blob(content@, opts.compress),
    );
    let secret = s.shareable_secret();
    let pp = match crate::b58::base58_decode(secret.as_str()) {
        Some(v) => v,
        None => {
            proof {
                crate::b58::lemma_b58_of_ascii(pass);
                crate::strbytes::lemma_ascii_chars_bytes(b58_of(pass));
                crate::b58::lemma_b58_decode_encode(pass);
            }
            return None;
        },
    };
    proof {
        crate::b58::lemma_b58_of_ascii(pass);
        crate::strbytes::lemma_ascii_chars_bytes(b58_of(pass));
        crate::b58::lemma_b58_decode_encode(pass);
        assert(pp@ == pass);
    }
    let mut secret_bytes: Vec<u8> = Vec::new();
    push_all(&mut secret_bytes, pp.as_slice());
    match &opts.password {
        Some(p) => {
            push_all(&mut secret_bytes, p.as_str().as_bytes());
        },
        None => {},
    }
    proof {
        assert(secret_bytes@ =~= kdf_secret(pass, opts.password));
    }
    let key = crate::kdf::pbkdf2_sha256(secret_bytes.as_slice(), s.salt.as_slice());
    let sealed = match crate::b64::b64_decode_bytes(s.ct_b64.as_slice()) {
        Some(v) => v,
        None => {
            proof {
                crate::b64::lemma_b64_decode_encode(sealed_spec);
            }
            return None;
        },
    };
    proof {
        crate::b64::lemma_b64_decode_encode(sealed_spec);
        assert(sealed@ == sealed_spec);
    }
    let blob = match crate::aead::aes_gcm_open(
        key.as_slice(),
        s.nonce.as_slice(),
        s.adata.as_slice(),
        sealed.as_slice(),
    ) {
        Some(v) => v,
        None => {
            proof {
                assert(sealed@ == gcm_seal_of(
                    key@,
                    s.nonce@,
                    s.adata@,
                    sealed_blob(content@, opts.compress),
                ));
            }
            return None;
        },
    };
    proof {
        assert(sealed@ == gcm_seal_of(
            key@,
            s.nonce@,
            s.adata@,
            sealed_blob(content@, opts.compress),
        ));
        assert(blob@ == sealed_blob(content@, opts.compress));
    }
    let json = if s.compress {
        match crate::zlib::zlib_decompress(blob.as_slice()) {
            Some(v) => v,
            None => {
                proof {
                    assert(blob@ == deflate_of(plaintext_json(content@)));
                }
                return None;
            },
        }
    } else {
        blob
    };
    proof {
        assert(json@ == plaintext_json(content@));
    }
    let out = match crate::codec::parse_paste_text(json.as_slice()) {
        Some(v) => v,
        None => {
            return None;
        },
    };
    Some(out)
}

/// The operator-facing message for an empty reply, by HTTP status.
pub open spec fn empty_reply_message(status: u16) -> Seq<char> {
    if status == 500 {
        ("Server internal error (500) - The server encountered an error processing your request")@
    } else if status == 503 {
        ("Service unavailable (503) - The server is temporarily unable to handle your request")@
    } else if status == 502 {
        ("Bad gateway (502) - The server received an invalid response from upstream")@
    } else {
        ("Empty response from server")@
    }
}

/// The character view of an optional string.
pub open spec fn opt_chars(o: Option<String>) -> Option<Seq<char>> {
    match o {
        Some(s) => Some(s@),
        None => None,
    }
}

/// The mathematical view of an optional status count.
pub open spec fn opt_int(o: Option<i64>) -> Option<int> {
    match o {
        Some(v) => Some(v as int),
        None => None,
    }
}

/// The message of an application-level rejection: gateway statuses keep the
/// operator-facing text, anything else surfaces the server's message.
pub open spec fn rejection_message(status: u16, msg: Option<Seq<char>>) -> Seq<char> {
    if status == 500 {
        ("Server internal error (500) - The server encountered an error processing your request")@
    } else if status == 503 {
        ("Service unavailable (503) - The server is temporarily unable to handle your request")@
    } else if status == 502 {
        ("Bad gateway (502) - The server received an invalid response from upstream")@
    } else {
        match msg {
            Some(m) => m,
            None => ("Unknown error")@,
        }
    }
}

/// The server's message split into discrete error strings at `.`.
pub open spec fn rejection_errors(msg: Option<Seq<char>>) -> Seq<Seq<char>> {
    match msg {
        Some(m) => split_dots(m),
        None => Seq::empty(),
    }
}

/// The session's decision for a reply that carried content, as a function
/// of the HTTP status, the raw body, the extracted fields and the session's
/// passphrase: an unparseable body or a missing required field is an
/// `InvalidResponse` carrying the raw body, a non-zero `status` field is a
/// terminal `ApiError` carrying the server's message, its `.`-split error
/// list and the raw body, and a complete reply yields the handle with the
/// shareable secret.
pub open spec fn reply_outcome(
    r: SessionStep,
    status: u16,
    body: Seq<char>,
    parsed: bool,
    st: Option<int>,
    id: Option<Seq<char>>,
    url: Option<Seq<char>>,
    token: Option<Seq<char>>,
    msg: Option<Seq<char>>,
    passphrase: Seq<u8>,
) -> bool {
    if !parsed {
        r matches SessionStep::Failed(e) && (e matches PasteError::InvalidResponse {
            body: b,
            missing,
        } && b@ == body && missing is None)
    } else if st is Some && st->0 != 0 {
        r matches SessionStep::Failed(e) && (e matches PasteError::ApiError {
            status: hs,
            message,
            errors,
            body: rb,
        } && hs == Some(status) && message@ == rejection_message(status, msg) && errors.deep_view()
            == rejection_errors(msg) && (rb matches Some(b) && b@ == body))
    } else if id is None {
        r matches SessionStep::Failed(e) && (e matches PasteError::InvalidResponse {
            body: b,
            missing,
        } && b@ == body && missing == Some(RequiredField::Id))
    } else if url is None {
        r matches SessionStep::Failed(e) && (e matches PasteError::InvalidResponse {
            body: b,
            missing,
        } && b@ == body && missing == Some(RequiredField::Url))
    } else if token is None {
        r matches SessionStep::Failed(e) && (e matches PasteError::InvalidResponse {
            body: b,
            missing,
        } && b@ == body && missing == Some(RequiredField::DeleteToken))
    } else {
        r matches SessionStep::Done(h) && h.id@ == id->0 && h.url@ == url->0 && h.delete_token@
            == token->0 && h.shareable_secret@ == ascii_chars_of(b58_of(passphrase))
    }
}

/// Build the message for an empty reply.
fn empty_reply_text(status: u16) -> (r: String)
    ensures
        r@ == empty_reply_message(status),
{
    if status == 500 {
        String::from_str(
            "Server internal error (500) - The server encountered an error processing your request",
        )
    } else if status == 503 {
        String::from_str(
            "Service unavailable (503) - The server is temporarily unable to handle your request",
        )
    } else if status == 502 {
        String::from_str("Bad gateway (502) - The server received an invalid response from upstream")
    } else {
        String::from_str("Empty response from server")
    }
}

/// Build the message for an application-level rejection.
fn rejection_text(status: u16, msg: &Option<String>) -> (r: String)
    ensures
        r@ == rejection_message(status, opt_chars(*msg)),
{
    if status == 500 {
        String::from_str(
            "Server internal error (500) - The server encountered an error processing your request",
        )
    } else if status == 503 {
        String::from_str(
            "Service unavailable (503) - The server is temporarily unable to handle your request",
        )
    } else if status == 502 {
        String::from_str("Bad gateway (502) - The server received an invalid response from upstream")
    } else {
        match msg {
            Some(m) => m.clone(),
            None => String::from_str("Unknown error"),
        }
    }
}

} // verus!
