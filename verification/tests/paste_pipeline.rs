use base64::Engine as _;
use rand::Rng;
use std::io::Write;

use rpaste::aead::seal;
use rpaste::b58::base58_decode;
use rpaste::b58::base58_encode;
use rpaste::b64::b64_decode_bytes;
use rpaste::b64::b64_encode_bytes;
use rpaste::client::InvalidReason;
use rpaste::client::PasteError;
use rpaste::client::PasteOptions;
use rpaste::client::PasteSession;
use rpaste::client::SessionStep;
use rpaste::client::paste_round_trip;
use rpaste::codec::PasteAttachment;
use rpaste::codec::PasteContent;
use rpaste::codec::plaintext_bytes;
use rpaste::codec::prepare_associated_data;
use rpaste::rng::generate_paste_secrets;

fn opts(compress: bool, max_retries: u32) -> PasteOptions {
    PasteOptions {
        url: "https://paste.example.org/".to_string(),
        password: None,
        expire: "1month".to_string(),
        formatter: "plaintext".to_string(),
        burn: false,
        opendiscussion: false,
        compress,
        max_retries,
        initial_delay_ms: 100,
    }
}

fn text_content(text: &str) -> PasteContent {
    PasteContent {
        text: Some(text.to_string()),
        attachment: None,
    }
}

#[test]
fn round_trip_recovers_text() {
    let r = paste_round_trip("hello world".to_string(), &opts(false, 3));
    assert_eq!(r.unwrap(), b"hello world".to_vec());
}

#[test]
fn round_trip_recovers_text_compressed() {
    let r = paste_round_trip("a longer text that compresses: aaaa aaaa aaaa".to_string(), &opts(true, 3));
    assert_eq!(r.unwrap(), b"a longer text that compresses: aaaa aaaa aaaa".to_vec());
}

#[test]
fn round_trip_with_password() {
    let mut o = opts(false, 3);
    o.password = Some("hunter2".to_string());
    let r = paste_round_trip("secret note".to_string(), &o);
    assert_eq!(r.unwrap(), b"secret note".to_vec());
}

#[test]
fn reference_decrypt_matches_privatebin_scheme() {
    // Decrypt the sealed payload exactly as a PrivateBin-compatible client
    // would, using only the shareable secret and the transported fields.
    let content = text_content("interop check");
    let o = opts(true, 3);
    let s = PasteSession::begin(&content, &o).unwrap();
    let secret = s.shareable_secret();

    // recover the passphrase from the URL-fragment form
    let passphrase = base58_decode(&secret).unwrap();
    assert_eq!(passphrase, s.passphrase);

    // derive the key with PBKDF2-HMAC-SHA256, 100000 iterations
    let mut key = vec![0u8; 32];
    ring::pbkdf2::derive(
        ring::pbkdf2::PBKDF2_HMAC_SHA256,
        core::num::NonZeroU32::new(100_000).unwrap(),
        &s.salt,
        &passphrase,
        &mut key,
    );

    // decrypt with AES-256-GCM over the exact associated-data bytes
    let ct = base64::engine::general_purpose::STANDARD
        .decode(String::from_utf8(s.ct_b64.clone()).unwrap())
        .unwrap();
    let unbound = ring::aead::UnboundKey::new(&ring::aead::AES_256_GCM, &key).unwrap();
    let opening = ring::aead::LessSafeKey::new(unbound);
    let nonce = ring::aead::Nonce::try_assume_unique_for_key(&s.nonce).unwrap();
    let mut data = ct;
    let pt = opening
        .open_in_place(nonce, ring::aead::Aad::from(&s.adata), &mut data)
        .unwrap()
        .to_vec();

    // inflate and read the plaintext JSON
    let mut dec = flate2::write::ZlibDecoder::new(Vec::new());
    dec.write_all(&pt).unwrap();
    let blob = dec.finish().unwrap();
    let v: serde_json::Value = serde_json::from_slice(&blob).unwrap();
    assert_eq!(v["paste"], "interop check");
}

#[test]
fn tampered_ciphertext_fails_authentication() {
    let key = [7u8; 32];
    let nonce = [9u8; 12];
    let aad = b"associated data";
    let mut ct = seal(&key, &nonce, aad, b"payload").unwrap();
    ct[0] ^= 1;
    let unbound = ring::aead::UnboundKey::new(&ring::aead::AES_256_GCM, &key).unwrap();
    let opening = ring::aead::LessSafeKey::new(unbound);
    let n = ring::aead::Nonce::try_assume_unique_for_key(&nonce).unwrap();
    assert!(opening.open_in_place(n, ring::aead::Aad::from(aad), &mut ct).is_err());
}

#[test]
fn tampered_adata_fails_authentication() {
    let key = [7u8; 32];
    let nonce = [9u8; 12];
    let aad = b"associated data".to_vec();
    let mut ct = seal(&key, &nonce, &aad, b"payload").unwrap();
    let mut bad_aad = aad.clone();
    bad_aad[3] ^= 1;
    let unbound = ring::aead::UnboundKey::new(&ring::aead::AES_256_GCM, &key).unwrap();
    let opening = ring::aead::LessSafeKey::new(unbound);
    let n = ring::aead::Nonce::try_assume_unique_for_key(&nonce).unwrap();
    assert!(opening.open_in_place(n, ring::aead::Aad::from(&bad_aad), &mut ct).is_err());
}

#[test]
fn fresh_secrets_never_repeat() {
    let mut seen = std::collections::HashSet::new();
    for _ in 0..1000 {
        let (pass, salt, nonce) = generate_paste_secrets();
        assert!(seen.insert(pass));
        assert!(seen.insert(salt));
        assert!(seen.insert(nonce));
    }
    let a = PasteSession::begin(&text_content("x"), &opts(false, 3)).unwrap();
    let b = PasteSession::begin(&text_content("x"), &opts(false, 3)).unwrap();
    assert_ne!(a.passphrase, b.passphrase);
    assert_ne!(a.salt, b.salt);
    assert_ne!(a.nonce, b.nonce);
}

#[test]
fn plaintext_blob_for_plain_text() {
    let blob = plaintext_bytes(&text_content("hello"));
    assert_eq!(blob, b"{\"paste\":\"hello\"}".to_vec());
}

#[test]
fn plaintext_blob_escapes_like_the_reference_serializer() {
    let blob = plaintext_bytes(&text_content("a\"b\nc\\d\u{1}e"));
    let mut m = serde_json::Map::new();
    m.insert(
        "paste".to_string(),
        serde_json::Value::String("a\"b\nc\\d\u{1}e".to_string()),
    );
    let expected = serde_json::to_vec(&serde_json::Value::Object(m)).unwrap();
    assert_eq!(blob, expected);
}

#[test]
fn plaintext_blob_with_attachment() {
    let content = PasteContent {
        text: Some("note".to_string()),
        attachment: Some(PasteAttachment {
            name: "a.bin".to_string(),
            mime: "application/octet-stream".to_string(),
            data: vec![0, 1, 2],
        }),
    };
    let blob = plaintext_bytes(&content);
    assert_eq!(
        String::from_utf8(blob).unwrap(),
        "{\"paste\":\"note\",\"attachment\":\"data:application/octet-stream;base64,AAEC\",\"attachment_name\":\"a.bin\"}"
    );
}

#[test]
fn associated_data_is_exact_and_sensitive() {
    let iv = [0u8; 12];
    let salt = [0u8; 8];
    let adata = prepare_associated_data(&iv, &salt, "plaintext", false, true, true);
    assert_eq!(
        String::from_utf8(adata.clone()).unwrap(),
        "[[\"AAAAAAAAAAAAAAAA\",\"AAAAAAAAAAA=\",100000,256,96,\"aes\",\"gcm\",\"zlib\"],\"plaintext\",0,1]"
    );
    // determinism
    assert_eq!(adata, prepare_associated_data(&iv, &salt, "plaintext", false, true, true));
    // every field change shows in the bytes
    assert_ne!(adata, prepare_associated_data(&[1u8; 12], &salt, "plaintext", false, true, true));
    assert_ne!(adata, prepare_associated_data(&iv, &[1u8; 8], "plaintext", false, true, true));
    assert_ne!(adata, prepare_associated_data(&iv, &salt, "markdown", false, true, true));
    assert_ne!(adata, prepare_associated_data(&iv, &salt, "plaintext", true, true, true));
    assert_ne!(adata, prepare_associated_data(&iv, &salt, "plaintext", false, false, true));
    assert_ne!(adata, prepare_associated_data(&iv, &salt, "plaintext", false, true, false));
}

#[test]
fn wire_document_has_the_expected_shape() {
    let content = text_content("wire shape");
    let o = opts(false, 3);
    let s = PasteSession::begin(&content, &o).unwrap();
    let v: serde_json::Value = serde_json::from_slice(&s.request_body).unwrap();
    assert_eq!(v["v"], 2);
    let adata = v["adata"].as_array().unwrap();
    assert_eq!(adata.len(), 4);
    let cipher = adata[0].as_array().unwrap();
    assert_eq!(cipher.len(), 8);
    assert_eq!(cipher[2], 100000);
    assert_eq!(cipher[3], 256);
    assert_eq!(cipher[4], 96);
    assert_eq!(cipher[5], "aes");
    assert_eq!(cipher[6], "gcm");
    assert_eq!(cipher[7], "none");
    assert_eq!(adata[1], "plaintext");
    assert_eq!(adata[2], 0);
    assert_eq!(adata[3], 0);
    let ct = base64::engine::general_purpose::STANDARD
        .decode(v["ct"].as_str().unwrap())
        .unwrap();
    assert!(ct.len() > 16);
    assert_eq!(v["meta"]["expire"], "1month");
    assert_eq!(s.request_url, "https://paste.example.org/api/new");
    // the serialized adata inside the document matches the authenticated bytes
    let adata_str = serde_json::to_string(&v["adata"]).unwrap();
    assert_eq!(adata_str.as_bytes().to_vec(), s.adata);
}

#[test]
fn begin_rejects_empty_content_and_bad_url() {
    let o = opts(false, 3);
    let empty = PasteContent { text: None, attachment: None };
    match PasteSession::begin(&empty, &o) {
        Err(PasteError::InvalidOptions(InvalidReason::NoContent)) => {}
        _ => panic!("empty content must be rejected"),
    }
    let mut bad = opts(false, 3);
    bad.url = "ftp://paste.example.org/".to_string();
    match PasteSession::begin(&text_content("x"), &bad) {
        Err(PasteError::InvalidOptions(InvalidReason::BadUrl)) => {}
        _ => panic!("a non-http url must be rejected"),
    }
}

#[test]
fn empty_500_reply_retries_then_fails_with_api_error() {
    let mut s = PasteSession::begin(&text_content("x"), &opts(false, 3)).unwrap();
    match s.on_http_response(500, String::new()) {
        SessionStep::RetryAfter { delay_ms } => assert_eq!(delay_ms, 100),
        _ => panic!("first empty reply must be retried"),
    }
    match s.on_http_response(500, String::new()) {
        SessionStep::RetryAfter { delay_ms } => assert_eq!(delay_ms, 200),
        _ => panic!("second empty reply must be retried"),
    }
    match s.on_http_response(500, String::new()) {
        SessionStep::Failed(PasteError::ApiError { status, message, errors, body }) => {
            assert_eq!(status, Some(500));
            assert!(message.contains("Server internal error"));
            assert!(errors.is_empty());
            assert!(body.is_none());
        }
        _ => panic!("the attempt ceiling must end in an API error"),
    }
}

#[test]
fn rejection_reply_fails_immediately_without_retry() {
    let mut s = PasteSession::begin(&text_content("x"), &opts(false, 3)).unwrap();
    match s.on_http_response(200, "{\"status\":1,\"message\":\"bad request\"}".to_string()) {
        SessionStep::Failed(PasteError::ApiError { status, message, errors, body }) => {
            assert_eq!(status, Some(200));
            assert_eq!(message, "bad request");
            assert_eq!(errors, vec!["bad request".to_string()]);
            assert_eq!(body.as_deref(), Some("{\"status\":1,\"message\":\"bad request\"}"));
        }
        _ => panic!("an application-level rejection must fail at once"),
    }
}

#[test]
fn success_reply_yields_handle_with_secret() {
    let mut s = PasteSession::begin(&text_content("x"), &opts(false, 3)).unwrap();
    let expected_secret = s.shareable_secret();
    let body = "{\"status\":0,\"id\":\"abc123\",\"url\":\"/?abc123\",\"deletetoken\":\"tok\"}";
    match s.on_http_response(200, body.to_string()) {
        SessionStep::Done(h) => {
            assert_eq!(h.id, "abc123");
            assert_eq!(h.url, "/?abc123");
            assert_eq!(h.delete_token, "tok");
            assert_eq!(h.shareable_secret, expected_secret);
        }
        _ => panic!("a complete success reply must finish the paste"),
    }
}

#[test]
fn missing_fields_and_junk_replies_are_invalid() {
    let mut s = PasteSession::begin(&text_content("x"), &opts(false, 3)).unwrap();
    match s.on_http_response(200, "{\"status\":0,\"url\":\"/u\",\"deletetoken\":\"t\"}".to_string()) {
        SessionStep::Failed(PasteError::InvalidResponse { missing, .. }) => {
            assert!(missing.is_some());
        }
        _ => panic!("a reply without an id is invalid"),
    }
    let mut s2 = PasteSession::begin(&text_content("x"), &opts(false, 3)).unwrap();
    match s2.on_http_response(200, "not json at all".to_string()) {
        SessionStep::Failed(PasteError::InvalidResponse { missing, body }) => {
            assert!(missing.is_none());
            assert_eq!(body, "not json at all");
        }
        _ => panic!("a non-JSON reply is invalid"),
    }
}

#[test]
fn transport_failures_follow_the_retry_policy() {
    let mut s = PasteSession::begin(&text_content("x"), &opts(false, 2)).unwrap();
    match s.on_transport_failure("connection refused".to_string()) {
        SessionStep::RetryAfter { delay_ms } => assert_eq!(delay_ms, 100),
        _ => panic!("the first transport failure must be retried"),
    }
    match s.on_transport_failure("connection refused".to_string()) {
        SessionStep::Failed(PasteError::TransportError { detail }) => {
            assert_eq!(detail, "connection refused");
        }
        _ => panic!("exhausted transport failures must surface the error"),
    }
}

#[test]
fn base58_round_trips_with_leading_zeros() {
    let encoded = base58_encode(&[0x00, 0x00, 0x01]);
    assert_eq!(encoded, "112");
    assert_eq!(base58_decode(&encoded).unwrap(), vec![0x00, 0x00, 0x01]);
    assert_eq!(base58_encode(&[]), "");
    assert_eq!(base58_decode("").unwrap(), Vec::<u8>::new());
    assert_eq!(base58_encode(&[0x00]), "1");
    assert_eq!(base58_decode("1").unwrap(), vec![0x00]);
}

#[test]
fn base58_matches_the_reference_vector() {
    assert_eq!(base58_encode(b"hello world"), "StV1DL6CwTryKyV");
    assert_eq!(base58_decode("StV1DL6CwTryKyV").unwrap(), b"hello world".to_vec());
}

#[test]
fn base58_rejects_ambiguous_characters() {
    assert!(base58_decode("0").is_none());
    assert!(base58_decode("O").is_none());
    assert!(base58_decode("I").is_none());
    assert!(base58_decode("l").is_none());
    assert!(base58_decode("1 2").is_none());
}

#[test]
fn base58_round_trips_random_inputs() {
    let mut rng = rand::rng();
    for len in 0..40usize {
        let mut v = vec![0u8; len];
        rng.fill(&mut v[..]);
        let encoded = base58_encode(&v);
        assert_eq!(base58_decode(&encoded).unwrap(), v);
    }
}

#[test]
fn base64_matches_the_reference_implementation() {
    let cases: Vec<Vec<u8>> = vec![
        vec![],
        vec![0],
        vec![255],
        vec![0, 1],
        vec![0, 1, 2],
        vec![0, 1, 2, 3],
        b"any carnal pleasure.".to_vec(),
        (0u8..=255).collect(),
    ];
    for v in cases {
        let ours = String::from_utf8(b64_encode_bytes(&v)).unwrap();
        let reference = base64::engine::general_purpose::STANDARD.encode(&v);
        assert_eq!(ours, reference);
        assert_eq!(b64_decode_bytes(ours.as_bytes()).unwrap(), v);
    }
}

#[test]
fn base64_rejects_malformed_input() {
    assert!(b64_decode_bytes(b"abc").is_none());
    assert!(b64_decode_bytes(b"ab=c").is_none());
    assert!(b64_decode_bytes(b"!!!!").is_none());
}

#[test]
fn error_messages_carry_the_summary_line() {
    let e = PasteError::ApiError {
        status: Some(500),
        message: "boom".to_string(),
        errors: Vec::new(),
        body: None,
    };
    assert_eq!(e.message(), "Error: API request failed: boom (Status: 500)");
    let e2 = PasteError::InvalidOptions(InvalidReason::NoContent);
    assert_eq!(e2.message(), "Error: No content to paste");
    let e3 = PasteError::InvalidResponse { body: "junk".to_string(), missing: None };
    assert_eq!(e3.message(), "Error: Invalid response from server: junk");
}
