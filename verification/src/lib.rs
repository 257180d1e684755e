//! Client-side encrypted paste creation, with the supporting utility logic
//! of the surrounding command-line tools.
//!
//! The heart of the crate is the paste pipeline: a random passphrase and salt
//! feed a key derivation, the paste content is serialized to compact JSON and
//! optionally compressed, the result is sealed with an authenticated cipher,
//! and the sealed payload is packaged into the exact wire document the paste
//! service expects. The passphrase is returned to the caller in a base-58
//! form suitable for a URL fragment and is never transmitted.

pub mod aead;
pub mod b58;
pub mod b64;
pub mod breaks;
pub mod client;
pub mod codec;
pub mod filekind;
pub mod gitflow;
pub mod hutpaste;
pub mod jsonesc;
pub mod kdf;
pub mod keymap;
pub mod passwords;
pub mod ratio;
pub mod response;
pub mod retry;
pub mod rng;
pub mod signscan;
pub mod signstyle;
pub mod strbytes;
pub mod sysinfo;
pub mod wallabag;
pub mod wc;
pub mod zlib;
