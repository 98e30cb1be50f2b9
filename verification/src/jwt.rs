//! Signed-claims handling: session and QR claims, token framing, and the
//! trusted signing primitives.
//!
//! A token is the crate's own dot-separated decimal payload followed by
//! its HMAC-SHA256 signature; the signing and checking are the
//! jsonwebtoken library's, but the envelope is not the JSON-in-base64url
//! wire format, so tokens are opaque to other token consumers.

pub mod generate;
pub mod hashing;
pub mod models;
