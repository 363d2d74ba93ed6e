//! Verified core of the Hawk HTTP authentication scheme: the canonical
//! signing string, HMAC-SHA-256 signing and verification, and the header
//! codec that serializes and parses `Hawk` authorization header values.

pub mod base64;
pub mod bytes;
pub mod mac;
pub mod num;
pub mod parse;
pub mod scheme;
