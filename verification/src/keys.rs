//! Tunnel key material as plain bytes.
//!
//! The dump format carries keys as hex or base64 text.  Decoding that text
//! is delegated to the `wireguard_keys` crate behind trusted wrappers; the
//! decoded form each wrapper hands back is the key's 32 raw bytes.

use vstd::prelude::*;

verus! {

/// What `wireguard_keys::Privkey::parse` decodes given text to: the key's
/// 32 bytes, or nothing when the text is not a well-formed key.  A function
/// of the text alone.
pub uninterp spec fn privkey_bytes_of(s: Seq<u8>) -> Option<Seq<u8>>;

/// What `wireguard_keys::Pubkey::parse` decodes given text to.
pub uninterp spec fn pubkey_bytes_of(s: Seq<u8>) -> Option<Seq<u8>>;

/// What `wireguard_keys::Secret::parse` decodes given text to.
pub uninterp spec fn secret_bytes_of(s: Seq<u8>) -> Option<Seq<u8>>;

/// Relies on `wireguard_keys::Privkey::parse`: decodes hex, base64 or
/// base32 key text into exactly 32 key bytes, rejecting anything else.
#[verifier::external_body]
pub(crate) fn parse_privkey(s: &[u8]) -> (r: Option<Vec<u8>>)
    ensures
        r is Some <==> privkey_bytes_of(s@) is Some,
        r matches Some(v) ==> Some(v@) == privkey_bytes_of(s@) && v@.len() == 32,
{
    let text = match core::str::from_utf8(s) {
        Ok(t) => t,
        Err(_) => return None,
    };
    match wireguard_keys::Privkey::parse(text) {
        Ok(k) => Some(k.to_vec()),
        Err(_) => None,
    }
}

/// Relies on `wireguard_keys::Pubkey::parse`: as [`parse_privkey`], for a
/// peer's public key.
#[verifier::external_body]
pub(crate) fn parse_pubkey(s: &[u8]) -> (r: Option<Vec<u8>>)
    ensures
        r is Some <==> pubkey_bytes_of(s@) is Some,
        r matches Some(v) ==> Some(v@) == pubkey_bytes_of(s@) && v@.len() == 32,
{
    let text = match core::str::from_utf8(s) {
        Ok(t) => t,
        Err(_) => return None,
    };
    match wireguard_keys::Pubkey::parse(text) {
        Ok(k) => Some(k.to_vec()),
        Err(_) => None,
    }
}

/// Relies on `wireguard_keys::Secret::parse`: as [`parse_privkey`], for a
/// preshared key.
#[verifier::external_body]
pub(crate) fn parse_secret(s: &[u8]) -> (r: Option<Vec<u8>>)
    ensures
        r is Some <==> secret_bytes_of(s@) is Some,
        r matches Some(v) ==> Some(v@) == secret_bytes_of(s@) && v@.len() == 32,
{
    let text = match core::str::from_utf8(s) {
        Ok(t) => t,
        Err(_) => return None,
    };
    match wireguard_keys::Secret::parse(text) {
        Ok(k) => Some(k.to_vec()),
        Err(_) => None,
    }
}

} // verus!
