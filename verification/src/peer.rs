//! WireGuard keys and the configuration of an extra WireGuard peer.

use crate::net::IpNet;
use vstd::prelude::*;

verus! {

/// What `base64`'s standard engine (with padding) decodes from `text`: the
/// bytes, or the text of its error (`DecodeError`'s `Display`).
pub uninterp spec fn base64_decoded(text: Seq<char>) -> Result<Seq<u8>, Seq<char>>;

/// Calls `base64::Engine::decode` of `base64::engine::general_purpose::STANDARD`
/// on `text`, and on failure renders the `DecodeError` with `to_string`.
/// Trusted: the result is the decoding that `base64_decoded` names; which
/// texts decode to which bytes, and the error texts, are left unstated.
#[verifier::external_body]
fn decode_base64(text: &[char]) -> (r: Result<Vec<u8>, Vec<char>>)
    ensures
        match r {
            Ok(v) => base64_decoded(text@) == Ok::<Seq<u8>, Seq<char>>(v@),
            Err(e) => base64_decoded(text@) == Err::<Seq<u8>, Seq<char>>(e@),
        },
{
    let s: String = text.iter().collect();
    match base64::Engine::decode(&base64::engine::general_purpose::STANDARD, s) {
        Ok(v) => Ok(v),
        Err(e) => Err(e.to_string().chars().collect()),
    }
}

/// Why a text is not a key.
#[derive(Debug)]
pub enum InvalidKey {
    /// The text is not base64; the decoder's error text.
    Format(Vec<char>),
    /// The text decodes to this many bytes instead of 32.
    Length(usize),
}

pub enum InvalidKeyView {
    Format(Seq<char>),
    Length(nat),
}

impl View for InvalidKey {
    type V = InvalidKeyView;

    open spec fn view(&self) -> InvalidKeyView {
        match self {
            InvalidKey::Format(e) => InvalidKeyView::Format(e@),
            InvalidKey::Length(n) => InvalidKeyView::Length(*n as nat),
        }
    }
}

/// The 32 key bytes encoded by `text` in standard base64, or why there are
/// none.
pub open spec fn key_from_base64(text: Seq<char>) -> Result<Seq<u8>, InvalidKeyView> {
    match base64_decoded(text) {
        Ok(b) => if b.len() == 32 {
            Ok(b)
        } else {
            Err(InvalidKeyView::Length(b.len()))
        },
        Err(e) => Err(InvalidKeyView::Format(e)),
    }
}

/// The key bytes of a base64 decoding: the decoded bytes if there are
/// exactly 32 of them.
pub fn key_bytes_from_decoded(decoded: Result<Vec<u8>, Vec<char>>) -> (r: Result<Vec<u8>, InvalidKey>)
    ensures
        match (r, decoded) {
            (Ok(k), Ok(d)) => k@ == d@ && d@.len() == 32,
            (Err(e), Ok(d)) => d@.len() != 32 && e@ == InvalidKeyView::Length(d@.len()),
            (Err(e), Err(d)) => e@ == InvalidKeyView::Format(d@),
            (Ok(_), Err(_)) => false,
        },
{
    match decoded {
        Ok(v) => if v.len() == 32 {
            Ok(v)
        } else {
            Err(InvalidKey::Length(v.len()))
        },
        Err(e) => Err(InvalidKey::Format(e)),
    }
}

fn key_bytes_from_base64(text: &[char]) -> (r: Result<Vec<u8>, InvalidKey>)
    ensures
        match (r, key_from_base64(text@)) {
            (Ok(v), Ok(k)) => v@ == k,
            (Err(e), Err(k)) => e@ == k,
            _ => false,
        },
{
    key_bytes_from_decoded(decode_base64(text))
}

/// A WireGuard public key (32 bytes).
#[derive(Debug)]
pub struct PublicKey {
    bytes: Vec<u8>,
}

impl View for PublicKey {
    type V = Seq<u8>;

    closed spec fn view(&self) -> Seq<u8> {
        self.bytes@
    }
}

impl PublicKey {
    #[verifier::type_invariant]
    spec fn holds_32_bytes(self) -> bool {
        self.bytes@.len() == 32
    }

    /// Reads a key from its base64 text; an error unless the text decodes to
    /// exactly 32 bytes.
    pub fn from_base64(text: &[char]) -> (r: Result<PublicKey, InvalidKey>)
        ensures
            match (r, key_from_base64(text@)) {
                (Ok(k), Ok(b)) => k@ == b,
                (Err(e), Err(v)) => e@ == v,
                _ => false,
            },
    {
        match key_bytes_from_base64(text) {
            Ok(bytes) => Ok(PublicKey { bytes }),
            Err(e) => Err(e),
        }
    }

    /// The key bytes, of which there are 32.
    pub fn as_bytes(&self) -> (r: &[u8])
        ensures
            r@ == self@,
            r@.len() == 32,
    {
        proof {
            use_type_invariant(self);
        }
        self.bytes.as_slice()
    }
}

/// A WireGuard preshared key (32 bytes).
#[derive(Debug)]
pub struct PresharedKey {
    bytes: Vec<u8>,
}

impl View for PresharedKey {
    type V = Seq<u8>;

    closed spec fn view(&self) -> Seq<u8> {
        self.bytes@
    }
}

impl PresharedKey {
    #[verifier::type_invariant]
    spec fn holds_32_bytes(self) -> bool {
        self.bytes@.len() == 32
    }

    /// Reads a key from its base64 text; an error unless the text decodes to
    /// exactly 32 bytes.
    pub fn from_base64(text: &[char]) -> (r: Result<PresharedKey, InvalidKey>)
        ensures
            match (r, key_from_base64(text@)) {
                (Ok(k), Ok(b)) => k@ == b,
                (Err(e), Err(v)) => e@ == v,
                _ => false,
            },
    {
        match key_bytes_from_base64(text) {
            Ok(bytes) => Ok(PresharedKey { bytes }),
            Err(e) => Err(e),
        }
    }

    /// The key bytes, of which there are 32.
    pub fn as_bytes(&self) -> (r: &[u8])
        ensures
            r@ == self@,
            r@.len() == 32,
    {
        proof {
            use_type_invariant(self);
        }
        self.bytes.as_slice()
    }
}

/// An extra WireGuard peer, next to the relay.
#[derive(Debug)]
pub struct ExtraPeerConfig {
    pub public_key: PublicKey,
    pub allowed_ips: Vec<IpNet>,
    /// Host name or address with port, resolved when the peer is set up.
    pub endpoint: Vec<char>,
    pub psk: Option<PresharedKey>,
    pub persistent_keepalive_secs: Option<u16>,
    pub resolve_interval_secs: Option<u64>,
}

/// An extra peer as plain values.
pub struct ExtraPeerView {
    pub public_key: Seq<u8>,
    pub allowed_ips: Seq<IpNet>,
    pub endpoint: Seq<char>,
    pub psk: Option<Seq<u8>>,
    pub persistent_keepalive_secs: Option<u16>,
    pub resolve_interval_secs: Option<u64>,
}

impl View for ExtraPeerConfig {
    type V = ExtraPeerView;

    open spec fn view(&self) -> ExtraPeerView {
        ExtraPeerView {
            public_key: self.public_key@,
            allowed_ips: self.allowed_ips@,
            endpoint: self.endpoint@,
            psk: match self.psk {
                Some(k) => Some(k@),
                None => None,
            },
            persistent_keepalive_secs: self.persistent_keepalive_secs,
            resolve_interval_secs: self.resolve_interval_secs,
        }
    }
}

} // verus!
