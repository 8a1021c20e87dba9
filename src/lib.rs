//! The core of a minimal TLS 1.2 client (ECDHE-RSA with ChaCha20-Poly1305 and
//! SHA-256), without its I/O: a DER reader and X.509 certificate decoder;
//! record framing, numbering and protection; the handshake messages and
//! state machine; and SHA-256, HMAC, the PRF, ChaCha20 and Poly1305. The
//! P-256 arithmetic of the key exchange is not part of it.
pub mod aead;
pub mod alert;
pub mod chacha20;
pub mod client;
pub mod der;
pub mod fields;
pub mod handshake;
pub mod messages;
pub mod poly1305;
pub mod prf;
pub mod record;
pub mod sha256;
pub mod x509;
