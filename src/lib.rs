//! Checks which certificate a TLS endpoint presents for a hostname and how
//! long that certificate stays valid.
//!
//! The library holds the verified logic: decoding a DER certificate into a
//! normalized record, PEM framing, choosing the certificate of a peer chain
//! that matches a hostname, the remaining-validity arithmetic and the site
//! configuration. Network I/O stays with the caller.

pub mod config;
pub mod instant;
pub mod pem;
pub mod x509;
pub mod certificate;
pub mod retrieval;

pub use certificate::{CertError, SimpleCertificate};
pub use config::{default_log_target, default_min_valid_days, default_target_port, Site, SiteConfig};
pub use instant::{remaining_whole_days, UtcInstant};
pub use pem::{der_from_pem, to_pem};
pub use retrieval::{conclude_connection, evaluate_peer_chain, unreachable_target};
