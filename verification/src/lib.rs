//! # pdf_signer
//!
//! Library to **digitally sign** (PAdES) and **verify** PDF documents with a PKCS#12
//! (`.p12`/`.pfx`) keystore.
//!
//! ## What it does
//! * [`sign_pdf_bytes`]: append a signature field (optionally with a visible
//!   appearance) and an `ETSI.CAdES.detached` CMS signature as an **incremental
//!   update**, so any prior signature stays valid. Targets PAdES B-B through B-LTA
//!   (RFC 3161 signature & document timestamps, `/DSS`). What has to be fetched on the
//!   way is handed out step by step, and [`resume`] goes on with the replies.
//! * [`verify_pdf_bytes`]: re-extract the signed byte range, validate the CMS signature
//!   cryptographically, report signer info, and optionally validate the signer chain
//!   against a [`TrustStore`].
//!
//! ## Notes
//! * Keys: RSA (PKCS#1 v1.5), ECDSA (P-256/P-384), Ed25519.
//! * Incremental updates support both classic xref tables and xref streams.
pub mod appearance;
pub mod archive_laws;
pub mod baseline_laws;
pub mod certificate;
pub mod clock;
pub mod counter_laws;
pub mod der_laws;
pub mod der_reader;
pub mod dictionary_laws;
pub mod digest;
pub mod document;
pub mod dss;
pub mod dss_laws;
pub mod error;
pub mod fetch_laws;
pub mod filters;
pub mod find_laws;
pub mod http;
pub mod incremental;
pub mod key_laws;
pub mod keys;
pub mod keystore;
pub mod keystore_laws;
pub mod level_laws;
pub mod lexer;
pub mod locate;
pub mod material;
pub mod name_laws;
pub mod names;
pub mod net_laws;
pub mod object;
pub mod oids;
pub mod options;
pub mod page_laws;
pub mod path_laws;
pub mod placeholder;
pub mod placeholder_laws;
pub mod policy;
pub mod policy_laws;
pub mod reading;
pub mod report_laws;
pub mod revocation;
pub mod revocation_laws;
pub mod roundtrip_laws;
pub mod scaling;
pub mod scaling_laws;
pub mod show_laws;
pub mod sign;
pub mod sign_laws;
pub mod signature_laws;
pub mod signed_data;
pub mod signer;
pub mod sorting;
pub mod sorting_laws;
pub mod testkit;
pub mod text;
pub mod time_laws;
pub mod timestamp;
pub mod tree_laws;
pub mod trust;
pub mod trust_laws;
pub mod tsa;
pub mod update;
pub mod update_laws;
pub mod util;
pub mod verdict_laws;
pub mod verify;
pub mod writer;
pub mod writer_laws;
pub mod xref_laws;

pub use error::Error;
pub use options::{Appearance, PadesLevel, SignOptions};
pub use sign::{resume, sign_pdf_bytes, sign_pdf_bytes_at, Pending, Request, Step};
pub use trust::TrustStore;
pub use verify::{
    verify_certificate_chain, verify_pdf_bytes, verify_pdf_bytes_at, verify_pdf_bytes_with_roots, SignatureReport,
    VerifiedSignature,
};
