//! Ingestion of LPK asset packages: key derivation, the chunked stream
//! cipher, content sniffing and the rewriting of a package into a plain
//! asset tree, all on in-memory values.

pub mod cipher;
pub mod container;
pub mod extract;
pub mod hash;
pub mod laws;
pub mod manifest;
pub mod names;
pub mod outside;
pub mod protocol;
pub mod sniff;
pub mod table;
pub mod text;
pub mod window;
