//! A light-client view of an Ethash proof-of-work chain, kept in a cell of a
//! UTXO-style ledger, and the rules by which that view may change.
//!
//! A transition takes the cell's data before and after, and a witness that
//! carries one block header. The header either extends the main chain, replaces
//! its tip after a reorganisation, or joins the pool of uncles. This crate
//! decodes the three payloads and decides whether the change is allowed.
//!
//! Every function here is pure. What needs the host (loading cells and
//! witnesses) or the Ethash primitives (decoding a header, checking its proof
//! of work) is done by the caller, who hands the results over as plain values.

pub mod bytes;
pub mod cell;
pub mod dag;
pub mod entry;
pub mod error;
pub mod header;
pub mod laws;
pub mod layout;
pub mod transition;
pub mod witness;

pub use cell::CellDataView;
pub use cell::HeaderInfo;
pub use entry::verify;
pub use entry::CellDataTuple;
pub use entry::ProofCheck;
pub use entry::WorkCheck;
pub use error::Error;
pub use header::DecodedHeaders;
pub use header::Header;
pub use transition::Transition;
pub use witness::DoubleNodeWithMerkleProof;
pub use witness::Witness;
