//! Artifact materialization pipeline for arithmetic-circuit proofs.
//!
//! The library derives the public view of a circuit's input schema,
//! encodes named input values into an ordered sequence of field
//! elements, decodes hex-encoded proof blobs into raw bytes, and
//! drives the per-target pipeline that a surrounding program runs
//! against a compiler and a proving backend.

mod abi;
mod driver;
mod hex;

pub use abi::Abi;
pub use abi::AbiError;
pub use abi::AbiParameter;
pub use abi::AbiReturnType;
pub use abi::AbiType;
pub use abi::AbiVisibility;
pub use abi::FieldElement;
pub use abi::InputValue;
pub use abi::SchemaError;
pub use abi::ValueShape;
pub use abi::encode_items;
pub use abi::encode_value;
pub use abi::lemma_public_params_public;
pub use abi::lookup_value;
pub use abi::names_unique;
pub use abi::public_params;
pub use abi::public_return;
pub use abi::shape_of;
pub use abi::type_width;
pub use abi::value_matches;
pub use abi::encode_params;
pub use abi::entry_names_unique;
pub use abi::lemma_encode_deterministic;
pub use abi::lemma_encode_insensitive_to_entry_order;
pub use abi::lemma_encode_value_width;
pub use abi::lemma_encoded_length;
pub use abi::params_width;
pub use abi::lemma_encode_reads_only_view_names;
pub use abi::spec_encode;
pub use driver::ArtifactTriple;
pub use driver::PackageSelection;
pub use driver::TargetError;
pub use driver::TargetEvent;
pub use driver::TargetState;
pub use driver::event_fits;
pub use driver::run_succeeded;
pub use driver::select_packages;
pub use driver::target_step;
pub use hex::ProofError;
pub use hex::decode_proof_hex;
pub use hex::decoded_byte;
pub use hex::decoded_bytes;
pub use hex::hex_digit_value;
pub use hex::is_hex_digit;
pub use hex::well_formed_hex;
