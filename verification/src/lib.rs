//! Canonical, versioned Orna artefacts.
//!
//! Artefact bytes are independent of the compiler, source syntax, and storage
//! backend. Each decoder validates its complete input before it returns an
//! executable representation, and every artefact has exactly one encoding. The
//! application boundary decides when a source is admitted, how its table writes
//! are identified and digested, and how an evaluation is answered.

pub mod application;
pub mod artifact_codec;
pub mod big_endian;
pub mod client_plan;
pub mod codec_laws;
pub mod constant_expression;
pub mod identity;
pub mod message_laws;
pub mod parameter_artifact;
pub mod resolved_type;
pub mod server_csv_encode;
pub mod server_json_encode;
pub mod server_mutation_plan;
pub mod text;
pub mod text_laws;
