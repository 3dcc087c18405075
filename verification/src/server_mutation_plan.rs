//! Canonical `orna.server-mutation-plan` artefact formats, versions 1 to 4.
//!
//! The formats carry only stable Orna identities and the closed expression set
//! that single-object INSERT, UPDATE and DELETE need. They hold no source names,
//! SQL, storage names, runtime object identities, or source locations.
//!
//! * Version 1 inserts one object: a target, an ordered assignment list and the
//!   returned object type.
//! * Version 2 updates one object: it adds the parameter that selects it.
//! * Version 3 deletes one object. It has no assignments and a fixed BOOLEAN
//!   result, so it is a plan of its own ([`ServerDeletePlan`]).
//! * Version 4 is an INSERT with at least one record constructor.
//!
//! What depends on a catalogue, such as whether a field exists, is checked
//! elsewhere.

use vstd::prelude::*;

pub mod acceptance_laws;
pub mod builder_laws;
pub mod codec;
pub mod delete;
pub mod error;
pub mod laws;
pub mod layout_laws;
pub mod model;
pub mod prefix_laws;
pub mod rules;

pub use self::delete::ServerDeletePlan;
pub use self::error::ServerMutationPlanError;
pub use self::model::{
    FieldAssignment, MutationExpression, MutationExpressionKind, MutationSelector, RecordFieldExpression,
    RecordFieldExpressionKind, ServerMutationOperation, ServerMutationPlan,
};

verus! {

/// The stable public identity of this artefact format.
pub const FORMAT_IDENTITY: &'static str = "orna.server-mutation-plan";

/// The Orna language version whose semantics this artefact version executes.
pub const LANGUAGE_VERSION_IDENTITY: &'static str = "orna.language/1";

/// The version used by INSERT artefacts without a record constructor.
pub const FORMAT_VERSION: u32 = 1;

/// The version used by INSERT artefacts without a record constructor.
pub const INSERT_FORMAT_VERSION: u32 = FORMAT_VERSION;

/// The version used by UPDATE artefacts.
pub const UPDATE_FORMAT_VERSION: u32 = 2;

/// The version used by DELETE artefacts.
pub const DELETE_FORMAT_VERSION: u32 = 3;

/// The version used by INSERT artefacts that contain a record constructor.
pub const RECORD_INSERT_FORMAT_VERSION: u32 = 4;

/// The exact first eight bytes of every server-mutation-plan artefact:
/// `ORNAMP` and two zero bytes.
pub const MAGIC: [u8; 8] = [79, 82, 78, 65, 77, 80, 0, 0];

/// The maximum number of field assignments in one mutation plan.
pub const MAX_ASSIGNMENTS: u32 = 1_024;

/// The maximum number of fields in one record constructor.
pub const MAX_RECORD_FIELDS: u32 = 1_024;

/// The maximum accepted encoded artefact size.
pub const MAX_ARTIFACT_BYTES: usize = 16 * 1024 * 1024;

/// The operation tag of INSERT.
pub const INSERT_OPERATION_TAG: u8 = 1;

/// The operation tag of UPDATE.
pub const UPDATE_OPERATION_TAG: u8 = 2;

/// The operation tag of DELETE.
pub const DELETE_OPERATION_TAG: u8 = 3;

/// The expression tag of a parameter read.
pub const PARAMETER_EXPRESSION_TAG: u8 = 1;

/// The expression tag of a BOOLEAN literal.
pub const BOOLEAN_EXPRESSION_TAG: u8 = 2;

/// The expression tag of a typed NULL.
pub const TYPED_NULL_EXPRESSION_TAG: u8 = 3;

/// The expression tag of a record constructor.
pub const RECORD_CONSTRUCTOR_EXPRESSION_TAG: u8 = 4;

/// The type tag of a scalar type.
pub const SCALAR_TYPE_TAG: u8 = 1;

/// The type tag of a nominal type.
pub const NAMED_TYPE_TAG: u8 = 2;

/// The type tag of a reference type.
pub const REFERENCE_TYPE_TAG: u8 = 3;

/// The scalar tag of BOOLEAN.
pub const BOOLEAN_SCALAR_TAG: u8 = 1;

/// The scalar tag of INTEGER.
pub const INTEGER_SCALAR_TAG: u8 = 2;

/// The scalar tag of BIGINT.
pub const BIGINT_SCALAR_TAG: u8 = 3;

/// The scalar tag of FLOAT.
pub const FLOAT_SCALAR_TAG: u8 = 4;

/// The scalar tag of CHARACTER LARGE OBJECT.
pub const CLOB_SCALAR_TAG: u8 = 6;

/// The scalar tag of BINARY LARGE OBJECT.
pub const BLOB_SCALAR_TAG: u8 = 7;

} // verus!
