//! The authoritative application boundary.
//!
//! Parsing, resolution and evaluation stay with the host. This boundary decides
//! what they have to agree on: when a source becomes an admitted application,
//! which table writes an admitted source may perform, how those writes are
//! identified and digested, and how an evaluation is answered. Table work is
//! staged against the exact captured activation context and is never published
//! here.

pub mod admission;
pub mod answer_laws;
pub mod digest;
pub mod digest_laws;
pub mod effect;
pub mod effect_laws;
pub mod error;
pub mod live;
pub mod staging_laws;

pub use admission::{
    AdmittedApplication, ApplicationAuthority, SourceFindings, StageReport, StagedActivation, StagedTableActivation,
};
pub use digest::{ActivationContext, TableMutation};
pub use effect::{
    admitted_table_schemas, EffectArgument, EffectStep, KeyComponents, ModuleSymbol, NamedTable, RowEntry,
    SourceMutationEffectHandler, TableAdmission, TableCall, TableSchema,
};
pub use error::{ApplicationError, EffectError};
pub use live::{
    AdmissionRequest, ApplicationLiveAdapter, LiveError, LiveEvalResponse, LiveMessage, SuccessEnvelope,
};
