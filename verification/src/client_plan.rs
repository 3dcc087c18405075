//! Canonical `orna.client-plan` artefact formats, versions 1 through 10.
//!
//! Every artefact starts with the magic bytes, a big-endian version and an
//! operation tag:
//!
//! ```text
//! magic[8] = ORNACP\0\0
//! version: u32 big-endian
//! operation: u8
//! ```
//!
//! * Version 1 returns one Boolean constant ([`boolean`]).
//! * Version 2 returns one registered opaque value ([`opaque`]).
//! * Versions 3 and 9 return one closed expression tree; version 9 holds
//!   Inspector nodes and version 3 holds none ([`expression_plan`]).
//! * Version 4 adds checked state-slot declarations ([`state`]).
//! * Version 5 wraps a plan of another version with the capabilities that it
//!   requires ([`capability`]).
//! * Version 6 awaits one SERVER resource operation ([`resource`]).
//! * Version 7 is a procedural body of ordered statements ([`procedural`]).
//! * Version 8 carries one action operation ([`action`]).
//! * Version 10 is a programmable body with branches, loops and explicit
//!   returns ([`control_flow`]).
//!
//! Expression trees are encoded node by node: a tag byte followed by the exact
//! payload of that node ([`node_codec`]). The node set of each version is closed,
//! and depth, node-count and per-node limits bound what an artefact can hold.

use vstd::prelude::*;

pub mod acceptance_laws;
pub mod action;
pub mod boolean;
pub mod capability;
pub mod contract;
pub mod contract_laws;
pub mod control_flow;
pub mod control_flow_codec;
pub mod control_flow_rules;
pub mod decode_laws;
pub mod error;
pub mod expression;
pub mod expression_plan;
pub mod flow_laws;
pub mod grammar;
pub mod header;
pub mod layout_laws;
pub mod limit_laws;
pub mod local;
pub mod node_codec;
pub mod node_decode;
pub mod node_encode;
pub mod node_laws;
pub mod node_prefix;
pub mod opaque;
pub mod operation;
pub mod operator;
pub mod placement;
pub mod plan_laws;
pub mod prefix_laws;
pub mod procedural;
pub mod procedural_laws;
pub mod procedural_rules;
pub mod refusal_laws;
pub mod resource;
pub mod state;
pub mod tag_laws;
pub mod tree_laws;

pub use self::action::ActionClientPlan;
pub use self::boolean::ClientPlan;
pub use self::capability::{
    CapabilityArgumentSource, CapabilityClientPlan, CapabilityRequirement, InnerClientPlan,
};
pub use self::control_flow::{
    ControlFlowClientPlan, ControlFlowIfBranch, ControlFlowIfStatement, ControlFlowReturnStatement,
    ControlFlowStatement, ControlFlowWhileStatement,
};
pub use self::error::ClientPlanError;
pub use self::expression::{
    ActionOperationNode, ClientExpressionNode, ControlFlowExpression, InspectOperationNode, ResourceOperationNode,
};
pub use self::expression_plan::ExpressionClientPlan;
pub use self::local::{ClientLocal, ClientLocalKind, LocalDeclaration, LocalKind};
pub use self::opaque::OpaqueClientPlan;
pub use self::operator::{
    ActionTargetDomain, ControlFlowBinaryOperator, ControlFlowUnaryOperator, InspectProjection, ResourceKind,
};
pub use self::procedural::{ClientProceduralStatement, ClientStatement, ProceduralClientPlan, ProceduralStatement};
pub use self::resource::ResourceClientPlan;
pub use self::state::{StateClientPlan, StateDefault, StateScope, StateSlot};

verus! {

/// The stable public identity of this artefact format.
pub const FORMAT_IDENTITY: &'static str = "orna.client-plan";
/// The Orna language version whose semantics this artefact executes.
pub const LANGUAGE_VERSION_IDENTITY: &'static str = "orna.language/1";
/// The client-plan version that returns one Boolean constant.
pub const FORMAT_VERSION: u32 = 1;
/// The client-plan version that returns one registered opaque value.
pub const OPAQUE_FORMAT_VERSION: u32 = 2;
/// The client-plan version that returns one closed CLIENT expression tree.
pub const EXPRESSION_FORMAT_VERSION: u32 = 3;
/// The client-plan version that returns one closed CLIENT expression tree
/// and the owning function's checked state-slot declarations.
pub const STATE_FORMAT_VERSION: u32 = 4;
/// The exact first eight bytes of every client-plan artefact: `ORNACP` and two
/// zero bytes.
pub const MAGIC: [u8; 8] = [79, 82, 78, 65, 67, 80, 0, 0];
/// The maximum accepted encoded artefact size.
pub const MAX_ARTIFACT_BYTES: usize = 16 * 1024 * 1024;
/// The maximum expression tree depth accepted by the decoder.
pub const MAX_EXPRESSION_DEPTH: usize = 64;
/// The maximum number of expression nodes in one tree.
pub const MAX_EXPRESSION_NODES: usize = 1024;
/// The maximum number of arguments in one call expression.
pub const MAX_CALL_ARGUMENTS: usize = 64;
/// The maximum number of fields in one field path.
pub const MAX_FIELD_PATH_LENGTH: usize = 64;
/// The maximum number of state slots in one state client plan.
pub const MAX_STATE_SLOTS: usize = 64;
/// The client-plan version that carries one inner plan and the owning
/// function's ordered, closed capability requirements.
pub const CAPABILITY_FORMAT_VERSION: u32 = 5;
/// The client-plan version that carries a closed expression tree with checked
/// CLIENT-to-SERVER resource operation nodes.
pub const RESOURCE_FORMAT_VERSION: u32 = 6;
/// The client-plan version that carries ordered procedural local declarations,
/// statements, and one final return expression.
pub const PROCEDURAL_FORMAT_VERSION: u32 = 7;
/// The client-plan version that carries one checked CLIENT action operation.
pub const ACTION_FORMAT_VERSION: u32 = 8;
/// The client-plan version that carries closed Inspector expression nodes.
pub const INSPECT_FORMAT_VERSION: u32 = 9;
/// The client-plan version that carries bounded programmable CLIENT control
/// flow and explicit return statements.
pub const CONTROL_FLOW_FORMAT_VERSION: u32 = 10;
/// Alias for [`CONTROL_FLOW_FORMAT_VERSION`] used by programmable CLIENT
/// callers.
pub const PROGRAMMABLE_FORMAT_VERSION: u32 = CONTROL_FLOW_FORMAT_VERSION;
/// The maximum number of ordered local declarations in a version-10 plan.
pub const MAX_CONTROL_FLOW_LOCALS: usize = 64;
/// The maximum number of statements directly contained by one version-10
/// block.
pub const MAX_CONTROL_FLOW_STATEMENTS: usize = 256;
/// The maximum number of IF/ELSIF branches in one version-10 IF statement.
pub const MAX_CONTROL_FLOW_BRANCHES: usize = 64;
/// The maximum nested block depth in a version-10 plan.
pub const MAX_CONTROL_FLOW_BLOCK_DEPTH: usize = MAX_EXPRESSION_DEPTH;

/// The maximum number of resource operation nodes in one resource plan.
pub const MAX_RESOURCE_OPERATIONS: usize = 64;
/// The maximum number of arguments in one resource operation.
pub const MAX_RESOURCE_ARGUMENTS: usize = 64;
/// The maximum number of arguments in one action operation.
pub const MAX_ACTION_ARGUMENTS: usize = 64;
/// The maximum number of local declarations in one procedural plan.
pub const MAX_PROCEDURAL_LOCALS: usize = 64;
/// The maximum number of ordered statements in one procedural plan.
pub const MAX_PROCEDURAL_STATEMENTS: usize = 256;
/// The maximum number of capability requirements in one capability plan.
pub const MAX_CAPABILITY_REQUIREMENTS: usize = 64;
/// The maximum encoded length of one capability requirement name.
pub const MAX_CAPABILITY_NAME_LENGTH: usize = 256;
/// The maximum encoded length of one capability requirement argument.
pub const MAX_CAPABILITY_ARGUMENT_LENGTH: usize = 1024;

pub const RETURN_BOOLEAN_OPERATION: u8 = 1;
pub const RETURN_OPAQUE_OPERATION: u8 = 2;
pub const RETURN_EXPRESSION_OPERATION: u8 = 3;
pub const RETURN_STATE_OPERATION: u8 = 4;
pub const RETURN_CAPABILITY_OPERATION: u8 = 5;
pub const RETURN_RESOURCE_OPERATION: u8 = 6;
pub const RETURN_PROCEDURAL_OPERATION: u8 = 7;
pub const RETURN_ACTION_OPERATION: u8 = 8;
pub const RETURN_INSPECT_OPERATION: u8 = 9;
pub const RETURN_CONTROL_FLOW_OPERATION: u8 = 10;

pub const CAPABILITY_ARGUMENT_TEXT: u8 = 1;
pub const CAPABILITY_ARGUMENT_PARAMETER: u8 = 2;

pub const RESOURCE_KIND_SCALAR: u8 = 1;
pub const RESOURCE_KIND_STREAM: u8 = 2;

/// The length of every version-1 artefact.
pub const ENCODED_LENGTH: usize = 14;
/// The length of a version-2 artefact without its payload.
pub const OPAQUE_FIXED_LENGTH: usize = 33;

pub const NODE_CALL: u8 = 1;
pub const NODE_STRING: u8 = 2;
pub const NODE_INTEGER: u8 = 3;
pub const NODE_BOOLEAN: u8 = 4;
pub const NODE_PARAMETER_READ: u8 = 5;
pub const NODE_FIELD_PATH: u8 = 6;
pub const NODE_CONCAT: u8 = 7;
pub const NODE_EXTERNAL_CONTRACT: u8 = 8;
pub const NODE_AWAIT: u8 = 9;
pub const NODE_RESOURCE: u8 = 10;
pub const NODE_LOCAL_READ: u8 = 11;
pub const NODE_ACTION: u8 = 12;
pub const NODE_INSPECT: u8 = 13;
pub const NODE_UNARY: u8 = 14;
pub const NODE_BINARY: u8 = 15;
pub const NODE_SOURCE_INTROSPECTION: u8 = 16;
pub const NODE_INPUT: u8 = 17;
pub const NODE_EVALUATE: u8 = 18;

pub const INSPECT_OPERATION_SNAPSHOT: u8 = 1;
pub const INSPECT_OPERATION_PROJECTION: u8 = 2;

pub const CONTROL_FLOW_STATEMENT_LET: u8 = 1;
pub const CONTROL_FLOW_STATEMENT_ASSIGNMENT: u8 = 2;
pub const CONTROL_FLOW_STATEMENT_RETURN: u8 = 3;
pub const CONTROL_FLOW_STATEMENT_IF: u8 = 4;
pub const CONTROL_FLOW_STATEMENT_WHILE: u8 = 5;
pub const CONTROL_FLOW_RETURN_NONE: u8 = 0;
pub const CONTROL_FLOW_RETURN_EXPRESSION: u8 = 1;
pub const CONTROL_FLOW_ELSE_NONE: u8 = 0;
pub const CONTROL_FLOW_ELSE_BODY: u8 = 1;

pub const PROCEDURAL_STATEMENT_LET: u8 = 1;
pub const PROCEDURAL_STATEMENT_ASSIGNMENT: u8 = 2;
pub const LOCAL_KIND_VALUE: u8 = 0;
pub const LOCAL_KIND_RESOURCE_SCALAR: u8 = 1;
pub const LOCAL_KIND_RESOURCE_STREAM: u8 = 2;

pub const STATE_SCOPE_LOCAL: u8 = 1;
pub const STATE_SCOPE_SESSION: u8 = 2;
pub const STATE_SCOPE_USER: u8 = 3;

pub const STATE_DEFAULT_UNSET: u8 = 0;
pub const STATE_DEFAULT_NULL: u8 = 1;
pub const STATE_DEFAULT_EXPRESSION: u8 = 2;


} // verus!
