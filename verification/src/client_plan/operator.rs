//! The closed tag sets of expression nodes.

use vstd::prelude::*;

use crate::client_plan::error::ClientPlanError;
use crate::client_plan::{RESOURCE_KIND_SCALAR, RESOURCE_KIND_STREAM};

verus! {

/// One of the eight bounded Inspector projections.
#[derive(Clone, Copy, Debug, PartialEq, Eq, Structural)]
pub enum InspectProjection {
    InvocationNodes,
    Calls,
    Resources,
    StateCells,
    UiNodes,
    PresentationCandidates,
    RuntimeBindings,
    SecurityDecisions,
}

impl InspectProjection {
    /// The wire tag of this projection.
    pub open spec fn wire(self) -> u8 {
        match self {
            InspectProjection::InvocationNodes => 1,
            InspectProjection::Calls => 2,
            InspectProjection::Resources => 3,
            InspectProjection::StateCells => 4,
            InspectProjection::UiNodes => 5,
            InspectProjection::PresentationCandidates => 6,
            InspectProjection::RuntimeBindings => 7,
            InspectProjection::SecurityDecisions => 8,
        }
    }

    /// The projection that a wire tag stands for.
    pub open spec fn of_wire(tag: u8) -> Option<InspectProjection> {
        if tag == 1 {
            Some(InspectProjection::InvocationNodes)
        } else if tag == 2 {
            Some(InspectProjection::Calls)
        } else if tag == 3 {
            Some(InspectProjection::Resources)
        } else if tag == 4 {
            Some(InspectProjection::StateCells)
        } else if tag == 5 {
            Some(InspectProjection::UiNodes)
        } else if tag == 6 {
            Some(InspectProjection::PresentationCandidates)
        } else if tag == 7 {
            Some(InspectProjection::RuntimeBindings)
        } else if tag == 8 {
            Some(InspectProjection::SecurityDecisions)
        } else {
            None
        }
    }

    /// Returns the wire tag.
    pub fn tag(self) -> (tag: u8)
        ensures
            tag == self.wire(),
            InspectProjection::of_wire(tag) == Some(self),
    {
        match self {
            InspectProjection::InvocationNodes => 1,
            InspectProjection::Calls => 2,
            InspectProjection::Resources => 3,
            InspectProjection::StateCells => 4,
            InspectProjection::UiNodes => 5,
            InspectProjection::PresentationCandidates => 6,
            InspectProjection::RuntimeBindings => 7,
            InspectProjection::SecurityDecisions => 8,
        }
    }

    /// Reads a wire tag.
    pub fn from_tag(tag: u8) -> (result: Result<InspectProjection, ClientPlanError>)
        ensures
            match InspectProjection::of_wire(tag) {
                Some(value) => result == Ok::<InspectProjection, ClientPlanError>(value) && value.wire() == tag,
                None => result == Err::<InspectProjection, _>(ClientPlanError::InvalidInspectProjection(tag)),
            },
    {
        match tag {
            1 => Ok(InspectProjection::InvocationNodes),
            2 => Ok(InspectProjection::Calls),
            3 => Ok(InspectProjection::Resources),
            4 => Ok(InspectProjection::StateCells),
            5 => Ok(InspectProjection::UiNodes),
            6 => Ok(InspectProjection::PresentationCandidates),
            7 => Ok(InspectProjection::RuntimeBindings),
            8 => Ok(InspectProjection::SecurityDecisions),
            tag => Err(ClientPlanError::InvalidInspectProjection(tag)),
        }
    }
}

/// One unary operator in the version-10 programmable CLIENT expression
/// language. `Plus` and `Minus` operate on checked signed `INTEGER` values;
/// `Not` operates on a strict `BOOLEAN` value.
#[derive(Clone, Copy, Debug, PartialEq, Eq, Structural)]
pub enum ControlFlowUnaryOperator {
    /// Unary plus; leaves an INTEGER operand unchanged.
    Plus,
    /// Checked unary negation of an INTEGER operand.
    Minus,
    /// Boolean negation of a BOOLEAN operand.
    Not,
}

impl ControlFlowUnaryOperator {
    /// The wire tag of this operator.
    pub open spec fn wire(self) -> u8 {
        match self {
            ControlFlowUnaryOperator::Plus => 1,
            ControlFlowUnaryOperator::Minus => 2,
            ControlFlowUnaryOperator::Not => 3,
        }
    }

    /// The operator that a wire tag stands for.
    pub open spec fn of_wire(tag: u8) -> Option<ControlFlowUnaryOperator> {
        if tag == 1 {
            Some(ControlFlowUnaryOperator::Plus)
        } else if tag == 2 {
            Some(ControlFlowUnaryOperator::Minus)
        } else if tag == 3 {
            Some(ControlFlowUnaryOperator::Not)
        } else {
            None
        }
    }

    /// Returns the wire tag.
    pub fn tag(self) -> (tag: u8)
        ensures
            tag == self.wire(),
            ControlFlowUnaryOperator::of_wire(tag) == Some(self),
    {
        match self {
            ControlFlowUnaryOperator::Plus => 1,
            ControlFlowUnaryOperator::Minus => 2,
            ControlFlowUnaryOperator::Not => 3,
        }
    }

    /// Reads a wire tag.
    pub fn from_tag(tag: u8) -> (result: Result<ControlFlowUnaryOperator, ClientPlanError>)
        ensures
            match ControlFlowUnaryOperator::of_wire(tag) {
                Some(value) => result == Ok::<ControlFlowUnaryOperator, ClientPlanError>(value) && value.wire() == tag,
                None => result == Err::<ControlFlowUnaryOperator, _>(ClientPlanError::InvalidControlFlowUnaryOperator(tag)),
            },
    {
        match tag {
            1 => Ok(ControlFlowUnaryOperator::Plus),
            2 => Ok(ControlFlowUnaryOperator::Minus),
            3 => Ok(ControlFlowUnaryOperator::Not),
            tag => Err(ClientPlanError::InvalidControlFlowUnaryOperator(tag)),
        }
    }

    /// Returns the canonical wire tag for this operator.
    pub fn wire_tag(self) -> (tag: u8)
        ensures
            tag == self.wire(),
    {
        self.tag()
    }
}

/// One binary operator in the version-10 programmable CLIENT expression
/// language. Arithmetic is checked signed `INTEGER`; Boolean operators are
/// strict and short-circuit; comparisons require two values of one supported
/// scalar type.
#[derive(Clone, Copy, Debug, PartialEq, Eq, Structural)]
pub enum ControlFlowBinaryOperator {
    /// Checked INTEGER addition.
    Add,
    /// Checked INTEGER subtraction.
    Subtract,
    /// Checked INTEGER multiplication.
    Multiply,
    /// Checked INTEGER division.
    Divide,
    /// Checked INTEGER remainder.
    Modulo,
    /// Equality comparison.
    Equal,
    /// Inequality comparison.
    NotEqual,
    /// Less-than comparison.
    LessThan,
    /// Greater-than comparison.
    GreaterThan,
    /// Less-than-or-equal comparison.
    LessThanOrEqual,
    /// Greater-than-or-equal comparison.
    GreaterThanOrEqual,
    /// Short-circuit Boolean conjunction.
    And,
    /// Short-circuit Boolean disjunction.
    Or,
}

impl ControlFlowBinaryOperator {
    /// The wire tag of this operator.
    pub open spec fn wire(self) -> u8 {
        match self {
            ControlFlowBinaryOperator::Add => 1,
            ControlFlowBinaryOperator::Subtract => 2,
            ControlFlowBinaryOperator::Multiply => 3,
            ControlFlowBinaryOperator::Divide => 4,
            ControlFlowBinaryOperator::Modulo => 5,
            ControlFlowBinaryOperator::Equal => 6,
            ControlFlowBinaryOperator::NotEqual => 7,
            ControlFlowBinaryOperator::LessThan => 8,
            ControlFlowBinaryOperator::GreaterThan => 9,
            ControlFlowBinaryOperator::LessThanOrEqual => 10,
            ControlFlowBinaryOperator::GreaterThanOrEqual => 11,
            ControlFlowBinaryOperator::And => 12,
            ControlFlowBinaryOperator::Or => 13,
        }
    }

    /// The operator that a wire tag stands for.
    pub open spec fn of_wire(tag: u8) -> Option<ControlFlowBinaryOperator> {
        if tag == 1 {
            Some(ControlFlowBinaryOperator::Add)
        } else if tag == 2 {
            Some(ControlFlowBinaryOperator::Subtract)
        } else if tag == 3 {
            Some(ControlFlowBinaryOperator::Multiply)
        } else if tag == 4 {
            Some(ControlFlowBinaryOperator::Divide)
        } else if tag == 5 {
            Some(ControlFlowBinaryOperator::Modulo)
        } else if tag == 6 {
            Some(ControlFlowBinaryOperator::Equal)
        } else if tag == 7 {
            Some(ControlFlowBinaryOperator::NotEqual)
        } else if tag == 8 {
            Some(ControlFlowBinaryOperator::LessThan)
        } else if tag == 9 {
            Some(ControlFlowBinaryOperator::GreaterThan)
        } else if tag == 10 {
            Some(ControlFlowBinaryOperator::LessThanOrEqual)
        } else if tag == 11 {
            Some(ControlFlowBinaryOperator::GreaterThanOrEqual)
        } else if tag == 12 {
            Some(ControlFlowBinaryOperator::And)
        } else if tag == 13 {
            Some(ControlFlowBinaryOperator::Or)
        } else {
            None
        }
    }

    /// Returns the wire tag.
    pub fn tag(self) -> (tag: u8)
        ensures
            tag == self.wire(),
            ControlFlowBinaryOperator::of_wire(tag) == Some(self),
    {
        match self {
            ControlFlowBinaryOperator::Add => 1,
            ControlFlowBinaryOperator::Subtract => 2,
            ControlFlowBinaryOperator::Multiply => 3,
            ControlFlowBinaryOperator::Divide => 4,
            ControlFlowBinaryOperator::Modulo => 5,
            ControlFlowBinaryOperator::Equal => 6,
            ControlFlowBinaryOperator::NotEqual => 7,
            ControlFlowBinaryOperator::LessThan => 8,
            ControlFlowBinaryOperator::GreaterThan => 9,
            ControlFlowBinaryOperator::LessThanOrEqual => 10,
            ControlFlowBinaryOperator::GreaterThanOrEqual => 11,
            ControlFlowBinaryOperator::And => 12,
            ControlFlowBinaryOperator::Or => 13,
        }
    }

    /// Reads a wire tag.
    pub fn from_tag(tag: u8) -> (result: Result<ControlFlowBinaryOperator, ClientPlanError>)
        ensures
            match ControlFlowBinaryOperator::of_wire(tag) {
                Some(value) => result == Ok::<ControlFlowBinaryOperator, ClientPlanError>(value) && value.wire() == tag,
                None => result == Err::<ControlFlowBinaryOperator, _>(ClientPlanError::InvalidControlFlowBinaryOperator(tag)),
            },
    {
        match tag {
            1 => Ok(ControlFlowBinaryOperator::Add),
            2 => Ok(ControlFlowBinaryOperator::Subtract),
            3 => Ok(ControlFlowBinaryOperator::Multiply),
            4 => Ok(ControlFlowBinaryOperator::Divide),
            5 => Ok(ControlFlowBinaryOperator::Modulo),
            6 => Ok(ControlFlowBinaryOperator::Equal),
            7 => Ok(ControlFlowBinaryOperator::NotEqual),
            8 => Ok(ControlFlowBinaryOperator::LessThan),
            9 => Ok(ControlFlowBinaryOperator::GreaterThan),
            10 => Ok(ControlFlowBinaryOperator::LessThanOrEqual),
            11 => Ok(ControlFlowBinaryOperator::GreaterThanOrEqual),
            12 => Ok(ControlFlowBinaryOperator::And),
            13 => Ok(ControlFlowBinaryOperator::Or),
            tag => Err(ClientPlanError::InvalidControlFlowBinaryOperator(tag)),
        }
    }

    /// Returns the canonical wire tag for this operator.
    pub fn wire_tag(self) -> (tag: u8)
        ensures
            tag == self.wire(),
    {
        self.tag()
    }
}

/// The kind of server result represented by a resource operation.
#[derive(Clone, Copy, Debug, PartialEq, Eq, Structural)]
pub enum ResourceKind {
    /// One scalar result value.
    Scalar,
    /// A bounded stream of result batches.
    Stream,
}

impl ResourceKind {
    /// The wire tag of this kind.
    pub open spec fn wire(self) -> u8 {
        match self {
            ResourceKind::Scalar => RESOURCE_KIND_SCALAR,
            ResourceKind::Stream => RESOURCE_KIND_STREAM,
        }
    }

    /// The kind that a wire tag stands for.
    pub open spec fn of_wire(tag: u8) -> Option<ResourceKind> {
        if tag == RESOURCE_KIND_SCALAR {
            Some(ResourceKind::Scalar)
        } else if tag == RESOURCE_KIND_STREAM {
            Some(ResourceKind::Stream)
        } else {
            None
        }
    }

    /// Returns the wire tag.
    pub fn tag(self) -> (tag: u8)
        ensures
            tag == self.wire(),
            ResourceKind::of_wire(tag) == Some(self),
    {
        match self {
            ResourceKind::Scalar => RESOURCE_KIND_SCALAR,
            ResourceKind::Stream => RESOURCE_KIND_STREAM,
        }
    }

    /// Reads a wire tag.
    pub fn from_tag(tag: u8) -> (result: Result<ResourceKind, ClientPlanError>)
        ensures
            match ResourceKind::of_wire(tag) {
                Some(value) => result == Ok::<ResourceKind, ClientPlanError>(value) && value.wire() == tag,
                None => result == Err::<ResourceKind, _>(ClientPlanError::InvalidResourceKind(tag)),
            },
    {
        match tag {
            RESOURCE_KIND_SCALAR => Ok(ResourceKind::Scalar),
            RESOURCE_KIND_STREAM => Ok(ResourceKind::Stream),
            tag => Err(ClientPlanError::InvalidResourceKind(tag)),
        }
    }
}

/// The execution domain of one checked CLIENT action target.
#[derive(Clone, Copy, Debug, PartialEq, Eq, Structural)]
pub enum ActionTargetDomain {
    /// Invoke another CLIENT function locally.
    Client,
    /// Submit a SERVER function through the authenticated server boundary.
    Server,
}

impl ActionTargetDomain {
    /// The wire tag of this domain.
    pub open spec fn wire(self) -> u8 {
        match self {
            ActionTargetDomain::Client => 1,
            ActionTargetDomain::Server => 2,
        }
    }

    /// The domain that a wire tag stands for.
    pub open spec fn of_wire(tag: u8) -> Option<ActionTargetDomain> {
        if tag == 1 {
            Some(ActionTargetDomain::Client)
        } else if tag == 2 {
            Some(ActionTargetDomain::Server)
        } else {
            None
        }
    }

    /// Returns the wire tag.
    pub fn tag(self) -> (tag: u8)
        ensures
            tag == self.wire(),
            ActionTargetDomain::of_wire(tag) == Some(self),
    {
        match self {
            ActionTargetDomain::Client => 1,
            ActionTargetDomain::Server => 2,
        }
    }

    /// Reads a wire tag.
    pub fn from_tag(tag: u8) -> (result: Result<ActionTargetDomain, ClientPlanError>)
        ensures
            match ActionTargetDomain::of_wire(tag) {
                Some(value) => result == Ok::<ActionTargetDomain, ClientPlanError>(value) && value.wire() == tag,
                None => result == Err::<ActionTargetDomain, _>(ClientPlanError::InvalidActionDomain(tag)),
            },
    {
        match tag {
            1 => Ok(ActionTargetDomain::Client),
            2 => Ok(ActionTargetDomain::Server),
            tag => Err(ClientPlanError::InvalidActionDomain(tag)),
        }
    }
}

} // verus!
