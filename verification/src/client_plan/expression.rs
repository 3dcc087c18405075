//! Closed CLIENT expression trees.
//!
//! [`ClientExpressionNode`] is the executable tree. Its view is an
//! [`Expression`], the mathematical tree that the formats and the validation
//! rules are stated over.

use vstd::prelude::*;

use crate::client_plan::operator::{
    ActionTargetDomain, ControlFlowBinaryOperator, ControlFlowUnaryOperator, InspectProjection, ResourceKind,
};
use crate::identity::{CallSiteId, FieldId, FunctionId, LocalId, ParameterId, RevisionPair, TypeId};

verus! {

/// One closed CLIENT expression-tree node.
#[derive(Debug, Eq, PartialEq)]
pub enum ClientExpressionNode {
    /// A suspension expression that resumes with the resource value.
    Await {
        /// The resource expression being awaited.
        expression: Box<ClientExpressionNode>,
    },
    /// A checked CLIENT-to-SERVER resource operation value.
    Resource {
        /// The target, revision, call-site, arguments, and result type.
        operation: ResourceOperationNode,
    },
    /// A checked sealed Inspector operation value.
    Inspect {
        /// The snapshot or projection operation.
        operation: InspectOperationNode,
    },
    /// A checked CLIENT action operation value.
    Action {
        /// The target, revision, call-site, arguments, and result type.
        operation: ActionOperationNode,
    },
    /// A call to one CLIENT function with bound arguments.
    Call {
        /// The called function identity.
        function: FunctionId,
        /// The bound arguments in call order: parameter then value.
        arguments: Vec<(ParameterId, ClientExpressionNode)>,
    },
    /// A text literal value.
    String {
        /// The unescaped text value.
        value: String,
    },
    /// An integer literal value.
    Integer {
        /// The parsed integer value.
        value: i64,
    },
    /// A Boolean literal value.
    Boolean {
        /// The Boolean value.
        value: bool,
    },
    /// A read-only view of the enclosing function's source metadata.
    SourceIntrospection,
    /// Reads one bounded line from the active client session.
    Input,
    /// Evaluates one bounded CLI command through the active session.
    Evaluate {
        /// The command expression.
        expression: Box<ClientExpressionNode>,
    },
    /// A read of one parameter of the enclosing function.
    ParameterRead {
        /// The read parameter identity.
        parameter: ParameterId,
    },
    /// A read of one declared procedural local.
    LocalRead {
        /// The stable local binding identity.
        local: LocalId,
    },
    /// A path from one parameter through object fields.
    FieldPath {
        /// The parameter at the start of the path.
        root: ParameterId,
        /// The fields selected in source order.
        fields: Vec<FieldId>,
    },
    /// A left-associative text concatenation.
    Concat {
        /// The left operand.
        left: Box<ClientExpressionNode>,
        /// The right operand.
        right: Box<ClientExpressionNode>,
    },
    /// An external function body declared only by its runtime contract.
    ExternalContract {
        /// The exact contract identity string.
        identity: String,
    },
    /// A version-10 unary operator expression.
    Unary {
        /// The checked operator.
        operator: ControlFlowUnaryOperator,
        /// The operand expression.
        expression: Box<ClientExpressionNode>,
    },
    /// A version-10 binary operator expression.
    Binary {
        /// The checked operator.
        operator: ControlFlowBinaryOperator,
        /// The left operand.
        left: Box<ClientExpressionNode>,
        /// The right operand.
        right: Box<ClientExpressionNode>,
    },
}

/// The expression node type used by the version-10 programmable CLIENT format.
pub type ControlFlowExpression = ClientExpressionNode;

/// One sealed Inspector expression operation.
#[derive(Clone, Debug, Eq, PartialEq)]
pub enum InspectOperationNode {
    /// Takes a snapshot of a target.
    Snapshot {
        /// The inspected expression.
        target: Box<ClientExpressionNode>,
        /// The explicit structural-only snapshot default. Typed options are
        /// rejected by every format.
        options: Option<Box<ClientExpressionNode>>,
    },
    /// Projects one aspect of a snapshot.
    Projection {
        /// The projected aspect.
        projection: InspectProjection,
        /// The snapshot expression.
        snapshot: Box<ClientExpressionNode>,
    },
}

/// One checked CLIENT-to-SERVER resource operation node.
#[derive(Clone, Debug, Eq, PartialEq)]
pub struct ResourceOperationNode {
    pub kind: ResourceKind,
    pub target: FunctionId,
    pub target_revision: RevisionPair,
    pub call_site: CallSiteId,
    pub arguments: Vec<(ParameterId, ClientExpressionNode)>,
    pub result_type: TypeId,
}

/// One checked CLIENT action operation node.
#[derive(Clone, Debug, Eq, PartialEq)]
pub struct ActionOperationNode {
    pub domain: ActionTargetDomain,
    pub target: FunctionId,
    pub target_revision: RevisionPair,
    pub call_site: CallSiteId,
    pub arguments: Vec<(ParameterId, ClientExpressionNode)>,
    pub result_type: TypeId,
}

/// The mathematical expression tree.
pub enum Expression {
    Await { expression: Box<Expression> },
    Resource { operation: ResourceOperation },
    Inspect { operation: InspectOperation },
    Action { operation: ActionOperation },
    Call { function: FunctionId, arguments: Seq<(ParameterId, Expression)> },
    String { value: Seq<char> },
    Integer { value: i64 },
    Boolean { value: bool },
    SourceIntrospection,
    Input,
    Evaluate { expression: Box<Expression> },
    ParameterRead { parameter: ParameterId },
    LocalRead { local: LocalId },
    FieldPath { root: ParameterId, fields: Seq<FieldId> },
    Concat { left: Box<Expression>, right: Box<Expression> },
    ExternalContract { identity: Seq<char> },
    Unary { operator: ControlFlowUnaryOperator, expression: Box<Expression> },
    Binary { operator: ControlFlowBinaryOperator, left: Box<Expression>, right: Box<Expression> },
}

/// The mathematical Inspector operation.
pub enum InspectOperation {
    Snapshot { target: Box<Expression>, options: Option<Box<Expression>> },
    Projection { projection: InspectProjection, snapshot: Box<Expression> },
}

/// The mathematical resource operation.
pub struct ResourceOperation {
    pub kind: ResourceKind,
    pub target: FunctionId,
    pub target_revision: RevisionPair,
    pub call_site: CallSiteId,
    pub arguments: Seq<(ParameterId, Expression)>,
    pub result_type: TypeId,
}

/// The mathematical action operation.
pub struct ActionOperation {
    pub domain: ActionTargetDomain,
    pub target: FunctionId,
    pub target_revision: RevisionPair,
    pub call_site: CallSiteId,
    pub arguments: Seq<(ParameterId, Expression)>,
    pub result_type: TypeId,
}

/// The expression that a node stands for.
pub open spec fn expression_of(node: ClientExpressionNode) -> Expression
    decreases node,
{
    match node {
        ClientExpressionNode::Await { expression } => Expression::Await {
            expression: Box::new(expression_of(*expression)),
        },
        ClientExpressionNode::Resource { operation } => Expression::Resource {
            operation: ResourceOperation {
                kind: operation.kind,
                target: operation.target,
                target_revision: operation.target_revision,
                call_site: operation.call_site,
                arguments: arguments_of(operation.arguments@),
                result_type: operation.result_type,
            },
        },
        ClientExpressionNode::Inspect { operation } => Expression::Inspect {
            operation: match operation {
                InspectOperationNode::Snapshot { target, options } => InspectOperation::Snapshot {
                    target: Box::new(expression_of(*target)),
                    options: match options {
                        None => None,
                        Some(options) => Some(Box::new(expression_of(*options))),
                    },
                },
                InspectOperationNode::Projection { projection, snapshot } => InspectOperation::Projection {
                    projection,
                    snapshot: Box::new(expression_of(*snapshot)),
                },
            },
        },
        ClientExpressionNode::Action { operation } => Expression::Action {
            operation: ActionOperation {
                domain: operation.domain,
                target: operation.target,
                target_revision: operation.target_revision,
                call_site: operation.call_site,
                arguments: arguments_of(operation.arguments@),
                result_type: operation.result_type,
            },
        },
        ClientExpressionNode::Call { function, arguments } => Expression::Call {
            function,
            arguments: arguments_of(arguments@),
        },
        ClientExpressionNode::String { value } => Expression::String { value: value@ },
        ClientExpressionNode::Integer { value } => Expression::Integer { value },
        ClientExpressionNode::Boolean { value } => Expression::Boolean { value },
        ClientExpressionNode::SourceIntrospection => Expression::SourceIntrospection,
        ClientExpressionNode::Input => Expression::Input,
        ClientExpressionNode::Evaluate { expression } => Expression::Evaluate {
            expression: Box::new(expression_of(*expression)),
        },
        ClientExpressionNode::ParameterRead { parameter } => Expression::ParameterRead { parameter },
        ClientExpressionNode::LocalRead { local } => Expression::LocalRead { local },
        ClientExpressionNode::FieldPath { root, fields } => Expression::FieldPath { root, fields: fields@ },
        ClientExpressionNode::Concat { left, right } => Expression::Concat {
            left: Box::new(expression_of(*left)),
            right: Box::new(expression_of(*right)),
        },
        ClientExpressionNode::ExternalContract { identity } => Expression::ExternalContract { identity: identity@ },
        ClientExpressionNode::Unary { operator, expression } => Expression::Unary {
            operator,
            expression: Box::new(expression_of(*expression)),
        },
        ClientExpressionNode::Binary { operator, left, right } => Expression::Binary {
            operator,
            left: Box::new(expression_of(*left)),
            right: Box::new(expression_of(*right)),
        },
    }
}

/// The arguments that argument nodes stand for.
pub open spec fn arguments_of(arguments: Seq<(ParameterId, ClientExpressionNode)>) -> Seq<(ParameterId, Expression)>
    decreases arguments,
{
    Seq::new(
        arguments.len(),
        |index: int|
            if 0 <= index < arguments.len() {
                (arguments[index].0, expression_of(arguments[index].1))
            } else {
                arbitrary()
            },
    )
}

/// Argument nodes stand for arguments one for one.
pub proof fn lemma_arguments_of(arguments: Seq<(ParameterId, ClientExpressionNode)>)
    ensures
        arguments_of(arguments).len() == arguments.len(),
        forall|index: int|
            0 <= index < arguments.len() ==> #[trigger] arguments_of(arguments)[index] == (
            arguments[index].0, expression_of(arguments[index].1)),
{
}

impl View for ClientExpressionNode {
    type V = Expression;

    open spec fn view(&self) -> Expression {
        expression_of(*self)
    }
}

impl View for ResourceOperationNode {
    type V = ResourceOperation;

    open spec fn view(&self) -> ResourceOperation {
        ResourceOperation {
            kind: self.kind,
            target: self.target,
            target_revision: self.target_revision,
            call_site: self.call_site,
            arguments: arguments_of(self.arguments@),
            result_type: self.result_type,
        }
    }
}

impl View for ActionOperationNode {
    type V = ActionOperation;

    open spec fn view(&self) -> ActionOperation {
        ActionOperation {
            domain: self.domain,
            target: self.target,
            target_revision: self.target_revision,
            call_site: self.call_site,
            arguments: arguments_of(self.arguments@),
            result_type: self.result_type,
        }
    }
}

impl View for InspectOperationNode {
    type V = InspectOperation;

    open spec fn view(&self) -> InspectOperation {
        match *self {
            InspectOperationNode::Snapshot { target, options } => InspectOperation::Snapshot {
                target: Box::new(expression_of(*target)),
                options: match options {
                    None => None,
                    Some(options) => Some(Box::new(expression_of(*options))),
                },
            },
            InspectOperationNode::Projection { projection, snapshot } => InspectOperation::Projection {
                projection,
                snapshot: Box::new(expression_of(*snapshot)),
            },
        }
    }
}

/// Copies a tree.
fn copied_node(node: &ClientExpressionNode) -> (copy: ClientExpressionNode)
    ensures
        copy@ == node@,
    decreases node,
{
    match node {
        ClientExpressionNode::Await { expression } => ClientExpressionNode::Await {
            expression: Box::new(copied_node(expression)),
        },
        ClientExpressionNode::Resource { operation } => ClientExpressionNode::Resource {
            operation: ResourceOperationNode {
                kind: operation.kind,
                target: operation.target,
                target_revision: operation.target_revision,
                call_site: operation.call_site,
                arguments: copied_arguments(&operation.arguments),
                result_type: operation.result_type,
            },
        },
        ClientExpressionNode::Inspect { operation } => ClientExpressionNode::Inspect {
            operation: match operation {
                InspectOperationNode::Snapshot { target, options } => InspectOperationNode::Snapshot {
                    target: Box::new(copied_node(target)),
                    options: match options {
                        None => None,
                        Some(options) => Some(Box::new(copied_node(options))),
                    },
                },
                InspectOperationNode::Projection { projection, snapshot } => InspectOperationNode::Projection {
                    projection: *projection,
                    snapshot: Box::new(copied_node(snapshot)),
                },
            },
        },
        ClientExpressionNode::Action { operation } => ClientExpressionNode::Action {
            operation: ActionOperationNode {
                domain: operation.domain,
                target: operation.target,
                target_revision: operation.target_revision,
                call_site: operation.call_site,
                arguments: copied_arguments(&operation.arguments),
                result_type: operation.result_type,
            },
        },
        ClientExpressionNode::Call { function, arguments } => ClientExpressionNode::Call {
            function: *function,
            arguments: copied_arguments(arguments),
        },
        ClientExpressionNode::String { value } => ClientExpressionNode::String { value: value.clone() },
        ClientExpressionNode::Integer { value } => ClientExpressionNode::Integer { value: *value },
        ClientExpressionNode::Boolean { value } => ClientExpressionNode::Boolean { value: *value },
        ClientExpressionNode::SourceIntrospection => ClientExpressionNode::SourceIntrospection,
        ClientExpressionNode::Input => ClientExpressionNode::Input,
        ClientExpressionNode::Evaluate { expression } => ClientExpressionNode::Evaluate {
            expression: Box::new(copied_node(expression)),
        },
        ClientExpressionNode::ParameterRead { parameter } => ClientExpressionNode::ParameterRead {
            parameter: *parameter,
        },
        ClientExpressionNode::LocalRead { local } => ClientExpressionNode::LocalRead { local: *local },
        ClientExpressionNode::FieldPath { root, fields } => ClientExpressionNode::FieldPath {
            root: *root,
            fields: vstd::slice::slice_to_vec(fields.as_slice()),
        },
        ClientExpressionNode::Concat { left, right } => ClientExpressionNode::Concat {
            left: Box::new(copied_node(left)),
            right: Box::new(copied_node(right)),
        },
        ClientExpressionNode::ExternalContract { identity } => ClientExpressionNode::ExternalContract {
            identity: identity.clone(),
        },
        ClientExpressionNode::Unary { operator, expression } => ClientExpressionNode::Unary {
            operator: *operator,
            expression: Box::new(copied_node(expression)),
        },
        ClientExpressionNode::Binary { operator, left, right } => ClientExpressionNode::Binary {
            operator: *operator,
            left: Box::new(copied_node(left)),
            right: Box::new(copied_node(right)),
        },
    }
}

/// Copies an argument list.
fn copied_arguments(arguments: &Vec<(ParameterId, ClientExpressionNode)>) -> (copy: Vec<
    (ParameterId, ClientExpressionNode),
>)
    ensures
        arguments_of(copy@) == arguments_of(arguments@),
    decreases arguments,
{
    let mut copy: Vec<(ParameterId, ClientExpressionNode)> = Vec::with_capacity(arguments.len());
    let mut index: usize = 0;
    while index < arguments.len()
        invariant
            index <= arguments.len(),
            copy.len() == index,
            arguments_of(copy@) == arguments_of(arguments@).take(index as int),
        decreases arguments.len() - index,
    {
        let ghost before = copy@;
        copy.push((arguments[index].0, copied_node(&arguments[index].1)));
        index = index + 1;
        assert(arguments_of(copy@) =~= arguments_of(before).push(arguments_of(arguments@)[index - 1]));
        assert(arguments_of(copy@) =~= arguments_of(arguments@).take(index as int));
    }
    assert(arguments_of(arguments@).take(index as int) =~= arguments_of(arguments@));
    copy
}

impl Clone for ClientExpressionNode {
    fn clone(&self) -> (copy: ClientExpressionNode)
        ensures
            copy@ == self@,
    {
        copied_node(self)
    }
}

/// The values of an argument list.
pub open spec fn argument_values(arguments: Seq<(ParameterId, Expression)>) -> Seq<Expression> {
    Seq::new(arguments.len(), |index: int| arguments[index].1)
}

/// The direct subexpressions of an expression, in order.
pub open spec fn operands(expression: Expression) -> Seq<Expression> {
    match expression {
        Expression::Await { expression } => seq![*expression],
        Expression::Resource { operation } => argument_values(operation.arguments),
        Expression::Inspect { operation } => match operation {
            InspectOperation::Snapshot { target, options } => match options {
                None => seq![*target],
                Some(options) => seq![*target, *options],
            },
            InspectOperation::Projection { snapshot, .. } => seq![*snapshot],
        },
        Expression::Action { operation } => argument_values(operation.arguments),
        Expression::Call { arguments, .. } => argument_values(arguments),
        Expression::Evaluate { expression } => seq![*expression],
        Expression::Concat { left, right } => seq![*left, *right],
        Expression::Unary { expression, .. } => seq![*expression],
        Expression::Binary { left, right, .. } => seq![*left, *right],
        _ => Seq::empty(),
    }
}

/// An operand is structurally smaller than the expression that holds it.
pub proof fn lemma_operand_decreases(expression: Expression, index: int)
    requires
        0 <= index < operands(expression).len(),
    ensures
        decreases_to!(expression => operands(expression)[index]),
{
    match expression {
        Expression::Await { expression: operand } => {
            assert(decreases_to!(expression => *operand));
        },
        Expression::Resource { operation } => {
            assert(decreases_to!(expression => operation));
            assert(decreases_to!(operation => operation.arguments));
            assert(decreases_to!(operation.arguments => operation.arguments[index]));
            assert(decreases_to!(operation.arguments[index] => operation.arguments[index].1));
        },
        Expression::Inspect { operation } => {
            assert(decreases_to!(expression => operation));
            match operation {
                InspectOperation::Snapshot { target, options } => {
                    assert(decreases_to!(operation => *target));
                    if index == 1 {
                        assert(decreases_to!(operation => options));
                        assert(decreases_to!(options => *options->Some_0));
                    }
                },
                InspectOperation::Projection { snapshot, .. } => {
                    assert(decreases_to!(operation => *snapshot));
                },
            }
        },
        Expression::Action { operation } => {
            assert(decreases_to!(expression => operation));
            assert(decreases_to!(operation => operation.arguments));
            assert(decreases_to!(operation.arguments => operation.arguments[index]));
            assert(decreases_to!(operation.arguments[index] => operation.arguments[index].1));
        },
        Expression::Call { arguments, .. } => {
            assert(decreases_to!(expression => arguments));
            assert(decreases_to!(arguments => arguments[index]));
            assert(decreases_to!(arguments[index] => arguments[index].1));
        },
        Expression::Evaluate { expression: operand } => {
            assert(decreases_to!(expression => *operand));
        },
        Expression::Concat { left, right } => {
            assert(decreases_to!(expression => *left));
            assert(decreases_to!(expression => *right));
        },
        Expression::Unary { expression: operand, .. } => {
            assert(decreases_to!(expression => *operand));
        },
        Expression::Binary { left, right, .. } => {
            assert(decreases_to!(expression => *left));
            assert(decreases_to!(expression => *right));
        },
        _ => {},
    }
}

/// Tells whether a tree holds an Inspector operation.
pub open spec fn contains_inspect(expression: Expression) -> bool
    decreases expression, operands(expression).len() + 1,
{
    expression is Inspect || operands_contain_inspect(expression, 0)
}

/// Tells whether an operand from `index` on holds an Inspector operation.
pub open spec fn operands_contain_inspect(expression: Expression, index: nat) -> bool
    decreases expression, operands(expression).len() - index,
{
    if index < operands(expression).len() {
        proof {
            lemma_operand_decreases(expression, index as int);
        }
        contains_inspect(operands(expression)[index as int]) || operands_contain_inspect(expression, index + 1)
    } else {
        false
    }
}

impl ClientExpressionNode {
    /// Returns the direct subexpression at `index`.
    pub fn operand(&self, index: usize) -> (operand: Option<&ClientExpressionNode>)
        ensures
            match operand {
                Some(node) => index < operands(self@).len() && index < usize::MAX && node@ == operands(
                    self@,
                )[index as int],
                None => index >= operands(self@).len(),
            },
    {
        proof {
            match self {
                ClientExpressionNode::Resource { operation } => lemma_arguments_of(operation.arguments@),
                ClientExpressionNode::Action { operation } => lemma_arguments_of(operation.arguments@),
                ClientExpressionNode::Call { arguments, .. } => lemma_arguments_of(arguments@),
                _ => {},
            }
        }
        match self {
            ClientExpressionNode::Await { expression } => if index == 0 {
                Some(expression)
            } else {
                None
            },
            ClientExpressionNode::Resource { operation } => if index < operation.arguments.len() {
                Some(&operation.arguments[index].1)
            } else {
                None
            },
            ClientExpressionNode::Inspect { operation } => match operation {
                InspectOperationNode::Snapshot { target, options } => if index == 0 {
                    Some(target)
                } else if index == 1 {
                    match options {
                        Some(options) => Some(options),
                        None => None,
                    }
                } else {
                    None
                },
                InspectOperationNode::Projection { snapshot, .. } => if index == 0 {
                    Some(snapshot)
                } else {
                    None
                },
            },
            ClientExpressionNode::Action { operation } => if index < operation.arguments.len() {
                Some(&operation.arguments[index].1)
            } else {
                None
            },
            ClientExpressionNode::Call { arguments, .. } => if index < arguments.len() {
                Some(&arguments[index].1)
            } else {
                None
            },
            ClientExpressionNode::Evaluate { expression } => if index == 0 {
                Some(expression)
            } else {
                None
            },
            ClientExpressionNode::Concat { left, right } => if index == 0 {
                Some(left)
            } else if index == 1 {
                Some(right)
            } else {
                None
            },
            ClientExpressionNode::Unary { expression, .. } => if index == 0 {
                Some(expression)
            } else {
                None
            },
            ClientExpressionNode::Binary { left, right, .. } => if index == 0 {
                Some(left)
            } else if index == 1 {
                Some(right)
            } else {
                None
            },
            _ => None,
        }
    }
}

/// Tells whether a tree holds an Inspector operation.
pub fn expression_contains_inspect(node: &ClientExpressionNode) -> (found: bool)
    ensures
        found == contains_inspect(node@),
    decreases node@,
{
    match node {
        ClientExpressionNode::Inspect { .. } => return true,
        _ => {},
    }
    let mut index: usize = 0;
    loop
        invariant
            contains_inspect(node@) == operands_contain_inspect(node@, index as nat),
            index <= operands(node@).len(),
        decreases operands(node@).len() - index,
    {
        match node.operand(index) {
            None => return false,
            Some(operand) => {
                proof {
                    lemma_operand_decreases(node@, index as int);
                }
                if expression_contains_inspect(operand) {
                    return true;
                }
            },
        }
        index = index + 1;
    }
}

} // verus!
