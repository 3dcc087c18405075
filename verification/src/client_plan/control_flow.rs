//! Version 10: a programmable body with branches, loops and explicit returns.
//!
//! ```text
//! header: version 10, operation 10
//! local count: u32 big-endian, 0..=MAX_CONTROL_FLOW_LOCALS
//! local: LocalId[16]
//!        TypeId[16]
//!        kind: u8 = 0|1|2 (value|scalar resource|stream resource)
//! block: statement count: u32 big-endian, 0..=MAX_CONTROL_FLOW_STATEMENTS
//!        statements
//! statement: tag: u8 = 1|2|3|4|5 (LET|assignment|RETURN|IF|WHILE)
//!   LET, assignment: LocalId[16] tree
//!   RETURN: presence: u8 = 0|1 [tree]
//!   IF: branch count: u32 big-endian, 1..=MAX_CONTROL_FLOW_BRANCHES
//!       branches: condition tree, block
//!       presence of ELSE: u8 = 0|1 [block]
//!   WHILE: condition tree, block
//! ```
//!
//! The node and statement limits bound a plan as a whole.

use vstd::prelude::*;

use crate::artifact_codec::{lemma_read_u32, lemma_u32_read, read_u32, u32_bytes, viewed, Reader, Writer};
use crate::client_plan::control_flow_codec::{
    block_admitted, block_then, decode_block, law_block_canonical, law_block_round_trip, parsed_block, put_block,
    validate_block_trees, FlowTally, BLOCK_LEVELS,
};
use crate::client_plan::control_flow_rules::{flow_model_valid, validate_flow_model};
use crate::client_plan::error::ClientPlanError;
use crate::client_plan::expression::{ControlFlowExpression, Expression};
use crate::client_plan::header::{
    after_header, finish_artifact, header_bytes, lemma_header, lemma_header_read, put_header, require_finished,
    size_error, sized, take_header, take_u32, validate_artifact_size,
};
use crate::client_plan::local::{
    decode_locals, lemma_locals_canonical, lemma_locals_round_trip, locals_then, parsed_locals, put_locals,
    ClientLocal, LocalRule,
};
use crate::client_plan::node_codec::Parsed;
use crate::client_plan::{
    CONTROL_FLOW_FORMAT_VERSION, MAX_ARTIFACT_BYTES, MAX_CONTROL_FLOW_LOCALS, RETURN_CONTROL_FLOW_OPERATION,
};
use crate::identity::LocalId;

verus! {

/// One explicit version-10 `RETURN` statement. An absent expression is the
/// checked representation of `RETURN;`; a present expression is evaluated
/// before leaving the current CLIENT function.
#[derive(Clone, Debug, Eq, PartialEq)]
pub struct ControlFlowReturnStatement {
    pub expression: Option<ControlFlowExpression>,
}

/// One ordered `IF` or `ELSIF` branch in a version-10 control-flow block.
#[derive(Clone, Debug, Eq, PartialEq)]
pub struct ControlFlowIfBranch {
    pub condition: ControlFlowExpression,
    pub statements: Vec<ControlFlowStatement>,
}

/// One version-10 `IF` statement with ordered branches and an optional `ELSE`
/// body.
#[derive(Clone, Debug, Eq, PartialEq)]
pub struct ControlFlowIfStatement {
    pub branches: Vec<ControlFlowIfBranch>,
    pub else_statements: Option<Vec<ControlFlowStatement>>,
}

/// One version-10 `WHILE` statement with a strict Boolean condition and body.
#[derive(Clone, Debug, Eq, PartialEq)]
pub struct ControlFlowWhileStatement {
    pub condition: ControlFlowExpression,
    pub statements: Vec<ControlFlowStatement>,
}

/// One explicit version-10 programmable CLIENT statement.
#[derive(Debug, Eq, PartialEq)]
pub enum ControlFlowStatement {
    /// Declares and initialises one ordered local.
    Let {
        /// The declared local identity.
        local: LocalId,
        /// The initializer expression.
        expression: ControlFlowExpression,
    },
    /// Replaces one previously initialized local.
    Assignment {
        /// The target local identity.
        local: LocalId,
        /// The replacement expression.
        expression: ControlFlowExpression,
    },
    /// Exits the current CLIENT function.
    Return(ControlFlowReturnStatement),
    /// Selects the first true branch, or the optional else body.
    If(ControlFlowIfStatement),
    /// Repeats its body while the strict Boolean condition is true.
    While(ControlFlowWhileStatement),
}

/// A checked version-10 programmable CLIENT plan.
#[derive(Clone, Debug, Eq, PartialEq)]
pub struct ControlFlowClientPlan {
    pub locals: Vec<ClientLocal>,
    pub statements: Vec<ControlFlowStatement>,
}

/// The mathematical programmable statement.
pub enum FlowStatement {
    Let { local: LocalId, expression: Expression },
    Assignment { local: LocalId, expression: Expression },
    Return { expression: Option<Expression> },
    If { branches: Seq<FlowBranch>, otherwise: Option<Seq<FlowStatement>> },
    While { condition: Expression, body: Seq<FlowStatement> },
}

/// The mathematical branch.
pub struct FlowBranch {
    pub condition: Expression,
    pub body: Seq<FlowStatement>,
}

/// The mathematical programmable plan.
pub struct FlowPlan {
    pub locals: Seq<ClientLocal>,
    pub statements: Seq<FlowStatement>,
}

/// The statement that a statement record stands for.
pub open spec fn flow_of(statement: ControlFlowStatement) -> FlowStatement
    decreases statement,
{
    match statement {
        ControlFlowStatement::Let { local, expression } => FlowStatement::Let { local, expression: expression@ },
        ControlFlowStatement::Assignment { local, expression } => FlowStatement::Assignment {
            local,
            expression: expression@,
        },
        ControlFlowStatement::Return(returned) => FlowStatement::Return {
            expression: match returned.expression {
                None => None,
                Some(expression) => Some(expression@),
            },
        },
        ControlFlowStatement::If(conditional) => FlowStatement::If {
            branches: branches_of(conditional.branches@),
            otherwise: match conditional.else_statements {
                None => None,
                Some(body) => Some(block_of(body@)),
            },
        },
        ControlFlowStatement::While(repeated) => FlowStatement::While {
            condition: repeated.condition@,
            body: block_of(repeated.statements@),
        },
    }
}

/// The statements that statement records stand for.
pub open spec fn block_of(statements: Seq<ControlFlowStatement>) -> Seq<FlowStatement>
    decreases statements,
{
    Seq::new(
        statements.len(),
        |index: int|
            if 0 <= index < statements.len() {
                flow_of(statements[index])
            } else {
                arbitrary()
            },
    )
}

/// The branches that branch records stand for.
pub open spec fn branches_of(branches: Seq<ControlFlowIfBranch>) -> Seq<FlowBranch>
    decreases branches,
{
    Seq::new(
        branches.len(),
        |index: int|
            if 0 <= index < branches.len() {
                FlowBranch {
                    condition: branches[index].condition@,
                    body: block_of(branches[index].statements@),
                }
            } else {
                arbitrary()
            },
    )
}

/// Statement records stand for statements one for one.
pub proof fn lemma_block_of(statements: Seq<ControlFlowStatement>)
    ensures
        block_of(statements).len() == statements.len(),
        forall|index: int|
            0 <= index < statements.len() ==> #[trigger] block_of(statements)[index] == flow_of(statements[index]),
{
}

/// Branch records stand for branches one for one.
pub proof fn lemma_branches_of(branches: Seq<ControlFlowIfBranch>)
    ensures
        branches_of(branches).len() == branches.len(),
        forall|index: int|
            0 <= index < branches.len() ==> #[trigger] branches_of(branches)[index] == (FlowBranch {
                condition: branches[index].condition@,
                body: block_of(branches[index].statements@),
            }),
{
}

impl View for ControlFlowStatement {
    type V = FlowStatement;

    open spec fn view(&self) -> FlowStatement {
        flow_of(*self)
    }
}

impl View for ControlFlowIfBranch {
    type V = FlowBranch;

    open spec fn view(&self) -> FlowBranch {
        FlowBranch { condition: self.condition@, body: block_of(self.statements@) }
    }
}

impl View for ControlFlowClientPlan {
    type V = FlowPlan;

    open spec fn view(&self) -> FlowPlan {
        FlowPlan { locals: self.locals@, statements: block_of(self.statements@) }
    }
}

/// What follows the header of a programmable plan.
pub open spec fn flow_payload(plan: FlowPlan) -> Seq<u8> {
    u32_bytes(plan.locals.len() as u32) + locals_then(plan.locals, 0, block_then(plan.statements, Seq::empty()))
}

/// The complete version-10 artefact.
pub open spec fn flow_plan_bytes(plan: FlowPlan) -> Seq<u8> {
    header_bytes(CONTROL_FLOW_FORMAT_VERSION, RETURN_CONTROL_FLOW_OPERATION) + flow_payload(plan)
}

/// What encoding a programmable plan gives.
pub open spec fn encoded_flow_plan(plan: FlowPlan) -> Result<Seq<u8>, ClientPlanError> {
    match flow_model_valid(plan) {
        Err(error) => Err(error),
        Ok(()) => match block_admitted(plan.statements, BLOCK_LEVELS as nat, FlowTally::zero()) {
            Err(error) => Err(error),
            Ok(_) => sized(flow_plan_bytes(plan)),
        },
    }
}

/// The declarations behind the header.
pub open spec fn parsed_flow_locals(input: Seq<u8>) -> Parsed<Seq<ClientLocal>> {
    match read_u32(input) {
        None => Err(ClientPlanError::Truncated),
        Some((count, rest)) => if count > MAX_CONTROL_FLOW_LOCALS {
            Err(ClientPlanError::ControlFlowLocalLimitExceeded { limit: MAX_CONTROL_FLOW_LOCALS })
        } else {
            parsed_locals(rest, Seq::empty(), count as nat, LocalRule::ControlFlow)
        },
    }
}

/// What decoding `bytes` as version 10 gives.
pub open spec fn decoded_flow_plan(bytes: Seq<u8>) -> Result<FlowPlan, ClientPlanError> {
    if bytes.len() > MAX_ARTIFACT_BYTES {
        Err(size_error(bytes.len()))
    } else {
        match after_header(bytes, CONTROL_FLOW_FORMAT_VERSION, RETURN_CONTROL_FLOW_OPERATION) {
            Err(error) => Err(error),
            Ok(rest) => match parsed_flow_locals(rest) {
                Err(error) => Err(error),
                Ok((locals, rest)) => match parsed_block(rest, BLOCK_LEVELS as nat, FlowTally::zero()) {
                    Err(error) => Err(error),
                    Ok((statements, rest, _)) => if rest.len() != 0 {
                        Err(ClientPlanError::TrailingBytes)
                    } else {
                        match flow_model_valid(FlowPlan { locals, statements }) {
                            Err(error) => Err(error),
                            Ok(()) => Ok(FlowPlan { locals, statements }),
                        }
                    },
                },
            },
        }
    }
}

/// Decoding an encoded programmable plan gives that plan back.
pub proof fn law_flow_plan_round_trip(plan: FlowPlan)
    ensures
        encoded_flow_plan(plan) matches Ok(bytes) ==> decoded_flow_plan(bytes) == Ok::<FlowPlan, ClientPlanError>(
            plan,
        ),
{
    if encoded_flow_plan(plan) is Ok {
        let body = block_then(plan.statements, Seq::empty());
        lemma_header(CONTROL_FLOW_FORMAT_VERSION, RETURN_CONTROL_FLOW_OPERATION, flow_payload(plan));
        lemma_read_u32(plan.locals.len() as u32, locals_then(plan.locals, 0, body));
        lemma_locals_round_trip(plan.locals, 0, LocalRule::ControlFlow, body);
        assert(plan.locals.take(0) =~= Seq::empty());
        law_block_round_trip(plan.statements, BLOCK_LEVELS as nat, FlowTally::zero(), Seq::empty());
    }
}

/// An artefact that decodes is the encoding of what it decodes to.
pub proof fn law_flow_plan_canonical(bytes: Seq<u8>)
    ensures
        decoded_flow_plan(bytes) matches Ok(plan) ==> encoded_flow_plan(plan) == Ok::<Seq<u8>, ClientPlanError>(bytes),
{
    if decoded_flow_plan(bytes) is Ok {
        let plan = decoded_flow_plan(bytes)->Ok_0;
        lemma_header_read(bytes, CONTROL_FLOW_FORMAT_VERSION, RETURN_CONTROL_FLOW_OPERATION);
        let payload = after_header(bytes, CONTROL_FLOW_FORMAT_VERSION, RETURN_CONTROL_FLOW_OPERATION)->Ok_0;
        lemma_u32_read(payload);
        let (count, list) = read_u32(payload)->Some_0;
        lemma_locals_canonical(list, Seq::empty(), count as nat, LocalRule::ControlFlow);
        let body = parsed_flow_locals(payload)->Ok_0.1;
        law_block_canonical(body, BLOCK_LEVELS as nat, FlowTally::zero());
        let rest = parsed_block(body, BLOCK_LEVELS as nat, FlowTally::zero())->Ok_0.1;
        assert(rest =~= Seq::empty());
        assert(bytes =~= flow_plan_bytes(plan));
    }
}

/// Copies a statement.
fn copied_statement(statement: &ControlFlowStatement) -> (copy: ControlFlowStatement)
    ensures
        copy@ == statement@,
    decreases statement,
{
    match statement {
        ControlFlowStatement::Let { local, expression } => ControlFlowStatement::Let {
            local: *local,
            expression: expression.clone(),
        },
        ControlFlowStatement::Assignment { local, expression } => ControlFlowStatement::Assignment {
            local: *local,
            expression: expression.clone(),
        },
        ControlFlowStatement::Return(returned) => ControlFlowStatement::Return(
            ControlFlowReturnStatement {
                expression: match &returned.expression {
                    None => None,
                    Some(expression) => Some(expression.clone()),
                },
            },
        ),
        ControlFlowStatement::If(conditional) => ControlFlowStatement::If(
            ControlFlowIfStatement {
                branches: copied_branches(&conditional.branches),
                else_statements: match &conditional.else_statements {
                    None => None,
                    Some(body) => Some(copied_block(body)),
                },
            },
        ),
        ControlFlowStatement::While(repeated) => ControlFlowStatement::While(
            ControlFlowWhileStatement {
                condition: repeated.condition.clone(),
                statements: copied_block(&repeated.statements),
            },
        ),
    }
}

/// Copies a block.
fn copied_block(statements: &Vec<ControlFlowStatement>) -> (copy: Vec<ControlFlowStatement>)
    ensures
        block_of(copy@) == block_of(statements@),
    decreases statements,
{
    let mut copy: Vec<ControlFlowStatement> = Vec::with_capacity(statements.len());
    let mut index: usize = 0;
    while index < statements.len()
        invariant
            index <= statements.len(),
            copy.len() == index,
            block_of(copy@) == block_of(statements@).take(index as int),
        decreases statements.len() - index,
    {
        let ghost before = copy@;
        copy.push(copied_statement(&statements[index]));
        index = index + 1;
        assert(block_of(copy@) =~= block_of(before).push(block_of(statements@)[index - 1]));
        assert(block_of(copy@) =~= block_of(statements@).take(index as int));
    }
    assert(block_of(statements@).take(index as int) =~= block_of(statements@));
    copy
}

/// Copies branches.
fn copied_branches(branches: &Vec<ControlFlowIfBranch>) -> (copy: Vec<ControlFlowIfBranch>)
    ensures
        branches_of(copy@) == branches_of(branches@),
    decreases branches,
{
    let mut copy: Vec<ControlFlowIfBranch> = Vec::with_capacity(branches.len());
    let mut index: usize = 0;
    while index < branches.len()
        invariant
            index <= branches.len(),
            copy.len() == index,
            branches_of(copy@) == branches_of(branches@).take(index as int),
        decreases branches.len() - index,
    {
        let ghost before = copy@;
        copy.push(
            ControlFlowIfBranch {
                condition: branches[index].condition.clone(),
                statements: copied_block(&branches[index].statements),
            },
        );
        index = index + 1;
        assert(branches_of(copy@) =~= branches_of(before).push(branches_of(branches@)[index - 1]));
        assert(branches_of(copy@) =~= branches_of(branches@).take(index as int));
    }
    assert(branches_of(branches@).take(index as int) =~= branches_of(branches@));
    copy
}

impl Clone for ControlFlowStatement {
    fn clone(&self) -> (copy: ControlFlowStatement)
        ensures
            copy@ == self@,
    {
        copied_statement(self)
    }
}

impl ControlFlowReturnStatement {
    /// Creates a return statement with an optional value expression.
    pub fn new(expression: Option<ControlFlowExpression>) -> (statement: ControlFlowReturnStatement)
        ensures
            statement == (ControlFlowReturnStatement { expression }),
    {
        ControlFlowReturnStatement { expression }
    }

    /// Creates a value-less `RETURN;` statement.
    pub fn empty() -> (statement: ControlFlowReturnStatement)
        ensures
            statement.expression is None,
    {
        ControlFlowReturnStatement { expression: None }
    }

    /// Returns the expression evaluated by this return, when present.
    pub fn expression(&self) -> (expression: Option<&ControlFlowExpression>)
        ensures
            match self.expression {
                None => expression is None,
                Some(value) => expression == Some(&value),
            },
    {
        match &self.expression {
            None => None,
            Some(expression) => Some(expression),
        }
    }
}

impl ControlFlowIfBranch {
    /// Creates a branch from its strict Boolean condition and body.
    pub fn new(condition: ControlFlowExpression, statements: Vec<ControlFlowStatement>) -> (branch:
        ControlFlowIfBranch)
        ensures
            branch == (ControlFlowIfBranch { condition, statements }),
    {
        ControlFlowIfBranch { condition, statements }
    }

    /// Returns the branch condition.
    pub fn condition(&self) -> (condition: &ControlFlowExpression)
        ensures
            *condition == self.condition,
    {
        &self.condition
    }

    /// Returns the branch body in source order.
    pub fn statements(&self) -> (statements: &[ControlFlowStatement])
        ensures
            statements@ == self.statements@,
    {
        self.statements.as_slice()
    }

    /// Alias for [`Self::statements`].
    pub fn body(&self) -> (statements: &[ControlFlowStatement])
        ensures
            statements@ == self.statements@,
    {
        self.statements()
    }
}

impl ControlFlowIfStatement {
    /// Creates an `IF` from one or more ordered branches and an optional else
    /// body.
    pub fn new(branches: Vec<ControlFlowIfBranch>, else_statements: Option<Vec<ControlFlowStatement>>) -> (statement:
        ControlFlowIfStatement)
        ensures
            statement == (ControlFlowIfStatement { branches, else_statements }),
    {
        ControlFlowIfStatement { branches, else_statements }
    }

    /// Returns the ordered `IF`/`ELSIF` branches.
    pub fn branches(&self) -> (branches: &[ControlFlowIfBranch])
        ensures
            branches@ == self.branches@,
    {
        self.branches.as_slice()
    }

    /// Returns the optional `ELSE` body in source order.
    pub fn else_statements(&self) -> (statements: Option<&[ControlFlowStatement]>)
        ensures
            match self.else_statements {
                None => statements is None,
                Some(body) => statements is Some && statements->Some_0@ == body@,
            },
    {
        match &self.else_statements {
            None => None,
            Some(body) => Some(body.as_slice()),
        }
    }

    /// Alias for [`Self::else_statements`].
    pub fn else_body(&self) -> (statements: Option<&[ControlFlowStatement]>)
        ensures
            match self.else_statements {
                None => statements is None,
                Some(body) => statements is Some && statements->Some_0@ == body@,
            },
    {
        self.else_statements()
    }
}

impl ControlFlowWhileStatement {
    /// Creates a `WHILE` from its condition and body.
    pub fn new(condition: ControlFlowExpression, statements: Vec<ControlFlowStatement>) -> (statement:
        ControlFlowWhileStatement)
        ensures
            statement == (ControlFlowWhileStatement { condition, statements }),
    {
        ControlFlowWhileStatement { condition, statements }
    }

    /// Returns the loop condition.
    pub fn condition(&self) -> (condition: &ControlFlowExpression)
        ensures
            *condition == self.condition,
    {
        &self.condition
    }

    /// Returns the loop body in source order.
    pub fn statements(&self) -> (statements: &[ControlFlowStatement])
        ensures
            statements@ == self.statements@,
    {
        self.statements.as_slice()
    }

    /// Alias for [`Self::statements`].
    pub fn body(&self) -> (statements: &[ControlFlowStatement])
        ensures
            statements@ == self.statements@,
    {
        self.statements()
    }
}

impl ControlFlowStatement {
    /// Creates a `LET` statement.
    pub fn let_(local: LocalId, expression: ControlFlowExpression) -> (statement: ControlFlowStatement)
        ensures
            statement == (ControlFlowStatement::Let { local, expression }),
    {
        ControlFlowStatement::Let { local, expression }
    }

    /// Creates an assignment statement.
    pub fn assignment(local: LocalId, expression: ControlFlowExpression) -> (statement: ControlFlowStatement)
        ensures
            statement == (ControlFlowStatement::Assignment { local, expression }),
    {
        ControlFlowStatement::Assignment { local, expression }
    }

    /// Creates a `RETURN` statement with an optional value.
    pub fn return_(expression: Option<ControlFlowExpression>) -> (statement: ControlFlowStatement)
        ensures
            statement == ControlFlowStatement::Return(ControlFlowReturnStatement { expression }),
    {
        ControlFlowStatement::Return(ControlFlowReturnStatement::new(expression))
    }

    /// Creates a value-bearing `RETURN` statement without an `Option` at the
    /// call site.
    pub fn return_value(expression: ControlFlowExpression) -> (statement: ControlFlowStatement)
        ensures
            statement == ControlFlowStatement::Return(
                (ControlFlowReturnStatement { expression: Some(expression) }),
            ),
    {
        ControlFlowStatement::return_(Some(expression))
    }

    /// Creates a value-less `RETURN;` statement.
    pub fn return_empty() -> (statement: ControlFlowStatement)
        ensures
            statement == ControlFlowStatement::Return((ControlFlowReturnStatement { expression: None })),
    {
        ControlFlowStatement::Return(ControlFlowReturnStatement::empty())
    }

    /// Creates an `IF` statement.
    pub fn if_(statement: ControlFlowIfStatement) -> (wrapped: ControlFlowStatement)
        ensures
            wrapped == ControlFlowStatement::If(statement),
    {
        ControlFlowStatement::If(statement)
    }

    /// Creates a `WHILE` statement.
    pub fn while_(statement: ControlFlowWhileStatement) -> (wrapped: ControlFlowStatement)
        ensures
            wrapped == ControlFlowStatement::While(statement),
    {
        ControlFlowStatement::While(statement)
    }

    /// Returns the local target for a `LET` or assignment statement.
    pub fn local(&self) -> (local: Option<LocalId>)
        ensures
            local == match self@ {
                FlowStatement::Let { local, .. } => Some(local),
                FlowStatement::Assignment { local, .. } => Some(local),
                _ => None,
            },
    {
        match self {
            ControlFlowStatement::Let { local, .. } => Some(*local),
            ControlFlowStatement::Assignment { local, .. } => Some(*local),
            _ => None,
        }
    }

    /// Returns the expression for a `LET` or assignment statement.
    pub fn expression(&self) -> (expression: Option<&ControlFlowExpression>)
        ensures
            match self@ {
                FlowStatement::Let { expression: value, .. } => expression is Some && expression->Some_0@ == value,
                FlowStatement::Assignment { expression: value, .. } => expression is Some && expression->Some_0@
                    == value,
                _ => expression is None,
            },
    {
        match self {
            ControlFlowStatement::Let { expression, .. } => Some(expression),
            ControlFlowStatement::Assignment { expression, .. } => Some(expression),
            _ => None,
        }
    }

    /// Returns the explicit return statement when this is a `RETURN`.
    pub fn return_statement(&self) -> (statement: Option<&ControlFlowReturnStatement>)
        ensures
            match *self {
                ControlFlowStatement::Return(returned) => statement == Some(&returned),
                _ => statement is None,
            },
    {
        match self {
            ControlFlowStatement::Return(statement) => Some(statement),
            _ => None,
        }
    }

    /// Returns the conditional statement when this is an `IF`.
    pub fn if_statement(&self) -> (statement: Option<&ControlFlowIfStatement>)
        ensures
            match *self {
                ControlFlowStatement::If(conditional) => statement == Some(&conditional),
                _ => statement is None,
            },
    {
        match self {
            ControlFlowStatement::If(statement) => Some(statement),
            _ => None,
        }
    }

    /// Returns the loop statement when this is a `WHILE`.
    pub fn while_statement(&self) -> (statement: Option<&ControlFlowWhileStatement>)
        ensures
            match *self {
                ControlFlowStatement::While(repeated) => statement == Some(&repeated),
                _ => statement is None,
            },
    {
        match self {
            ControlFlowStatement::While(statement) => Some(statement),
            _ => None,
        }
    }
}

impl ControlFlowClientPlan {
    /// Creates a plan from ordered local declarations and a root block body.
    pub fn new(locals: Vec<ClientLocal>, statements: Vec<ControlFlowStatement>) -> (plan: ControlFlowClientPlan)
        ensures
            plan@ == (FlowPlan { locals: locals@, statements: block_of(statements@) }),
    {
        ControlFlowClientPlan { locals, statements }
    }

    /// Returns local declarations in source order.
    pub fn locals(&self) -> (locals: &[ClientLocal])
        ensures
            locals@ == self@.locals,
    {
        self.locals.as_slice()
    }

    /// Returns root statements in source order.
    pub fn statements(&self) -> (statements: &[ControlFlowStatement])
        ensures
            block_of(statements@) == self@.statements,
    {
        self.statements.as_slice()
    }

    /// Alias for [`Self::statements`].
    pub fn body(&self) -> (statements: &[ControlFlowStatement])
        ensures
            block_of(statements@) == self@.statements,
    {
        self.statements()
    }

    /// Returns the canonical artefact version for this plan.
    pub fn format_version(&self) -> (version: u32)
        ensures
            version == CONTROL_FLOW_FORMAT_VERSION,
    {
        CONTROL_FLOW_FORMAT_VERSION
    }

    /// Encodes this plan into its exact version-10 bytes.
    pub fn encode(&self) -> (result: Result<Vec<u8>, ClientPlanError>)
        ensures
            viewed(result) == encoded_flow_plan(self@),
    {
        validate_flow_model(&self.locals, &self.statements)?;
        validate_block_trees(&self.statements, BLOCK_LEVELS, FlowTally::new())?;
        let mut writer = Writer::new();
        put_header(&mut writer, CONTROL_FLOW_FORMAT_VERSION, RETURN_CONTROL_FLOW_OPERATION);
        writer.u32(self.locals.len() as u32);
        let ghost before_locals = writer@;
        put_locals(&mut writer, self.locals.as_slice());
        let ghost before_block = writer@;
        put_block(&mut writer, &self.statements);
        proof {
            let body = block_then(self@.statements, Seq::empty());
            assert(before_block + body == before_locals + locals_then(self@.locals, 0, body));
            assert(writer@ =~= flow_plan_bytes(self@));
        }
        finish_artifact(writer)
    }

    /// Decodes exactly one canonical version-10 control-flow artefact.
    pub fn decode(bytes: &[u8]) -> (result: Result<ControlFlowClientPlan, ClientPlanError>)
        ensures
            viewed(result) == decoded_flow_plan(bytes@),
    {
        validate_artifact_size(bytes.len())?;
        let mut reader = Reader::new(bytes);
        take_header(&mut reader, CONTROL_FLOW_FORMAT_VERSION, RETURN_CONTROL_FLOW_OPERATION)?;
        let count: u32 = take_u32(&mut reader)?;
        if count as usize > MAX_CONTROL_FLOW_LOCALS {
            return Err(ClientPlanError::ControlFlowLocalLimitExceeded { limit: MAX_CONTROL_FLOW_LOCALS });
        }
        let locals = decode_locals(&mut reader, count as usize, LocalRule::ControlFlow)?;
        let (statements, _) = decode_block(&mut reader, BLOCK_LEVELS, FlowTally::new())?;
        require_finished(&reader)?;
        validate_flow_model(&locals, &statements)?;
        Ok(ControlFlowClientPlan::new(locals, statements))
    }
}

} // verus!
