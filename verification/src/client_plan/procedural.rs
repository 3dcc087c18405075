//! Version 7: a procedural body of ordered statements.
//!
//! ```text
//! header: version 7, operation 7
//! local count: u32 big-endian, 0..=MAX_PROCEDURAL_LOCALS
//! local: LocalId[16]
//!        TypeId[16]
//!        kind: u8 = 0|1|2 (value|scalar resource|stream resource)
//! statement count: u32 big-endian, 0..=MAX_PROCEDURAL_STATEMENTS
//! statement: tag: u8 = 1|2 (LET|assignment)
//!            LocalId[16]
//!            tree: canonical recursive node encoding
//! return tree: canonical recursive node encoding
//! ```
//!
//! The node limits bound all trees of a plan together.

use vstd::prelude::*;

use crate::artifact_codec::{lemma_identity_read, lemma_u32_read, lemma_u8_read};
use crate::artifact_codec::{lemma_read_identity, lemma_read_u32, lemma_read_u8};
use crate::artifact_codec::{read_identity, read_u32, read_u8, u32_bytes, viewed, Reader, Writer};
use crate::client_plan::error::ClientPlanError;
use crate::client_plan::expression::{ClientExpressionNode, Expression};
use crate::client_plan::grammar::{admit_node, admitted, Grammar, Tally};
use crate::client_plan::header::{
    after_header, finish_artifact, header_bytes, lemma_header, lemma_header_read, put_header, require_finished,
    size_error, sized, take_header, take_identity, take_u32, take_u8, validate_artifact_size,
};
use crate::client_plan::local::{
    declaration, decode_locals, find_local, lemma_locals_canonical, lemma_locals_round_trip, locals_then,
    parsed_locals, put_locals, ClientLocal, LocalRule,
};
use crate::client_plan::node_codec::{node_then, parsed_node, Parsed, ParsedTree};
use crate::client_plan::node_decode::decode_node;
use crate::client_plan::node_encode::{lemma_node_then, node_bytes, put_node};
use crate::client_plan::node_laws::{law_node_canonical, law_node_round_trip};
use crate::client_plan::placement::EXPRESSION_LEVELS;
use crate::client_plan::procedural_rules::{
    lemma_targets_declared, procedural_model_valid, validate_procedural_model,
};
use crate::client_plan::{
    MAX_ARTIFACT_BYTES, MAX_PROCEDURAL_LOCALS, MAX_PROCEDURAL_STATEMENTS, PROCEDURAL_FORMAT_VERSION,
    PROCEDURAL_STATEMENT_ASSIGNMENT, PROCEDURAL_STATEMENT_LET, RETURN_PROCEDURAL_OPERATION,
};
use crate::identity::{identity_bytes, LocalId};

verus! {

/// One ordered procedural CLIENT statement.
#[derive(Clone, Debug, Eq, PartialEq)]
pub enum ClientStatement {
    /// Declares and initialises a local binding.
    Let {
        /// The declared local identity.
        local: LocalId,
        /// The initializer expression.
        expression: ClientExpressionNode,
    },
    /// Replaces an existing local binding.
    Assignment {
        /// The target local identity.
        local: LocalId,
        /// The replacement expression.
        expression: ClientExpressionNode,
    },
}

/// A procedural statement, named by its role.
pub type ProceduralStatement = ClientStatement;

/// A procedural CLIENT statement, named by its role.
pub type ClientProceduralStatement = ClientStatement;

/// A checked version-7 procedural CLIENT plan.
#[derive(Clone, Debug, Eq, PartialEq)]
pub struct ProceduralClientPlan {
    pub locals: Vec<ClientLocal>,
    pub statements: Vec<ClientStatement>,
    pub return_expression: ClientExpressionNode,
}

/// The mathematical statement.
pub enum Statement {
    Let { local: LocalId, expression: Expression },
    Assignment { local: LocalId, expression: Expression },
}

impl Statement {
    /// The target local.
    pub open spec fn local(self) -> LocalId {
        match self {
            Statement::Let { local, .. } => local,
            Statement::Assignment { local, .. } => local,
        }
    }

    /// The expression that the local receives.
    pub open spec fn expression(self) -> Expression {
        match self {
            Statement::Let { expression, .. } => expression,
            Statement::Assignment { expression, .. } => expression,
        }
    }

    /// The wire tag of this statement.
    pub open spec fn wire(self) -> u8 {
        match self {
            Statement::Let { .. } => PROCEDURAL_STATEMENT_LET,
            Statement::Assignment { .. } => PROCEDURAL_STATEMENT_ASSIGNMENT,
        }
    }
}

/// The mathematical procedural plan.
pub struct ProceduralPlan {
    pub locals: Seq<ClientLocal>,
    pub statements: Seq<Statement>,
    pub return_expression: Expression,
}

impl View for ClientStatement {
    type V = Statement;

    open spec fn view(&self) -> Statement {
        match *self {
            ClientStatement::Let { local, expression } => Statement::Let { local, expression: expression@ },
            ClientStatement::Assignment { local, expression } => Statement::Assignment {
                local,
                expression: expression@,
            },
        }
    }
}

/// The statements that statement records stand for.
pub open spec fn statements_of(statements: Seq<ClientStatement>) -> Seq<Statement> {
    Seq::new(statements.len(), |index: int| statements[index]@)
}

impl View for ProceduralClientPlan {
    type V = ProceduralPlan;

    open spec fn view(&self) -> ProceduralPlan {
        ProceduralPlan {
            locals: self.locals@,
            statements: statements_of(self.statements@),
            return_expression: self.return_expression@,
        }
    }
}

/// The tally behind the statements from `index` on.
pub open spec fn statements_admitted(statements: Seq<Statement>, index: nat, tally: Tally) -> Result<
    Tally,
    ClientPlanError,
>
    decreases statements.len() - index,
{
    if index >= statements.len() {
        Ok(tally)
    } else {
        match admitted(
            statements[index as int].expression(),
            EXPRESSION_LEVELS as nat,
            tally,
            Grammar::procedural_set(),
        ) {
            Err(error) => Err(error),
            Ok(tally) => statements_admitted(statements, index + 1, tally),
        }
    }
}

/// The tally behind all trees of a plan.
pub open spec fn plan_admitted(plan: ProceduralPlan) -> Result<Tally, ClientPlanError> {
    match statements_admitted(plan.statements, 0, Tally::zero()) {
        Err(error) => Err(error),
        Ok(tally) => admitted(
            plan.return_expression,
            EXPRESSION_LEVELS as nat,
            tally,
            Grammar::procedural_set(),
        ),
    }
}

/// A statement in front of `rest`.
pub open spec fn statement_then(statement: Statement, rest: Seq<u8>) -> Seq<u8> {
    seq![statement.wire()] + (identity_bytes(statement.local().0) + node_then(statement.expression(), rest))
}

/// The statements from `index` on in front of `rest`.
pub open spec fn statements_then(statements: Seq<Statement>, index: nat, rest: Seq<u8>) -> Seq<u8>
    decreases statements.len() - index,
{
    if index >= statements.len() {
        rest
    } else {
        statement_then(statements[index as int], statements_then(statements, index + 1, rest))
    }
}

/// What follows the header of a procedural plan.
pub open spec fn procedural_payload(plan: ProceduralPlan) -> Seq<u8> {
    u32_bytes(plan.locals.len() as u32) + locals_then(plan.locals, 0, procedural_body(plan))
}

/// The statements and the returned tree of a procedural plan.
pub open spec fn procedural_body(plan: ProceduralPlan) -> Seq<u8> {
    u32_bytes(plan.statements.len() as u32) + statements_then(
        plan.statements,
        0,
        node_then(plan.return_expression, Seq::empty()),
    )
}

/// The complete version-7 artefact.
pub open spec fn procedural_plan_bytes(plan: ProceduralPlan) -> Seq<u8> {
    header_bytes(PROCEDURAL_FORMAT_VERSION, RETURN_PROCEDURAL_OPERATION) + procedural_payload(plan)
}

/// What encoding a procedural plan gives.
pub open spec fn encoded_procedural_plan(plan: ProceduralPlan) -> Result<Seq<u8>, ClientPlanError> {
    match procedural_model_valid(plan) {
        Err(error) => Err(error),
        Ok(()) => match plan_admitted(plan) {
            Err(error) => Err(error),
            Ok(_) => sized(procedural_plan_bytes(plan)),
        },
    }
}

/// The statement at the front of the input, which targets one of `locals`.
pub open spec fn parsed_statement(input: Seq<u8>, locals: Seq<ClientLocal>, tally: Tally) -> ParsedTree<Statement> {
    match read_u8(input) {
        None => Err(ClientPlanError::Truncated),
        Some((tag, rest)) => match read_identity(rest) {
            None => Err(ClientPlanError::Truncated),
            Some((local, rest)) => if declaration(locals, LocalId(local)) is None {
                Err(ClientPlanError::UnknownProceduralLocal(LocalId(local)))
            } else if tag != PROCEDURAL_STATEMENT_LET && tag != PROCEDURAL_STATEMENT_ASSIGNMENT {
                Err(ClientPlanError::InvalidProceduralStatement(tag))
            } else {
                match parsed_node(rest, EXPRESSION_LEVELS as nat, tally, Grammar::procedural_set()) {
                    Err(error) => Err(error),
                    Ok((expression, rest, tally)) => Ok(
                        (
                            if tag == PROCEDURAL_STATEMENT_LET {
                                Statement::Let { local: LocalId(local), expression }
                            } else {
                                Statement::Assignment { local: LocalId(local), expression }
                            },
                            rest,
                            tally,
                        ),
                    ),
                }
            },
        },
    }
}

/// Statements up to `total`, the first of which are `done`.
pub open spec fn parsed_statements(
    input: Seq<u8>,
    done: Seq<Statement>,
    total: nat,
    locals: Seq<ClientLocal>,
    tally: Tally,
) -> ParsedTree<Seq<Statement>>
    decreases total - done.len(),
{
    if done.len() >= total {
        Ok((done, input, tally))
    } else {
        match parsed_statement(input, locals, tally) {
            Err(error) => Err(error),
            Ok((statement, rest, tally)) => parsed_statements(rest, done.push(statement), total, locals, tally),
        }
    }
}

/// The declarations behind the header.
pub open spec fn parsed_declarations(input: Seq<u8>) -> Parsed<Seq<ClientLocal>> {
    match read_u32(input) {
        None => Err(ClientPlanError::Truncated),
        Some((count, rest)) => if count > MAX_PROCEDURAL_LOCALS {
            Err(ClientPlanError::ProceduralLocalLimitExceeded { limit: MAX_PROCEDURAL_LOCALS })
        } else {
            parsed_locals(rest, Seq::empty(), count as nat, LocalRule::Procedural)
        },
    }
}

/// The statements behind the declarations.
pub open spec fn parsed_statement_list(input: Seq<u8>, locals: Seq<ClientLocal>) -> ParsedTree<Seq<Statement>> {
    match read_u32(input) {
        None => Err(ClientPlanError::Truncated),
        Some((count, rest)) => if count > MAX_PROCEDURAL_STATEMENTS {
            Err(ClientPlanError::ProceduralStatementLimitExceeded { limit: MAX_PROCEDURAL_STATEMENTS })
        } else {
            parsed_statements(rest, Seq::empty(), count as nat, locals, Tally::zero())
        },
    }
}

/// The plan behind the header, before its rules are checked.
pub open spec fn parsed_procedural_payload(input: Seq<u8>) -> Parsed<ProceduralPlan> {
    match parsed_declarations(input) {
        Err(error) => Err(error),
        Ok((locals, rest)) => match parsed_statement_list(rest, locals) {
            Err(error) => Err(error),
            Ok((statements, rest, tally)) => match parsed_node(
                rest,
                EXPRESSION_LEVELS as nat,
                tally,
                Grammar::procedural_set(),
            ) {
                Err(error) => Err(error),
                Ok((return_expression, rest, _)) => Ok(
                    (ProceduralPlan { locals, statements, return_expression }, rest),
                ),
            },
        },
    }
}

/// What decoding `bytes` as version 7 gives.
pub open spec fn decoded_procedural_plan(bytes: Seq<u8>) -> Result<ProceduralPlan, ClientPlanError> {
    if bytes.len() > MAX_ARTIFACT_BYTES {
        Err(size_error(bytes.len()))
    } else {
        match after_header(bytes, PROCEDURAL_FORMAT_VERSION, RETURN_PROCEDURAL_OPERATION) {
            Err(error) => Err(error),
            Ok(rest) => match parsed_procedural_payload(rest) {
                Err(error) => Err(error),
                Ok((plan, rest)) => if rest.len() != 0 {
                    Err(ClientPlanError::TrailingBytes)
                } else {
                    match procedural_model_valid(plan) {
                        Err(error) => Err(error),
                        Ok(()) => Ok(plan),
                    }
                },
            },
        }
    }
}

/// Admitted statements that target declared locals are read back.
proof fn lemma_statements_round_trip(
    statements: Seq<Statement>,
    index: nat,
    locals: Seq<ClientLocal>,
    tally: Tally,
    rest: Seq<u8>,
)
    requires
        index <= statements.len(),
        statements_admitted(statements, index, tally) is Ok,
        forall|i: int|
            index <= i < statements.len() ==> declaration(locals, (#[trigger] statements[i]).local()) is Some,
    ensures
        parsed_statements(
            statements_then(statements, index, rest),
            statements.take(index as int),
            statements.len(),
            locals,
            tally,
        ) == Ok::<(Seq<Statement>, Seq<u8>, Tally), ClientPlanError>(
            (statements, rest, statements_admitted(statements, index, tally)->Ok_0),
        ),
    decreases statements.len() - index,
{
    let done = statements.take(index as int);
    if index < statements.len() {
        let statement = statements[index as int];
        let later = statements_then(statements, index + 1, rest);
        let encoded = node_then(statement.expression(), later);
        lemma_read_u8(statement.wire(), identity_bytes(statement.local().0) + encoded);
        lemma_read_identity(statement.local().0, encoded);
        law_node_round_trip(
            statement.expression(),
            EXPRESSION_LEVELS as nat,
            tally,
            Grammar::procedural_set(),
            later,
        );
        let behind = admitted(
            statement.expression(),
            EXPRESSION_LEVELS as nat,
            tally,
            Grammar::procedural_set(),
        )->Ok_0;
        lemma_statements_round_trip(statements, index + 1, locals, behind, rest);
        assert(done.push(statement) =~= statements.take((index + 1) as int));
    } else {
        assert(done =~= statements);
    }
}

/// What statements were read from.
proof fn lemma_statements_canonical(
    input: Seq<u8>,
    done: Seq<Statement>,
    total: nat,
    locals: Seq<ClientLocal>,
    tally: Tally,
)
    requires
        done.len() <= total,
    ensures
        parsed_statements(input, done, total, locals, tally) matches Ok((statements, rest, behind)) ==> {
            &&& statements.len() == total
            &&& statements.take(done.len() as int) == done
            &&& input == statements_then(statements, done.len(), rest)
            &&& statements_admitted(statements, done.len(), tally) == Ok::<Tally, ClientPlanError>(behind)
        },
    decreases total - done.len(),
{
    if done.len() < total {
        if parsed_statements(input, done, total, locals, tally) is Ok {
            lemma_u8_read(input);
            let after_tag = read_u8(input)->Some_0.1;
            lemma_identity_read(after_tag);
            let encoded = read_identity(after_tag)->Some_0.1;
            law_node_canonical(encoded, EXPRESSION_LEVELS as nat, tally, Grammar::procedural_set());
            let (statement, later, behind) = parsed_statement(input, locals, tally)->Ok_0;
            let next = done.push(statement);
            lemma_statements_canonical(later, next, total, locals, behind);
            let statements = parsed_statements(later, next, total, locals, behind)->Ok_0.0;
            let position = done.len() as int;
            assert(statements[position] == statements.take(next.len() as int)[position]);
            assert(statements.take(position) =~= statements.take(next.len() as int).take(position));
            assert(next.take(position) =~= done);
        }
    } else {
        assert(done.take(done.len() as int) =~= done);
    }
}

/// Decoding an encoded procedural plan gives that plan back.
pub proof fn law_procedural_plan_round_trip(plan: ProceduralPlan)
    ensures
        encoded_procedural_plan(plan) matches Ok(bytes) ==> decoded_procedural_plan(bytes) == Ok::<
            ProceduralPlan,
            ClientPlanError,
        >(plan),
{
    if encoded_procedural_plan(plan) is Ok {
        let body = procedural_body(plan);
        let last = node_then(plan.return_expression, Seq::empty());
        let local_count = plan.locals.len() as u32;
        let statement_count = plan.statements.len() as u32;
        lemma_header(PROCEDURAL_FORMAT_VERSION, RETURN_PROCEDURAL_OPERATION, procedural_payload(plan));
        lemma_read_u32(local_count, locals_then(plan.locals, 0, body));
        lemma_locals_round_trip(plan.locals, 0, LocalRule::Procedural, body);
        assert(plan.locals.take(0) =~= Seq::empty());
        assert(parsed_declarations(procedural_payload(plan)) == Ok::<(Seq<ClientLocal>, Seq<u8>), ClientPlanError>(
            (plan.locals, body),
        ));
        lemma_read_u32(statement_count, statements_then(plan.statements, 0, last));
        lemma_targets_declared(plan.statements, 0, plan.locals, Set::empty());
        lemma_statements_round_trip(plan.statements, 0, plan.locals, Tally::zero(), last);
        assert(plan.statements.take(0) =~= Seq::empty());
        let tally = statements_admitted(plan.statements, 0, Tally::zero())->Ok_0;
        law_node_round_trip(
            plan.return_expression,
            EXPRESSION_LEVELS as nat,
            tally,
            Grammar::procedural_set(),
            Seq::empty(),
        );
    }
}

/// An artefact that decodes is the encoding of what it decodes to.
pub proof fn law_procedural_plan_canonical(bytes: Seq<u8>)
    ensures
        decoded_procedural_plan(bytes) matches Ok(plan) ==> encoded_procedural_plan(plan) == Ok::<
            Seq<u8>,
            ClientPlanError,
        >(bytes),
{
    if decoded_procedural_plan(bytes) is Ok {
        let plan = decoded_procedural_plan(bytes)->Ok_0;
        lemma_header_read(bytes, PROCEDURAL_FORMAT_VERSION, RETURN_PROCEDURAL_OPERATION);
        let payload = after_header(bytes, PROCEDURAL_FORMAT_VERSION, RETURN_PROCEDURAL_OPERATION)->Ok_0;
        lemma_u32_read(payload);
        let (local_count, local_list) = read_u32(payload)->Some_0;
        lemma_locals_canonical(local_list, Seq::empty(), local_count as nat, LocalRule::Procedural);
        let body = parsed_declarations(payload)->Ok_0.1;
        lemma_u32_read(body);
        let (statement_count, statement_list) = read_u32(body)->Some_0;
        lemma_statements_canonical(
            statement_list,
            Seq::empty(),
            statement_count as nat,
            plan.locals,
            Tally::zero(),
        );
        let (_, last, tally) = parsed_statement_list(body, plan.locals)->Ok_0;
        law_node_canonical(last, EXPRESSION_LEVELS as nat, tally, Grammar::procedural_set());
        let rest = parsed_procedural_payload(payload)->Ok_0.1;
        assert(rest =~= Seq::empty());
        assert(bytes =~= procedural_plan_bytes(plan));
    }
}

impl ClientStatement {
    /// Creates a LET statement.
    pub fn let_(local: LocalId, expression: ClientExpressionNode) -> (statement: ClientStatement)
        ensures
            statement@ == (Statement::Let { local, expression: expression@ }),
    {
        ClientStatement::Let { local, expression }
    }

    /// Creates an assignment statement.
    pub fn assignment(local: LocalId, expression: ClientExpressionNode) -> (statement: ClientStatement)
        ensures
            statement@ == (Statement::Assignment { local, expression: expression@ }),
    {
        ClientStatement::Assignment { local, expression }
    }

    /// Returns the target local identity.
    pub fn local(&self) -> (local: LocalId)
        ensures
            local == self@.local(),
    {
        match self {
            ClientStatement::Let { local, .. } => *local,
            ClientStatement::Assignment { local, .. } => *local,
        }
    }

    /// Returns the statement expression.
    pub fn expression(&self) -> (expression: &ClientExpressionNode)
        ensures
            expression@ == self@.expression(),
    {
        match self {
            ClientStatement::Let { expression, .. } => expression,
            ClientStatement::Assignment { expression, .. } => expression,
        }
    }
}

/// Writes a statement.
fn put_statement(writer: &mut Writer, statement: &ClientStatement)
    ensures
        forall|rest: Seq<u8>| final(writer)@ + rest == old(writer)@ + #[trigger] statement_then(statement@, rest),
{
    match statement {
        ClientStatement::Let { .. } => writer.u8(PROCEDURAL_STATEMENT_LET),
        ClientStatement::Assignment { .. } => writer.u8(PROCEDURAL_STATEMENT_ASSIGNMENT),
    }
    writer.identity(statement.local().0);
    put_node(writer, statement.expression());
    assert forall|rest: Seq<u8>| writer@ + rest == old(writer)@ + #[trigger] statement_then(statement@, rest) by {
        lemma_node_then(statement@.expression(), rest);
        assert(writer@ + rest =~= old(writer)@ + statement_then(statement@, rest));
    }
}

/// Reads a statement that targets one of `locals`.
fn decode_statement(reader: &mut Reader, locals: &[ClientLocal], tally: Tally) -> (result: Result<
    (ClientStatement, Tally),
    ClientPlanError,
>)
    ensures
        match parsed_statement(old(reader)@, locals@, tally) {
            Ok((statement, rest, behind)) => {
                &&& result is Ok
                &&& result->Ok_0.0@ == statement
                &&& result->Ok_0.1 == behind
                &&& final(reader)@ == rest
            },
            Err(error) => result == Err::<(ClientStatement, Tally), ClientPlanError>(error),
        },
{
    let tag: u8 = take_u8(reader)?;
    let identity: u128 = take_identity(reader)?;
    let local = LocalId(identity);
    if let None = find_local(locals, local) {
        return Err(ClientPlanError::UnknownProceduralLocal(local));
    }
    if tag != PROCEDURAL_STATEMENT_LET && tag != PROCEDURAL_STATEMENT_ASSIGNMENT {
        return Err(ClientPlanError::InvalidProceduralStatement(tag));
    }
    let grammar = Grammar { resources: true, locals: true, inspect: true, programmable: false };
    let (expression, behind) = decode_node(reader, EXPRESSION_LEVELS, tally, grammar)?;
    if tag == PROCEDURAL_STATEMENT_LET {
        Ok((ClientStatement::let_(local, expression), behind))
    } else {
        Ok((ClientStatement::assignment(local, expression), behind))
    }
}

/// Reads the statements behind the declarations.
fn decode_statements(reader: &mut Reader, locals: &[ClientLocal]) -> (result: Result<
    (Vec<ClientStatement>, Tally),
    ClientPlanError,
>)
    ensures
        match parsed_statement_list(old(reader)@, locals@) {
            Ok((statements, rest, behind)) => {
                &&& result is Ok
                &&& statements_of(result->Ok_0.0@) == statements
                &&& result->Ok_0.1 == behind
                &&& final(reader)@ == rest
            },
            Err(error) => result == Err::<(Vec<ClientStatement>, Tally), ClientPlanError>(error),
        },
{
    let count: u32 = take_u32(reader)?;
    let total: usize = count as usize;
    if total > MAX_PROCEDURAL_STATEMENTS {
        return Err(ClientPlanError::ProceduralStatementLimitExceeded { limit: MAX_PROCEDURAL_STATEMENTS });
    }
    let mut statements: Vec<ClientStatement> = Vec::with_capacity(total);
    let mut tally = Tally::new();
    assert(statements_of(statements@) =~= Seq::empty());
    while statements.len() < total
        invariant
            statements.len() <= total,
            parsed_statement_list(old(reader)@, locals@) == parsed_statements(
                reader@,
                statements_of(statements@),
                total as nat,
                locals@,
                tally,
            ),
        decreases total - statements.len(),
    {
        let ghost done = statements_of(statements@);
        let (statement, behind) = decode_statement(reader, locals, tally)?;
        let ghost value = statement@;
        statements.push(statement);
        tally = behind;
        assert(statements_of(statements@) =~= done.push(value));
    }
    Ok((statements, tally))
}

impl ProceduralClientPlan {
    /// Creates a procedural plan from declaration-order locals, ordered
    /// statements, and one final return expression.
    pub fn new(
        locals: Vec<ClientLocal>,
        statements: Vec<ClientStatement>,
        return_expression: ClientExpressionNode,
    ) -> (plan: ProceduralClientPlan)
        ensures
            plan@ == (ProceduralPlan {
                locals: locals@,
                statements: statements_of(statements@),
                return_expression: return_expression@,
            }),
    {
        ProceduralClientPlan { locals, statements, return_expression }
    }

    /// Returns local declarations in source order.
    pub fn locals(&self) -> (locals: &[ClientLocal])
        ensures
            locals@ == self@.locals,
    {
        self.locals.as_slice()
    }

    /// Returns statements in source order.
    pub fn statements(&self) -> (statements: &[ClientStatement])
        ensures
            statements_of(statements@) == self@.statements,
    {
        self.statements.as_slice()
    }

    /// Returns the final return expression.
    pub fn return_expression(&self) -> (expression: &ClientExpressionNode)
        ensures
            expression@ == self@.return_expression,
    {
        &self.return_expression
    }

    /// Returns the canonical artefact version for this plan.
    pub fn format_version(&self) -> (version: u32)
        ensures
            version == PROCEDURAL_FORMAT_VERSION,
    {
        PROCEDURAL_FORMAT_VERSION
    }

    /// Refuses trees outside the node set or the limits.
    fn validate_trees(&self) -> (result: Result<(), ClientPlanError>)
        ensures
            match plan_admitted(self@) {
                Ok(_) => result is Ok,
                Err(error) => result == Err::<(), ClientPlanError>(error),
            },
    {
        let grammar = Grammar { resources: true, locals: true, inspect: true, programmable: false };
        let mut tally = Tally::new();
        let mut index: usize = 0;
        while index < self.statements.len()
            invariant
                index <= self.statements.len(),
                grammar == Grammar::procedural_set(),
                statements_admitted(self@.statements, 0, Tally::zero()) == statements_admitted(
                    self@.statements,
                    index as nat,
                    tally,
                ),
            decreases self.statements.len() - index,
        {
            assert(self@.statements[index as int] == self.statements[index as int]@);
            tally = admit_node(self.statements[index].expression(), EXPRESSION_LEVELS, tally, grammar)?;
            index = index + 1;
        }
        admit_node(&self.return_expression, EXPRESSION_LEVELS, tally, grammar)?;
        Ok(())
    }

    /// Writes the statements.
    fn put_statements(&self, writer: &mut Writer)
        ensures
            forall|rest: Seq<u8>|
                final(writer)@ + rest == old(writer)@ + #[trigger] statements_then(self@.statements, 0, rest),
    {
        let ghost start = writer@;
        let ghost list = self@.statements;
        let mut index: usize = 0;
        while index < self.statements.len()
            invariant
                index <= self.statements.len(),
                list == self@.statements,
                forall|rest: Seq<u8>|
                    writer@ + #[trigger] statements_then(list, index as nat, rest) == start + statements_then(
                        list,
                        0,
                        rest,
                    ),
            decreases self.statements.len() - index,
        {
            assert(list[index as int] == self.statements[index as int]@);
            let ghost before = writer@;
            let ghost place = index as nat;
            put_statement(writer, &self.statements[index]);
            index = index + 1;
            assert forall|rest: Seq<u8>|
                writer@ + #[trigger] statements_then(list, index as nat, rest) == start + statements_then(
                    list,
                    0,
                    rest,
                ) by {
                let later = statements_then(list, index as nat, rest);
                assert(writer@ + later == before + statement_then(list[place as int], later));
                assert(before + statements_then(list, place, rest) == start + statements_then(list, 0, rest));
            }
        }
        assert forall|rest: Seq<u8>| writer@ + rest == start + #[trigger] statements_then(list, 0, rest) by {
            assert(writer@ + statements_then(list, index as nat, rest) == start + statements_then(list, 0, rest));
        }
    }

    /// Encodes this plan into its exact version-7 bytes.
    pub fn encode(&self) -> (result: Result<Vec<u8>, ClientPlanError>)
        ensures
            viewed(result) == encoded_procedural_plan(self@),
    {
        validate_procedural_model(&self.locals, &self.statements, &self.return_expression)?;
        self.validate_trees()?;
        let mut writer = Writer::new();
        put_header(&mut writer, PROCEDURAL_FORMAT_VERSION, RETURN_PROCEDURAL_OPERATION);
        writer.u32(self.locals.len() as u32);
        let ghost before_locals = writer@;
        put_locals(&mut writer, self.locals.as_slice());
        let ghost before_count = writer@;
        writer.u32(self.statements.len() as u32);
        let ghost before_statements = writer@;
        self.put_statements(&mut writer);
        let ghost before_return = writer@;
        put_node(&mut writer, &self.return_expression);
        proof {
            let last = node_bytes(self@.return_expression);
            assert(before_return + last == before_statements + statements_then(self@.statements, 0, last));
            assert(writer@ =~= before_count + procedural_body(self@));
            assert(before_count + procedural_body(self@) == before_locals + locals_then(
                self@.locals,
                0,
                procedural_body(self@),
            ));
            assert(writer@ =~= procedural_plan_bytes(self@));
        }
        finish_artifact(writer)
    }

    /// Decodes exactly one canonical version-7 procedural client plan.
    pub fn decode(bytes: &[u8]) -> (result: Result<ProceduralClientPlan, ClientPlanError>)
        ensures
            viewed(result) == decoded_procedural_plan(bytes@),
    {
        validate_artifact_size(bytes.len())?;
        let mut reader = Reader::new(bytes);
        take_header(&mut reader, PROCEDURAL_FORMAT_VERSION, RETURN_PROCEDURAL_OPERATION)?;
        let count: u32 = take_u32(&mut reader)?;
        if count as usize > MAX_PROCEDURAL_LOCALS {
            return Err(ClientPlanError::ProceduralLocalLimitExceeded { limit: MAX_PROCEDURAL_LOCALS });
        }
        let locals = decode_locals(&mut reader, count as usize, LocalRule::Procedural)?;
        let (statements, tally) = decode_statements(&mut reader, locals.as_slice())?;
        let grammar = Grammar { resources: true, locals: true, inspect: true, programmable: false };
        let (return_expression, _) = decode_node(&mut reader, EXPRESSION_LEVELS, tally, grammar)?;
        require_finished(&reader)?;
        validate_procedural_model(&locals, &statements, &return_expression)?;
        Ok(ProceduralClientPlan::new(locals, statements, return_expression))
    }
}

} // verus!
