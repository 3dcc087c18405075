//! Versions 3 and 9: a plan that returns one closed expression tree.
//!
//! ```text
//! header: version 3, operation 3, or version 9, operation 9
//! tree: canonical recursive node encoding
//! ```
//!
//! Version 9 holds at least one Inspector node and version 3 holds none.

use vstd::prelude::*;

use crate::artifact_codec::{viewed, Reader, Writer};
use crate::client_plan::error::ClientPlanError;
use crate::client_plan::expression::{
    contains_inspect, expression_contains_inspect, operands, operands_contain_inspect, ClientExpressionNode,
    Expression,
};
use crate::client_plan::grammar::{admit_node, admitted, all_admitted, Grammar, Tally};
use crate::client_plan::header::{
    after_operation, declared_version, finish_artifact, header_bytes, lemma_header, lemma_header_read, put_header,
    require_finished, size_error, sized, take_operation, take_version, validate_artifact_size,
};
use crate::client_plan::node_codec::parsed_node;
use crate::client_plan::node_decode::decode_node;
use crate::client_plan::node_encode::{node_bytes, put_node};
use crate::client_plan::node_laws::{law_node_canonical, law_node_round_trip};
use crate::client_plan::placement::{
    contract_placement, lemma_placement_allows_root, validate_external_contract_placement, EXPRESSION_LEVELS,
};
use crate::client_plan::{
    EXPRESSION_FORMAT_VERSION, INSPECT_FORMAT_VERSION, MAX_ARTIFACT_BYTES, RETURN_EXPRESSION_OPERATION,
    RETURN_INSPECT_OPERATION,
};

verus! {

/// A checked version-3 or version-9 CLIENT plan that returns one closed
/// expression tree.
#[derive(Clone, Debug, Eq, PartialEq)]
pub struct ExpressionClientPlan {
    pub expression: ClientExpressionNode,
}

impl View for ExpressionClientPlan {
    type V = Expression;

    open spec fn view(&self) -> Expression {
        self.expression@
    }
}

/// The version that carries an expression.
pub open spec fn expression_version(expression: Expression) -> u32 {
    if contains_inspect(expression) {
        INSPECT_FORMAT_VERSION
    } else {
        EXPRESSION_FORMAT_VERSION
    }
}

/// The operation tag of version 3 or 9.
pub open spec fn expression_operation(version: u32) -> u8 {
    if version == INSPECT_FORMAT_VERSION {
        RETURN_INSPECT_OPERATION
    } else {
        RETURN_EXPRESSION_OPERATION
    }
}

/// The complete artefact of an expression.
pub open spec fn expression_plan_bytes(expression: Expression) -> Seq<u8> {
    let version = expression_version(expression);
    header_bytes(version, expression_operation(version)) + node_bytes(expression)
}

/// What encoding an expression plan gives.
pub open spec fn encoded_expression_plan(expression: Expression) -> Result<Seq<u8>, ClientPlanError> {
    let inspect = contains_inspect(expression);
    match contract_placement(expression, true) {
        Err(error) => Err(error),
        Ok(()) => if inspect && contract_placement(expression, false) is Err {
            Err(contract_placement(expression, false)->Err_0)
        } else {
            match admitted(expression, EXPRESSION_LEVELS as nat, Tally::zero(), Grammar::inspector_set(inspect)) {
                Err(error) => Err(error),
                Ok(_) => sized(expression_plan_bytes(expression)),
            }
        },
    }
}

/// What decoding `bytes` as version 3 or 9 gives.
pub open spec fn decoded_expression_plan(bytes: Seq<u8>) -> Result<Expression, ClientPlanError> {
    if bytes.len() > MAX_ARTIFACT_BYTES {
        Err(size_error(bytes.len()))
    } else {
        match declared_version(bytes) {
            Err(error) => Err(error),
            Ok((version, rest)) => if version != EXPRESSION_FORMAT_VERSION && version != INSPECT_FORMAT_VERSION {
                Err(ClientPlanError::UnsupportedVersion(version))
            } else {
                match after_operation(rest, expression_operation(version)) {
                    Err(error) => Err(error),
                    Ok(rest) => decoded_expression_tree(rest, version),
                }
            },
        }
    }
}

/// The tree behind the header of version 3 or 9.
pub open spec fn decoded_expression_tree(input: Seq<u8>, version: u32) -> Result<Expression, ClientPlanError> {
    match parsed_node(
        input,
        EXPRESSION_LEVELS as nat,
        Tally::zero(),
        Grammar::inspector_set(version == INSPECT_FORMAT_VERSION),
    ) {
        Err(error) => Err(error),
        Ok((expression, rest, _)) => match contract_placement(expression, version == EXPRESSION_FORMAT_VERSION) {
            Err(error) => Err(error),
            Ok(()) => if rest.len() != 0 {
                Err(ClientPlanError::TrailingBytes)
            } else if version == INSPECT_FORMAT_VERSION && !contains_inspect(expression) {
                Err(ClientPlanError::InvalidInspectPlan)
            } else {
                Ok(expression)
            },
        },
    }
}

/// A tree that was admitted without Inspector nodes holds none.
pub proof fn lemma_no_inspect(expression: Expression, levels: nat, tally: Tally, grammar: Grammar)
    requires
        admitted(expression, levels, tally, grammar) is Ok,
        !grammar.inspect,
        !grammar.programmable,
    ensures
        !contains_inspect(expression),
    decreases levels, 0nat,
{
    lemma_operands_without_inspect(
        expression,
        0,
        (levels - 1) as nat,
        crate::client_plan::grammar::node_tally(expression, tally),
        crate::client_plan::grammar::operand_grammar(expression, grammar),
    );
}

/// Operands that were admitted without Inspector nodes hold none.
proof fn lemma_operands_without_inspect(
    expression: Expression,
    index: nat,
    levels: nat,
    tally: Tally,
    grammar: Grammar,
)
    requires
        all_admitted(operands(expression), index, levels, tally, grammar) is Ok,
        !grammar.inspect,
        !grammar.programmable,
    ensures
        !operands_contain_inspect(expression, index),
    decreases levels, 1 + operands(expression).len() - index,
{
    if index < operands(expression).len() {
        let operand = operands(expression)[index as int];
        lemma_no_inspect(operand, levels, tally, grammar);
        let behind = admitted(operand, levels, tally, grammar)->Ok_0;
        lemma_operands_without_inspect(expression, index + 1, levels, behind, grammar);
    }
}

/// Decoding an encoded expression plan gives that plan back.
pub proof fn law_expression_plan_round_trip(expression: Expression)
    ensures
        encoded_expression_plan(expression) matches Ok(bytes) ==> decoded_expression_plan(bytes) == Ok::<
            Expression,
            ClientPlanError,
        >(expression),
{
    if encoded_expression_plan(expression) is Ok {
        let version = expression_version(expression);
        let grammar = Grammar::inspector_set(contains_inspect(expression));
        lemma_header(version, expression_operation(version), node_bytes(expression));
        law_node_round_trip(expression, EXPRESSION_LEVELS as nat, Tally::zero(), grammar, Seq::empty());
    }
}

/// An artefact that decodes is the encoding of what it decodes to.
pub proof fn law_expression_plan_canonical(bytes: Seq<u8>)
    ensures
        decoded_expression_plan(bytes) matches Ok(expression) ==> encoded_expression_plan(expression) == Ok::<
            Seq<u8>,
            ClientPlanError,
        >(bytes),
{
    if decoded_expression_plan(bytes) is Ok {
        let expression = decoded_expression_plan(bytes)->Ok_0;
        let (version, _) = declared_version(bytes)->Ok_0;
        let operation = expression_operation(version);
        lemma_header_read(bytes, version, operation);
        let tree = crate::client_plan::header::after_header(bytes, version, operation)->Ok_0;
        let grammar = Grammar::inspector_set(version == INSPECT_FORMAT_VERSION);
        law_node_canonical(tree, EXPRESSION_LEVELS as nat, Tally::zero(), grammar);
        lemma_placement_allows_root(expression);
        if version == EXPRESSION_FORMAT_VERSION {
            lemma_no_inspect(expression, EXPRESSION_LEVELS as nat, Tally::zero(), grammar);
        }
        assert(parsed_node(tree, EXPRESSION_LEVELS as nat, Tally::zero(), grammar)->Ok_0.1 =~= Seq::empty());
        assert(bytes =~= expression_plan_bytes(expression));
    }
}

impl ExpressionClientPlan {
    /// Creates a checked plan from one closed expression tree.
    pub fn new(expression: ClientExpressionNode) -> (plan: ExpressionClientPlan)
        ensures
            plan@ == expression@,
    {
        ExpressionClientPlan { expression }
    }

    /// Returns the closed expression tree.
    pub fn expression(&self) -> (expression: &ClientExpressionNode)
        ensures
            expression@ == self@,
    {
        &self.expression
    }

    /// Returns the canonical artefact version for this plan.
    pub fn format_version(&self) -> (version: u32)
        ensures
            version == expression_version(self@),
    {
        if expression_contains_inspect(&self.expression) {
            INSPECT_FORMAT_VERSION
        } else {
            EXPRESSION_FORMAT_VERSION
        }
    }

    /// Encodes this plan into its exact version-3 or version-9 bytes.
    pub fn encode(&self) -> (result: Result<Vec<u8>, ClientPlanError>)
        ensures
            viewed(result) == encoded_expression_plan(self@),
    {
        validate_external_contract_placement(&self.expression, true)?;
        let version: u32 = self.format_version();
        let inspect = version == INSPECT_FORMAT_VERSION;
        if inspect {
            validate_external_contract_placement(&self.expression, false)?;
        }
        let grammar = Grammar { resources: false, locals: false, inspect, programmable: false };
        admit_node(&self.expression, EXPRESSION_LEVELS, Tally::new(), grammar)?;
        let mut writer = Writer::new();
        put_header(
            &mut writer,
            version,
            if inspect {
                RETURN_INSPECT_OPERATION
            } else {
                RETURN_EXPRESSION_OPERATION
            },
        );
        put_node(&mut writer, &self.expression);
        assert(writer@ =~= expression_plan_bytes(self@));
        finish_artifact(writer)
    }

    /// Decodes exactly one canonical version-3 or version-9 expression
    /// client-plan.
    pub fn decode(bytes: &[u8]) -> (result: Result<ExpressionClientPlan, ClientPlanError>)
        ensures
            viewed(result) == decoded_expression_plan(bytes@),
    {
        validate_artifact_size(bytes.len())?;
        let mut reader = Reader::new(bytes);
        let version: u32 = take_version(&mut reader)?;
        if version != EXPRESSION_FORMAT_VERSION && version != INSPECT_FORMAT_VERSION {
            return Err(ClientPlanError::UnsupportedVersion(version));
        }
        let inspect = version == INSPECT_FORMAT_VERSION;
        take_operation(
            &mut reader,
            if inspect {
                RETURN_INSPECT_OPERATION
            } else {
                RETURN_EXPRESSION_OPERATION
            },
        )?;
        let grammar = Grammar { resources: false, locals: false, inspect, programmable: false };
        let (expression, _) = decode_node(&mut reader, EXPRESSION_LEVELS, Tally::new(), grammar)?;
        validate_external_contract_placement(&expression, !inspect)?;
        require_finished(&reader)?;
        if inspect && !expression_contains_inspect(&expression) {
            return Err(ClientPlanError::InvalidInspectPlan);
        }
        Ok(ExpressionClientPlan::new(expression))
    }
}

} // verus!
