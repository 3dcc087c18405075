//! Version 8: one action operation.
//!
//! ```text
//! header: version 8, operation 8
//! domain: u8 = 1|2 (CLIENT|SERVER)
//! FunctionId[16] SourceRevisionId[16] CatalogueRevisionId[16] CallSiteId[16]
//! TypeId[16]
//! argument count: u32 big-endian, 0..=MAX_ACTION_ARGUMENTS
//! argument: ParameterId[16]
//!           tree: canonical recursive node encoding
//! ```

use vstd::prelude::*;

use crate::artifact_codec::{read_identity, viewed, Reader, Writer};
use crate::client_plan::error::ClientPlanError;
use crate::client_plan::expression::{
    argument_values, arguments_of, ActionOperation, ActionOperationNode, ClientExpressionNode, Expression,
};
use crate::client_plan::grammar::{admit_node, all_admitted, Grammar, Tally};
use crate::client_plan::header::{
    after_header, finish_artifact, header_bytes, lemma_header, lemma_header_read, put_header, require_finished,
    size_error, sized, take_header, take_identity, validate_artifact_size,
};
use crate::client_plan::node_codec::{
    action_then, parsed_action, parsed_action_head, parsed_arguments, parsed_node, Parsed,
};
use crate::client_plan::node_decode::{decode_action_head, decode_node};
use crate::client_plan::node_encode::put_action;
use crate::client_plan::node_laws::{lemma_action_canonical, lemma_action_round_trip};
use crate::client_plan::operation::{
    action_refusal, action_valid, argument_refusal, arguments_placement_from, previous_parameter, validate_argument,
    ArgumentRule,
};
use crate::client_plan::placement::{contract_placement, validate_external_contract_placement, EXPRESSION_LEVELS};
use crate::client_plan::{ACTION_FORMAT_VERSION, MAX_ARTIFACT_BYTES, RETURN_ACTION_OPERATION};
use crate::identity::ParameterId;

verus! {

/// A checked version-8 CLIENT plan that carries one action operation.
#[derive(Clone, Debug, Eq, PartialEq)]
pub struct ActionClientPlan {
    pub operation: ActionOperationNode,
}

impl View for ActionClientPlan {
    type V = ActionOperation;

    open spec fn view(&self) -> ActionOperation {
        self.operation@
    }
}

/// The complete version-8 artefact.
pub open spec fn action_plan_bytes(operation: ActionOperation) -> Seq<u8> {
    header_bytes(ACTION_FORMAT_VERSION, RETURN_ACTION_OPERATION) + action_then(operation, Seq::empty())
}

/// What encoding an action plan gives.
pub open spec fn encoded_action_plan(operation: ActionOperation) -> Result<Seq<u8>, ClientPlanError> {
    match action_valid(operation) {
        Err(error) => Err(error),
        Ok(()) => match all_admitted(
            argument_values(operation.arguments),
            0,
            EXPRESSION_LEVELS as nat,
            Tally::zero(),
            Grammar::closed_set(),
        ) {
            Err(error) => Err(error),
            Ok(_) => sized(action_plan_bytes(operation)),
        },
    }
}

/// Action arguments up to `total`, the first of which are `done`; none is an
/// external contract.
pub open spec fn parsed_placed_arguments(
    input: Seq<u8>,
    done: Seq<(ParameterId, Expression)>,
    total: nat,
    tally: Tally,
) -> Parsed<Seq<(ParameterId, Expression)>>
    decreases total - done.len(),
{
    if done.len() >= total {
        Ok((done, input))
    } else {
        match read_identity(input) {
            None => Err(ClientPlanError::Truncated),
            Some((parameter, rest)) => match argument_refusal(
                ArgumentRule::Action,
                previous_parameter(done, done.len() as int),
                ParameterId(parameter),
            ) {
                Some(error) => Err(error),
                None => match parsed_node(rest, EXPRESSION_LEVELS as nat, tally, Grammar::closed_set()) {
                    Err(error) => Err(error),
                    Ok((value, rest, tally)) => match contract_placement(value, false) {
                        Err(error) => Err(error),
                        Ok(()) => parsed_placed_arguments(
                            rest,
                            done.push((ParameterId(parameter), value)),
                            total,
                            tally,
                        ),
                    },
                },
            },
        }
    }
}

/// What decoding `bytes` as version 8 gives.
pub open spec fn decoded_action_plan(bytes: Seq<u8>) -> Result<ActionOperation, ClientPlanError> {
    if bytes.len() > MAX_ARTIFACT_BYTES {
        Err(size_error(bytes.len()))
    } else {
        match after_header(bytes, ACTION_FORMAT_VERSION, RETURN_ACTION_OPERATION) {
            Err(error) => Err(error),
            Ok(rest) => match parsed_action_head(rest) {
                Err(error) => Err(error),
                Ok(((domain, pins, result_type, count), rest)) => match parsed_placed_arguments(
                    rest,
                    Seq::empty(),
                    count,
                    Tally::zero(),
                ) {
                    Err(error) => Err(error),
                    Ok((arguments, rest)) => if rest.len() != 0 {
                        Err(ClientPlanError::TrailingBytes)
                    } else {
                        Ok(
                            ActionOperation {
                                domain,
                                target: pins.target,
                                target_revision: pins.target_revision,
                                call_site: pins.call_site,
                                arguments,
                                result_type,
                            },
                        )
                    },
                },
            },
        }
    }
}

/// Placed arguments are the arguments that a list holds, if they are placed.
proof fn lemma_placed_arguments(
    input: Seq<u8>,
    done: Seq<(ParameterId, Expression)>,
    total: nat,
    tally: Tally,
)
    requires
        done.len() <= total,
    ensures
        match parsed_placed_arguments(input, done, total, tally) {
            Ok((arguments, rest)) => {
                let parsed = parsed_arguments(
                    input,
                    done,
                    total,
                    ArgumentRule::Action,
                    EXPRESSION_LEVELS as nat,
                    tally,
                    Grammar::closed_set(),
                );
                &&& parsed is Ok
                &&& parsed->Ok_0.0 == arguments
                &&& parsed->Ok_0.1 == rest
                &&& arguments_placement_from(arguments, done.len()) is Ok
                &&& arguments.len() == total
                &&& arguments.take(done.len() as int) == done
            },
            Err(_) => {
                match parsed_arguments(
                    input,
                    done,
                    total,
                    ArgumentRule::Action,
                    EXPRESSION_LEVELS as nat,
                    tally,
                    Grammar::closed_set(),
                ) {
                    Ok((arguments, _, _)) => {
                        &&& arguments_placement_from(arguments, done.len()) is Err
                        &&& arguments.len() == total
                        &&& arguments.take(done.len() as int) == done
                    },
                    Err(_) => true,
                }
            },
        },
    decreases total - done.len(),
{
    let levels = EXPRESSION_LEVELS as nat;
    let position = done.len() as int;
    if done.len() < total {
        if read_identity(input) is Some {
            let (identity, encoded) = read_identity(input)->Some_0;
            let parameter = ParameterId(identity);
            if parsed_node(encoded, levels, tally, Grammar::closed_set()) is Ok {
                let (value, later, behind) = parsed_node(encoded, levels, tally, Grammar::closed_set())->Ok_0;
                let next = done.push((parameter, value));
                lemma_placed_arguments(later, next, total, behind);
                let parsed = parsed_arguments(
                    later,
                    next,
                    total,
                    ArgumentRule::Action,
                    levels,
                    behind,
                    Grammar::closed_set(),
                );
                if parsed is Ok {
                    let arguments = parsed->Ok_0.0;
                    assert(arguments[position] == arguments.take(next.len() as int)[position]);
                    assert(arguments.take(position) =~= arguments.take(next.len() as int).take(position));
                    assert(next.take(position) =~= done);
                }
            }
        }
    } else {
        assert(done.take(position) =~= done);
    }
}

/// Decoding an encoded action plan gives that plan back.
pub proof fn law_action_plan_round_trip(operation: ActionOperation)
    ensures
        encoded_action_plan(operation) matches Ok(bytes) ==> decoded_action_plan(bytes) == Ok::<
            ActionOperation,
            ClientPlanError,
        >(operation),
{
    if encoded_action_plan(operation) is Ok {
        let levels = EXPRESSION_LEVELS as nat;
        let payload = action_then(operation, Seq::empty());
        lemma_header(ACTION_FORMAT_VERSION, RETURN_ACTION_OPERATION, payload);
        assert(action_refusal(operation) is None);
        lemma_action_round_trip(operation, levels, Tally::zero(), Grammar::closed_set(), Seq::empty());
        assert(parsed_action(payload, levels, Tally::zero(), Grammar::closed_set()) is Ok);
        let ((_, _, _, count), list) = parsed_action_head(payload)->Ok_0;
        lemma_placed_arguments(list, Seq::empty(), count, Tally::zero());
    }
}

/// An artefact that decodes is the encoding of what it decodes to.
pub proof fn law_action_plan_canonical(bytes: Seq<u8>)
    ensures
        decoded_action_plan(bytes) matches Ok(operation) ==> encoded_action_plan(operation) == Ok::<
            Seq<u8>,
            ClientPlanError,
        >(bytes),
{
    if decoded_action_plan(bytes) is Ok {
        let levels = EXPRESSION_LEVELS as nat;
        let operation = decoded_action_plan(bytes)->Ok_0;
        lemma_header_read(bytes, ACTION_FORMAT_VERSION, RETURN_ACTION_OPERATION);
        let payload = after_header(bytes, ACTION_FORMAT_VERSION, RETURN_ACTION_OPERATION)->Ok_0;
        let ((_, _, _, count), list) = parsed_action_head(payload)->Ok_0;
        lemma_placed_arguments(list, Seq::empty(), count, Tally::zero());
        assert(parsed_action(payload, levels, Tally::zero(), Grammar::closed_set()) is Ok);
        lemma_action_canonical(payload, levels, Tally::zero(), Grammar::closed_set());
        let rest = parsed_action(payload, levels, Tally::zero(), Grammar::closed_set())->Ok_0.1;
        assert(rest =~= Seq::empty());
        assert(bytes =~= action_plan_bytes(operation));
    }
}

impl ActionClientPlan {
    /// Creates an action plan from one checked operation.
    pub fn new(operation: ActionOperationNode) -> (plan: ActionClientPlan)
        ensures
            plan@ == operation@,
    {
        ActionClientPlan { operation }
    }

    /// Returns the checked action operation.
    pub fn operation(&self) -> (operation: &ActionOperationNode)
        ensures
            operation@ == self@,
    {
        &self.operation
    }

    /// Returns the canonical artefact version for this plan.
    pub fn format_version(&self) -> (version: u32)
        ensures
            version == ACTION_FORMAT_VERSION,
    {
        ACTION_FORMAT_VERSION
    }

    /// Refuses argument values outside the closed node set or the limits.
    fn validate_trees(&self) -> (result: Result<(), ClientPlanError>)
        ensures
            match all_admitted(
                argument_values(self@.arguments),
                0,
                EXPRESSION_LEVELS as nat,
                Tally::zero(),
                Grammar::closed_set(),
            ) {
                Ok(_) => result is Ok,
                Err(error) => result == Err::<(), ClientPlanError>(error),
            },
    {
        let grammar = Grammar { resources: false, locals: false, inspect: false, programmable: false };
        let ghost values = argument_values(self@.arguments);
        let arguments = &self.operation.arguments;
        let mut tally = Tally::new();
        let mut index: usize = 0;
        while index < arguments.len()
            invariant
                index <= arguments.len(),
                grammar == Grammar::closed_set(),
                values == argument_values(self@.arguments),
                self@.arguments == arguments_of(arguments@),
                all_admitted(values, 0, EXPRESSION_LEVELS as nat, Tally::zero(), grammar) == all_admitted(
                    values,
                    index as nat,
                    EXPRESSION_LEVELS as nat,
                    tally,
                    grammar,
                ),
            decreases arguments.len() - index,
        {
            assert(values[index as int] == arguments[index as int].1@);
            tally = admit_node(&arguments[index].1, EXPRESSION_LEVELS, tally, grammar)?;
            index = index + 1;
        }
        Ok(())
    }

    /// Encodes this plan into its exact version-8 bytes.
    pub fn encode(&self) -> (result: Result<Vec<u8>, ClientPlanError>)
        ensures
            viewed(result) == encoded_action_plan(self@),
    {
        self.operation.validate_placed()?;
        self.validate_trees()?;
        let mut writer = Writer::new();
        put_header(&mut writer, ACTION_FORMAT_VERSION, RETURN_ACTION_OPERATION);
        put_action(&mut writer, &self.operation);
        assert(writer@ =~= action_plan_bytes(self@));
        finish_artifact(writer)
    }

    /// Decodes exactly one canonical version-8 action client-plan artefact.
    pub fn decode(bytes: &[u8]) -> (result: Result<ActionClientPlan, ClientPlanError>)
        ensures
            viewed(result) == decoded_action_plan(bytes@),
    {
        validate_artifact_size(bytes.len())?;
        let mut reader = Reader::new(bytes);
        take_header(&mut reader, ACTION_FORMAT_VERSION, RETURN_ACTION_OPERATION)?;
        let (domain, pins, result_type, count) = decode_action_head(&mut reader)?;
        let arguments = decode_placed_arguments(&mut reader, count)?;
        require_finished(&reader)?;
        Ok(
            ActionClientPlan::new(
                ActionOperationNode {
                    domain,
                    target: pins.target,
                    target_revision: pins.target_revision,
                    call_site: pins.call_site,
                    arguments,
                    result_type,
                },
            ),
        )
    }
}

/// Reads `total` action arguments, none of which is an external contract.
fn decode_placed_arguments(reader: &mut Reader, total: usize) -> (result: Result<
    Vec<(ParameterId, ClientExpressionNode)>,
    ClientPlanError,
>)
    ensures
        match parsed_placed_arguments(old(reader)@, Seq::empty(), total as nat, Tally::zero()) {
            Ok((arguments, rest)) => {
                &&& result is Ok
                &&& arguments_of(result->Ok_0@) == arguments
                &&& final(reader)@ == rest
            },
            Err(error) => result == Err::<Vec<(ParameterId, ClientExpressionNode)>, ClientPlanError>(error),
        },
{
    let grammar = Grammar { resources: false, locals: false, inspect: false, programmable: false };
    let mut arguments: Vec<(ParameterId, ClientExpressionNode)> = Vec::with_capacity(total);
    let mut tally = Tally::new();
    let mut previous: Option<ParameterId> = None;
    assert(arguments_of(arguments@) =~= Seq::empty());
    while arguments.len() < total
        invariant
            arguments.len() <= total,
            grammar == Grammar::closed_set(),
            previous == previous_parameter(arguments_of(arguments@), arguments.len() as int),
            parsed_placed_arguments(old(reader)@, Seq::empty(), total as nat, Tally::zero())
                == parsed_placed_arguments(reader@, arguments_of(arguments@), total as nat, tally),
        decreases total - arguments.len(),
    {
        let ghost done = arguments_of(arguments@);
        let identity: u128 = take_identity(reader)?;
        let parameter = ParameterId(identity);
        validate_argument(ArgumentRule::Action, previous, parameter)?;
        let (value, behind) = decode_node(reader, EXPRESSION_LEVELS, tally, grammar)?;
        validate_external_contract_placement(&value, false)?;
        let ghost expression = value@;
        arguments.push((parameter, value));
        tally = behind;
        previous = Some(parameter);
        assert(arguments_of(arguments@) =~= done.push((parameter, expression)));
    }
    Ok(arguments)
}

} // verus!
