//! What a decoder says of bytes that are no artefact of its version.

use vstd::prelude::*;

use crate::artifact_codec::{read_bytes, read_u32, read_u8};
use crate::big_endian::{lemma_be_bytes_of_value, lemma_radix_powers};
use crate::client_plan::control_flow_codec::{parsed_flow_statement, parsed_return, FlowTally};
use crate::client_plan::error::ClientPlanError;
use crate::client_plan::grammar::{Grammar, Tally};
use crate::client_plan::header::after_header;
use crate::client_plan::node_codec::parsed_node;
use crate::client_plan::state::parsed_default;
use crate::client_plan::{
    ActionClientPlan, CapabilityClientPlan, ClientPlan, ControlFlowClientPlan, OpaqueClientPlan, ProceduralClientPlan,
    ResourceClientPlan, StateClientPlan,
};
use crate::codec_laws::number_at;

verus! {

/// What is wrong with the first 13 bytes of an artefact of a version and an
/// operation, if anything is: the magic before the version, and the version
/// before the operation.
pub open spec fn header_fault(bytes: Seq<u8>, version: u32, operation: u8) -> Option<ClientPlanError> {
    if bytes.take(8) != seq![79u8, 82u8, 78u8, 65u8, 67u8, 80u8, 0u8, 0u8] {
        Some(ClientPlanError::InvalidMagic)
    } else if number_at(bytes, 8, 12) != version {
        Some(ClientPlanError::UnsupportedVersion(number_at(bytes, 8, 12) as u32))
    } else if bytes[12] != operation {
        Some(ClientPlanError::InvalidOperation(bytes[12]))
    } else {
        None
    }
}

/// A header is read exactly where nothing is wrong with it.
proof fn lemma_header_fault(bytes: Seq<u8>, version: u32, operation: u8)
    requires
        bytes.len() >= 13,
    ensures
        after_header(bytes, version, operation) == match header_fault(bytes, version, operation) {
            Some(error) => Err::<Seq<u8>, ClientPlanError>(error),
            None => Ok(bytes.skip(13)),
        },
{
    let magic = seq![79u8, 82u8, 78u8, 65u8, 67u8, 80u8, 0u8, 0u8];
    assert(crate::client_plan::MAGIC@ =~= magic);
    let behind_magic = read_bytes(bytes, 8)->Some_0.1;
    assert(read_bytes(bytes, 8)->Some_0.0 =~= bytes.take(8));
    assert(behind_magic =~= bytes.skip(8));
    assert(behind_magic.take(4) =~= bytes.subrange(8, 12));
    lemma_be_bytes_of_value(bytes.subrange(8, 12));
    lemma_radix_powers();
    let behind_version = read_u32(behind_magic)->Some_0.1;
    assert(behind_version =~= bytes.skip(12));
    assert(read_u8(behind_version)->Some_0.1 =~= bytes.skip(13));
}

/// Bytes with a wrong magic, version or operation are refused for it by every
/// decoder.
pub proof fn law_headers_checked(
    bytes: &[u8],
    boolean: Result<ClientPlan, ClientPlanError>,
    opaque: Result<OpaqueClientPlan, ClientPlanError>,
    state: Result<StateClientPlan, ClientPlanError>,
    resource: Result<ResourceClientPlan, ClientPlanError>,
    procedural: Result<ProceduralClientPlan, ClientPlanError>,
    action: Result<ActionClientPlan, ClientPlanError>,
    flow: Result<ControlFlowClientPlan, ClientPlanError>,
)
    requires
        13 <= bytes@.len() <= 0x100_0000,
        call_ensures(ClientPlan::decode, (bytes,), boolean),
        call_ensures(OpaqueClientPlan::decode, (bytes,), opaque),
        call_ensures(StateClientPlan::decode, (bytes,), state),
        call_ensures(ResourceClientPlan::decode, (bytes,), resource),
        call_ensures(ProceduralClientPlan::decode, (bytes,), procedural),
        call_ensures(ActionClientPlan::decode, (bytes,), action),
        call_ensures(ControlFlowClientPlan::decode, (bytes,), flow),
    ensures
        header_fault(bytes@, 1, 1) matches Some(error) ==> boolean == Err::<ClientPlan, _>(error),
        header_fault(bytes@, 2, 2) matches Some(error) ==> opaque == Err::<OpaqueClientPlan, _>(error),
        header_fault(bytes@, 4, 4) matches Some(error) ==> state == Err::<StateClientPlan, _>(error),
        header_fault(bytes@, 6, 6) matches Some(error) ==> resource == Err::<ResourceClientPlan, _>(error),
        header_fault(bytes@, 7, 7) matches Some(error) ==> procedural == Err::<ProceduralClientPlan, _>(error),
        header_fault(bytes@, 8, 8) matches Some(error) ==> action == Err::<ActionClientPlan, _>(error),
        header_fault(bytes@, 10, 10) matches Some(error) ==> flow == Err::<ControlFlowClientPlan, _>(error),
{
    lemma_header_fault(bytes@, 1, 1);
    lemma_header_fault(bytes@, 2, 2);
    lemma_header_fault(bytes@, 4, 4);
    lemma_header_fault(bytes@, 6, 6);
    lemma_header_fault(bytes@, 7, 7);
    lemma_header_fault(bytes@, 8, 8);
    lemma_header_fault(bytes@, 10, 10);
}

/// The same of the decoder of capability plans.
pub proof fn law_capability_header_checked(bytes: &[u8], capability: Result<CapabilityClientPlan, ClientPlanError>)
    requires
        13 <= bytes@.len() <= 0x100_0000,
        call_ensures(CapabilityClientPlan::decode, (bytes,), capability),
    ensures
        header_fault(bytes@, 5, 5) matches Some(error) ==> capability == Err::<CapabilityClientPlan, _>(error),
{
    lemma_header_fault(bytes@, 5, 5);
}

/// A node with a tag that no node has is refused by its tag, and so is one whose
/// sort the format does not have.
pub proof fn law_unknown_nodes_refused(input: Seq<u8>, levels: nat, tally: Tally, grammar: Grammar)
    requires
        input.len() > 0,
        levels > 0,
        tally.nodes < 1024,
    ensures
        input[0] == 0 || input[0] > 18 || (!grammar.resources && (input[0] == 9 || input[0] == 10)) || (
        !grammar.inspect && input[0] == 13) || (!grammar.programmable && input[0] == 12) ==> parsed_node(
            input,
            levels,
            tally,
            grammar,
        ) == Err::<(crate::client_plan::expression::Expression, Seq<u8>, Tally), ClientPlanError>(
            ClientPlanError::InvalidExpressionNode(input[0]),
        ),
{
}

/// A statement, a return and a default with a tag that none has are refused by
/// their tag.
pub proof fn law_unknown_marks_refused(input: Seq<u8>, levels: nat, tally: FlowTally)
    requires
        input.len() > 0,
    ensures
        input[0] == 0 || input[0] > 5 ==> parsed_flow_statement(input, levels, tally) is Err && parsed_flow_statement(
            input,
            levels,
            tally,
        )->Err_0 == ClientPlanError::InvalidControlFlowStatement(input[0]),
        input[0] > 1 ==> parsed_return(input, tally) is Err && parsed_return(input, tally)->Err_0
            == ClientPlanError::InvalidControlFlowReturnTag(input[0]),
        input[0] > 2 ==> parsed_default(input) is Err && parsed_default(input)->Err_0
            == ClientPlanError::InvalidStateDefaultTag(input[0]),
{
}

} // verus!
