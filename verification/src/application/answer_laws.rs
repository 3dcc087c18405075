//! How evaluations are admitted, staged and answered.
//!
//! The laws speak of what a call was given and what it returned, for any outcome
//! that the contract of the called function allows.

use vstd::prelude::*;
use vstd::utf8;

use crate::application::admission::{
    AdmittedApplication, ApplicationAuthority, SourceFindings, StagedActivation, StagedTableActivation,
};
use crate::application::digest::{optional_bytes, records, sha256_digest, ActivationContext, TableMutation};
use crate::application::effect::{
    argument_models, call_model, law_accepted_call_records, EffectArgument, SourceMutationEffectHandler, TableCall,
};
use crate::application::effect_laws::{law_calls_answered, law_recorded_encodings};
use crate::application::error::{ApplicationError, EffectError};
use crate::application::live::{
    AdmissionRequest, ApplicationLiveAdapter, LiveError, LiveEvalResponse, LiveMessage, SuccessEnvelope,
};
use crate::text::texts;

verus! {

/// An application is admitted exactly where the limits, the parser, the resolver
/// and the checks all accept the source and it declares the entry. What is
/// admitted is that source under that path and entry; what is not is refused
/// with what the first refusing stage said.
pub proof fn law_module_admitted_exactly(
    authority: ApplicationAuthority,
    logical_path: String,
    source: String,
    entry: String,
    findings: SourceFindings,
    result: Result<AdmittedApplication, ApplicationError>,
)
    requires
        call_ensures(
            ApplicationAuthority::admit_module,
            (&authority, logical_path, source, entry, findings),
            result,
        ),
    ensures
        result is Ok <==> {
            &&& findings.exceeded_limit is None
            &&& findings.syntax.accepted
            &&& findings.semantics.accepted
            &&& exists|place: int|
                0 <= place < findings.functions@.len() && (#[trigger] findings.functions@[place])@ == entry@
        },
        result matches Ok(application) ==> {
            &&& application@.logical_path == logical_path@
            &&& application@.entry == entry@
            &&& application@.source_digest == sha256_digest(utf8::encode_utf8(source@))
        },
        result matches Err(error) ==> match error {
            ApplicationError::Evaluation(code) => findings.exceeded_limit == Some(code),
            ApplicationError::Parse(codes) => findings.exceeded_limit is None && !findings.syntax.accepted && codes
                == findings.syntax.codes,
            ApplicationError::Semantic(codes) => findings.exceeded_limit is None && findings.syntax.accepted
                && !findings.semantics.accepted && codes == findings.semantics.codes,
            ApplicationError::MissingEntry(name) => findings.accepted() && name == entry,
            _ => false,
        },
{
    let names = texts(findings.functions@);
    if names.contains(entry@) {
        let place = choose|place: int| 0 <= place < names.len() && names[place] == entry@;
        assert(findings.functions@[place]@ == entry@);
    }
    if exists|place: int| 0 <= place < findings.functions@.len() && (#[trigger] findings.functions@[place])@ == entry@ {
        let place = choose|place: int|
            0 <= place < findings.functions@.len() && (#[trigger] findings.functions@[place])@ == entry@;
        assert(names[place] == entry@);
    }
}

/// A pure evaluation is answered with exactly what the evaluator said.
pub proof fn law_evaluation_answered<V>(
    authority: ApplicationAuthority,
    outcome: Result<V, String>,
    result: Result<V, ApplicationError>,
)
    requires
        call_ensures(ApplicationAuthority::evaluate::<V>, (&authority, outcome), result),
    ensures
        result is Ok <==> outcome is Ok,
        result matches Ok(value) ==> outcome == Ok::<V, String>(value),
        result matches Err(error) ==> error is Evaluation && outcome == Err::<V, String>(error->Evaluation_0),
{
}

/// A staged evaluation succeeds exactly where the evaluator gave a value and
/// every recorded mutation is well formed. It then carries that value and the
/// recorded mutations, all of them and in order.
pub proof fn law_staged_evaluation_answered<V>(
    authority: ApplicationAuthority,
    outcome: Result<V, String>,
    handler: SourceMutationEffectHandler,
    well_formed: bool,
    result: Result<StagedActivation<V>, ApplicationError>,
)
    requires
        call_ensures(ApplicationAuthority::evaluate_staged::<V>, (&authority, outcome, handler, well_formed), result),
    ensures
        result is Ok <==> outcome is Ok && well_formed,
        result matches Ok(staged) ==> {
            &&& outcome == Ok::<V, String>(staged.value)
            &&& staged.mutations@.len() == handler@.mutations.len()
            &&& forall|place: int|
                0 <= place < staged.mutations@.len() ==> (#[trigger] staged.mutations@[place])@
                    == handler@.mutations[place]
        },
        outcome matches Err(code) ==> result matches Err(ApplicationError::EffectRejected(refusal)) && refusal == code,
        outcome is Ok && !well_formed ==> result matches Err(ApplicationError::Runtime(_)),
{
    if let Ok(staged) = result {
        assert forall|place: int| 0 <= place < staged.mutations@.len() implies (#[trigger] staged.mutations@[place])@
            == handler@.mutations[place] by {
            assert(records(staged.mutations@)[place] == staged.mutations@[place]@);
        }
    }
}

/// A batch is staged exactly where the snapshot of its context has an encoding
/// and the batch holds a mutation. What is staged is that batch, unchanged and in
/// order, with the digest that is computed for the context and the batch.
pub proof fn law_batch_staged_exactly(
    authority: ApplicationAuthority,
    context: ActivationContext,
    mutations: Vec<TableMutation>,
    digested: &[TableMutation],
    digest: Result<[u8; 32], ApplicationError>,
    result: Result<StagedTableActivation, ApplicationError>,
)
    requires
        call_ensures(ApplicationAuthority::stage_mutations, (&authority, &context, mutations), result),
        call_ensures(ApplicationAuthority::canonical_digest, (&context, digested), digest),
        digested@ == mutations@,
    ensures
        result is Ok <==> context.snapshot is Some && mutations@.len() > 0,
        result matches Ok(staged) ==> {
            &&& staged.mutations@.len() == mutations@.len()
            &&& forall|place: int|
                0 <= place < mutations@.len() ==> (#[trigger] staged.mutations@[place])@ == mutations@[place]@
            &&& digest is Ok
            &&& staged.next_digest@ == digest->Ok_0@
        },
        context.snapshot is None ==> result == Err::<StagedTableActivation, ApplicationError>(
            ApplicationError::DigestEncoding,
        ) && digest == Err::<[u8; 32], ApplicationError>(ApplicationError::DigestEncoding),
        context.snapshot is Some && mutations@.len() == 0 ==> result matches Err(ApplicationError::Runtime(_)),
        context.snapshot is Some ==> digest is Ok,
{
    if let Ok(staged) = result {
        assert(records(staged.mutations@).len() == records(mutations@).len());
        assert forall|place: int| 0 <= place < mutations@.len() implies (#[trigger] staged.mutations@[place])@
            == mutations@[place]@ by {
            assert(records(staged.mutations@)[place] == records(mutations@)[place]);
        }
    }
}

/// Only an evaluation is admitted, evaluated or answered: any other message is
/// rejected by every operation, and watching is offered for none.
pub proof fn law_only_evaluations_answered<V>(
    adapter: ApplicationLiveAdapter,
    request: [u8; 16],
    message: LiveMessage,
    outcome: Result<V, ApplicationError>,
    staged: Result<StagedActivation<V>, ApplicationError>,
    context: Option<&ActivationContext>,
    module: Result<AdmissionRequest, LiveError>,
    answer: Result<SuccessEnvelope<V>, LiveError>,
    response: Result<LiveEvalResponse<V>, LiveError>,
    watched: Result<SuccessEnvelope<V>, LiveError>,
)
    requires
        call_ensures(ApplicationLiveAdapter::admission_request, (&adapter, &message), module),
        call_ensures(ApplicationLiveAdapter::eval::<V>, (&adapter, request, &message, outcome), answer),
        call_ensures(
            ApplicationLiveAdapter::eval_with_transaction::<V>,
            (&adapter, request, &message, staged, context),
            response,
        ),
        call_ensures(ApplicationLiveAdapter::watch::<V>, (&adapter, request, &message), watched),
    ensures
        module is Ok <==> message is Eval,
        answer is Ok <==> message is Eval && outcome is Ok,
        message is Other ==> {
            &&& module == Err::<AdmissionRequest, LiveError>(LiveError::ApplicationRejected)
            &&& answer == Err::<SuccessEnvelope<V>, LiveError>(LiveError::ApplicationRejected)
            &&& response == Err::<LiveEvalResponse<V>, LiveError>(LiveError::ApplicationRejected)
        },
        watched == Err::<SuccessEnvelope<V>, LiveError>(LiveError::UnsupportedOperation),
        answer is Err ==> answer->Err_0 == LiveError::ApplicationRejected,
        response is Err ==> response->Err_0 == LiveError::ApplicationRejected,
{
}

/// An evaluation asks to admit its own source under the path and entry of the
/// adapter, and its answer names the request, the fingerprint of the message and
/// the evaluated value.
pub proof fn law_evaluation_identity<V>(
    adapter: ApplicationLiveAdapter,
    request: [u8; 16],
    source: String,
    fingerprint: [u8; 32],
    value: V,
    module: Result<AdmissionRequest, LiveError>,
    answer: Result<SuccessEnvelope<V>, LiveError>,
)
    requires
        call_ensures(
            ApplicationLiveAdapter::admission_request,
            (&adapter, &LiveMessage::Eval { source, fingerprint }),
            module,
        ),
        call_ensures(
            ApplicationLiveAdapter::eval::<V>,
            (&adapter, request, &LiveMessage::Eval { source, fingerprint }, Ok::<V, ApplicationError>(value)),
            answer,
        ),
    ensures
        module is Ok,
        module->Ok_0.source@ == source@,
        module->Ok_0.logical_path@ == adapter.logical_path@,
        module->Ok_0.entry@ == adapter.entry@,
        answer is Ok,
        answer->Ok_0.request == request,
        answer->Ok_0.fingerprint == fingerprint,
        answer->Ok_0.value == value,
{
}

/// An evaluation that wrote nothing is answered as pure, whatever the context is.
/// One that wrote is answered as a transaction that holds its mutations in order,
/// and only where a context with an encoded snapshot was captured.
pub proof fn law_writes_fail_closed<V>(
    adapter: ApplicationLiveAdapter,
    request: [u8; 16],
    source: String,
    fingerprint: [u8; 32],
    staged: StagedActivation<V>,
    context: Option<&ActivationContext>,
    response: Result<LiveEvalResponse<V>, LiveError>,
)
    requires
        call_ensures(
            ApplicationLiveAdapter::eval_with_transaction::<V>,
            (
                &adapter,
                request,
                &LiveMessage::Eval { source, fingerprint },
                Ok::<StagedActivation<V>, ApplicationError>(staged),
                context,
            ),
            response,
        ),
    ensures
        response is Ok <==> staged.mutations@.len() == 0 || (context matches Some(captured) && captured.snapshot
            is Some),
        response matches Ok(LiveEvalResponse::Pure(envelope)) ==> {
            &&& staged.mutations@.len() == 0
            &&& envelope.request == request
            &&& envelope.fingerprint == fingerprint
            &&& envelope.value == staged.value
        },
        response matches Ok(LiveEvalResponse::Transaction(envelope, activation)) ==> {
            &&& staged.mutations@.len() > 0
            &&& envelope.request == request
            &&& envelope.fingerprint == fingerprint
            &&& envelope.value == staged.value
            &&& activation.mutations@.len() == staged.mutations@.len()
            &&& forall|place: int|
                0 <= place < staged.mutations@.len() ==> (#[trigger] activation.mutations@[place])@
                    == staged.mutations@[place]@
        },
{
    if let Ok(LiveEvalResponse::Transaction(envelope, activation)) = response {
        assert(records(activation.mutations@).len() == records(staged.mutations@).len());
        assert forall|place: int| 0 <= place < staged.mutations@.len() implies (
        #[trigger] activation.mutations@[place])@ == staged.mutations@[place]@ by {
            assert(records(activation.mutations@)[place] == records(staged.mutations@)[place]);
        }
    }
}

/// The handler of an admitted application starts without mutations, at the first
/// ordinal, and serves what the application declared.
pub proof fn law_handler_starts_empty(application: AdmittedApplication, handler: SourceMutationEffectHandler)
    requires
        call_ensures(AdmittedApplication::effect_handler, (&application,), handler),
    ensures
        handler@.mutations.len() == 0,
        handler@.next_ordinal == 0,
        handler@.tables == application@.tables,
{
}

/// A handled call that gives a value was well formed, and adds exactly one
/// mutation, of the called table, behind those that were recorded before: the
/// encoding of its row for a write, which gives back that row, and none for a
/// removal, which gives the unit. Any other call changes nothing.
pub proof fn law_handled_call<T>(
    handler: &mut SourceMutationEffectHandler,
    call: Option<TableCall>,
    arguments: Vec<EffectArgument<T>>,
    key: Option<Vec<u8>>,
    well_formed: bool,
    unit: T,
    result: Result<Option<T>, EffectError>,
)
    requires
        call_ensures(
            SourceMutationEffectHandler::handle::<T>,
            (handler, &call, arguments, &key, well_formed, unit),
            result,
        ),
    ensures
        final(handler)@.tables == old(handler)@.tables,
        !(result matches Ok(Some(_))) ==> final(handler)@.mutations == old(handler)@.mutations
            && final(handler)@.next_ordinal == old(handler)@.next_ordinal,
        result matches Ok(Some(value)) ==> {
            let before = old(handler)@.mutations;
            let after = final(handler)@.mutations;
            let added = after.last();
            &&& well_formed
            &&& after.len() == before.len() + 1
            &&& after.drop_last() == before
            &&& final(handler)@.next_ordinal == old(handler)@.next_ordinal + 1
            &&& arguments@.len() == 1
            &&& call is Some
            &&& added.table == call->Some_0.table@
            &&& exists|place: int|
                0 <= place < old(handler)@.tables.len() && (#[trigger] old(handler)@.tables[place]).0
                    == call->Some_0.table@
            &&& if call->Some_0.member@ == "delete"@ {
                &&& added.value is None
                &&& arguments@[0].encoded is Some && arguments@[0].encoded->Some_0@ == added.key
                &&& value == unit
            } else {
                &&& call->Some_0.member@ == "insert"@ || call->Some_0.member@ == "upsert"@
                &&& arguments@[0].encoded is Some && added.value == Some(arguments@[0].encoded->Some_0@)
                &&& key is Some && key->Some_0@ == added.key
                &&& value == arguments@[0].value
            }
        },
        result matches Ok(None) ==> call is None || !(call->Some_0.member@ == "insert"@ || call->Some_0.member@
            == "upsert"@ || call->Some_0.member@ == "delete"@),
        result == Err::<Option<T>, EffectError>(EffectError::Limit) ==> old(handler)@.next_ordinal == u64::MAX,
{
    let model = call_model(call);
    let models = argument_models(arguments@);
    let encoded = optional_bytes(key);
    law_recorded_encodings(old(handler)@, model, models, encoded);
    law_calls_answered(old(handler)@.tables, model->Some_0.0, model->Some_0.1, models);
    if let Ok(Some(_)) = result {
        assert(models[0] == arguments@[0]@);
        assert(final(handler)@.mutations.drop_last() =~= old(handler)@.mutations);
        law_accepted_call_records(old(handler)@, model, models, encoded);
    }
}

} // verus!
