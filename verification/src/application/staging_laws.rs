//! How the calls of staging and of the live adapter relate.

use vstd::prelude::*;

use crate::application::admission::{ApplicationAuthority, StagedActivation, StagedTableActivation};
use crate::application::digest::{records, ActivationContext, TableMutation};
use crate::application::error::ApplicationError;
use crate::application::live::{eval_fingerprint, AdmissionRequest, ApplicationLiveAdapter, LiveError, LiveMessage};

verus! {

/// Staging one mutation is staging a batch that holds only it: both succeed in
/// the same contexts, with the same mutation and the same digest.
pub proof fn law_single_is_batch_of_one(
    authority: ApplicationAuthority,
    context: ActivationContext,
    mutation: TableMutation,
    batch: Vec<TableMutation>,
    single: Result<StagedTableActivation, ApplicationError>,
    staged: Result<StagedTableActivation, ApplicationError>,
)
    requires
        batch@.len() == 1,
        batch@[0]@ == mutation@,
        call_ensures(ApplicationAuthority::stage_mutation, (&authority, &context, mutation), single),
        call_ensures(ApplicationAuthority::stage_mutations, (&authority, &context, batch), staged),
    ensures
        single is Ok <==> context.snapshot is Some,
        staged is Ok <==> context.snapshot is Some,
        single is Ok ==> {
            &&& single->Ok_0.mutations@.len() == 1
            &&& single->Ok_0.mutations@[0]@ == mutation@
            &&& staged->Ok_0.mutations@.len() == 1
            &&& staged->Ok_0.mutations@[0]@ == mutation@
            &&& single->Ok_0.next_digest@ == staged->Ok_0.next_digest@
        },
        single is Err ==> single->Err_0 is DigestEncoding && staged->Err_0 is DigestEncoding,
{
    assert(records(batch@) =~= records(seq![mutation]));
    if single is Ok {
        let kept = single->Ok_0.mutations@;
        let also = staged->Ok_0.mutations@;
        assert(records(kept).len() == 1 && records(kept)[0] == records(seq![mutation])[0]);
        assert(records(also).len() == 1 && records(also)[0] == records(batch@)[0]);
        assert(records(kept)[0] == kept[0]@ && records(also)[0] == also[0]@);
    }
}

/// Staging an evaluation is staging the mutations that it performed.
pub proof fn law_evaluation_staged_as_batch<V>(
    authority: ApplicationAuthority,
    context: ActivationContext,
    evaluation: StagedActivation<V>,
    batch: Vec<TableMutation>,
    activation: Result<StagedTableActivation, ApplicationError>,
    staged: Result<StagedTableActivation, ApplicationError>,
)
    requires
        records(batch@) == records(evaluation.mutations@),
        call_ensures(StagedActivation::<V>::stage, (&evaluation, &authority, &context), activation),
        call_ensures(ApplicationAuthority::stage_mutations, (&authority, &context, batch), staged),
    ensures
        activation is Ok <==> staged is Ok,
        activation is Ok <==> context.snapshot is Some && evaluation.mutations@.len() > 0,
        activation is Ok ==> {
            &&& records(activation->Ok_0.mutations@) == records(evaluation.mutations@)
            &&& activation->Ok_0.next_digest@ == staged->Ok_0.next_digest@
        },
{
    assert(records(batch@).len() == batch@.len());
    assert(records(evaluation.mutations@).len() == evaluation.mutations@.len());
}

/// What the runtime gives for a staged activation is handed on, and what it
/// refuses is told in its words.
pub proof fn law_commit_answered<T>(
    authority: ApplicationAuthority,
    outcome: Result<T, String>,
    result: Result<T, ApplicationError>,
)
    requires
        call_ensures(ApplicationAuthority::committed::<T>, (&authority, outcome), result),
    ensures
        result is Ok <==> outcome is Ok,
        outcome is Ok ==> result->Ok_0 == outcome->Ok_0,
        outcome is Err ==> result->Err_0 == ApplicationError::Runtime(outcome->Err_0),
{
}

/// An adapter asks for the module that it was set to last: that of its own
/// making at first, and afterwards the one that it was given. Setting it keeps
/// its authority.
pub proof fn law_module_set(
    authority: ApplicationAuthority,
    made: ApplicationLiveAdapter,
    path: String,
    entry: String,
    adapter: ApplicationLiveAdapter,
    message: LiveMessage,
    first: Result<AdmissionRequest, LiveError>,
    later: Result<AdmissionRequest, LiveError>,
)
    requires
        call_ensures(ApplicationLiveAdapter::new, (authority,), made),
        call_ensures(ApplicationLiveAdapter::with_module, (made, path, entry), adapter),
        call_ensures(ApplicationLiveAdapter::admission_request, (&made, &message), first),
        call_ensures(ApplicationLiveAdapter::admission_request, (&adapter, &message), later),
    ensures
        adapter.authority == authority,
        first is Ok <==> message is Eval,
        later is Ok <==> message is Eval,
        message matches LiveMessage::Eval { source, .. } ==> {
            &&& first->Ok_0.logical_path@ == "remote_eval.orna"@
            &&& first->Ok_0.entry@ == "main"@
            &&& first->Ok_0.source@ == source@
            &&& later->Ok_0.logical_path@ == path@
            &&& later->Ok_0.entry@ == entry@
            &&& later->Ok_0.source@ == source@
        },
{
}

/// Exactly evaluation messages have a fingerprint, and it is their own.
pub proof fn law_fingerprint_taken(message: LiveMessage, result: Result<[u8; 32], LiveError>)
    requires
        call_ensures(eval_fingerprint, (&message,), result),
    ensures
        result is Ok <==> message is Eval,
        message matches LiveMessage::Eval { fingerprint, .. } ==> result->Ok_0 == fingerprint,
        result is Err ==> result->Err_0 is ApplicationRejected,
{
}

} // verus!
