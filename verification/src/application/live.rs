//! Source-backed application adapter for the live protocol.
//!
//! The host remains responsible for canonical envelope and fingerprint
//! validation and owns every durable commit. With a captured activation context
//! the adapter answers with a staged transaction; without one, admitted source
//! effects fail closed instead of silently executing writes.

use vstd::prelude::*;

use crate::application::admission::{staged_as, ApplicationAuthority, StagedActivation, StagedTableActivation};
use crate::application::digest::ActivationContext;
use crate::application::error::ApplicationError;

verus! {

/// Why the live adapter gives no answer.
#[derive(Clone, Copy, Debug, PartialEq, Eq, Structural)]
pub enum LiveError {
    /// The application refused the request.
    ApplicationRejected,
    /// The adapter does not offer the operation.
    UnsupportedOperation,
}

/// A request of the live protocol.
#[derive(Clone, Debug, PartialEq, Eq)]
pub enum LiveMessage {
    /// An evaluation of a source.
    Eval {
        /// The source.
        source: String,
        /// The wire fingerprint of the request.
        fingerprint: [u8; 32],
    },
    /// Any other request.
    Other,
}

/// A module that a message asks to admit.
#[derive(Clone, Debug, PartialEq, Eq)]
pub struct AdmissionRequest {
    /// The logical path of the module.
    pub logical_path: String,
    /// The source of the module.
    pub source: String,
    /// The entry function.
    pub entry: String,
}

/// The answer to one successfully evaluated request.
#[derive(Clone, Debug)]
pub struct SuccessEnvelope<V> {
    /// The request that is answered.
    pub request: [u8; 16],
    /// The value that the evaluation gave.
    pub value: V,
    /// The wire fingerprint of the request.
    pub fingerprint: [u8; 32],
}

/// How an evaluation is answered.
#[derive(Clone, Debug)]
pub enum LiveEvalResponse<V> {
    /// The evaluation wrote nothing.
    Pure(SuccessEnvelope<V>),
    /// The evaluation wrote to tables and awaits the host's commit.
    Transaction(SuccessEnvelope<V>, StagedTableActivation),
}

/// Turns an application error into the one that the protocol shows.
pub fn rejected(error: ApplicationError) -> (rejection: LiveError)
    ensures
        rejection == LiveError::ApplicationRejected,
{
    LiveError::ApplicationRejected
}

/// Extracts the wire fingerprint from an evaluation message.
pub fn eval_fingerprint(message: &LiveMessage) -> (result: Result<[u8; 32], LiveError>)
    ensures
        result == (match message {
            LiveMessage::Eval { fingerprint, .. } => Ok::<[u8; 32], LiveError>(*fingerprint),
            LiveMessage::Other => Err(LiveError::ApplicationRejected),
        }),
{
    match message {
        LiveMessage::Eval { fingerprint, .. } => Ok(*fingerprint),
        LiveMessage::Other => Err(LiveError::ApplicationRejected),
    }
}

/// The answer to a message, once its source gave a value.
pub open spec fn success<V>(request: [u8; 16], message: LiveMessage, value: V) -> SuccessEnvelope<V> {
    SuccessEnvelope { request, value, fingerprint: message->fingerprint }
}

/// Source-backed application adapter for the live protocol.
#[derive(Clone, Debug)]
pub struct ApplicationLiveAdapter {
    /// The authority that admits and stages.
    pub authority: ApplicationAuthority,
    /// The logical path that evaluated modules get.
    pub logical_path: String,
    /// The entry function of evaluated modules.
    pub entry: String,
}

impl ApplicationLiveAdapter {
    /// Creates an adapter for the deterministic remote-evaluation module.
    pub fn new(authority: ApplicationAuthority) -> (adapter: ApplicationLiveAdapter)
        ensures
            adapter.authority == authority,
            adapter.logical_path@ == "remote_eval.orna"@,
            adapter.entry@ == "main"@,
    {
        ApplicationLiveAdapter { authority, logical_path: "remote_eval.orna".to_owned(), entry: "main".to_owned() }
    }

    /// Sets the logical module path and entry used for future evaluations.
    pub fn with_module(self, logical_path: String, entry: String) -> (adapter: ApplicationLiveAdapter)
        ensures
            adapter == (ApplicationLiveAdapter { authority: self.authority, logical_path, entry }),
    {
        ApplicationLiveAdapter { authority: self.authority, logical_path, entry }
    }

    /// Names the module that an evaluation message asks to admit.
    pub fn admission_request(&self, message: &LiveMessage) -> (result: Result<AdmissionRequest, LiveError>)
        ensures
            match message {
                LiveMessage::Eval { source, .. } => {
                    &&& result matches Ok(module)
                    &&& module.logical_path@ == self.logical_path@
                    &&& module.source@ == source@
                    &&& module.entry@ == self.entry@
                },
                LiveMessage::Other => result == Err::<AdmissionRequest, LiveError>(LiveError::ApplicationRejected),
            },
    {
        match message {
            LiveMessage::Eval { source, .. } => Ok(
                AdmissionRequest {
                    logical_path: self.logical_path.clone(),
                    source: source.clone(),
                    entry: self.entry.clone(),
                },
            ),
            LiveMessage::Other => Err(LiveError::ApplicationRejected),
        }
    }

    /// Builds the success envelope for one evaluated request.
    fn success_envelope<V>(&self, request: [u8; 16], fingerprint: [u8; 32], value: V) -> (envelope: SuccessEnvelope<V>)
        ensures
            envelope == (SuccessEnvelope { request, value, fingerprint }),
    {
        SuccessEnvelope { request, value, fingerprint }
    }

    /// Answers a message whose source was evaluated without table effects.
    pub fn eval<V>(
        &self,
        request: [u8; 16],
        message: &LiveMessage,
        outcome: Result<V, ApplicationError>,
    ) -> (result: Result<SuccessEnvelope<V>, LiveError>)
        ensures
            match (*message, outcome) {
                (LiveMessage::Eval { .. }, Ok(value)) => result == Ok::<SuccessEnvelope<V>, LiveError>(
                    success(request, *message, value),
                ),
                _ => result == Err::<SuccessEnvelope<V>, LiveError>(LiveError::ApplicationRejected),
            },
    {
        match outcome {
            Ok(value) => {
                let fingerprint = eval_fingerprint(message)?;
                Ok(self.success_envelope(request, fingerprint, value))
            },
            Err(error) => Err(rejected(error)),
        }
    }

    /// Answers a message whose source was evaluated with table effects.
    ///
    /// An evaluation that wrote nothing is answered as pure. One that wrote is
    /// staged against the captured context, and refused where there is none.
    pub fn eval_with_transaction<V>(
        &self,
        request: [u8; 16],
        message: &LiveMessage,
        outcome: Result<StagedActivation<V>, ApplicationError>,
        context: Option<&ActivationContext>,
    ) -> (result: Result<LiveEvalResponse<V>, LiveError>)
        ensures
            match (*message, outcome) {
                (LiveMessage::Eval { .. }, Ok(staged)) => {
                    if staged.mutations@.len() == 0 {
                        result == Ok::<LiveEvalResponse<V>, LiveError>(
                            LiveEvalResponse::Pure(success(request, *message, staged.value)),
                        )
                    } else {
                        match context {
                            Some(context) if context@ is Some => {
                                &&& result matches Ok(LiveEvalResponse::Transaction(envelope, activation))
                                &&& envelope == success(request, *message, staged.value)
                                &&& staged_as(*context, staged.mutations@, Ok(activation))
                            },
                            _ => result == Err::<LiveEvalResponse<V>, LiveError>(LiveError::ApplicationRejected),
                        }
                    }
                },
                _ => result == Err::<LiveEvalResponse<V>, LiveError>(LiveError::ApplicationRejected),
            },
    {
        let staged = match outcome {
            Ok(staged) => staged,
            Err(error) => {
                return Err(rejected(error));
            },
        };
        let fingerprint = eval_fingerprint(message)?;
        if staged.mutations.len() == 0 {
            return Ok(LiveEvalResponse::Pure(self.success_envelope(request, fingerprint, staged.value)));
        }
        let context = match context {
            Some(context) => context,
            None => {
                return Err(LiveError::ApplicationRejected);
            },
        };
        match staged.stage(&self.authority, context) {
            Ok(activation) => Ok(
                LiveEvalResponse::Transaction(
                    self.success_envelope(request, fingerprint, staged.value),
                    activation,
                ),
            ),
            Err(error) => Err(rejected(error)),
        }
    }

    /// Refuses to watch: the adapter offers no subscriptions.
    pub fn watch<V>(&self, request: [u8; 16], message: &LiveMessage) -> (result: Result<SuccessEnvelope<V>, LiveError>)
        ensures
            result == Err::<SuccessEnvelope<V>, LiveError>(LiveError::UnsupportedOperation),
    {
        Err(LiveError::UnsupportedOperation)
    }
}

} // verus!
