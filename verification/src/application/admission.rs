//! Admission, evaluation and staging of one application.

use vstd::prelude::*;
use vstd::utf8;

use crate::application::digest::{
    activation_preimage, context_digest, copied_mutations, records, sha256_digest, source_digest, ActivationContext,
    TableMutation,
};
use crate::application::effect::{admitted_table_schemas, table_models, NamedTable, ModuleSymbol, SchemaModel};
use crate::application::effect::{
    admitted_tables, copied_tables, symbol_models, HandlerModel, SourceMutationEffectHandler,
};
use crate::application::error::ApplicationError;
use crate::text::{holds_text, texts};

verus! {

/// What one checking stage found of a source.
#[derive(Clone, Debug, PartialEq, Eq)]
pub struct StageReport {
    /// Whether the stage accepted the source.
    pub accepted: bool,
    /// The codes of the stage's diagnostics.
    pub codes: Vec<String>,
}

/// What the host found of a source. A stage behind a refusal need not have run.
#[derive(Clone, Debug, PartialEq, Eq)]
pub struct SourceFindings {
    /// The code of the evaluator limit that the source exceeds, if it does.
    pub exceeded_limit: Option<String>,
    /// What the parser found.
    pub syntax: StageReport,
    /// What the resolver and the type and effect checks found.
    pub semantics: StageReport,
    /// The names of the functions that the module declares.
    pub functions: Vec<String>,
    /// The symbols that the module declares.
    pub symbols: Vec<ModuleSymbol>,
}

impl SourceFindings {
    /// Tells whether every stage accepted the source.
    pub open spec fn accepted(self) -> bool {
        self.exceeded_limit is None && self.syntax.accepted && self.semantics.accepted
    }
}

/// An immutable, fully admitted application program.
#[derive(Clone, Debug)]
pub struct AdmittedApplication {
    logical_path: String,
    source_digest: [u8; 32],
    entry: String,
    tables: Vec<NamedTable>,
}

/// The content of an admitted application.
pub struct ApplicationModel {
    /// The logical path of the module.
    pub logical_path: Seq<char>,
    /// The digest of the source.
    pub source_digest: Seq<u8>,
    /// The entry function.
    pub entry: Seq<char>,
    /// The tables that the module may write.
    pub tables: Seq<(Seq<char>, SchemaModel)>,
}

impl View for AdmittedApplication {
    type V = ApplicationModel;

    closed spec fn view(&self) -> ApplicationModel {
        ApplicationModel {
            logical_path: self.logical_path@,
            source_digest: self.source_digest@,
            entry: self.entry@,
            tables: table_models(self.tables@),
        }
    }
}

impl AdmittedApplication {
    /// Returns the logical path of the module.
    pub fn logical_path(&self) -> (path: &str)
        ensures
            path@ == self@.logical_path,
    {
        self.logical_path.as_str()
    }

    /// Returns the digest of the source.
    pub fn source_digest(&self) -> (digest: [u8; 32])
        ensures
            digest@ == self@.source_digest,
    {
        self.source_digest
    }

    /// Returns the entry function.
    pub fn entry(&self) -> (entry: &str)
        ensures
            entry@ == self@.entry,
    {
        self.entry.as_str()
    }

    /// Creates the handler for the table effects of one evaluation.
    pub fn effect_handler(&self) -> (handler: SourceMutationEffectHandler)
        ensures
            handler@ == (HandlerModel { tables: self@.tables, mutations: Seq::empty(), next_ordinal: 0 }),
            handler@.counted(),
    {
        SourceMutationEffectHandler::new(copied_tables(self.tables.as_slice()))
    }
}

/// Table work that is ready for the runtime's owner-fenced commit.
#[derive(Clone, Debug, PartialEq, Eq)]
pub struct StagedTableActivation {
    /// The ordered mutations.
    pub mutations: Vec<TableMutation>,
    /// The canonical digest of the activation.
    pub next_digest: [u8; 32],
}

/// What the refusal to stage an empty batch says.
pub const EMPTY_BATCH: &'static str = "an activation without mutations cannot be staged";

/// Tells whether staging the mutations against a context gives a result. A
/// context whose snapshot has no encoding is found before an empty batch.
pub open spec fn staged_as(
    context: ActivationContext,
    mutations: Seq<TableMutation>,
    result: Result<StagedTableActivation, ApplicationError>,
) -> bool {
    match context@ {
        Some(pin) => if mutations.len() == 0 {
            result matches Err(ApplicationError::Runtime(message)) && message@ == EMPTY_BATCH@
        } else {
            &&& result matches Ok(staged)
            &&& records(staged.mutations@) == records(mutations)
            &&& staged.next_digest@ == sha256_digest(activation_preimage(pin, records(mutations)))
        },
        None => result == Err::<StagedTableActivation, ApplicationError>(ApplicationError::DigestEncoding),
    }
}

/// A source-backed application authority.
#[derive(Clone, Copy, Debug)]
pub struct ApplicationAuthority {}

impl ApplicationAuthority {
    /// Creates an authority.
    pub fn new() -> (authority: ApplicationAuthority)
        ensures
            authority == (ApplicationAuthority {  }),
    {
        ApplicationAuthority {  }
    }

    /// Admits one source module through its limits, the parser, the resolver
    /// and the type and effect checks.
    ///
    /// The first stage that refused the source decides the error. An entry is
    /// looked for only in a source that every stage accepted.
    pub fn admit_module(
        &self,
        logical_path: String,
        source: String,
        entry: String,
        findings: SourceFindings,
    ) -> (result: Result<AdmittedApplication, ApplicationError>)
        ensures
            result is Ok <==> findings.accepted() && texts(findings.functions@).contains(entry@),
            match findings.exceeded_limit {
                Some(code) => result == Err::<AdmittedApplication, ApplicationError>(
                    ApplicationError::Evaluation(code),
                ),
                None if !findings.syntax.accepted => result == Err::<AdmittedApplication, ApplicationError>(
                    ApplicationError::Parse(findings.syntax.codes),
                ),
                None if !findings.semantics.accepted => result == Err::<AdmittedApplication, ApplicationError>(
                    ApplicationError::Semantic(findings.semantics.codes),
                ),
                None if !texts(findings.functions@).contains(entry@) => result == Err::<
                    AdmittedApplication,
                    ApplicationError,
                >(ApplicationError::MissingEntry(entry)),
                None => result matches Ok(application) && application@ == (ApplicationModel {
                    logical_path: logical_path@,
                    source_digest: sha256_digest(utf8::encode_utf8(source@)),
                    entry: entry@,
                    tables: admitted_tables(symbol_models(findings.symbols@), findings.symbols@.len()),
                }),
            },
    {
        if let Some(code) = findings.exceeded_limit {
            return Err(ApplicationError::Evaluation(code));
        }
        if !findings.syntax.accepted {
            return Err(ApplicationError::Parse(findings.syntax.codes));
        }
        if !findings.semantics.accepted {
            return Err(ApplicationError::Semantic(findings.semantics.codes));
        }
        if !holds_text(findings.functions.as_slice(), entry.as_str()) {
            return Err(ApplicationError::MissingEntry(entry));
        }
        let source_digest = source_digest(source.as_str());
        let tables = admitted_table_schemas(findings.symbols.as_slice());
        Ok(AdmittedApplication { logical_path, source_digest, entry, tables })
    }

    /// Answers with what the bounded evaluator gave for a pure evaluation, or
    /// with the code that it refused the program with.
    pub fn evaluate<V>(&self, outcome: Result<V, String>) -> (result: Result<V, ApplicationError>)
        ensures
            match outcome {
                Ok(value) => result == Ok::<V, ApplicationError>(value),
                Err(code) => result == Err::<V, ApplicationError>(ApplicationError::Evaluation(code)),
            },
    {
        match outcome {
            Ok(value) => Ok(value),
            Err(code) => Err(ApplicationError::Evaluation(code)),
        }
    }

    /// Answers with what the bounded evaluator gave for an evaluation whose
    /// table effects went through `handler`, together with the mutations that
    /// the source performed.
    pub fn evaluate_staged<V>(
        &self,
        outcome: Result<V, String>,
        handler: SourceMutationEffectHandler,
        well_formed: bool,
    ) -> (result: Result<StagedActivation<V>, ApplicationError>)
        ensures
            match outcome {
                Err(code) => result == Err::<StagedActivation<V>, ApplicationError>(
                    ApplicationError::EffectRejected(code),
                ),
                Ok(value) if well_formed => {
                    &&& result matches Ok(staged)
                    &&& staged.value == value
                    &&& records(staged.mutations@) == handler@.mutations
                },
                Ok(_) => result matches Err(ApplicationError::Runtime(message)) && message@
                    == "recorded mutation was invalid"@,
            },
    {
        match outcome {
            Ok(value) => {
                let mutations = handler.into_mutations(well_formed)?;
                Ok(StagedActivation { value, mutations })
            },
            Err(code) => Err(ApplicationError::EffectRejected(code)),
        }
    }

    /// Computes the canonical digest for staged table work in one captured
    /// activation. The context and the ordered mutations are both digested.
    pub fn canonical_digest(
        context: &ActivationContext,
        mutations: &[TableMutation],
    ) -> (result: Result<[u8; 32], ApplicationError>)
        ensures
            match context@ {
                Some(pin) => result matches Ok(digest) && digest@ == sha256_digest(
                    activation_preimage(pin, records(mutations@)),
                ),
                None => result == Err::<[u8; 32], ApplicationError>(ApplicationError::DigestEncoding),
            },
    {
        match context_digest(context, mutations) {
            Some(digest) => Ok(digest),
            None => Err(ApplicationError::DigestEncoding),
        }
    }

    /// Stages one mutation for a captured activation.
    pub fn stage_mutation(
        &self,
        context: &ActivationContext,
        mutation: TableMutation,
    ) -> (result: Result<StagedTableActivation, ApplicationError>)
        ensures
            staged_as(*context, seq![mutation], result),
    {
        let mut mutations: Vec<TableMutation> = Vec::new();
        mutations.push(mutation);
        assert(mutations@ =~= seq![mutation]);
        self.stage_mutations(context, mutations)
    }

    /// Stages an ordered mutation batch for one captured activation. An empty
    /// batch is refused, in words of this library; pure activations never enter
    /// this path. Publication remains the runtime's owner-fenced commit operation.
    pub fn stage_mutations(
        &self,
        context: &ActivationContext,
        mutations: Vec<TableMutation>,
    ) -> (result: Result<StagedTableActivation, ApplicationError>)
        ensures
            staged_as(*context, mutations@, result),
    {
        match ApplicationAuthority::canonical_digest(context, mutations.as_slice()) {
            Ok(next_digest) => if mutations.len() == 0 {
                Err(ApplicationError::Runtime(EMPTY_BATCH.to_owned()))
            } else {
                Ok(StagedTableActivation { mutations, next_digest })
            },
            Err(error) => Err(error),
        }
    }

    /// Answers with what the runtime made of a staged activation, or with the
    /// message that it refused the activation with.
    pub fn committed<T>(&self, outcome: Result<T, String>) -> (result: Result<T, ApplicationError>)
        ensures
            match outcome {
                Ok(activation) => result == Ok::<T, ApplicationError>(activation),
                Err(message) => result == Err::<T, ApplicationError>(ApplicationError::Runtime(message)),
            },
    {
        match outcome {
            Ok(activation) => Ok(activation),
            Err(message) => Err(ApplicationError::Runtime(message)),
        }
    }
}

/// The evaluated result of one admitted source activation together with the
/// ordered table mutations it performed.
#[derive(Clone, Debug)]
pub struct StagedActivation<V> {
    /// The value that the entry gave.
    pub value: V,
    /// The mutations that the source performed, in order.
    pub mutations: Vec<TableMutation>,
}

impl<V> StagedActivation<V> {
    /// Returns the value that the entry gave.
    pub fn value(&self) -> (value: &V)
        ensures
            *value == self.value,
    {
        &self.value
    }

    /// Returns the mutations that the source performed, in order.
    pub fn mutations(&self) -> (mutations: &[TableMutation])
        ensures
            mutations@ == self.mutations@,
    {
        self.mutations.as_slice()
    }

    /// Stages this activation's mutations against the captured context. A pure
    /// activation is refused: it has nothing to stage.
    pub fn stage(
        &self,
        authority: &ApplicationAuthority,
        context: &ActivationContext,
    ) -> (result: Result<StagedTableActivation, ApplicationError>)
        ensures
            staged_as(*context, self.mutations@, result),
    {
        let mutations = copied_mutations(self.mutations.as_slice());
        assert(records(mutations@).len() == records(self.mutations@).len());
        authority.stage_mutations(context, mutations)
    }
}

} // verus!
