use orna_artifact::application::{
    ActivationContext, ApplicationAuthority, ApplicationError, ApplicationLiveAdapter, EffectArgument, EffectError,
    EffectStep, KeyComponents, LiveError, LiveEvalResponse, LiveMessage, ModuleSymbol, NamedTable, RowEntry,
    SourceFindings, SourceMutationEffectHandler, StageReport, StagedActivation, TableAdmission, TableCall, TableMutation,
    TableSchema, admitted_table_schemas,
};

fn hex(bytes: &[u8]) -> String {
    bytes.iter().map(|byte| format!("{byte:02x}")).collect()
}

fn owned(names: &[&str]) -> Vec<String> {
    names.iter().map(|name| (*name).to_owned()).collect()
}

fn schema(keys: &[&str]) -> TableSchema {
    TableSchema {
        fields: owned(&["id", "part", "text", "length"]),
        admission: Some(TableAdmission {
            keys: owned(keys),
            computed: owned(&["length"]),
            required: owned(&["text"]),
        }),
    }
}

fn note() -> NamedTable {
    NamedTable {
        name: "Note".to_owned(),
        schema: schema(&["id"]),
    }
}

fn call(table: &str, member: &str) -> Option<TableCall> {
    Some(TableCall {
        table: table.to_owned(),
        member: member.to_owned(),
    })
}

fn entry(name: &str) -> RowEntry {
    RowEntry {
        name: Some(name.to_owned()),
        canonical: true,
    }
}

/// A row whose encoding is `once`.
fn row_of(entries: Vec<RowEntry>) -> EffectArgument<&'static str> {
    EffectArgument {
        value: "row",
        encoded: Some(b"once".to_vec()),
        entries: Some(entries),
    }
}

fn row(names: &[&str]) -> EffectArgument<&'static str> {
    row_of(names.iter().map(|name| entry(name)).collect())
}

/// A scalar whose encoding is the single byte 7.
fn scalar() -> EffectArgument<&'static str> {
    EffectArgument {
        value: "scalar",
        encoded: Some(vec![7]),
        entries: None,
    }
}

/// Performs an insert of a fitting row under the key 7.
fn insert(handler: &mut SourceMutationEffectHandler) -> Result<Option<&'static str>, EffectError> {
    handler.handle(
        &call("Note", "insert"),
        vec![row(&["id", "text"])],
        &Some(vec![7]),
        true,
        "unit",
    )
}

/// Performs a delete of the key 7.
fn delete(handler: &mut SourceMutationEffectHandler) -> Result<Option<&'static str>, EffectError> {
    handler.handle(&call("Note", "delete"), vec![scalar()], &None, true, "unit")
}

fn accepted() -> StageReport {
    StageReport {
        accepted: true,
        codes: Vec::new(),
    }
}

fn findings() -> SourceFindings {
    SourceFindings {
        exceeded_limit: None,
        syntax: accepted(),
        semantics: accepted(),
        functions: owned(&["helper", "main"]),
        symbols: vec![ModuleSymbol {
            name: "Note".to_owned(),
            table: true,
            schema: Some(schema(&["id"])),
        }],
    }
}

fn refused(codes: &[&str]) -> StageReport {
    StageReport {
        accepted: false,
        codes: owned(codes),
    }
}

fn context() -> ActivationContext {
    ActivationContext {
        generation_digest: [0x11; 32],
        snapshot: Some(b"snap".to_vec()),
        elapsed: Some((5, 6)),
    }
}

fn eval_message() -> LiveMessage {
    LiveMessage::Eval {
        source: "pub fn main(): Int = 41;".to_owned(),
        fingerprint: [9; 32],
    }
}

/// Records the two writes that the digest tests share.
fn recorded() -> SourceMutationEffectHandler {
    let mut handler = SourceMutationEffectHandler::new(vec![note()]);
    assert_eq!(insert(&mut handler), Ok(Some("row")));
    assert_eq!(delete(&mut handler), Ok(Some("unit")));
    handler
}

#[test]
fn admitted_source_answers_with_the_evaluated_value() {
    let authority = ApplicationAuthority::new();
    let admitted = authority
        .admit_module(
            "main.orna".to_owned(),
            "pub fn main(): Int = 41;".to_owned(),
            "main".to_owned(),
            findings(),
        )
        .expect("source should be admitted");
    assert_eq!(admitted.logical_path(), "main.orna");
    assert_eq!(admitted.entry(), "main");
    assert_eq!(
        hex(&admitted.source_digest()),
        "0549e058a8d7c72d63f3208b4b4ea7398aeceed2f1f9a0a69ca8a723fbff2448"
    );
    assert_eq!(authority.evaluate(Ok(41_i64)), Ok(41));
}

#[test]
fn the_first_refusing_stage_decides_the_error() {
    let authority = ApplicationAuthority::new();
    let admission = |findings: SourceFindings, entry: &str| {
        authority
            .admit_module(
                "main.orna".to_owned(),
                "source".to_owned(),
                entry.to_owned(),
                findings,
            )
            .map(|_| ())
    };
    let all = SourceFindings {
        exceeded_limit: Some("ORNA-EVAL-LIMIT".to_owned()),
        syntax: refused(&["E1"]),
        semantics: refused(&["E2", "E3"]),
        ..findings()
    };
    assert_eq!(
        admission(all.clone(), "absent"),
        Err(ApplicationError::Evaluation("ORNA-EVAL-LIMIT".to_owned()))
    );
    let syntax = SourceFindings {
        exceeded_limit: None,
        ..all
    };
    assert_eq!(
        admission(syntax.clone(), "absent"),
        Err(ApplicationError::Parse(owned(&["E1"])))
    );
    let semantics = SourceFindings {
        syntax: accepted(),
        ..syntax
    };
    assert_eq!(
        admission(semantics.clone(), "absent"),
        Err(ApplicationError::Semantic(owned(&["E2", "E3"])))
    );
    let entry = SourceFindings {
        semantics: accepted(),
        ..semantics
    };
    assert_eq!(
        admission(entry.clone(), "absent"),
        Err(ApplicationError::MissingEntry("absent".to_owned()))
    );
    assert_eq!(admission(entry, "helper"), Ok(()));
}

#[test]
fn application_errors_render_their_messages() {
    let cases = [
        (
            ApplicationError::Parse(owned(&["E1"])),
            "application source failed syntax admission",
        ),
        (
            ApplicationError::Semantic(Vec::new()),
            "application source failed semantic admission",
        ),
        (
            ApplicationError::MissingEntry("main".to_owned()),
            "application entry `main` was not admitted",
        ),
        (
            ApplicationError::Evaluation("CODE".to_owned()),
            "application evaluation failed: CODE",
        ),
        (
            ApplicationError::Runtime("why".to_owned()),
            "runtime activation staging failed: why",
        ),
        (
            ApplicationError::DigestEncoding,
            "activation context could not be canonically encoded",
        ),
        (
            ApplicationError::UnadmittedTable("Note".to_owned()),
            "table `Note` has no admitted write schema",
        ),
        (
            ApplicationError::EffectRejected("CODE".to_owned()),
            "admitted effect was rejected: CODE",
        ),
    ];
    for (error, message) in cases {
        assert_eq!(error.message(), message);
    }
}

#[test]
fn staged_evaluation_lowers_admitted_source_effects() {
    let authority = ApplicationAuthority::new();
    let admitted = authority
        .admit_module(
            "main.orna".to_owned(),
            "pub table Note(id: Int) { text: Str, } fn main() { Note.insert({ id: 7, text: \"once\" }); }".to_owned(),
            "main".to_owned(),
            findings(),
        )
        .expect("source should be admitted");
    let mut handler = admitted.effect_handler();
    let step = handler
        .step(&call("Note", "insert"), &[row(&["id", "text"])])
        .expect("the row fits the schema");
    assert_eq!(step, EffectStep::Write(KeyComponents::Single(0)));
    assert_eq!(insert(&mut handler), Ok(Some("row")));
    let staged = authority
        .evaluate_staged(Ok(()), handler, true)
        .expect("admitted source effects should stage");
    assert_eq!(staged.mutations().len(), 1);
    let mutation = &staged.mutations()[0];
    assert_eq!(mutation.table(), "Note");
    assert_eq!(mutation.key(), [7]);
    assert_eq!(mutation.value(), Some(b"once".as_slice()));
    assert_eq!(hex(&mutation.id()), "6d8277cf0f04cd40afe0da6c14af9657");
}

#[test]
fn staged_evaluation_lowers_admitted_delete_effects() {
    let authority = ApplicationAuthority::new();
    let mut handler = SourceMutationEffectHandler::new(vec![note()]);
    assert_eq!(
        handler.step(&call("Note", "delete"), &[scalar()]),
        Ok(EffectStep::Delete)
    );
    assert_eq!(delete(&mut handler), Ok(Some("unit")));
    let staged = authority
        .evaluate_staged(Ok(()), handler, true)
        .expect("admitted delete effect should stage");
    assert_eq!(staged.mutations().len(), 1);
    let mutation = &staged.mutations()[0];
    assert_eq!(mutation.table(), "Note");
    assert_eq!(mutation.value(), None);
    assert_eq!(mutation.key(), [7]);
}

#[test]
fn pure_evaluation_fails_closed_on_admitted_table_effects() {
    let authority = ApplicationAuthority::new();
    let error = authority
        .evaluate::<i64>(Err("ORNA-EVAL-EFFECT".to_owned()))
        .expect_err("pure evaluation must not lower table effects");
    assert!(matches!(error, ApplicationError::Evaluation(_)));
}

#[test]
fn refused_effects_and_malformed_mutations_end_a_staged_evaluation() {
    let authority = ApplicationAuthority::new();
    let refusal = authority
        .evaluate_staged::<i64>(Err("ORNA-EVAL-TABLE-ROW".to_owned()), recorded(), true)
        .expect_err("a refused effect ends the evaluation");
    assert_eq!(
        refusal,
        ApplicationError::EffectRejected("ORNA-EVAL-TABLE-ROW".to_owned())
    );
    let malformed = authority
        .evaluate_staged(Ok(41), recorded(), false)
        .expect_err("a malformed mutation ends the evaluation");
    assert_eq!(
        malformed,
        ApplicationError::Runtime("recorded mutation was invalid".to_owned())
    );
}

#[test]
fn effect_calls_are_classified_in_order() {
    let handler = SourceMutationEffectHandler::new(vec![note()]);
    let step = |call: &Option<TableCall>, arguments: &[EffectArgument<&'static str>]| handler.step(call, arguments);
    assert_eq!(step(&None, &[]), Ok(EffectStep::Pass));
    assert_eq!(step(&call("Note", "get"), &[]), Ok(EffectStep::Pass));
    assert_eq!(
        step(&call("Other", "get"), &[]),
        Err(EffectError::TableUnadmitted)
    );
    assert_eq!(
        step(&call("Note", "upsert"), &[]),
        Err(EffectError::TableArgument)
    );
    assert_eq!(
        step(&call("Note", "delete"), &[scalar(), scalar()]),
        Err(EffectError::TableArgument)
    );
    assert_eq!(
        step(&call("Note", "insert"), &[scalar()]),
        Err(EffectError::TableRow)
    );
    for refused in [
        row(&["id"]),
        row(&["id", "text", "length"]),
        row(&["id", "text", "unknown"]),
        row_of(vec![
            entry("id"),
            entry("text"),
            RowEntry {
                name: None,
                canonical: true,
            },
        ]),
    ] {
        assert_eq!(
            step(&call("Note", "insert"), &[refused]),
            Err(EffectError::TableRow)
        );
    }
    assert_eq!(
        step(&call("Note", "insert"), &[row(&["text"])]),
        Err(EffectError::TableKey)
    );
    assert_eq!(
        step(&call("Note", "upsert"), &[row(&["text", "id"])]),
        Ok(EffectStep::Write(KeyComponents::Single(1)))
    );
}

#[test]
fn keys_are_taken_from_the_first_canonical_entries() {
    let composite = NamedTable {
        name: "Part".to_owned(),
        schema: schema(&["part", "id"]),
    };
    let keyless = NamedTable {
        name: "Log".to_owned(),
        schema: schema(&[]),
    };
    let closed = NamedTable {
        name: "Closed".to_owned(),
        schema: TableSchema {
            fields: owned(&["id"]),
            admission: None,
        },
    };
    let handler = SourceMutationEffectHandler::new(vec![composite, keyless, closed]);
    let mut entries = vec![entry("id"), entry("text"), entry("part"), entry("id")];
    entries[0].canonical = false;
    assert_eq!(
        handler.step(&call("Part", "insert"), &[row_of(entries)]),
        Ok(EffectStep::Write(KeyComponents::Composite(vec![2, 3])))
    );
    assert_eq!(
        handler.step(&call("Log", "insert"), &[row(&["text"])]),
        Ok(EffectStep::Write(KeyComponents::Composite(Vec::new())))
    );
    assert_eq!(
        handler.step(&call("Log", "delete"), &[scalar()]),
        Err(EffectError::TableUnadmitted)
    );
    assert_eq!(
        handler.step(&call("Closed", "insert"), &[row(&["id"])]),
        Err(EffectError::TableUnadmitted)
    );
    assert_eq!(
        handler.step(&call("Closed", "delete"), &[scalar()]),
        Err(EffectError::TableUnadmitted)
    );
}

#[test]
fn values_without_an_encoding_are_refused() {
    let mut handler = SourceMutationEffectHandler::new(vec![note()]);
    let unencoded = |argument: EffectArgument<&'static str>| EffectArgument {
        encoded: None,
        ..argument
    };
    let fitting = || row(&["id", "text"]);
    let cases = [
        ("insert", unencoded(fitting()), None, EffectError::TableKey),
        ("insert", fitting(), None, EffectError::TableKey),
        ("upsert", unencoded(fitting()), Some(vec![7]), EffectError::TableRow),
        ("delete", unencoded(scalar()), Some(vec![7]), EffectError::TableKey),
    ];
    for (member, argument, key, error) in cases {
        assert_eq!(
            handler.handle(&call("Note", member), vec![argument], &key, true, "unit"),
            Err(error)
        );
        assert!(handler.mutations().is_empty());
    }
}

#[test]
fn refused_and_foreign_calls_leave_the_recorded_mutations() {
    let mut handler = recorded();
    let before: Vec<TableMutation> = handler.mutations().to_vec();
    let key = Some(vec![7]);
    assert_eq!(handler.handle(&None, vec![scalar()], &key, true, "unit"), Ok(None));
    assert_eq!(
        handler.handle(&call("Note", "get"), vec![scalar()], &key, true, "unit"),
        Ok(None)
    );
    for member in ["insert", "upsert", "delete", "get"] {
        assert_eq!(
            handler.handle(&call("Other", member), vec![row(&["id", "text"])], &key, true, "unit"),
            Err(EffectError::TableUnadmitted)
        );
    }
    assert_eq!(
        handler.handle(&call("Note", "insert"), vec![row(&["id"])], &key, true, "unit"),
        Err(EffectError::TableRow)
    );
    assert_eq!(
        handler.handle(&call("Note", "delete"), Vec::new(), &key, true, "unit"),
        Err(EffectError::TableArgument)
    );
    assert_eq!(handler.mutations(), before);
}

#[test]
fn a_proposed_mutation_is_the_one_that_is_recorded() {
    let mut handler = recorded();
    let upsert = call("Note", "upsert");
    let key = Some(vec![8, 9]);
    let proposed = handler
        .proposed_mutation(&upsert, &[row(&["id", "text"])], &key)
        .expect("the row fits the schema")
        .expect("an upsert is a write");
    assert_eq!(handler.mutations().len(), 2);
    assert_eq!(proposed.table(), "Note");
    assert_eq!(proposed.key(), [8, 9]);
    assert_eq!(proposed.value(), Some(b"once".as_slice()));
    assert_eq!(
        handler.handle(&upsert, vec![row(&["id", "text"])], &key, true, "unit"),
        Ok(Some("row"))
    );
    assert_eq!(handler.mutations().len(), 3);
    assert_eq!(handler.mutations()[2], proposed);
    assert_eq!(
        handler.proposed_mutation(&call("Note", "get"), &[scalar()], &key),
        Ok(None)
    );
    assert_eq!(
        handler.proposed_mutation(&call("Other", "delete"), &[scalar()], &key),
        Err(EffectError::TableUnadmitted)
    );
}

#[test]
fn effect_errors_have_stable_codes() {
    assert_eq!(EffectError::TableArgument.code(), "ORNA-EVAL-TABLE-ARGUMENT");
    assert_eq!(EffectError::TableKey.code(), "ORNA-EVAL-TABLE-KEY");
    assert_eq!(EffectError::TableRow.code(), "ORNA-EVAL-TABLE-ROW");
    assert_eq!(
        EffectError::TableUnadmitted.code(),
        "ORNA-EVAL-TABLE-UNADMITTED"
    );
    assert_eq!(EffectError::Limit.code(), "ORNA-EVAL-LIMIT");
}

#[test]
fn only_tables_with_an_admitted_schema_are_served() {
    let symbol = |name: &str, table: bool, schema: Option<TableSchema>| ModuleSymbol {
        name: name.to_owned(),
        table,
        schema,
    };
    let closed = TableSchema {
        fields: Vec::new(),
        admission: None,
    };
    let tables = admitted_table_schemas(&[
        symbol("Note", true, Some(schema(&["id"]))),
        symbol("Function", false, Some(schema(&["id"]))),
        symbol("Closed", true, Some(closed)),
        symbol("Bare", true, None),
        symbol("Part", true, Some(schema(&["part"]))),
    ]);
    let names: Vec<&str> = tables.iter().map(|table| table.name.as_str()).collect();
    assert_eq!(names, ["Note", "Part"]);
    assert_eq!(tables[1].schema, schema(&["part"]));
}

#[test]
fn mutations_are_recorded_in_order_with_identities_of_their_own() {
    let mut handler = SourceMutationEffectHandler::new(vec![note()]);
    assert_eq!(
        handler.handle(&call("Note", "delete"), vec![scalar()], &None, false, "unit"),
        Err(EffectError::TableRow)
    );
    assert!(handler.mutations().is_empty());
    assert_eq!(delete(&mut handler), Ok(Some("unit")));
    assert_eq!(delete(&mut handler), Ok(Some("unit")));
    let [first, second] = handler.mutations() else {
        panic!("two mutations are recorded");
    };
    assert_eq!((first.key(), first.value()), ([7].as_slice(), None));
    assert_eq!((second.key(), second.value()), ([7].as_slice(), None));
    assert_ne!(first.id(), second.id());
    assert_eq!(hex(&second.id()), "6cac03474cc7ba07068c29a812d99839");
}

#[test]
fn an_application_serves_any_number_of_evaluations() {
    let admitted = ApplicationAuthority::new()
        .admit_module(
            "main.orna".to_owned(),
            "source".to_owned(),
            "main".to_owned(),
            findings(),
        )
        .expect("source should be admitted");
    let mut first = admitted.effect_handler();
    assert_eq!(insert(&mut first), Ok(Some("row")));
    let mut second = admitted.clone().effect_handler();
    assert!(second.mutations().is_empty());
    assert_eq!(insert(&mut second), Ok(Some("row")));
    assert_eq!(first.mutations(), second.mutations());
}

#[test]
fn an_empty_batch_is_not_staged() {
    let authority = ApplicationAuthority::new();
    let refusal = Err(ApplicationError::Runtime(
        "an activation without mutations cannot be staged".to_owned(),
    ));
    assert_eq!(authority.stage_mutations(&context(), Vec::new()), refusal);
    let pure = StagedActivation {
        value: 41,
        mutations: Vec::new(),
    };
    assert_eq!(pure.stage(&authority, &context()), refusal);
    assert_eq!(pure.clone().value(), &41);
    let unencoded = ActivationContext {
        snapshot: None,
        ..context()
    };
    assert_eq!(
        authority.stage_mutations(&unencoded, Vec::new()),
        Err(ApplicationError::DigestEncoding)
    );
}

#[test]
fn activation_digests_cover_the_context_and_the_ordered_mutations() {
    let handler = recorded();
    let mutations = handler.mutations();
    let digest = ApplicationAuthority::canonical_digest(&context(), mutations).expect("snapshot is encoded");
    assert_eq!(
        hex(&digest),
        "304be4c9975b79c7026c5348945fdd83b7934866ed4d8be66d6e348338e22961"
    );
    let before_epoch = ActivationContext {
        elapsed: None,
        ..context()
    };
    assert_eq!(
        ApplicationAuthority::canonical_digest(&before_epoch, &[]).map(|digest| hex(&digest)),
        Ok("57bb4064cc2b075f8a78dfc9aed05bf421be7299fcf40d297f128bef3f35a117".to_owned())
    );
    let reversed = [mutations[1].clone(), mutations[0].clone()];
    let other = ActivationContext {
        generation_digest: [0x12; 32],
        ..context()
    };
    for different in [
        ApplicationAuthority::canonical_digest(&context(), &reversed),
        ApplicationAuthority::canonical_digest(&context(), &mutations[..1]),
        ApplicationAuthority::canonical_digest(&other, mutations),
        ApplicationAuthority::canonical_digest(&before_epoch, mutations),
    ] {
        assert_ne!(different, Ok(digest));
    }
    let unencoded = ActivationContext {
        snapshot: None,
        ..context()
    };
    assert_eq!(
        ApplicationAuthority::canonical_digest(&unencoded, mutations),
        Err(ApplicationError::DigestEncoding)
    );
}

#[test]
fn staging_keeps_the_mutations_and_adds_their_digest() {
    let authority = ApplicationAuthority::new();
    let mutation: TableMutation = recorded().mutations()[0].clone();
    let digest =
        ApplicationAuthority::canonical_digest(&context(), std::slice::from_ref(&mutation)).expect("snapshot is encoded");
    let staged = authority
        .stage_mutation(&context(), mutation.clone())
        .expect("snapshot is encoded");
    assert_eq!(staged.mutations, [mutation.clone()]);
    assert_eq!(staged.next_digest, digest);
    let activation = StagedActivation {
        value: 41,
        mutations: vec![mutation],
    };
    assert_eq!(activation.stage(&authority, &context()), Ok(staged));
    assert_eq!(
        authority.committed::<()>(Err("stale generation".to_owned())),
        Err(ApplicationError::Runtime("stale generation".to_owned()))
    );
    assert_eq!(authority.committed(Ok(7)), Ok(7));
}

#[test]
fn live_adapter_evaluates_eval_and_preserves_result_identity() {
    let adapter = ApplicationLiveAdapter::new(ApplicationAuthority::new());
    let message = eval_message();
    let module = adapter
        .admission_request(&message)
        .expect("an evaluation names a module");
    assert_eq!(module.logical_path, "remote_eval.orna");
    assert_eq!(module.source, "pub fn main(): Int = 41;");
    assert_eq!(module.entry, "main");
    let response = adapter
        .eval([8; 16], &message, Ok(41_i64))
        .expect("Eval should be admitted and evaluated");
    assert_eq!(response.request, [8; 16]);
    assert_eq!(response.fingerprint, [9; 32]);
    assert_eq!(response.value, 41);
}

#[test]
fn live_adapter_uses_the_configured_module() {
    let adapter = ApplicationLiveAdapter::new(ApplicationAuthority::new())
        .with_module("other.orna".to_owned(), "start".to_owned());
    let module = adapter
        .admission_request(&eval_message())
        .expect("an evaluation names a module");
    assert_eq!(module.logical_path, "other.orna");
    assert_eq!(module.entry, "start");
}

#[test]
fn live_adapter_rejects_other_messages_and_failures() {
    let adapter = ApplicationLiveAdapter::new(ApplicationAuthority::new());
    assert_eq!(
        adapter.admission_request(&LiveMessage::Other),
        Err(LiveError::ApplicationRejected)
    );
    assert_eq!(
        adapter.eval([8; 16], &LiveMessage::Other, Ok(41)).map(|_| ()),
        Err(LiveError::ApplicationRejected)
    );
    assert_eq!(
        adapter
            .eval::<i64>([8; 16], &eval_message(), Err(ApplicationError::DigestEncoding))
            .map(|_| ()),
        Err(LiveError::ApplicationRejected)
    );
    assert_eq!(
        adapter.watch::<i64>([8; 16], &LiveMessage::Other).map(|_| ()),
        Err(LiveError::UnsupportedOperation)
    );
}

#[test]
fn live_transactions_fail_closed_without_a_context() {
    let adapter = ApplicationLiveAdapter::new(ApplicationAuthority::new());
    let message = eval_message();
    let written = || {
        Ok(StagedActivation {
            value: 41,
            mutations: recorded().mutations().to_vec(),
        })
    };
    let pure = Ok(StagedActivation {
        value: 41,
        mutations: Vec::new(),
    });
    assert!(matches!(
        adapter.eval_with_transaction([8; 16], &message, pure, None),
        Ok(LiveEvalResponse::Pure(envelope)) if envelope.value == 41 && envelope.request == [8; 16]
    ));
    assert_eq!(
        adapter
            .eval_with_transaction([8; 16], &message, written(), None)
            .map(|_| ()),
        Err(LiveError::ApplicationRejected)
    );
    let unencoded = ActivationContext {
        snapshot: None,
        ..context()
    };
    assert_eq!(
        adapter
            .eval_with_transaction([8; 16], &message, written(), Some(&unencoded))
            .map(|_| ()),
        Err(LiveError::ApplicationRejected)
    );
    let captured = context();
    let response = adapter
        .eval_with_transaction([8; 16], &message, written(), Some(&captured))
        .expect("a captured context stages the writes");
    let LiveEvalResponse::Transaction(envelope, activation) = response else {
        panic!("writes must be answered with a transaction");
    };
    assert_eq!(envelope.fingerprint, [9; 32]);
    assert_eq!(activation.mutations.len(), 2);
    assert_eq!(
        hex(&activation.next_digest),
        "304be4c9975b79c7026c5348945fdd83b7934866ed4d8be66d6e348338e22961"
    );
}
