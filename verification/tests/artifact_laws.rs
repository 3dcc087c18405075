use orna_artifact::client_plan::{
    ActionClientPlan, ActionOperationNode, ActionTargetDomain, CapabilityArgumentSource, CapabilityClientPlan,
    CapabilityRequirement, ClientExpressionNode, ClientLocal, ClientLocalKind, ClientPlan, ClientPlanError, ClientStatement,
    ControlFlowClientPlan, ControlFlowIfBranch, ControlFlowIfStatement, ControlFlowStatement, ExpressionClientPlan,
    InnerClientPlan, InspectOperationNode, OpaqueClientPlan, ProceduralClientPlan, ResourceClientPlan, ResourceKind,
    ResourceOperationNode, StateClientPlan, StateDefault, StateScope, StateSlot,
};
use orna_artifact::constant_expression::{ConstantExpression, ConstantExpressionError};
use orna_artifact::identity::{
    CallSiteId, CatalogueRevisionId, FieldId, FunctionId, LocalId, ParameterId, RevisionPair, SourceRevisionId, StateSlotId,
    TypeId,
};
use orna_artifact::resolved_type::{ResolvedType, StandardScalar};
use orna_artifact::server_csv_encode::{CsvEncodePlan, CsvEncodePlanError};
use orna_artifact::server_mutation_plan::{
    FieldAssignment, MutationExpression, MutationSelector, RecordFieldExpression, ServerDeletePlan, ServerMutationPlan,
    ServerMutationPlanError,
};

fn revision() -> RevisionPair {
    RevisionPair::new(
        SourceRevisionId::from_bytes([0x22; 16]),
        CatalogueRevisionId::from_bytes([0x23; 16]),
    )
}

fn text(value: &str) -> ClientExpressionNode {
    ClientExpressionNode::String {
        value: value.to_owned(),
    }
}

fn resource() -> ClientExpressionNode {
    ClientExpressionNode::Resource {
        operation: ResourceOperationNode::new(
            ResourceKind::Scalar,
            FunctionId::from_bytes([0x21; 16]),
            revision(),
            CallSiteId::from_bytes([0x24; 16]),
            vec![(ParameterId::from_bytes([0x31; 16]), text("owner"))],
            TypeId::from_bytes([0x25; 16]),
        ),
    }
}

fn procedural() -> ProceduralClientPlan {
    let local = LocalId::from_bytes([0x71; 16]);
    ProceduralClientPlan::new(
        vec![ClientLocal::new(
            local,
            TypeId::from_bytes([0x25; 16]),
            ClientLocalKind::Resource(ResourceKind::Scalar),
        )],
        vec![ClientStatement::let_(local, resource())],
        ClientExpressionNode::Await {
            expression: Box::new(ClientExpressionNode::LocalRead { local }),
        },
    )
}

/// One artefact of every client-plan version, with the version it declares.
fn client_artifacts() -> Vec<(u32, Vec<u8>)> {
    let local = LocalId::from_bytes([0x11; 16]);
    let expression = ExpressionClientPlan::new(ClientExpressionNode::Concat {
        left: Box::new(text("café ")),
        right: Box::new(ClientExpressionNode::FieldPath {
            root: ParameterId::from_bytes([0x31; 16]),
            fields: vec![FieldId::from_bytes([0x41; 16])],
        }),
    });
    let inspect = ExpressionClientPlan::new(ClientExpressionNode::Inspect {
        operation: InspectOperationNode::Snapshot {
            target: Box::new(ClientExpressionNode::Boolean { value: true }),
            options: None,
        },
    });
    let state = StateClientPlan::new(
        ClientExpressionNode::Integer { value: -42 },
        vec![
            StateSlot::new(
                StateSlotId::from_bytes([0x61; 16]),
                TypeId::from_bytes([0x62; 16]),
                StateScope::Session,
                StateDefault::Null,
            ),
            StateSlot::new(
                StateSlotId::from_bytes([0x63; 16]),
                TypeId::from_bytes([0x62; 16]),
                StateScope::Local,
                StateDefault::Unset,
            ),
        ],
    );
    let capability = CapabilityClientPlan::new(
        InnerClientPlan::Procedural(procedural()),
        vec![CapabilityRequirement::new(
            "std.fs.read".to_owned(),
            CapabilityArgumentSource::Parameter("p_path".to_owned()),
        )],
    );
    let awaited = ResourceClientPlan::new(ClientExpressionNode::Await {
        expression: Box::new(resource()),
    });
    let action = ActionClientPlan::new(ActionOperationNode::new(
        ActionTargetDomain::Server,
        FunctionId::from_bytes([0x21; 16]),
        revision(),
        CallSiteId::from_bytes([0x43; 16]),
        vec![(ParameterId::from_bytes([0x31; 16]), text("owner"))],
        TypeId::from_bytes([0x44; 16]),
    ));
    let flow = ControlFlowClientPlan::new(
        vec![ClientLocal::new(
            local,
            TypeId::from_bytes([0x12; 16]),
            ClientLocalKind::Value,
        )],
        vec![
            ControlFlowStatement::let_(local, ClientExpressionNode::Integer { value: 0 }),
            ControlFlowStatement::If(ControlFlowIfStatement::new(
                vec![ControlFlowIfBranch::new(
                    ClientExpressionNode::Boolean { value: false },
                    vec![ControlFlowStatement::return_empty()],
                )],
                Some(Vec::new()),
            )),
            ControlFlowStatement::return_value(ClientExpressionNode::LocalRead { local }),
        ],
    );
    vec![
        (1, ClientPlan::return_boolean(true).encode().to_vec()),
        (
            2,
            OpaqueClientPlan::return_opaque(TypeId::from_bytes([0x42; 16]), vec![1, 2, 3])
                .encode()
                .expect("opaque plan encodes"),
        ),
        (3, expression.encode().expect("expression plan encodes")),
        (4, state.encode().expect("state plan encodes")),
        (5, capability.encode().expect("capability plan encodes")),
        (6, awaited.encode().expect("resource plan encodes")),
        (7, procedural().encode().expect("procedural plan encodes")),
        (8, action.encode().expect("action plan encodes")),
        (9, inspect.encode().expect("inspector plan encodes")),
        (10, flow.encode().expect("control-flow plan encodes")),
    ]
}

/// Decodes an artefact as one version and encodes the result again.
fn client_recoded(version: u32, bytes: &[u8]) -> Result<Vec<u8>, ClientPlanError> {
    match version {
        1 => ClientPlan::decode(bytes).map(|plan| plan.encode().to_vec()),
        2 => OpaqueClientPlan::decode(bytes).and_then(|plan| plan.encode()),
        3 | 9 => ExpressionClientPlan::decode(bytes).and_then(|plan| plan.encode()),
        4 => StateClientPlan::decode(bytes).and_then(|plan| plan.encode()),
        5 => CapabilityClientPlan::decode(bytes).and_then(|plan| plan.encode()),
        6 => ResourceClientPlan::decode(bytes).and_then(|plan| plan.encode()),
        7 => ProceduralClientPlan::decode(bytes).and_then(|plan| plan.encode()),
        8 => ActionClientPlan::decode(bytes).and_then(|plan| plan.encode()),
        10 => ControlFlowClientPlan::decode(bytes).and_then(|plan| plan.encode()),
        _ => panic!("no client-plan version {version}"),
    }
}

#[test]
fn every_client_plan_version_is_recoded_exactly() {
    for (version, bytes) in client_artifacts() {
        assert_eq!(&bytes[8..12], &version.to_be_bytes());
        assert_eq!(client_recoded(version, &bytes), Ok(bytes));
    }
}

#[test]
fn every_strict_prefix_of_a_client_plan_is_truncated() {
    for (version, bytes) in client_artifacts() {
        for length in 0..bytes.len() {
            assert_eq!(
                client_recoded(version, &bytes[..length]),
                Err(ClientPlanError::Truncated),
                "version {version}, prefix length {length}"
            );
        }
    }
}

#[test]
fn every_client_plan_refuses_trailing_bytes() {
    for (version, bytes) in client_artifacts() {
        for tail in [vec![0], vec![1, 2, 3]] {
            let longer = [bytes.clone(), tail].concat();
            assert_eq!(
                client_recoded(version, &longer),
                Err(ClientPlanError::TrailingBytes),
                "version {version}"
            );
        }
    }
}

#[test]
fn client_plan_versions_refuse_each_other() {
    for (version, bytes) in client_artifacts() {
        for other in 1..=10 {
            let shared = (version == 3 || version == 9) && (other == 3 || other == 9);
            if other != version && !shared {
                assert_eq!(
                    client_recoded(other, &bytes),
                    Err(ClientPlanError::UnsupportedVersion(version)),
                    "version {version} read as {other}"
                );
            }
        }
    }
}

#[test]
fn whatever_client_plan_decodes_is_encoded_to_the_same_bytes() {
    let mut decoded = 0;
    for (version, bytes) in client_artifacts() {
        for position in 0..bytes.len() {
            for change in [0x01, 0x02, 0x03, 0x80, 0xff] {
                let mut changed = bytes.clone();
                changed[position] ^= change;
                if let Ok(recoded) = client_recoded(version, &changed) {
                    assert_eq!(recoded, changed, "version {version}, position {position}");
                    decoded += 1;
                }
            }
        }
    }
    assert!(decoded > 100);
}

fn mutation_artifacts() -> Vec<Vec<u8>> {
    let target = TypeId::from_bytes([1; 16]);
    let function = FunctionId::from_bytes([5; 16]);
    let parameter = ParameterId::from_bytes([7; 16]);
    let record = TypeId::from_bytes([10; 16]);
    let selector = MutationSelector::new(function, parameter);
    let scalar = FieldAssignment::new(
        target,
        FieldId::from_bytes([3; 16]),
        MutationExpression::parameter(
            function,
            parameter,
            ResolvedType::scalar(StandardScalar::Integer),
        )
        .expect("an integer parameter is supported"),
    );
    let constructed = FieldAssignment::new(
        target,
        FieldId::from_bytes([4; 16]),
        MutationExpression::record_constructor(
            record,
            vec![RecordFieldExpression::boolean_literal(
                record,
                FieldId::from_bytes([11; 16]),
                true,
            )],
        )
        .expect("one field makes a record"),
    );
    vec![
        ServerMutationPlan::new_insert(target, vec![scalar.clone()], target)
            .and_then(|plan| plan.encode())
            .expect("insert encodes"),
        ServerMutationPlan::new_update(target, selector, vec![scalar.clone()], target)
            .and_then(|plan| plan.encode())
            .expect("update encodes"),
        ServerMutationPlan::new_insert(target, vec![scalar, constructed], target)
            .and_then(|plan| plan.encode())
            .expect("record insert encodes"),
    ]
}

#[test]
fn mutation_plans_end_where_their_content_ends() {
    for bytes in mutation_artifacts() {
        let recode = |bytes: &[u8]| ServerMutationPlan::decode(bytes).and_then(|plan| plan.encode());
        assert_eq!(recode(&bytes), Ok(bytes.clone()));
        for length in 0..bytes.len() {
            assert_eq!(
                recode(&bytes[..length]),
                Err(ServerMutationPlanError::Truncated),
                "prefix length {length}"
            );
        }
        let longer = [bytes.clone(), vec![0]].concat();
        assert_eq!(recode(&longer), Err(ServerMutationPlanError::TrailingBytes));
        for position in 0..bytes.len() {
            for change in [0x01, 0x02, 0xff] {
                let mut changed = bytes.clone();
                changed[position] ^= change;
                if let Ok(recoded) = recode(&changed) {
                    assert_eq!(recoded, changed, "position {position}");
                }
            }
        }
    }
}

#[test]
fn delete_plans_end_where_their_content_ends() {
    let plan = ServerDeletePlan::new(
        TypeId::from_bytes([1; 16]),
        MutationSelector::new(FunctionId::from_bytes([5; 16]), ParameterId::from_bytes([7; 16])),
    );
    let bytes = plan.encode().expect("delete encodes");
    assert_eq!(bytes.len(), 61);
    assert_eq!(ServerDeletePlan::decode(&bytes), Ok(plan));
    for length in 0..bytes.len() {
        assert_eq!(
            ServerDeletePlan::decode(&bytes[..length]),
            Err(ServerMutationPlanError::Truncated)
        );
    }
    let longer = [bytes, vec![0]].concat();
    assert_eq!(
        ServerDeletePlan::decode(&longer),
        Err(ServerMutationPlanError::TrailingBytes)
    );
}

#[test]
fn constants_end_where_their_content_ends() {
    for value in [
        ConstantExpression::Null,
        ConstantExpression::Boolean(true),
        ConstantExpression::Integer(-7),
        ConstantExpression::Text("naïve".to_owned()),
    ] {
        let bytes = value.encode().expect("constant encodes");
        for length in 0..bytes.len() {
            assert_eq!(
                ConstantExpression::decode(&bytes[..length]),
                Err(ConstantExpressionError::Truncated)
            );
        }
        let longer = [bytes, vec![0]].concat();
        assert_eq!(
            ConstantExpression::decode(&longer),
            Err(ConstantExpressionError::TrailingBytes)
        );
    }
}

#[test]
fn csv_plans_end_where_their_content_ends() {
    let parameter = ParameterId::from_bytes([0x13; 16]);
    let rows = TypeId::from_bytes([0x12; 16]);
    let bytes = CsvEncodePlan::new(parameter, rows)
        .and_then(|plan| plan.encode())
        .expect("csv plan encodes");
    for length in 0..bytes.len() {
        assert_eq!(
            CsvEncodePlan::decode(&bytes[..length], parameter, rows),
            Err(CsvEncodePlanError::Truncated)
        );
    }
}

#[test]
fn identities_are_their_sixteen_bytes() {
    let bytes = [1, 2, 3, 4, 5, 6, 7, 8, 9, 10, 11, 12, 13, 14, 15, 0xff];
    assert_eq!(TypeId::from_bytes(bytes).to_bytes(), bytes);
    assert_eq!(LocalId::from_bytes(bytes), LocalId(0x0102030405060708090a0b0c0d0e0fff));
}
