use orna_artifact::client_plan::{
    CONTROL_FLOW_FORMAT_VERSION, CONTROL_FLOW_STATEMENT_IF, CONTROL_FLOW_STATEMENT_RETURN, ClientExpressionNode,
    ClientLocal, ClientLocalKind, ClientPlanError, ClientStatement, ControlFlowClientPlan, ControlFlowIfBranch,
    ControlFlowIfStatement, ControlFlowStatement, ControlFlowWhileStatement, ExpressionClientPlan, INSPECT_FORMAT_VERSION,
    INSPECT_OPERATION_SNAPSHOT, MAGIC, MAX_CONTROL_FLOW_BLOCK_DEPTH, MAX_CONTROL_FLOW_BRANCHES,
    MAX_CONTROL_FLOW_LOCALS, MAX_CONTROL_FLOW_STATEMENTS, MAX_EXPRESSION_NODES, MAX_PROCEDURAL_LOCALS,
    MAX_PROCEDURAL_STATEMENTS, MAX_RESOURCE_OPERATIONS, NODE_BINARY, NODE_BOOLEAN, NODE_INSPECT, PROCEDURAL_FORMAT_VERSION,
    ProceduralClientPlan, RETURN_CONTROL_FLOW_OPERATION, RETURN_INSPECT_OPERATION, RETURN_PROCEDURAL_OPERATION,
    ResourceKind, ResourceOperationNode, StateClientPlan, StateDefault, StateScope, StateSlot,
};
use orna_artifact::identity::{
    CallSiteId, CatalogueRevisionId, FunctionId, LocalId, RevisionPair, SourceRevisionId, StateSlotId,
    TypeId,
};

fn local(byte: u8) -> LocalId {
    LocalId::from_bytes([byte; 16])
}

fn value_local(byte: u8) -> ClientLocal {
    ClientLocal::new(local(byte), TypeId::from_bytes([0x25; 16]), ClientLocalKind::Value)
}

fn integer(value: i64) -> ClientExpressionNode {
    ClientExpressionNode::Integer { value }
}

fn read(byte: u8) -> ClientExpressionNode {
    ClientExpressionNode::LocalRead { local: local(byte) }
}

fn resource() -> ClientExpressionNode {
    ClientExpressionNode::Resource {
        operation: ResourceOperationNode::new(
            ResourceKind::Scalar,
            FunctionId::from_bytes([0x21; 16]),
            RevisionPair::new(
                SourceRevisionId::from_bytes([0x22; 16]),
                CatalogueRevisionId::from_bytes([0x23; 16]),
            ),
            CallSiteId::from_bytes([0x24; 16]),
            Vec::new(),
            TypeId::from_bytes([0x25; 16]),
        ),
    }
}

fn header(version: u32, operation: u8) -> Vec<u8> {
    let mut bytes = MAGIC.to_vec();
    bytes.extend_from_slice(&version.to_be_bytes());
    bytes.push(operation);
    bytes
}

fn flow_artifact(count: u32, statement: &[u8]) -> Vec<u8> {
    let mut bytes = header(CONTROL_FLOW_FORMAT_VERSION, RETURN_CONTROL_FLOW_OPERATION);
    bytes.extend_from_slice(&0_u32.to_be_bytes());
    bytes.extend_from_slice(&count.to_be_bytes());
    bytes.extend_from_slice(statement);
    bytes
}

fn encoding_failure(locals: Vec<ClientLocal>, statements: Vec<ControlFlowStatement>) -> ClientPlanError {
    ControlFlowClientPlan::new(locals, statements)
        .encode()
        .expect_err("the plan must be refused")
}

#[test]
fn control_flow_tags_outside_the_closed_sets_are_refused() {
    assert_eq!(
        ControlFlowClientPlan::decode(&flow_artifact(1, &[9])),
        Err(ClientPlanError::InvalidControlFlowStatement(9))
    );
    assert_eq!(
        ControlFlowClientPlan::decode(&flow_artifact(1, &[CONTROL_FLOW_STATEMENT_RETURN, 7])),
        Err(ClientPlanError::InvalidControlFlowReturnTag(7))
    );
    assert_eq!(
        ControlFlowClientPlan::decode(&flow_artifact(
            1,
            &[CONTROL_FLOW_STATEMENT_RETURN, 1, NODE_BINARY, 0xee]
        )),
        Err(ClientPlanError::InvalidControlFlowBinaryOperator(0xee))
    );
    assert_eq!(
        ControlFlowClientPlan::decode(&flow_artifact(1, &[CONTROL_FLOW_STATEMENT_IF, 0, 0, 0, 0])),
        Err(ClientPlanError::InvalidControlFlowBranchCount { actual: 0 })
    );
    let otherwise = [
        CONTROL_FLOW_STATEMENT_IF, 0, 0, 0, 1, NODE_BOOLEAN, 1, 0, 0, 0, 0, 5,
    ];
    assert_eq!(
        ControlFlowClientPlan::decode(&flow_artifact(1, &otherwise)),
        Err(ClientPlanError::InvalidControlFlowElseTag(5))
    );
}

#[test]
fn control_flow_locals_follow_their_declarations() {
    assert_eq!(
        encoding_failure(
            vec![value_local(1), value_local(1)],
            vec![ControlFlowStatement::let_(local(1), integer(0))],
        ),
        ClientPlanError::DuplicateControlFlowLocal(local(1))
    );
    assert_eq!(
        encoding_failure(
            vec![value_local(1)],
            vec![
                ControlFlowStatement::let_(local(1), integer(0)),
                ControlFlowStatement::assignment(local(2), integer(0)),
            ],
        ),
        ClientPlanError::UnknownControlFlowLocal(local(2))
    );
    assert_eq!(
        encoding_failure(
            vec![value_local(1), value_local(2)],
            vec![
                ControlFlowStatement::let_(local(1), read(2)),
                ControlFlowStatement::let_(local(2), integer(0)),
            ],
        ),
        ClientPlanError::ControlFlowLocalReadBeforeLet(local(2))
    );
    assert_eq!(
        encoding_failure(
            vec![value_local(1)],
            vec![
                ControlFlowStatement::assignment(local(1), integer(0)),
                ControlFlowStatement::let_(local(1), integer(0)),
            ],
        ),
        ClientPlanError::ControlFlowAssignmentBeforeLet(local(1))
    );
    assert_eq!(
        encoding_failure(
            vec![value_local(1)],
            vec![
                ControlFlowStatement::let_(local(1), integer(0)),
                ControlFlowStatement::let_(local(1), integer(1)),
            ],
        ),
        ClientPlanError::DuplicateControlFlowLet(local(1))
    );
    assert_eq!(
        encoding_failure(
            vec![value_local(1)],
            vec![ControlFlowStatement::return_empty()],
        ),
        ClientPlanError::MissingControlFlowLet(local(1))
    );
    assert_eq!(
        encoding_failure(
            vec![ClientLocal::new(
                local(1),
                TypeId::from_bytes([0x25; 16]),
                ClientLocalKind::Resource(ResourceKind::Scalar),
            )],
            vec![ControlFlowStatement::let_(local(1), integer(0))],
        ),
        ClientPlanError::ControlFlowLocalKindMismatch(local(1))
    );
}

#[test]
fn a_local_of_one_branch_is_not_initialized_behind_it() {
    assert_eq!(
        encoding_failure(
            vec![value_local(1)],
            vec![
                ControlFlowStatement::If(ControlFlowIfStatement::new(
                    vec![ControlFlowIfBranch::new(
                        ClientExpressionNode::Boolean { value: true },
                        vec![ControlFlowStatement::let_(local(1), integer(0))],
                    )],
                    None,
                )),
                ControlFlowStatement::return_value(read(1)),
            ],
        ),
        ClientPlanError::ControlFlowLocalReadBeforeLet(local(1))
    );
    assert_eq!(
        encoding_failure(
            vec![value_local(1)],
            vec![
                ControlFlowStatement::While(ControlFlowWhileStatement::new(
                    ClientExpressionNode::Boolean { value: true },
                    vec![ControlFlowStatement::let_(local(1), integer(0))],
                )),
                ControlFlowStatement::return_value(read(1)),
            ],
        ),
        ClientPlanError::ControlFlowLocalReadBeforeLet(local(1))
    );
    let initialized = ControlFlowClientPlan::new(
        vec![value_local(1)],
        vec![ControlFlowStatement::While(ControlFlowWhileStatement::new(
            ClientExpressionNode::Boolean { value: true },
            vec![
                ControlFlowStatement::let_(local(1), integer(0)),
                ControlFlowStatement::return_value(read(1)),
            ],
        ))],
    );
    let encoded = initialized.encode().expect("the body reads behind its LET");
    assert_eq!(ControlFlowClientPlan::decode(&encoded), Ok(initialized));
}

#[test]
fn control_flow_limits_are_refused() {
    let locals: Vec<ClientLocal> = (0..=MAX_CONTROL_FLOW_LOCALS)
        .map(|index| value_local(index as u8 + 1))
        .collect();
    assert_eq!(
        encoding_failure(locals, Vec::new()),
        ClientPlanError::ControlFlowLocalLimitExceeded {
            limit: MAX_CONTROL_FLOW_LOCALS
        }
    );

    let mut nested = vec![ControlFlowStatement::return_empty()];
    for _ in 0..MAX_CONTROL_FLOW_BLOCK_DEPTH {
        nested = vec![ControlFlowStatement::While(ControlFlowWhileStatement::new(
            ClientExpressionNode::Boolean { value: true },
            nested,
        ))];
    }
    let deepest = ControlFlowClientPlan::new(Vec::new(), nested.clone());
    let encoded = deepest.encode().expect("the deepest nesting encodes");
    assert_eq!(ControlFlowClientPlan::decode(&encoded), Ok(deepest));
    assert_eq!(
        encoding_failure(
            Vec::new(),
            vec![ControlFlowStatement::While(ControlFlowWhileStatement::new(
                ClientExpressionNode::Boolean { value: true },
                nested,
            ))],
        ),
        ClientPlanError::ControlFlowBlockDepthExceeded
    );
}

/// A shallow tree with the given number of leaves, and one node less than twice
/// as many nodes.
fn tree(leaves: usize) -> ClientExpressionNode {
    if leaves == 1 {
        ClientExpressionNode::Boolean { value: true }
    } else {
        ClientExpressionNode::Concat {
            left: Box::new(tree(leaves / 2)),
            right: Box::new(tree(leaves - leaves / 2)),
        }
    }
}

#[test]
fn control_flow_statements_are_limited_over_all_blocks() {
    let returns = |count: usize| vec![ControlFlowStatement::return_empty(); count];
    let plan = |nested: usize| {
        let branches = (0..MAX_CONTROL_FLOW_BRANCHES)
            .map(|_| ControlFlowIfBranch::new(ClientExpressionNode::Boolean { value: true }, returns(1)))
            .collect();
        let conditional = ControlFlowIfStatement::new(branches, Some(returns(nested)));
        ControlFlowClientPlan::new(Vec::new(), vec![ControlFlowStatement::If(conditional)])
    };
    let room = MAX_CONTROL_FLOW_STATEMENTS - 1 - MAX_CONTROL_FLOW_BRANCHES;
    let full = plan(room);
    let encoded = full.encode().expect("a full plan encodes");
    assert_eq!(ControlFlowClientPlan::decode(&encoded), Ok(full));
    assert_eq!(
        plan(room + 1).encode(),
        Err(ClientPlanError::ControlFlowStatementLimitExceeded {
            limit: MAX_CONTROL_FLOW_STATEMENTS
        })
    );
    assert_eq!(
        encoding_failure(
            Vec::new(),
            vec![ControlFlowStatement::If(ControlFlowIfStatement::new(Vec::new(), None))],
        ),
        ClientPlanError::InvalidControlFlowBranchCount { actual: 0 }
    );
}

#[test]
fn nodes_are_limited_over_all_trees_of_one_body() {
    let half = MAX_EXPRESSION_NODES / 4;
    let flow = |leaves: usize| {
        ControlFlowClientPlan::new(
            vec![value_local(1)],
            vec![
                ControlFlowStatement::let_(local(1), tree(leaves)),
                ControlFlowStatement::return_value(tree(half + 1)),
            ],
        )
    };
    let full = flow(half);
    let encoded = full.encode().expect("a full plan encodes");
    assert_eq!(ControlFlowClientPlan::decode(&encoded), Ok(full));
    assert_eq!(
        flow(half + 1).encode(),
        Err(ClientPlanError::ExpressionNodeCountExceeded)
    );

    let procedural = |leaves: usize| {
        ProceduralClientPlan::new(
            vec![value_local(1)],
            vec![ClientStatement::let_(local(1), tree(leaves))],
            tree(half + 1),
        )
    };
    let full = procedural(half);
    let encoded = full.encode().expect("a full plan encodes");
    assert_eq!(ProceduralClientPlan::decode(&encoded), Ok(full));
    assert_eq!(
        procedural(half + 1).encode(),
        Err(ClientPlanError::ExpressionNodeCountExceeded)
    );
}

#[test]
fn each_tree_of_a_state_plan_is_limited_by_itself() {
    let plan = |leaves: usize| {
        StateClientPlan::new(
            tree(MAX_EXPRESSION_NODES / 2),
            vec![StateSlot::new(
                StateSlotId::from_bytes([0x11; 16]),
                TypeId::from_bytes([0x12; 16]),
                StateScope::Local,
                StateDefault::Expression(tree(leaves)),
            )],
        )
    };
    let full = plan(MAX_EXPRESSION_NODES / 2);
    let encoded = full.encode().expect("a full plan encodes");
    assert_eq!(StateClientPlan::decode(&encoded), Ok(full));
    assert_eq!(
        plan(MAX_EXPRESSION_NODES / 2 + 1).encode(),
        Err(ClientPlanError::ExpressionNodeCountExceeded)
    );
}

#[test]
fn procedural_tags_and_limits_are_refused() {
    let mut bytes = header(PROCEDURAL_FORMAT_VERSION, RETURN_PROCEDURAL_OPERATION);
    bytes.extend_from_slice(&1_u32.to_be_bytes());
    bytes.extend_from_slice(&local(1).to_bytes());
    bytes.extend_from_slice(&[0x25; 16]);
    let mut kind = bytes.clone();
    kind.push(9);
    assert_eq!(
        ProceduralClientPlan::decode(&kind),
        Err(ClientPlanError::InvalidLocalKind(9))
    );
    let mut statement = bytes;
    statement.push(0);
    statement.extend_from_slice(&1_u32.to_be_bytes());
    statement.push(9);
    statement.extend_from_slice(&local(1).to_bytes());
    assert_eq!(
        ProceduralClientPlan::decode(&statement),
        Err(ClientPlanError::InvalidProceduralStatement(9))
    );

    let locals: Vec<ClientLocal> = (0..=MAX_PROCEDURAL_LOCALS)
        .map(|index| value_local(index as u8 + 1))
        .collect();
    assert_eq!(
        ProceduralClientPlan::new(locals, Vec::new(), integer(0)).encode(),
        Err(ClientPlanError::ProceduralLocalLimitExceeded {
            limit: MAX_PROCEDURAL_LOCALS
        })
    );
    let mut statements = vec![ClientStatement::let_(local(1), integer(0))];
    for _ in 0..MAX_PROCEDURAL_STATEMENTS {
        statements.push(ClientStatement::assignment(local(1), integer(0)));
    }
    assert_eq!(
        ProceduralClientPlan::new(vec![value_local(1)], statements, integer(0)).encode(),
        Err(ClientPlanError::ProceduralStatementLimitExceeded {
            limit: MAX_PROCEDURAL_STATEMENTS
        })
    );
    assert_eq!(
        ProceduralClientPlan::new(
            vec![value_local(1), value_local(1)],
            vec![ClientStatement::let_(local(1), integer(0))],
            integer(0),
        )
        .encode(),
        Err(ClientPlanError::DuplicateProceduralLocal(local(1)))
    );
}

#[test]
fn resource_operations_of_one_plan_are_limited() {
    let handle = ClientLocal::new(
        local(1),
        TypeId::from_bytes([0x25; 16]),
        ClientLocalKind::Resource(ResourceKind::Scalar),
    );
    let plan = |count: usize| {
        let mut statements = vec![ClientStatement::let_(local(1), resource())];
        for _ in 1..count {
            statements.push(ClientStatement::assignment(local(1), resource()));
        }
        ProceduralClientPlan::new(
            vec![handle],
            statements,
            ClientExpressionNode::Await {
                expression: Box::new(read(1)),
            },
        )
    };
    let full = plan(MAX_RESOURCE_OPERATIONS);
    let encoded = full.encode().expect("a full plan encodes");
    assert_eq!(ProceduralClientPlan::decode(&encoded), Ok(full));
    assert_eq!(
        plan(MAX_RESOURCE_OPERATIONS + 1).encode(),
        Err(ClientPlanError::ResourceOperationLimitExceeded {
            limit: MAX_RESOURCE_OPERATIONS
        })
    );
}

#[test]
fn inspector_snapshot_options_are_refused() {
    let mut bytes = header(INSPECT_FORMAT_VERSION, RETURN_INSPECT_OPERATION);
    bytes.extend_from_slice(&[NODE_INSPECT, INSPECT_OPERATION_SNAPSHOT, NODE_BOOLEAN, 1]);
    let mut options = bytes.clone();
    options.push(1);
    assert_eq!(
        ExpressionClientPlan::decode(&options),
        Err(ClientPlanError::UnsupportedInspectOptions)
    );
    let mut unknown = bytes.clone();
    unknown.push(2);
    assert_eq!(
        ExpressionClientPlan::decode(&unknown),
        Err(ClientPlanError::InvalidInspectOperation(2))
    );
    bytes.push(0);
    assert!(ExpressionClientPlan::decode(&bytes).is_ok());
}

#[test]
fn local_failures_render_the_identity() {
    assert_eq!(
        ClientPlanError::MissingControlFlowLet(local(0xa0)).message(),
        format!(
            "client-plan control-flow local {} has no LET statement",
            "a0".repeat(16)
        )
    );
}
