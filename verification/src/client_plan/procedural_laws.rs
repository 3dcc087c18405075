//! Which procedural plans are accepted.
//!
//! The conditions are written out over the declarations, the statements and the
//! node at every path of their trees.

use vstd::prelude::*;

use crate::client_plan::expression::{lemma_operand_decreases, operands, Expression, InspectOperation};
use crate::client_plan::grammar::{Grammar, Tally};
use crate::client_plan::limit_laws::{lemma_statements_trees, procedural_trees, total_nodes, total_resources};
use crate::client_plan::local::{
    declaration, declaration_from, declared_before, missing_local, repeated_local, ClientLocal, ClientLocalKind,
};
use crate::client_plan::plan_laws::{node_count, tree_levels};
use crate::client_plan::procedural::{
    decoded_procedural_plan, encoded_procedural_plan, law_procedural_plan_canonical, procedural_plan_bytes,
    ProceduralPlan, Statement,
};
use crate::client_plan::procedural_rules::{
    operand_reads_valid, operand_shapes_valid, reads_valid, repeated_let, return_valid, shape_valid, statement_valid,
    statements_valid,
};
use crate::client_plan::tree_laws::{
    ascends, children, contract_only_at_root, everywhere, law_contracts_placed_exactly, law_operands_are_children,
    law_resource_arguments_accepted_exactly, law_trees_admitted_exactly, lemma_everywhere, node_at, of_set,
};
use crate::identity::LocalId;

verus! {

/// Tells whether no two declarations share an identity.
pub open spec fn distinct_locals(locals: Seq<ClientLocal>) -> bool {
    forall|first: int, second: int|
        0 <= first < second < locals.len() ==> (#[trigger] locals[first]).local != (#[trigger] locals[second]).local
}

/// Tells whether a local is declared.
pub open spec fn declares(locals: Seq<ClientLocal>, local: LocalId) -> bool {
    exists|place: int| 0 <= place < locals.len() && (#[trigger] locals[place]).local == local
}

/// Tells whether a local is declared to hold a value.
pub open spec fn declares_value(locals: Seq<ClientLocal>, local: LocalId) -> bool {
    exists|place: int|
        0 <= place < locals.len() && (#[trigger] locals[place]).local == local && locals[place].kind is Value
}

/// Tells whether a local is declared to hold a resource handle.
pub open spec fn declares_handle(locals: Seq<ClientLocal>, local: LocalId) -> bool {
    exists|place: int|
        0 <= place < locals.len() && (#[trigger] locals[place]).local == local && locals[place].kind is Resource
}

/// The declaration of a local is the first one with its identity.
proof fn lemma_declaration_from(locals: Seq<ClientLocal>, local: LocalId, index: nat)
    ensures
        match declaration_from(locals, local, index) {
            Some(found) => found.local == local && exists|place: int|
                index <= place < locals.len() && #[trigger] locals[place] == found,
            None => forall|place: int| index <= place < locals.len() ==> (#[trigger] locals[place]).local != local,
        },
    decreases locals.len() - index,
{
    if index < locals.len() {
        if locals[index as int].local == local {
            assert(locals[index as int] == locals[index as int]);
        } else {
            lemma_declaration_from(locals, local, index + 1);
            if let Some(found) = declaration_from(locals, local, index) {
                let place = choose|place: int| index + 1 <= place < locals.len() && #[trigger] locals[place] == found;
                assert(index <= place && locals[place] == found);
            }
        }
    }
}

/// A local has exactly the declaration with its identity, where no two
/// declarations share one.
pub proof fn law_declaration_found(locals: Seq<ClientLocal>, local: LocalId)
    requires
        distinct_locals(locals),
    ensures
        declaration(locals, local) is Some <==> declares(locals, local),
        declaration(locals, local) matches Some(found) ==> {
            &&& found.local == local
            &&& forall|place: int|
                0 <= place < locals.len() && (#[trigger] locals[place]).local == local ==> locals[place] == found
            &&& found.kind is Value <==> declares_value(locals, local)
            &&& found.kind is Resource <==> declares_handle(locals, local)
        },
        declaration(locals, local) is None ==> !declares_value(locals, local) && !declares_handle(locals, local),
{
    lemma_declaration_from(locals, local, 0);
    if let Some(found) = declaration(locals, local) {
        let origin = choose|place: int| 0 <= place < locals.len() && #[trigger] locals[place] == found;
        assert forall|place: int| 0 <= place < locals.len() && (#[trigger] locals[place]).local
            == local implies locals[place] == found by {
            if place < origin {
                assert(locals[place].local != locals[origin].local);
            } else if origin < place {
                assert(locals[origin].local != locals[place].local);
            }
        }
    }
}

/// A repeated declaration is found exactly where two share an identity.
pub proof fn law_repeated_local_found(locals: Seq<ClientLocal>)
    ensures
        repeated_local(locals, 0) is None <==> distinct_locals(locals),
{
    lemma_repeated_from(locals, 0);
}

/// No declaration from `index` on repeats an earlier one exactly where none
/// shares its identity.
proof fn lemma_repeated_from(locals: Seq<ClientLocal>, index: nat)
    ensures
        repeated_local(locals, index) is None <==> forall|earlier: int, place: int|
            0 <= earlier < place < locals.len() && index <= place ==> (#[trigger] locals[earlier]).local != (
            #[trigger] locals[place]).local,
    decreases locals.len() - index,
{
    if index < locals.len() {
        lemma_repeated_from(locals, index + 1);
        if declared_before(locals, index as int, locals[index as int].local) {
            let earlier = choose|earlier: int|
                0 <= earlier < index && (#[trigger] locals[earlier]).local == locals[index as int].local;
            assert(locals[earlier].local == locals[index as int].local);
        }
    }
}

/// Tells whether a local has a LET among the statements before `end`.
pub open spec fn has_let_before(statements: Seq<Statement>, end: int, local: LocalId) -> bool {
    exists|place: int|
        0 <= place < end && place < statements.len() && (#[trigger] statements[place]) is Let
            && statements[place].local() == local
}

/// The locals with a LET among the statements before `end`.
pub open spec fn known_before(statements: Seq<Statement>, end: int) -> Set<LocalId> {
    Set::new(|local: LocalId| has_let_before(statements, end, local))
}

/// The rule that a node reads only known locals and is no operator.
pub open spec fn reads_known(known: Set<LocalId>) -> spec_fn(Expression) -> bool {
    |node: Expression|
        !(node is Unary) && !(node is Binary) && (node matches Expression::LocalRead { local } ==> known.contains(local))
}

/// The reads of a tree are accepted exactly where every local that it reads, at
/// any depth, is known.
pub proof fn law_reads_accepted_exactly(expression: Expression, known: Set<LocalId>)
    ensures
        reads_valid(expression, known) is Ok <==> everywhere(expression, reads_known(known)),
    decreases expression, operands(expression).len() + 1,
{
    law_operands_are_children(expression);
    lemma_everywhere(expression, reads_known(known));
    lemma_operand_reads(expression, 0, known);
    assert(reads_known(known)(expression) <==> !(expression is Unary) && !(expression is Binary) && (
    expression matches Expression::LocalRead { local } ==> known.contains(local)));
}

/// The same of the operands from `index` on.
proof fn lemma_operand_reads(expression: Expression, index: nat, known: Set<LocalId>)
    ensures
        operand_reads_valid(expression, index, known) is Ok <==> forall|place: int|
            index <= place < children(expression).len() ==> everywhere(
                #[trigger] children(expression)[place],
                reads_known(known),
            ),
    decreases expression, operands(expression).len() - index,
{
    law_operands_are_children(expression);
    if index < operands(expression).len() {
        lemma_operand_decreases(expression, index as int);
        law_reads_accepted_exactly(children(expression)[index as int], known);
        lemma_operand_reads(expression, index + 1, known);
    }
}

/// The rule of a node below the root of a tree: it is a value. It is no await,
/// resource operation, action or unary operator, no snapshot with options, reads
/// only a value local, and calls with at most 64 arguments.
pub open spec fn interior(locals: Seq<ClientLocal>) -> spec_fn(Expression) -> bool {
    |node: Expression|
        match node {
            Expression::Await { .. } => false,
            Expression::Resource { .. } => false,
            Expression::Unary { .. } => false,
            Expression::Action { .. } => false,
            Expression::Inspect { operation: InspectOperation::Snapshot { options: Some(_), .. } } => false,
            Expression::LocalRead { local } => declares_value(locals, local),
            Expression::Call { arguments, .. } => arguments.len() <= 64,
            _ => true,
        }
}

/// Tells whether everything that stands in a node is a value.
pub open spec fn holds_values(expression: Expression, locals: Seq<ClientLocal>) -> bool {
    forall|place: int|
        0 <= place < children(expression).len() ==> everywhere(
            #[trigger] children(expression)[place],
            interior(locals),
        )
}

/// Tells whether a tree may stand at a place: a resource operation only where the
/// place takes one, an await over a resource operation or a handle, a read of any
/// local but of a handle only where the place takes one, and otherwise a value.
pub open spec fn shaped(
    expression: Expression,
    locals: Seq<ClientLocal>,
    takes_resource: bool,
    takes_handle: bool,
) -> bool {
    match expression {
        Expression::Await { expression: awaited } => match *awaited {
            Expression::Resource { operation } => operation.arguments.len() <= 64 && ascends(operation.arguments)
                && holds_values(*awaited, locals),
            Expression::LocalRead { local } => declares_handle(locals, local),
            _ => false,
        },
        Expression::Resource { operation } => takes_resource && operation.arguments.len() <= 64 && ascends(
            operation.arguments,
        ) && holds_values(expression, locals),
        Expression::LocalRead { local } => declares_value(locals, local) || (takes_handle && declares_handle(
            locals,
            local,
        )),
        _ => interior(locals)(expression) && holds_values(expression, locals),
    }
}

/// A tree below a root is accepted exactly where every node of it is a value.
proof fn lemma_interior(expression: Expression, locals: Seq<ClientLocal>)
    requires
        distinct_locals(locals),
    ensures
        shape_valid(expression, locals, false, false, true) is Ok <==> everywhere(expression, interior(locals)),
    decreases expression, operands(expression).len() + 1,
{
    law_operands_are_children(expression);
    lemma_everywhere(expression, interior(locals));
    lemma_interior_operands(expression, 0, locals);
    if let Expression::LocalRead { local } = expression {
        law_declaration_found(locals, local);
    }
}

/// The same of the operands from `index` on.
proof fn lemma_interior_operands(expression: Expression, index: nat, locals: Seq<ClientLocal>)
    requires
        distinct_locals(locals),
    ensures
        operand_shapes_valid(expression, index, locals) is Ok <==> forall|place: int|
            index <= place < children(expression).len() ==> everywhere(
                #[trigger] children(expression)[place],
                interior(locals),
            ),
    decreases expression, operands(expression).len() - index,
{
    law_operands_are_children(expression);
    if index < operands(expression).len() {
        lemma_operand_decreases(expression, index as int);
        lemma_interior(children(expression)[index as int], locals);
        lemma_interior_operands(expression, index + 1, locals);
    }
}

/// The shape of a tree is accepted exactly where it may stand at its place.
pub proof fn law_shape_accepted_exactly(
    expression: Expression,
    locals: Seq<ClientLocal>,
    takes_resource: bool,
    takes_handle: bool,
)
    requires
        distinct_locals(locals),
    ensures
        shape_valid(expression, locals, takes_resource, true, !takes_handle) is Ok <==> shaped(
            expression,
            locals,
            takes_resource,
            takes_handle,
        ),
{
    lemma_interior_operands(expression, 0, locals);
    match expression {
        Expression::Await { expression: awaited } => {
            lemma_interior_operands(*awaited, 0, locals);
            match *awaited {
                Expression::Resource { operation } => {
                    law_resource_arguments_accepted_exactly(operation.arguments);
                },
                Expression::LocalRead { local } => {
                    law_declaration_found(locals, local);
                },
                _ => {},
            }
        },
        Expression::Resource { operation } => {
            law_resource_arguments_accepted_exactly(operation.arguments);
        },
        Expression::LocalRead { local } => {
            law_declaration_found(locals, local);
            assert(declares(locals, local) <==> declares_value(locals, local) || declares_handle(locals, local)) by {
                if declares(locals, local) {
                    let place = choose|place: int|
                        0 <= place < locals.len() && (#[trigger] locals[place]).local == local;
                    assert(locals[place].kind is Value || locals[place].kind is Resource);
                }
            }
        },
        _ => {},
    }
}

/// Tells whether some declaration of a local has a kind and a type.
pub open spec fn declared_like(locals: Seq<ClientLocal>, local: LocalId, model: ClientLocal) -> bool {
    exists|place: int|
        0 <= place < locals.len() && (#[trigger] locals[place]).local == local && locals[place].kind == model.kind
            && locals[place].type_id == model.type_id
}

/// Tells whether what a tree gives fits a local: a value local takes no handle, a
/// handle local only a handle of its kind, and where the type of what is received
/// is known, it is the type of the local.
pub open spec fn received(target: ClientLocal, expression: Expression, locals: Seq<ClientLocal>) -> bool {
    match expression {
        Expression::Resource { operation } => target.kind == ClientLocalKind::Resource(operation.kind)
            && operation.result_type == target.type_id,
        Expression::LocalRead { local } => declared_like(locals, local, target),
        Expression::Await { expression: awaited } => target.kind is Value && match *awaited {
            Expression::Resource { operation } => operation.result_type == target.type_id,
            Expression::LocalRead { local } => exists|place: int|
                0 <= place < locals.len() && (#[trigger] locals[place]).local == local && locals[place].kind
                    is Resource && locals[place].type_id == target.type_id,
            _ => true,
        },
        _ => target.kind is Value,
    }
}

/// Tells whether a statement may stand at its place in a body: its target is
/// declared, an assignment follows the LET of its target, every local that it
/// reads at any depth has an earlier LET, and its tree may stand there and fits
/// its target.
pub open spec fn statement_stands(statements: Seq<Statement>, place: int, locals: Seq<ClientLocal>) -> bool {
    let statement = statements[place];
    let known = known_before(statements, place);
    &&& exists|declared: int| #![trigger locals[declared]]
        0 <= declared < locals.len() && locals[declared].local == statement.local() && received(
            locals[declared],
            statement.expression(),
            locals,
        ) && shaped(statement.expression(), locals, true, locals[declared].kind is Resource)
    &&& statement is Assignment ==> known.contains(statement.local())
    &&& everywhere(statement.expression(), reads_known(known))
    &&& contract_only_at_root(statement.expression()) && !(statement.expression() is ExternalContract)
}

/// Tells whether a tree may be returned from a body.
pub open spec fn return_stands(expression: Expression, locals: Seq<ClientLocal>, known: Set<LocalId>) -> bool {
    &&& shaped(expression, locals, false, false)
    &&& everywhere(expression, reads_known(known))
    &&& contract_only_at_root(expression) && !(expression is ExternalContract)
}

/// Tells whether a tree keeps the depth and node caps.
pub open spec fn within_caps(expression: Expression) -> bool {
    tree_levels(expression) <= 65 && node_count(expression) <= 1024
}

/// A statement is accepted exactly where it may stand at its place and its tree
/// is bounded.
proof fn lemma_statement(statements: Seq<Statement>, place: int, locals: Seq<ClientLocal>)
    requires
        0 <= place < statements.len(),
        distinct_locals(locals),
    ensures
        statement_valid(statements[place], locals, known_before(statements, place)) is Ok <==> statement_stands(
            statements,
            place,
            locals,
        ) && within_caps(statements[place].expression()),
{
    let statement = statements[place];
    let expression = statement.expression();
    let known = known_before(statements, place);
    law_declaration_found(locals, statement.local());
    law_contracts_placed_exactly(expression, false);
    law_reads_accepted_exactly(expression, known);
    if let Some(target) = declaration(locals, statement.local()) {
        law_shape_accepted_exactly(expression, locals, true, target.kind is Resource);
        let origin = choose|origin: int|
            0 <= origin < locals.len() && (#[trigger] locals[origin]).local == statement.local();
        assert(locals[origin] == target);
        match expression {
            Expression::LocalRead { local } => {
                law_declaration_found(locals, local);
                if let Some(source) = declaration(locals, local) {
                    let spot = choose|spot: int| 0 <= spot < locals.len() && (#[trigger] locals[spot]).local == local;
                    assert(locals[spot] == source);
                    assert(source.kind.handle() == target.kind.handle() <==> source.kind == target.kind);
                }
            },
            Expression::Await { expression: awaited } => {
                if let Expression::LocalRead { local } = *awaited {
                    law_declaration_found(locals, local);
                    if let Some(source) = declaration(locals, local) {
                        let spot = choose|spot: int|
                            0 <= spot < locals.len() && (#[trigger] locals[spot]).local == local;
                        assert(locals[spot] == source);
                    }
                }
            },
            _ => {},
        }
        assert(statement_valid(statement, locals, known) is Ok <==> {
            &&& shaped(expression, locals, true, target.kind is Resource)
            &&& received(target, expression, locals)
            &&& statement is Assignment ==> known.contains(statement.local())
            &&& everywhere(expression, reads_known(known))
            &&& contract_only_at_root(expression) && !(expression is ExternalContract)
            &&& within_caps(expression)
        });
    }
}

/// What is known behind a statement is what was known before it and the local of
/// its LET.
pub proof fn lemma_known(statements: Seq<Statement>, place: int)
    requires
        0 <= place < statements.len(),
    ensures
        known_before(statements, place + 1) == if statements[place] is Let {
            known_before(statements, place).insert(statements[place].local())
        } else {
            known_before(statements, place)
        },
{
    let next = known_before(statements, place + 1);
    let behind = if statements[place] is Let {
        known_before(statements, place).insert(statements[place].local())
    } else {
        known_before(statements, place)
    };
    assert forall|local: LocalId| next.contains(local) <==> behind.contains(local) by {
        if has_let_before(statements, place + 1, local) {
            let origin = choose|origin: int|
                0 <= origin < place + 1 && origin < statements.len() && (#[trigger] statements[origin]) is Let
                    && statements[origin].local() == local;
            if origin < place {
                assert(has_let_before(statements, place, local));
            }
        }
        if has_let_before(statements, place, local) {
            let origin = choose|origin: int|
                0 <= origin < place && origin < statements.len() && (#[trigger] statements[origin]) is Let
                    && statements[origin].local() == local;
            assert(origin < place + 1 && statements[origin] is Let);
        }
        if statements[place] is Let && statements[place].local() == local {
            assert(place < place + 1 && statements[place] is Let);
        }
    }
    assert(next =~= behind);
}

/// Statements are accepted exactly where each may stand at its place and its
/// tree is bounded.
proof fn lemma_statements(statements: Seq<Statement>, index: nat, locals: Seq<ClientLocal>)
    requires
        index <= statements.len(),
        distinct_locals(locals),
    ensures
        statements_valid(statements, index, locals, known_before(statements, index as int)) is Ok <==> forall|place: int|
            index <= place < statements.len() ==> #[trigger] statement_stands(statements, place, locals) && within_caps(
                statements[place].expression(),
            ),
        statements_valid(statements, index, locals, known_before(statements, index as int)) matches Ok(known) ==> known
            == known_before(statements, statements.len() as int),
    decreases statements.len() - index,
{
    if index < statements.len() {
        lemma_statement(statements, index as int, locals);
        lemma_known(statements, index as int);
        lemma_statements(statements, index + 1, locals);
        assert(statements_valid(statements, index, locals, known_before(statements, index as int)) is Ok <==>
            statement_stands(statements, index as int, locals) && within_caps(statements[index as int].expression())
            && statements_valid(statements, index + 1, locals, known_before(statements, index as int + 1)) is Ok);
    }
}

/// No LET is repeated exactly where no two LETs have the same local, and none has
/// one that was seen before.
proof fn lemma_lets(statements: Seq<Statement>, index: nat, seen: Set<LocalId>)
    ensures
        repeated_let(statements, index, seen) is None <==> {
            &&& forall|place: int|
                index <= place < statements.len() && (#[trigger] statements[place]) is Let ==> !seen.contains(
                    statements[place].local(),
                )
            &&& forall|first: int, second: int|
                index <= first < second < statements.len() && (#[trigger] statements[first]) is Let && (
                #[trigger] statements[second]) is Let ==> statements[first].local() != statements[second].local()
        },
    decreases statements.len() - index,
{
    if index < statements.len() {
        match statements[index as int] {
            Statement::Let { local, .. } => {
                lemma_lets(statements, index + 1, seen.insert(local));
                assert(statements[index as int] is Let && statements[index as int].local() == local);
                if repeated_let(statements, index, seen) is None {
                    assert forall|first: int, second: int|
                        index <= first < second < statements.len() && (#[trigger] statements[first]) is Let && (
                        #[trigger] statements[second]) is Let implies statements[first].local()
                        != statements[second].local() by {
                        if first == index {
                            assert(!seen.insert(local).contains(statements[second].local()));
                        }
                    }
                }
            },
            Statement::Assignment { .. } => {
                lemma_lets(statements, index + 1, seen);
            },
        }
    }
}

/// No declared local is missing exactly where each is found.
pub proof fn lemma_missing(locals: Seq<ClientLocal>, index: nat, found: Set<LocalId>)
    ensures
        missing_local(locals, index, found) is None <==> forall|place: int|
            index <= place < locals.len() ==> found.contains((#[trigger] locals[place]).local),
    decreases locals.len() - index,
{
    if index < locals.len() {
        lemma_missing(locals, index + 1, found);
    }
}

/// Tells whether every declared local has a LET and no local has two.
pub open spec fn one_let_each(statements: Seq<Statement>, locals: Seq<ClientLocal>) -> bool {
    &&& forall|place: int|
        0 <= place < locals.len() ==> has_let_before(
            statements,
            statements.len() as int,
            (#[trigger] locals[place]).local,
        )
    &&& forall|first: int, second: int|
        0 <= first < second < statements.len() && (#[trigger] statements[first]) is Let && (
        #[trigger] statements[second]) is Let ==> statements[first].local() != statements[second].local()
}

/// Tells whether a procedural plan is one that version 7 carries.
pub open spec fn procedural_stands(plan: ProceduralPlan) -> bool {
    &&& plan.locals.len() <= 64
    &&& plan.statements.len() <= 256
    &&& distinct_locals(plan.locals)
    &&& one_let_each(plan.statements, plan.locals)
    &&& forall|place: int|
        0 <= place < plan.statements.len() ==> #[trigger] statement_stands(plan.statements, place, plan.locals)
    &&& return_stands(
        plan.return_expression,
        plan.locals,
        known_before(plan.statements, plan.statements.len() as int),
    )
    &&& forall|place: int|
        0 <= place < procedural_trees(plan).len() ==> tree_levels(#[trigger] procedural_trees(plan)[place]) <= 65
            && everywhere(
            procedural_trees(plan)[place],
            of_set(Grammar { resources: true, locals: true, inspect: true, programmable: false }),
        )
    &&& total_nodes(procedural_trees(plan), 0) <= 1024
    &&& total_resources(procedural_trees(plan), 0) <= 64
}

/// A tree has no more nodes than the trees of its list together.
pub proof fn lemma_part_of_total(trees: Seq<Expression>, index: nat, place: int)
    requires
        index <= place < trees.len(),
    ensures
        node_count(trees[place]) <= total_nodes(trees, index),
    decreases place - index,
{
    if index < place {
        lemma_part_of_total(trees, index + 1, place);
    }
}

/// A procedural plan is encoded exactly where it is one that version 7 carries
/// and its artefact keeps the size limit.
pub proof fn law_procedural_plan_accepted_exactly(plan: ProceduralPlan)
    ensures
        encoded_procedural_plan(plan) is Ok <==> procedural_stands(plan) && procedural_plan_bytes(plan).len()
            <= 0x100_0000,
{
    let statements = plan.statements;
    let locals = plan.locals;
    let known = known_before(statements, statements.len() as int);
    let set = Grammar { resources: true, locals: true, inspect: true, programmable: false };
    let trees = procedural_trees(plan);
    law_repeated_local_found(locals);
    lemma_statements_trees(plan, 0, Tally::zero());
    law_trees_admitted_exactly(trees, 0, 65, Tally::zero(), set);
    if distinct_locals(locals) {
        assert(known_before(statements, 0) =~= Set::empty());
        lemma_statements(statements, 0, locals);
        lemma_lets(statements, 0, Set::empty());
        lemma_missing(locals, 0, known);
        law_contracts_placed_exactly(plan.return_expression, false);
        law_shape_accepted_exactly(plan.return_expression, locals, false, false);
        law_reads_accepted_exactly(plan.return_expression, known);
        assert(return_valid(plan.return_expression, locals, known) is Ok <==> return_stands(
            plan.return_expression,
            locals,
            known,
        ) && within_caps(plan.return_expression));
        if total_nodes(trees, 0) <= 1024 && forall|place: int|
            0 <= place < trees.len() ==> tree_levels(#[trigger] trees[place]) <= 65 {
            assert forall|place: int| 0 <= place < statements.len() implies within_caps(
                #[trigger] statements[place].expression(),
            ) by {
                assert(trees[place] == statements[place].expression());
                lemma_part_of_total(trees, 0, place);
            }
            assert(trees[statements.len() as int] == plan.return_expression);
            lemma_part_of_total(trees, 0, statements.len() as int);
        }
    }
}

/// Every local that a statement of an accepted procedural plan reads, at any
/// depth of its tree, has a LET at an earlier statement. So has every local that
/// the returned tree reads, at any statement.
pub proof fn law_procedural_reads_initialized(plan: ProceduralPlan, place: int, path: Seq<int>, local: LocalId)
    requires
        encoded_procedural_plan(plan) is Ok,
    ensures
        0 <= place < plan.statements.len() && node_at(plan.statements[place].expression(), path) == Some(
            Expression::LocalRead { local },
        ) ==> exists|earlier: int|
            0 <= earlier < place && (#[trigger] plan.statements[earlier]) is Let && plan.statements[earlier].local()
                == local,
        node_at(plan.return_expression, path) == Some(Expression::LocalRead { local }) ==> exists|earlier: int|
            0 <= earlier < plan.statements.len() && (#[trigger] plan.statements[earlier]) is Let
                && plan.statements[earlier].local() == local,
{
    law_procedural_plan_accepted_exactly(plan);
    let statements = plan.statements;
    if 0 <= place < statements.len() && node_at(statements[place].expression(), path) == Some(
        Expression::LocalRead { local },
    ) {
        assert(statement_stands(statements, place, plan.locals));
        assert(reads_known(known_before(statements, place))(Expression::LocalRead { local }));
        let earlier = choose|earlier: int|
            0 <= earlier < place && earlier < statements.len() && (#[trigger] statements[earlier]) is Let
                && statements[earlier].local() == local;
        assert(statements[earlier] is Let);
    }
    if node_at(plan.return_expression, path) == Some(Expression::LocalRead { local }) {
        assert(reads_known(known_before(statements, statements.len() as int))(Expression::LocalRead { local }));
        let earlier = choose|earlier: int|
            0 <= earlier < statements.len() && earlier < statements.len() && (#[trigger] statements[earlier]) is Let
                && statements[earlier].local() == local;
        assert(statements[earlier] is Let);
    }
}

/// The same holds of every decoded procedural plan.
pub proof fn law_decoded_procedural_reads_initialized(bytes: Seq<u8>, place: int, path: Seq<int>, local: LocalId)
    requires
        decoded_procedural_plan(bytes) is Ok,
    ensures
        procedural_stands(decoded_procedural_plan(bytes)->Ok_0),
        ({
            let plan = decoded_procedural_plan(bytes)->Ok_0;
            &&& 0 <= place < plan.statements.len() && node_at(plan.statements[place].expression(), path) == Some(
                Expression::LocalRead { local },
            ) ==> exists|earlier: int|
                0 <= earlier < place && (#[trigger] plan.statements[earlier]) is Let
                    && plan.statements[earlier].local() == local
            &&& node_at(plan.return_expression, path) == Some(Expression::LocalRead { local }) ==> exists|earlier: int|
                0 <= earlier < plan.statements.len() && (#[trigger] plan.statements[earlier]) is Let
                    && plan.statements[earlier].local() == local
        }),
{
    let plan = decoded_procedural_plan(bytes)->Ok_0;
    law_procedural_plan_canonical(bytes);
    law_procedural_plan_accepted_exactly(plan);
    law_procedural_reads_initialized(plan, place, path, local);
}

} // verus!
