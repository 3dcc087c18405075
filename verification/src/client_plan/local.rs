//! Declared locals of procedural and programmable plans.

use vstd::prelude::*;

use crate::artifact_codec::{lemma_identity_read, lemma_u8_read};
use crate::artifact_codec::{lemma_read_identity, lemma_read_u8};
use crate::artifact_codec::{read_identity, read_u8, Reader, Writer};
use crate::client_plan::error::ClientPlanError;
use crate::client_plan::expression::{ClientExpressionNode, Expression};
use crate::client_plan::header::{take_identity, take_u8};
use crate::client_plan::node_codec::Parsed;
use crate::client_plan::operator::ResourceKind;
use crate::client_plan::{LOCAL_KIND_RESOURCE_SCALAR, LOCAL_KIND_RESOURCE_STREAM, LOCAL_KIND_VALUE};
use crate::identity::{identity_bytes, LocalId, TypeId};

verus! {

/// The kind of value held by one procedural CLIENT local.
#[derive(Clone, Copy, Debug, PartialEq, Eq, Structural)]
pub enum ClientLocalKind {
    /// A normal eagerly evaluated local value.
    Value,
    /// A local resource handle whose result is scalar or stream shaped.
    Resource(ResourceKind),
}

impl ClientLocalKind {
    /// The wire tag of this kind.
    pub open spec fn wire(self) -> u8 {
        match self {
            ClientLocalKind::Value => LOCAL_KIND_VALUE,
            ClientLocalKind::Resource(ResourceKind::Scalar) => LOCAL_KIND_RESOURCE_SCALAR,
            ClientLocalKind::Resource(ResourceKind::Stream) => LOCAL_KIND_RESOURCE_STREAM,
        }
    }

    /// The kind that a wire tag stands for.
    pub open spec fn of_wire(tag: u8) -> Option<ClientLocalKind> {
        if tag == LOCAL_KIND_VALUE {
            Some(ClientLocalKind::Value)
        } else if tag == LOCAL_KIND_RESOURCE_SCALAR {
            Some(ClientLocalKind::Resource(ResourceKind::Scalar))
        } else if tag == LOCAL_KIND_RESOURCE_STREAM {
            Some(ClientLocalKind::Resource(ResourceKind::Stream))
        } else {
            None
        }
    }

    /// The kind of resource handle that a local of this kind holds.
    pub open spec fn handle(self) -> Option<ResourceKind> {
        match self {
            ClientLocalKind::Value => None,
            ClientLocalKind::Resource(kind) => Some(kind),
        }
    }

    /// Returns the canonical kind tag byte.
    pub fn tag(self) -> (tag: u8)
        ensures
            tag == self.wire(),
            ClientLocalKind::of_wire(tag) == Some(self),
    {
        match self {
            ClientLocalKind::Value => LOCAL_KIND_VALUE,
            ClientLocalKind::Resource(ResourceKind::Scalar) => LOCAL_KIND_RESOURCE_SCALAR,
            ClientLocalKind::Resource(ResourceKind::Stream) => LOCAL_KIND_RESOURCE_STREAM,
        }
    }

    /// Reads a kind tag byte.
    pub fn from_tag(tag: u8) -> (result: Result<ClientLocalKind, ClientPlanError>)
        ensures
            match ClientLocalKind::of_wire(tag) {
                Some(kind) => result == Ok::<ClientLocalKind, ClientPlanError>(kind) && kind.wire() == tag,
                None => result == Err::<ClientLocalKind, _>(ClientPlanError::InvalidLocalKind(tag)),
            },
    {
        match tag {
            LOCAL_KIND_VALUE => Ok(ClientLocalKind::Value),
            LOCAL_KIND_RESOURCE_SCALAR => Ok(ClientLocalKind::Resource(ResourceKind::Scalar)),
            LOCAL_KIND_RESOURCE_STREAM => Ok(ClientLocalKind::Resource(ResourceKind::Stream)),
            tag => Err(ClientPlanError::InvalidLocalKind(tag)),
        }
    }

    /// Returns the kind of resource handle that a local of this kind holds.
    pub fn resource_kind(self) -> (kind: Option<ResourceKind>)
        ensures
            kind == self.handle(),
    {
        match self {
            ClientLocalKind::Value => None,
            ClientLocalKind::Resource(kind) => Some(kind),
        }
    }
}

/// One stable procedural CLIENT local declaration.
#[derive(Clone, Copy, Debug, PartialEq, Eq, Structural)]
pub struct ClientLocal {
    pub local: LocalId,
    pub type_id: TypeId,
    pub kind: ClientLocalKind,
}

/// A local declaration, named by its role.
pub type LocalDeclaration = ClientLocal;

/// A local kind, named by its role.
pub type LocalKind = ClientLocalKind;

impl ClientLocal {
    /// Creates a local declaration from its stable identity, resolved type, and
    /// kind.
    pub fn new(local: LocalId, type_id: TypeId, kind: ClientLocalKind) -> (declaration: ClientLocal)
        ensures
            declaration == (ClientLocal { local, type_id, kind }),
    {
        ClientLocal { local, type_id, kind }
    }

    /// Returns the stable local identity.
    pub fn local(&self) -> (local: LocalId)
        ensures
            local == self.local,
    {
        self.local
    }

    /// Returns the stable local identity.
    pub fn local_id(&self) -> (local: LocalId)
        ensures
            local == self.local,
    {
        self.local
    }

    /// Returns the resolved local value type.
    pub fn type_id(&self) -> (type_id: TypeId)
        ensures
            type_id == self.type_id,
    {
        self.type_id
    }

    /// Returns whether this local stores a value or resource handle.
    pub fn kind(&self) -> (kind: ClientLocalKind)
        ensures
            kind == self.kind,
    {
        self.kind
    }
}

/// The format whose failures a local list reports.
#[derive(Clone, Copy, Debug, PartialEq, Eq, Structural)]
pub enum LocalRule {
    /// Version 7.
    Procedural,
    /// Version 10.
    ControlFlow,
}

impl LocalRule {
    /// The failure of a repeated declaration.
    pub open spec fn duplicate_error(self, local: LocalId) -> ClientPlanError {
        match self {
            LocalRule::Procedural => ClientPlanError::DuplicateProceduralLocal(local),
            LocalRule::ControlFlow => ClientPlanError::DuplicateControlFlowLocal(local),
        }
    }

    /// Returns the failure of a repeated declaration.
    fn duplicate(self, local: LocalId) -> (error: ClientPlanError)
        ensures
            error == self.duplicate_error(local),
    {
        match self {
            LocalRule::Procedural => ClientPlanError::DuplicateProceduralLocal(local),
            LocalRule::ControlFlow => ClientPlanError::DuplicateControlFlowLocal(local),
        }
    }
}

/// The first declaration of a local from `index` on.
pub open spec fn declaration_from(locals: Seq<ClientLocal>, local: LocalId, index: nat) -> Option<ClientLocal>
    decreases locals.len() - index,
{
    if index >= locals.len() {
        None
    } else if locals[index as int].local == local {
        Some(locals[index as int])
    } else {
        declaration_from(locals, local, index + 1)
    }
}

/// The declaration of a local.
pub open spec fn declaration(locals: Seq<ClientLocal>, local: LocalId) -> Option<ClientLocal> {
    declaration_from(locals, local, 0)
}

/// Tells whether one of the first `count` declarations declares a local.
pub open spec fn declared_before(locals: Seq<ClientLocal>, count: int, local: LocalId) -> bool {
    exists|index: int| 0 <= index < count && (#[trigger] locals[index]).local == local
}

/// The first local from `index` on that was declared before.
pub open spec fn repeated_local(locals: Seq<ClientLocal>, index: nat) -> Option<LocalId>
    decreases locals.len() - index,
{
    if index >= locals.len() {
        None
    } else if declared_before(locals, index as int, locals[index as int].local) {
        Some(locals[index as int].local)
    } else {
        repeated_local(locals, index + 1)
    }
}

/// The first declared local from `index` on that a set does not hold.
pub open spec fn missing_local(locals: Seq<ClientLocal>, index: nat, found: Set<LocalId>) -> Option<LocalId>
    decreases locals.len() - index,
{
    if index >= locals.len() {
        None
    } else if !found.contains(locals[index as int].local) {
        Some(locals[index as int].local)
    } else {
        missing_local(locals, index + 1, found)
    }
}

/// The kind of resource handle that an expression denotes without an await.
pub open spec fn denoted_handle(expression: Expression, locals: Seq<ClientLocal>) -> Option<ResourceKind> {
    match expression {
        Expression::Resource { operation } => Some(operation.kind),
        Expression::LocalRead { local } => match declaration(locals, local) {
            Some(source) => source.kind.handle(),
            None => None,
        },
        _ => None,
    }
}

/// The declarations from `index` on in front of `rest`.
pub open spec fn locals_then(locals: Seq<ClientLocal>, index: nat, rest: Seq<u8>) -> Seq<u8>
    decreases locals.len() - index,
{
    if index >= locals.len() {
        rest
    } else {
        identity_bytes(locals[index as int].local.0) + (identity_bytes(locals[index as int].type_id.0) + (seq![
            locals[index as int].kind.wire(),
        ] + locals_then(locals, index + 1, rest)))
    }
}

/// The declaration that follows `done`.
pub open spec fn parsed_local(input: Seq<u8>, done: Seq<ClientLocal>, rule: LocalRule) -> Parsed<ClientLocal> {
    match read_identity(input) {
        None => Err(ClientPlanError::Truncated),
        Some((local, rest)) => if declared_before(done, done.len() as int, LocalId(local)) {
            Err(rule.duplicate_error(LocalId(local)))
        } else {
            match read_identity(rest) {
                None => Err(ClientPlanError::Truncated),
                Some((type_id, rest)) => match read_u8(rest) {
                    None => Err(ClientPlanError::Truncated),
                    Some((tag, rest)) => match ClientLocalKind::of_wire(tag) {
                        None => Err(ClientPlanError::InvalidLocalKind(tag)),
                        Some(kind) => Ok(
                            (ClientLocal { local: LocalId(local), type_id: TypeId(type_id), kind }, rest),
                        ),
                    },
                },
            }
        },
    }
}

/// Declarations up to `total`, the first of which are `done`.
pub open spec fn parsed_locals(input: Seq<u8>, done: Seq<ClientLocal>, total: nat, rule: LocalRule) -> Parsed<
    Seq<ClientLocal>,
>
    decreases total - done.len(),
{
    if done.len() >= total {
        Ok((done, input))
    } else {
        match parsed_local(input, done, rule) {
            Err(error) => Err(error),
            Ok((local, rest)) => parsed_locals(rest, done.push(local), total, rule),
        }
    }
}

/// Distinct declarations are read back.
pub proof fn lemma_locals_round_trip(locals: Seq<ClientLocal>, index: nat, rule: LocalRule, rest: Seq<u8>)
    requires
        index <= locals.len(),
        repeated_local(locals, index) is None,
    ensures
        parsed_locals(locals_then(locals, index, rest), locals.take(index as int), locals.len(), rule) == Ok::<
            (Seq<ClientLocal>, Seq<u8>),
            ClientPlanError,
        >((locals, rest)),
    decreases locals.len() - index,
{
    let done = locals.take(index as int);
    if index < locals.len() {
        let local = locals[index as int];
        let later = locals_then(locals, index + 1, rest);
        let after_type = seq![local.kind.wire()] + later;
        lemma_read_identity(local.local.0, identity_bytes(local.type_id.0) + after_type);
        lemma_read_identity(local.type_id.0, after_type);
        lemma_read_u8(local.kind.wire(), later);
        assert(!declared_before(done, done.len() as int, local.local)) by {
            if declared_before(done, done.len() as int, local.local) {
                let seen = choose|i: int| 0 <= i < done.len() && (#[trigger] done[i]).local == local.local;
                assert(locals[seen].local == local.local);
            }
        }
        lemma_locals_round_trip(locals, index + 1, rule, rest);
        assert(done.push(local) =~= locals.take((index + 1) as int));
    } else {
        assert(done =~= locals);
    }
}

/// What declarations were read from.
pub proof fn lemma_locals_canonical(input: Seq<u8>, done: Seq<ClientLocal>, total: nat, rule: LocalRule)
    requires
        done.len() <= total,
    ensures
        parsed_locals(input, done, total, rule) matches Ok((locals, rest)) ==> {
            &&& locals.len() == total
            &&& locals.take(done.len() as int) == done
            &&& input == locals_then(locals, done.len(), rest)
            &&& repeated_local(locals, done.len()) is None
        },
    decreases total - done.len(),
{
    if done.len() < total {
        if parsed_locals(input, done, total, rule) is Ok {
            lemma_identity_read(input);
            let after_local = read_identity(input)->Some_0.1;
            lemma_identity_read(after_local);
            let after_type = read_identity(after_local)->Some_0.1;
            lemma_u8_read(after_type);
            let (local, later) = parsed_local(input, done, rule)->Ok_0;
            let next = done.push(local);
            lemma_locals_canonical(later, next, total, rule);
            let locals = parsed_locals(later, next, total, rule)->Ok_0.0;
            let position = done.len() as int;
            assert(locals[position] == locals.take(next.len() as int)[position]);
            assert(locals.take(position) =~= locals.take(next.len() as int).take(position));
            assert(next.take(position) =~= done);
            assert(!declared_before(locals, position, local.local)) by {
                if declared_before(locals, position, local.local) {
                    let seen = choose|i: int| 0 <= i < position && (#[trigger] locals[i]).local == local.local;
                    assert(locals.take(position)[seen] == done[seen]);
                }
            }
        }
    } else {
        assert(done.take(done.len() as int) =~= done);
    }
}

/// A declared local has a declaration of that local.
pub proof fn lemma_declaration(locals: Seq<ClientLocal>, local: LocalId, index: nat)
    requires
        index <= locals.len(),
    ensures
        match declaration_from(locals, local, index) {
            Some(found) => found.local == local && declared_before(locals, locals.len() as int, local),
            None => forall|i: int| index <= i < locals.len() ==> (#[trigger] locals[i]).local != local,
        },
    decreases locals.len() - index,
{
    if index < locals.len() && locals[index as int].local != local {
        lemma_declaration(locals, local, index + 1);
    }
}

/// Returns the declaration of a local.
pub fn find_local(locals: &[ClientLocal], local: LocalId) -> (found: Option<ClientLocal>)
    ensures
        found == declaration(locals@, local),
        found matches Some(target) ==> target.local == local,
{
    let mut index: usize = 0;
    while index < locals.len()
        invariant
            index <= locals.len(),
            declaration(locals@, local) == declaration_from(locals@, local, index as nat),
        decreases locals.len() - index,
    {
        if locals[index].local == local {
            return Some(locals[index]);
        }
        index = index + 1;
    }
    None
}

/// Tells whether one of the first `count` declarations declares a local.
fn is_declared(locals: &[ClientLocal], count: usize, local: LocalId) -> (found: bool)
    requires
        count <= locals.len(),
    ensures
        found == declared_before(locals@, count as int, local),
{
    let mut index: usize = 0;
    while index < count
        invariant
            index <= count <= locals.len(),
            forall|i: int| 0 <= i < index ==> (#[trigger] locals@[i]).local != local,
        decreases count - index,
    {
        if locals[index].local == local {
            return true;
        }
        index = index + 1;
    }
    false
}

/// Refuses repeated declarations.
pub fn validate_distinct_locals(locals: &[ClientLocal], rule: LocalRule) -> (result: Result<(), ClientPlanError>)
    ensures
        result == match repeated_local(locals@, 0) {
            Some(local) => Err::<(), ClientPlanError>(rule.duplicate_error(local)),
            None => Ok(()),
        },
{
    let mut index: usize = 0;
    while index < locals.len()
        invariant
            index <= locals.len(),
            repeated_local(locals@, 0) == repeated_local(locals@, index as nat),
        decreases locals.len() - index,
    {
        let local = locals[index].local;
        if is_declared(locals, index, local) {
            return Err(rule.duplicate(local));
        }
        index = index + 1;
    }
    Ok(())
}

/// Tells whether a list of locals holds one.
pub fn holds_local(list: &Vec<LocalId>, local: LocalId) -> (found: bool)
    ensures
        found == list@.to_set().contains(local),
{
    let mut index: usize = 0;
    while index < list.len()
        invariant
            index <= list.len(),
            forall|i: int| 0 <= i < index ==> list@[i] != local,
        decreases list.len() - index,
    {
        if list[index] == local {
            assert(list@.contains(local));
            return true;
        }
        index = index + 1;
    }
    false
}

/// Adds a local to a list of locals.
pub fn add_local(list: &mut Vec<LocalId>, local: LocalId)
    ensures
        final(list)@.to_set() == old(list)@.to_set().insert(local),
{
    list.push(local);
    proof {
        let before = old(list)@;
        let after = list@;
        assert(after == before.push(local));
        assert forall|other: LocalId| after.to_set().contains(other) == before.to_set().insert(local).contains(other) by {
            if before.contains(other) {
                let place = choose|i: int| 0 <= i < before.len() && before[i] == other;
                assert(after[place] == other);
            }
            if other == local {
                assert(after[before.len() as int] == other);
            }
        }
        assert(after.to_set() =~= before.to_set().insert(local));
    }
}

/// Returns the first declared local that a list does not hold.
pub fn find_missing_local(locals: &[ClientLocal], list: &Vec<LocalId>) -> (missing: Option<LocalId>)
    ensures
        missing == missing_local(locals@, 0, list@.to_set()),
{
    let mut index: usize = 0;
    while index < locals.len()
        invariant
            index <= locals.len(),
            missing_local(locals@, 0, list@.to_set()) == missing_local(locals@, index as nat, list@.to_set()),
        decreases locals.len() - index,
    {
        if !holds_local(list, locals[index].local) {
            return Some(locals[index].local);
        }
        index = index + 1;
    }
    None
}

/// Returns the kind of resource handle that an expression denotes without an
/// await.
pub fn denoted_resource_kind(node: &ClientExpressionNode, locals: &[ClientLocal]) -> (kind: Option<ResourceKind>)
    ensures
        kind == denoted_handle(node@, locals@),
{
    match node {
        ClientExpressionNode::Resource { operation } => Some(operation.kind),
        ClientExpressionNode::LocalRead { local } => match find_local(locals, *local) {
            Some(source) => source.kind.resource_kind(),
            None => None,
        },
        _ => None,
    }
}

/// Writes declarations.
pub fn put_locals(writer: &mut Writer, locals: &[ClientLocal])
    ensures
        forall|rest: Seq<u8>| final(writer)@ + rest == old(writer)@ + #[trigger] locals_then(locals@, 0, rest),
{
    let ghost start = writer@;
    let mut index: usize = 0;
    while index < locals.len()
        invariant
            index <= locals.len(),
            forall|rest: Seq<u8>|
                writer@ + #[trigger] locals_then(locals@, index as nat, rest) == start + locals_then(
                    locals@,
                    0,
                    rest,
                ),
        decreases locals.len() - index,
    {
        let ghost before = writer@;
        writer.identity(locals[index].local.0);
        writer.type_id(locals[index].type_id);
        writer.u8(locals[index].kind.tag());
        assert forall|rest: Seq<u8>|
            writer@ + #[trigger] locals_then(locals@, (index + 1) as nat, rest) == start + locals_then(
                locals@,
                0,
                rest,
            ) by {
            assert(before + locals_then(locals@, index as nat, rest) == start + locals_then(locals@, 0, rest));
            assert(writer@ + locals_then(locals@, (index + 1) as nat, rest) =~= before + locals_then(
                locals@,
                index as nat,
                rest,
            ));
        }
        index = index + 1;
    }
    assert forall|rest: Seq<u8>| writer@ + rest == start + #[trigger] locals_then(locals@, 0, rest) by {
        assert(writer@ + locals_then(locals@, index as nat, rest) == start + locals_then(locals@, 0, rest));
    }
}

/// Reads `total` declarations.
pub fn decode_locals(reader: &mut Reader, total: usize, rule: LocalRule) -> (result: Result<
    Vec<ClientLocal>,
    ClientPlanError,
>)
    ensures
        match parsed_locals(old(reader)@, Seq::empty(), total as nat, rule) {
            Ok((locals, rest)) => result is Ok && result->Ok_0@ == locals && final(reader)@ == rest,
            Err(error) => result == Err::<Vec<ClientLocal>, ClientPlanError>(error),
        },
{
    let mut locals: Vec<ClientLocal> = Vec::with_capacity(total);
    while locals.len() < total
        invariant
            locals.len() <= total,
            parsed_locals(old(reader)@, Seq::empty(), total as nat, rule) == parsed_locals(
                reader@,
                locals@,
                total as nat,
                rule,
            ),
        decreases total - locals.len(),
    {
        let identity: u128 = take_identity(reader)?;
        let local = LocalId(identity);
        if is_declared(locals.as_slice(), locals.len(), local) {
            return Err(rule.duplicate(local));
        }
        let type_id: u128 = take_identity(reader)?;
        let tag: u8 = take_u8(reader)?;
        let kind = ClientLocalKind::from_tag(tag)?;
        locals.push(ClientLocal { local, type_id: TypeId(type_id), kind });
    }
    Ok(locals)
}

} // verus!
