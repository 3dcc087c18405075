//! Version 4: an expression tree with checked state-slot declarations.
//!
//! ```text
//! header: version 4, operation 4
//! return tree: canonical recursive node encoding
//! slot count: u32 big-endian, 1..=MAX_STATE_SLOTS
//! slot: StateSlotId[16]
//!       TypeId[16]
//!       scope: u8 = 1|2|3 (LOCAL|SESSION|USER)
//!       default tag: u8 = 0|1|2 (unset|null|expression)
//!       [default tree: canonical recursive node encoding]
//! ```

use vstd::prelude::*;

use crate::artifact_codec::{read_identity, read_u32, read_u8, u32_bytes, viewed, Reader, Writer};
use crate::artifact_codec::{lemma_identity_read, lemma_u32_read, lemma_u8_read};
use crate::artifact_codec::{lemma_read_identity, lemma_read_u32, lemma_read_u8};
use crate::client_plan::error::ClientPlanError;
use crate::client_plan::expression::{ClientExpressionNode, Expression};
use crate::client_plan::grammar::{admit_node, admitted, Grammar, Tally};
use crate::client_plan::header::{
    after_header, finish_artifact, header_bytes, lemma_header, lemma_header_read, put_header, require_finished,
    size_error, sized, take_header, take_identity, take_u32, take_u8, validate_artifact_size,
};
use crate::client_plan::node_codec::{node_then, parsed_node, Parsed};
use crate::client_plan::node_decode::decode_node;
use crate::client_plan::node_encode::{lemma_node_then, put_node};
use crate::client_plan::node_laws::{law_node_canonical, law_node_round_trip};
use crate::client_plan::placement::{contract_placement, validate_external_contract_placement, EXPRESSION_LEVELS};
use crate::client_plan::{
    MAX_ARTIFACT_BYTES, MAX_STATE_SLOTS, RETURN_STATE_OPERATION, STATE_DEFAULT_EXPRESSION, STATE_DEFAULT_NULL,
    STATE_DEFAULT_UNSET, STATE_FORMAT_VERSION, STATE_SCOPE_LOCAL, STATE_SCOPE_SESSION, STATE_SCOPE_USER,
};
use crate::identity::{identity_bytes, StateSlotId, TypeId};

verus! {

/// The scope of one checked CLIENT state slot.
#[derive(Clone, Copy, Debug, PartialEq, Eq, Structural)]
pub enum StateScope {
    /// State private to one mounted function instance.
    Local,
    /// State retained for the client invocation session.
    Session,
    /// State associated with the authenticated principal.
    User,
}

impl StateScope {
    /// The wire tag of this scope.
    pub open spec fn wire(self) -> u8 {
        match self {
            StateScope::Local => STATE_SCOPE_LOCAL,
            StateScope::Session => STATE_SCOPE_SESSION,
            StateScope::User => STATE_SCOPE_USER,
        }
    }

    /// The scope that a wire tag stands for.
    pub open spec fn of_wire(tag: u8) -> Option<StateScope> {
        if tag == STATE_SCOPE_LOCAL {
            Some(StateScope::Local)
        } else if tag == STATE_SCOPE_SESSION {
            Some(StateScope::Session)
        } else if tag == STATE_SCOPE_USER {
            Some(StateScope::User)
        } else {
            None
        }
    }

    /// Returns the canonical scope tag byte.
    pub fn tag(self) -> (tag: u8)
        ensures
            tag == self.wire(),
            StateScope::of_wire(tag) == Some(self),
    {
        match self {
            StateScope::Local => STATE_SCOPE_LOCAL,
            StateScope::Session => STATE_SCOPE_SESSION,
            StateScope::User => STATE_SCOPE_USER,
        }
    }

    /// Reads a scope tag byte.
    pub fn from_tag(tag: u8) -> (result: Result<StateScope, ClientPlanError>)
        ensures
            match StateScope::of_wire(tag) {
                Some(scope) => result == Ok::<StateScope, ClientPlanError>(scope) && scope.wire() == tag,
                None => result == Err::<StateScope, _>(ClientPlanError::InvalidStateScope(tag)),
            },
    {
        match tag {
            STATE_SCOPE_LOCAL => Ok(StateScope::Local),
            STATE_SCOPE_SESSION => Ok(StateScope::Session),
            STATE_SCOPE_USER => Ok(StateScope::User),
            tag => Err(ClientPlanError::InvalidStateScope(tag)),
        }
    }
}

/// The checked initial value of one CLIENT state slot.
#[derive(Clone, Debug, Eq, PartialEq)]
pub enum StateDefault {
    /// No DEFAULT clause was written.
    Unset,
    /// The slot starts with an explicit null value.
    Null,
    /// The slot starts with a checked CLIENT expression value.
    Expression(ClientExpressionNode),
}

/// One checked CLIENT state slot with source-free semantic metadata.
#[derive(Clone, Debug, Eq, PartialEq)]
pub struct StateSlot {
    pub state_slot_id: StateSlotId,
    pub type_id: TypeId,
    pub scope: StateScope,
    pub default: StateDefault,
}

/// A checked version-4 CLIENT plan that returns one closed expression tree and
/// carries the owning function's ordered state-slot declarations.
#[derive(Clone, Debug, Eq, PartialEq)]
pub struct StateClientPlan {
    pub expression: ClientExpressionNode,
    pub slots: Vec<StateSlot>,
}

/// The mathematical initial value of a slot.
pub enum InitialState {
    Unset,
    Null,
    Expression(Expression),
}

/// The mathematical slot.
pub struct Slot {
    pub id: StateSlotId,
    pub type_id: TypeId,
    pub scope: StateScope,
    pub default: InitialState,
}

/// The mathematical state plan.
pub struct StatePlan {
    pub expression: Expression,
    pub slots: Seq<Slot>,
}

impl View for StateDefault {
    type V = InitialState;

    open spec fn view(&self) -> InitialState {
        match *self {
            StateDefault::Unset => InitialState::Unset,
            StateDefault::Null => InitialState::Null,
            StateDefault::Expression(node) => InitialState::Expression(node@),
        }
    }
}

impl View for StateSlot {
    type V = Slot;

    open spec fn view(&self) -> Slot {
        Slot { id: self.state_slot_id, type_id: self.type_id, scope: self.scope, default: self.default@ }
    }
}

/// The slots that slot records stand for.
pub open spec fn slots_of(slots: Seq<StateSlot>) -> Seq<Slot> {
    Seq::new(slots.len(), |index: int| slots[index]@)
}

impl View for StateClientPlan {
    type V = StatePlan;

    open spec fn view(&self) -> StatePlan {
        StatePlan { expression: self.expression@, slots: slots_of(self.slots@) }
    }
}

/// Tells whether one of the first `count` slots has an identity.
pub open spec fn slot_seen(slots: Seq<Slot>, count: int, id: StateSlotId) -> bool {
    exists|index: int| 0 <= index < count && (#[trigger] slots[index]).id == id
}

/// The first slot identity from `index` on that occurred before it.
pub open spec fn repeated_slot(slots: Seq<Slot>, index: nat) -> Option<StateSlotId>
    decreases slots.len() - index,
{
    if index >= slots.len() {
        None
    } else if slot_seen(slots, index as int, slots[index as int].id) {
        Some(slots[index as int].id)
    } else {
        repeated_slot(slots, index + 1)
    }
}

/// Whether a tree of a state plan is closed, placed and within the limits.
pub open spec fn state_tree_valid(expression: Expression) -> Result<(), ClientPlanError> {
    match contract_placement(expression, false) {
        Err(error) => Err(error),
        Ok(()) => match admitted(expression, EXPRESSION_LEVELS as nat, Tally::zero(), Grammar::closed_set()) {
            Err(error) => Err(error),
            Ok(_) => Ok(()),
        },
    }
}

/// The first invalid default from `index` on.
pub open spec fn defaults_valid(slots: Seq<Slot>, index: nat) -> Result<(), ClientPlanError>
    decreases slots.len() - index,
{
    if index >= slots.len() {
        Ok(())
    } else {
        let valid = match slots[index as int].default {
            InitialState::Expression(expression) => state_tree_valid(expression),
            _ => Ok(()),
        };
        match valid {
            Err(error) => Err(error),
            Ok(()) => defaults_valid(slots, index + 1),
        }
    }
}

/// A slot in front of `rest`.
pub open spec fn slot_then(slot: Slot, rest: Seq<u8>) -> Seq<u8> {
    identity_bytes(slot.id.0) + (identity_bytes(slot.type_id.0) + (seq![slot.scope.wire()] + match slot.default {
        InitialState::Unset => seq![STATE_DEFAULT_UNSET] + rest,
        InitialState::Null => seq![STATE_DEFAULT_NULL] + rest,
        InitialState::Expression(expression) => seq![STATE_DEFAULT_EXPRESSION] + node_then(expression, rest),
    }))
}

/// The slots from `index` on in front of `rest`.
pub open spec fn slots_then(slots: Seq<Slot>, index: nat, rest: Seq<u8>) -> Seq<u8>
    decreases slots.len() - index,
{
    if index >= slots.len() {
        rest
    } else {
        slot_then(slots[index as int], slots_then(slots, index + 1, rest))
    }
}

/// The complete version-4 artefact.
pub open spec fn state_plan_bytes(plan: StatePlan) -> Seq<u8> {
    header_bytes(STATE_FORMAT_VERSION, RETURN_STATE_OPERATION) + node_then(
        plan.expression,
        u32_bytes(plan.slots.len() as u32) + slots_then(plan.slots, 0, Seq::empty()),
    )
}

/// What encoding a state plan gives.
pub open spec fn encoded_state_plan(plan: StatePlan) -> Result<Seq<u8>, ClientPlanError> {
    if plan.slots.len() == 0 {
        Err(ClientPlanError::InvalidStateSlotCount { actual: 0 })
    } else if plan.slots.len() > MAX_STATE_SLOTS {
        Err(ClientPlanError::StateSlotLimitExceeded { limit: MAX_STATE_SLOTS })
    } else {
        match repeated_slot(plan.slots, 0) {
            Some(id) => Err(ClientPlanError::DuplicateStateSlotId(id)),
            None => match state_tree_valid(plan.expression) {
                Err(error) => Err(error),
                Ok(()) => match defaults_valid(plan.slots, 0) {
                    Err(error) => Err(error),
                    Ok(()) => sized(state_plan_bytes(plan)),
                },
            },
        }
    }
}

/// A tree of a state plan.
pub open spec fn parsed_state_tree(input: Seq<u8>) -> Parsed<Expression> {
    match parsed_node(input, EXPRESSION_LEVELS as nat, Tally::zero(), Grammar::closed_set()) {
        Err(error) => Err(error),
        Ok((expression, rest, _)) => match contract_placement(expression, false) {
            Err(error) => Err(error),
            Ok(()) => Ok((expression, rest)),
        },
    }
}

/// An initial value.
pub open spec fn parsed_default(input: Seq<u8>) -> Parsed<InitialState> {
    match read_u8(input) {
        None => Err(ClientPlanError::Truncated),
        Some((tag, rest)) => if tag == STATE_DEFAULT_UNSET {
            Ok((InitialState::Unset, rest))
        } else if tag == STATE_DEFAULT_NULL {
            Ok((InitialState::Null, rest))
        } else if tag == STATE_DEFAULT_EXPRESSION {
            match parsed_state_tree(rest) {
                Err(error) => Err(error),
                Ok((expression, rest)) => Ok((InitialState::Expression(expression), rest)),
            }
        } else {
            Err(ClientPlanError::InvalidStateDefaultTag(tag))
        },
    }
}

/// The slot that follows `done`.
pub open spec fn parsed_slot(input: Seq<u8>, done: Seq<Slot>) -> Parsed<Slot> {
    match read_identity(input) {
        None => Err(ClientPlanError::Truncated),
        Some((id, rest)) => if slot_seen(done, done.len() as int, StateSlotId(id)) {
            Err(ClientPlanError::DuplicateStateSlotId(StateSlotId(id)))
        } else {
            match read_identity(rest) {
                None => Err(ClientPlanError::Truncated),
                Some((type_id, rest)) => match read_u8(rest) {
                    None => Err(ClientPlanError::Truncated),
                    Some((scope, rest)) => match StateScope::of_wire(scope) {
                        None => Err(ClientPlanError::InvalidStateScope(scope)),
                        Some(scope) => match parsed_default(rest) {
                            Err(error) => Err(error),
                            Ok((default, rest)) => Ok(
                                (Slot { id: StateSlotId(id), type_id: TypeId(type_id), scope, default }, rest),
                            ),
                        },
                    },
                },
            }
        },
    }
}

/// Slots up to `total`, the first of which are `done`.
pub open spec fn parsed_slots(input: Seq<u8>, done: Seq<Slot>, total: nat) -> Parsed<Seq<Slot>>
    decreases total - done.len(),
{
    if done.len() >= total {
        Ok((done, input))
    } else {
        match parsed_slot(input, done) {
            Err(error) => Err(error),
            Ok((slot, rest)) => parsed_slots(rest, done.push(slot), total),
        }
    }
}

/// What decoding `bytes` as version 4 gives.
pub open spec fn decoded_state_plan(bytes: Seq<u8>) -> Result<StatePlan, ClientPlanError> {
    if bytes.len() > MAX_ARTIFACT_BYTES {
        Err(size_error(bytes.len()))
    } else {
        match after_header(bytes, STATE_FORMAT_VERSION, RETURN_STATE_OPERATION) {
            Err(error) => Err(error),
            Ok(rest) => match parsed_state_tree(rest) {
                Err(error) => Err(error),
                Ok((expression, rest)) => match read_u32(rest) {
                    None => Err(ClientPlanError::Truncated),
                    Some((count, rest)) => if count == 0 {
                        Err(ClientPlanError::InvalidStateSlotCount { actual: 0 })
                    } else if count > MAX_STATE_SLOTS {
                        Err(ClientPlanError::StateSlotLimitExceeded { limit: MAX_STATE_SLOTS })
                    } else {
                        match parsed_slots(rest, Seq::empty(), count as nat) {
                            Err(error) => Err(error),
                            Ok((slots, rest)) => if rest.len() != 0 {
                                Err(ClientPlanError::TrailingBytes)
                            } else {
                                Ok(StatePlan { expression, slots })
                            },
                        }
                    },
                },
            },
        }
    }
}

/// A valid tree of a state plan is read back.
proof fn lemma_state_tree_round_trip(expression: Expression, rest: Seq<u8>)
    requires
        state_tree_valid(expression) is Ok,
    ensures
        parsed_state_tree(node_then(expression, rest)) == Ok::<(Expression, Seq<u8>), ClientPlanError>(
            (expression, rest),
        ),
{
    law_node_round_trip(expression, EXPRESSION_LEVELS as nat, Tally::zero(), Grammar::closed_set(), rest);
}

/// What a tree of a state plan was read from.
proof fn lemma_state_tree_canonical(input: Seq<u8>)
    ensures
        parsed_state_tree(input) matches Ok((expression, rest)) ==> input == node_then(expression, rest)
            && state_tree_valid(expression) is Ok,
{
    law_node_canonical(input, EXPRESSION_LEVELS as nat, Tally::zero(), Grammar::closed_set());
}

/// Valid slots are read back.
proof fn lemma_slots_round_trip(slots: Seq<Slot>, index: nat, rest: Seq<u8>)
    requires
        index <= slots.len(),
        repeated_slot(slots, index) is None,
        defaults_valid(slots, index) is Ok,
    ensures
        parsed_slots(slots_then(slots, index, rest), slots.take(index as int), slots.len()) == Ok::<
            (Seq<Slot>, Seq<u8>),
            ClientPlanError,
        >((slots, rest)),
    decreases slots.len() - index,
{
    let done = slots.take(index as int);
    if index < slots.len() {
        let slot = slots[index as int];
        let later = slots_then(slots, index + 1, rest);
        let encoded_default = match slot.default {
            InitialState::Unset => seq![STATE_DEFAULT_UNSET] + later,
            InitialState::Null => seq![STATE_DEFAULT_NULL] + later,
            InitialState::Expression(expression) => seq![STATE_DEFAULT_EXPRESSION] + node_then(expression, later),
        };
        let after_type = seq![slot.scope.wire()] + encoded_default;
        lemma_read_identity(slot.id.0, identity_bytes(slot.type_id.0) + after_type);
        lemma_read_identity(slot.type_id.0, after_type);
        lemma_read_u8(slot.scope.wire(), encoded_default);
        match slot.default {
            InitialState::Unset => lemma_read_u8(STATE_DEFAULT_UNSET, later),
            InitialState::Null => lemma_read_u8(STATE_DEFAULT_NULL, later),
            InitialState::Expression(expression) => {
                lemma_read_u8(STATE_DEFAULT_EXPRESSION, node_then(expression, later));
                lemma_state_tree_round_trip(expression, later);
            },
        }
        assert(!slot_seen(done, done.len() as int, slot.id)) by {
            if slot_seen(done, done.len() as int, slot.id) {
                let seen = choose|i: int| 0 <= i < done.len() && (#[trigger] done[i]).id == slot.id;
                assert(slots[seen].id == slot.id);
            }
        }
        lemma_slots_round_trip(slots, index + 1, rest);
        assert(done.push(slot) =~= slots.take((index + 1) as int));
    } else {
        assert(done =~= slots);
    }
}

/// What slots were read from.
proof fn lemma_slots_canonical(input: Seq<u8>, done: Seq<Slot>, total: nat)
    requires
        done.len() <= total,
    ensures
        parsed_slots(input, done, total) matches Ok((slots, rest)) ==> {
            &&& slots.len() == total
            &&& slots.take(done.len() as int) == done
            &&& input == slots_then(slots, done.len(), rest)
            &&& repeated_slot(slots, done.len()) is None
            &&& defaults_valid(slots, done.len()) is Ok
        },
    decreases total - done.len(),
{
    if done.len() < total {
        if parsed_slots(input, done, total) is Ok {
            lemma_identity_read(input);
            let after_id = read_identity(input)->Some_0.1;
            lemma_identity_read(after_id);
            let after_type = read_identity(after_id)->Some_0.1;
            lemma_u8_read(after_type);
            let after_scope = read_u8(after_type)->Some_0.1;
            lemma_u8_read(after_scope);
            let (tag, after_tag) = read_u8(after_scope)->Some_0;
            if tag == STATE_DEFAULT_EXPRESSION {
                lemma_state_tree_canonical(after_tag);
            }
            let (slot, later) = parsed_slot(input, done)->Ok_0;
            let next = done.push(slot);
            lemma_slots_canonical(later, next, total);
            let slots = parsed_slots(later, next, total)->Ok_0.0;
            let position = done.len() as int;
            assert(slots[position] == slots.take(next.len() as int)[position]);
            assert(slots.take(position) =~= slots.take(next.len() as int).take(position));
            assert(next.take(position) =~= done);
            assert(!slot_seen(slots, position, slot.id)) by {
                if slot_seen(slots, position, slot.id) {
                    let seen = choose|i: int| 0 <= i < position && (#[trigger] slots[i]).id == slot.id;
                    assert(slots.take(position)[seen] == done[seen]);
                }
            }
        }
    } else {
        assert(done.take(done.len() as int) =~= done);
    }
}

/// Decoding an encoded state plan gives that plan back.
pub proof fn law_state_plan_round_trip(plan: StatePlan)
    ensures
        encoded_state_plan(plan) matches Ok(bytes) ==> decoded_state_plan(bytes) == Ok::<StatePlan, ClientPlanError>(
            plan,
        ),
{
    if encoded_state_plan(plan) is Ok {
        let count = plan.slots.len() as u32;
        let list = slots_then(plan.slots, 0, Seq::empty());
        lemma_header(
            STATE_FORMAT_VERSION,
            RETURN_STATE_OPERATION,
            node_then(plan.expression, u32_bytes(count) + list),
        );
        lemma_state_tree_round_trip(plan.expression, u32_bytes(count) + list);
        lemma_read_u32(count, list);
        lemma_slots_round_trip(plan.slots, 0, Seq::empty());
        assert(plan.slots.take(0) =~= Seq::empty());
    }
}

/// An artefact that decodes is the encoding of what it decodes to.
pub proof fn law_state_plan_canonical(bytes: Seq<u8>)
    ensures
        decoded_state_plan(bytes) matches Ok(plan) ==> encoded_state_plan(plan) == Ok::<Seq<u8>, ClientPlanError>(
            bytes,
        ),
{
    if decoded_state_plan(bytes) is Ok {
        let plan = decoded_state_plan(bytes)->Ok_0;
        lemma_header_read(bytes, STATE_FORMAT_VERSION, RETURN_STATE_OPERATION);
        let tree = after_header(bytes, STATE_FORMAT_VERSION, RETURN_STATE_OPERATION)->Ok_0;
        lemma_state_tree_canonical(tree);
        let after_tree = parsed_state_tree(tree)->Ok_0.1;
        lemma_u32_read(after_tree);
        let (count, list) = read_u32(after_tree)->Some_0;
        lemma_slots_canonical(list, Seq::empty(), count as nat);
        assert(parsed_slots(list, Seq::empty(), count as nat)->Ok_0.1 =~= Seq::empty());
        assert(bytes =~= state_plan_bytes(plan));
    }
}

impl StateSlot {
    /// Creates a checked state slot from its durable identity, nominal type,
    /// scope, and checked default.
    pub fn new(state_slot_id: StateSlotId, type_id: TypeId, scope: StateScope, default: StateDefault) -> (slot:
        StateSlot)
        ensures
            slot == (StateSlot { state_slot_id, type_id, scope, default }),
    {
        StateSlot { state_slot_id, type_id, scope, default }
    }

    /// Returns the durable state-slot identity.
    pub fn state_slot_id(&self) -> (id: StateSlotId)
        ensures
            id == self@.id,
    {
        self.state_slot_id
    }

    /// Returns the nominal state value type.
    pub fn type_id(&self) -> (type_id: TypeId)
        ensures
            type_id == self@.type_id,
    {
        self.type_id
    }

    /// Returns the declared state scope.
    pub fn scope(&self) -> (scope: StateScope)
        ensures
            scope == self@.scope,
    {
        self.scope
    }

    /// Returns the checked initial value of this slot.
    pub fn default(&self) -> (default: &StateDefault)
        ensures
            default@ == self@.default,
    {
        &self.default
    }
}

/// Tells whether one of the first `count` slots has an identity.
fn has_slot(slots: &Vec<StateSlot>, count: usize, id: StateSlotId) -> (seen: bool)
    requires
        count <= slots.len(),
    ensures
        seen == slot_seen(slots_of(slots@), count as int, id),
{
    let ghost list = slots_of(slots@);
    let mut index: usize = 0;
    while index < count
        invariant
            index <= count <= slots.len(),
            list == slots_of(slots@),
            forall|i: int| 0 <= i < index ==> (#[trigger] list[i]).id != id,
        decreases count - index,
    {
        assert(list[index as int] == slots[index as int]@);
        if slots[index].state_slot_id == id {
            return true;
        }
        index = index + 1;
    }
    false
}

/// Refuses a tree that no state plan may hold.
fn validate_state_tree(node: &ClientExpressionNode) -> (result: Result<(), ClientPlanError>)
    ensures
        result == state_tree_valid(node@),
{
    validate_external_contract_placement(node, false)?;
    let grammar = Grammar { resources: false, locals: false, inspect: false, programmable: false };
    admit_node(node, EXPRESSION_LEVELS, Tally::new(), grammar)?;
    Ok(())
}

/// Reads a tree of a state plan.
fn decode_state_tree(reader: &mut Reader) -> (result: Result<ClientExpressionNode, ClientPlanError>)
    ensures
        match parsed_state_tree(old(reader)@) {
            Ok((expression, rest)) => result is Ok && result->Ok_0@ == expression && final(reader)@ == rest,
            Err(error) => result == Err::<ClientExpressionNode, ClientPlanError>(error),
        },
{
    let grammar = Grammar { resources: false, locals: false, inspect: false, programmable: false };
    let (expression, _) = decode_node(reader, EXPRESSION_LEVELS, Tally::new(), grammar)?;
    validate_external_contract_placement(&expression, false)?;
    Ok(expression)
}

/// Reads an initial value.
fn decode_default(reader: &mut Reader) -> (result: Result<StateDefault, ClientPlanError>)
    ensures
        match parsed_default(old(reader)@) {
            Ok((default, rest)) => result is Ok && result->Ok_0@ == default && final(reader)@ == rest,
            Err(error) => result == Err::<StateDefault, ClientPlanError>(error),
        },
{
    let tag: u8 = take_u8(reader)?;
    match tag {
        STATE_DEFAULT_UNSET => Ok(StateDefault::Unset),
        STATE_DEFAULT_NULL => Ok(StateDefault::Null),
        STATE_DEFAULT_EXPRESSION => {
            let expression = decode_state_tree(reader)?;
            Ok(StateDefault::Expression(expression))
        },
        tag => Err(ClientPlanError::InvalidStateDefaultTag(tag)),
    }
}

/// Reads the slot that follows `done`.
fn decode_slot(reader: &mut Reader, done: &Vec<StateSlot>) -> (result: Result<StateSlot, ClientPlanError>)
    ensures
        match parsed_slot(old(reader)@, slots_of(done@)) {
            Ok((slot, rest)) => result is Ok && result->Ok_0@ == slot && final(reader)@ == rest,
            Err(error) => result == Err::<StateSlot, ClientPlanError>(error),
        },
{
    let id: u128 = take_identity(reader)?;
    let state_slot_id = StateSlotId(id);
    if has_slot(done, done.len(), state_slot_id) {
        return Err(ClientPlanError::DuplicateStateSlotId(state_slot_id));
    }
    let type_id: u128 = take_identity(reader)?;
    let scope_tag: u8 = take_u8(reader)?;
    let scope = StateScope::from_tag(scope_tag)?;
    let default = decode_default(reader)?;
    Ok(StateSlot { state_slot_id, type_id: TypeId(type_id), scope, default })
}

/// Writes a slot.
fn put_slot(writer: &mut Writer, slot: &StateSlot)
    ensures
        forall|rest: Seq<u8>| final(writer)@ + rest == old(writer)@ + #[trigger] slot_then(slot@, rest),
{
    writer.identity(slot.state_slot_id.0);
    writer.type_id(slot.type_id);
    writer.u8(slot.scope.tag());
    match &slot.default {
        StateDefault::Unset => writer.u8(STATE_DEFAULT_UNSET),
        StateDefault::Null => writer.u8(STATE_DEFAULT_NULL),
        StateDefault::Expression(node) => {
            writer.u8(STATE_DEFAULT_EXPRESSION);
            put_node(writer, node);
        },
    }
    proof {
        assert forall|rest: Seq<u8>| writer@ + rest == old(writer)@ + #[trigger] slot_then(slot@, rest) by {
            if let InitialState::Expression(expression) = slot@.default {
                lemma_node_then(expression, rest);
            }
            assert(writer@ + rest =~= old(writer)@ + slot_then(slot@, rest));
        }
    }
}

impl StateClientPlan {
    /// Creates a checked state plan from one closed expression tree and the
    /// ordered state-slot records.
    pub fn new(expression: ClientExpressionNode, slots: Vec<StateSlot>) -> (plan: StateClientPlan)
        ensures
            plan@ == (StatePlan { expression: expression@, slots: slots_of(slots@) }),
    {
        StateClientPlan { expression, slots }
    }

    /// Returns the closed return expression tree.
    pub fn expression(&self) -> (expression: &ClientExpressionNode)
        ensures
            expression@ == self@.expression,
    {
        &self.expression
    }

    /// Returns the state slots in declaration order.
    pub fn slots(&self) -> (slots: &[StateSlot])
        ensures
            slots_of(slots@) == self@.slots,
    {
        self.slots.as_slice()
    }

    /// Returns the canonical artefact version for this plan.
    pub fn format_version(&self) -> (version: u32)
        ensures
            version == STATE_FORMAT_VERSION,
    {
        STATE_FORMAT_VERSION
    }

    /// Refuses repeated slot identities.
    fn validate_slot_identities(&self) -> (result: Result<(), ClientPlanError>)
        ensures
            match repeated_slot(self@.slots, 0) {
                Some(id) => result == Err::<(), ClientPlanError>(ClientPlanError::DuplicateStateSlotId(id)),
                None => result == Ok::<(), ClientPlanError>(()),
            },
    {
        let mut index: usize = 0;
        while index < self.slots.len()
            invariant
                index <= self.slots.len(),
                repeated_slot(self@.slots, 0) == repeated_slot(self@.slots, index as nat),
            decreases self.slots.len() - index,
        {
            let id = self.slots[index].state_slot_id;
            if has_slot(&self.slots, index, id) {
                return Err(ClientPlanError::DuplicateStateSlotId(id));
            }
            index = index + 1;
        }
        Ok(())
    }

    /// Refuses invalid defaults.
    fn validate_defaults(&self) -> (result: Result<(), ClientPlanError>)
        ensures
            result == defaults_valid(self@.slots, 0),
    {
        let mut index: usize = 0;
        while index < self.slots.len()
            invariant
                index <= self.slots.len(),
                defaults_valid(self@.slots, 0) == defaults_valid(self@.slots, index as nat),
            decreases self.slots.len() - index,
        {
            assert(self@.slots[index as int] == self.slots[index as int]@);
            if let StateDefault::Expression(node) = &self.slots[index].default {
                validate_state_tree(node)?;
            }
            index = index + 1;
        }
        Ok(())
    }

    /// Encodes this plan into its exact version-4 bytes.
    pub fn encode(&self) -> (result: Result<Vec<u8>, ClientPlanError>)
        ensures
            viewed(result) == encoded_state_plan(self@),
    {
        if self.slots.len() == 0 {
            return Err(ClientPlanError::InvalidStateSlotCount { actual: 0 });
        }
        if self.slots.len() > MAX_STATE_SLOTS {
            return Err(ClientPlanError::StateSlotLimitExceeded { limit: MAX_STATE_SLOTS });
        }
        self.validate_slot_identities()?;
        validate_state_tree(&self.expression)?;
        self.validate_defaults()?;
        let mut writer = Writer::new();
        put_header(&mut writer, STATE_FORMAT_VERSION, RETURN_STATE_OPERATION);
        put_node(&mut writer, &self.expression);
        writer.u32(self.slots.len() as u32);
        let ghost none = Seq::<u8>::empty();
        let ghost start = writer@;
        let mut index: usize = 0;
        while index < self.slots.len()
            invariant
                index <= self.slots.len(),
                none == Seq::<u8>::empty(),
                writer@ + slots_then(self@.slots, index as nat, none) == start + slots_then(self@.slots, 0, none),
            decreases self.slots.len() - index,
        {
            assert(self@.slots[index as int] == self.slots[index as int]@);
            let ghost before = writer@;
            put_slot(&mut writer, &self.slots[index]);
            assert(writer@ + slots_then(self@.slots, (index + 1) as nat, none) == before + slot_then(
                self@.slots[index as int],
                slots_then(self@.slots, (index + 1) as nat, none),
            ));
            index = index + 1;
        }
        proof {
            lemma_node_then(
                self@.expression,
                u32_bytes(self@.slots.len() as u32) + slots_then(self@.slots, 0, none),
            );
            assert(writer@ =~= writer@ + slots_then(self@.slots, index as nat, none));
            assert(writer@ =~= state_plan_bytes(self@));
        }
        finish_artifact(writer)
    }

    /// Decodes exactly one canonical version-4 state client-plan.
    pub fn decode(bytes: &[u8]) -> (result: Result<StateClientPlan, ClientPlanError>)
        ensures
            viewed(result) == decoded_state_plan(bytes@),
    {
        validate_artifact_size(bytes.len())?;
        let mut reader = Reader::new(bytes);
        take_header(&mut reader, STATE_FORMAT_VERSION, RETURN_STATE_OPERATION)?;
        let expression = decode_state_tree(&mut reader)?;
        let count: u32 = take_u32(&mut reader)?;
        if count == 0 {
            return Err(ClientPlanError::InvalidStateSlotCount { actual: 0 });
        }
        let total: usize = count as usize;
        if total > MAX_STATE_SLOTS {
            return Err(ClientPlanError::StateSlotLimitExceeded { limit: MAX_STATE_SLOTS });
        }
        let ghost parsed = parsed_slots(reader@, Seq::empty(), total as nat);
        let mut slots: Vec<StateSlot> = Vec::with_capacity(total);
        assert(slots_of(slots@) =~= Seq::empty());
        while slots.len() < total
            invariant
                slots.len() <= total,
                parsed == parsed_slots(reader@, slots_of(slots@), total as nat),
                parsed is Err ==> decoded_state_plan(bytes@) == Err::<StatePlan, ClientPlanError>(parsed->Err_0),
            decreases total - slots.len(),
        {
            let ghost done = slots_of(slots@);
            let slot = decode_slot(&mut reader, &slots)?;
            let ghost value = slot@;
            slots.push(slot);
            assert(slots_of(slots@) =~= done.push(value));
        }
        require_finished(&reader)?;
        Ok(StateClientPlan::new(expression, slots))
    }
}

} // verus!
