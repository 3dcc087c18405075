//! Version 1: a plan that returns one Boolean constant.
//!
//! ```text
//! header: version 1, operation 1
//! value: u8 = 0|1
//! ```

use vstd::prelude::*;

use crate::artifact_codec::{boolean_byte, lemma_read_u8, lemma_u8_read, read_u8, viewed, Reader, Writer};
use crate::client_plan::error::ClientPlanError;
use crate::client_plan::header::{after_header, header_bytes, lemma_header, lemma_header_read};
use crate::client_plan::header::{put_header, require_finished, take_header, take_u8};
use crate::client_plan::{ENCODED_LENGTH, FORMAT_VERSION, RETURN_BOOLEAN_OPERATION};

verus! {

/// A checked CLIENT plan that returns one Boolean constant.
#[derive(Clone, Copy, Debug, PartialEq, Eq, Structural)]
pub struct ClientPlan {
    pub returned_boolean: bool,
}

impl View for ClientPlan {
    type V = bool;

    open spec fn view(&self) -> bool {
        self.returned_boolean
    }
}

/// The complete version-1 artefact.
pub open spec fn boolean_plan_bytes(value: bool) -> Seq<u8> {
    header_bytes(FORMAT_VERSION, RETURN_BOOLEAN_OPERATION) + seq![boolean_byte(value)]
}

/// What decoding `bytes` as version 1 gives.
pub open spec fn decoded_boolean_plan(bytes: Seq<u8>) -> Result<bool, ClientPlanError> {
    match after_header(bytes, FORMAT_VERSION, RETURN_BOOLEAN_OPERATION) {
        Err(error) => Err(error),
        Ok(rest) => match read_u8(rest) {
            None => Err(ClientPlanError::Truncated),
            Some((value, rest)) => if value > 1 {
                Err(ClientPlanError::InvalidBoolean(value))
            } else if rest.len() != 0 {
                Err(ClientPlanError::TrailingBytes)
            } else {
                Ok(value == 1)
            },
        },
    }
}

/// Decoding an encoded Boolean plan gives that plan back.
pub proof fn law_boolean_plan_round_trip(value: bool)
    ensures
        decoded_boolean_plan(boolean_plan_bytes(value)) == Ok::<bool, ClientPlanError>(value),
        boolean_plan_bytes(value).len() == ENCODED_LENGTH,
{
    let byte = boolean_byte(value);
    lemma_header(FORMAT_VERSION, RETURN_BOOLEAN_OPERATION, seq![byte]);
    assert(seq![byte] =~= seq![byte] + Seq::<u8>::empty());
    lemma_read_u8(byte, Seq::empty());
}

/// An artefact that decodes is the encoding of what it decodes to.
pub proof fn law_boolean_plan_canonical(bytes: Seq<u8>)
    ensures
        decoded_boolean_plan(bytes) matches Ok(value) ==> boolean_plan_bytes(value) == bytes,
{
    if decoded_boolean_plan(bytes) is Ok {
        lemma_header_read(bytes, FORMAT_VERSION, RETURN_BOOLEAN_OPERATION);
        let rest = after_header(bytes, FORMAT_VERSION, RETURN_BOOLEAN_OPERATION)->Ok_0;
        lemma_u8_read(rest);
        assert(boolean_plan_bytes(decoded_boolean_plan(bytes)->Ok_0) =~= bytes);
    }
}

impl ClientPlan {
    /// Creates a checked plan that returns `value`.
    pub fn return_boolean(value: bool) -> (plan: ClientPlan)
        ensures
            plan@ == value,
    {
        ClientPlan { returned_boolean: value }
    }

    /// Returns the canonical artefact version for this plan.
    pub fn format_version(&self) -> (version: u32)
        ensures
            version == FORMAT_VERSION,
    {
        FORMAT_VERSION
    }

    /// Returns the Boolean value carried by this plan.
    pub fn returned_boolean(&self) -> (value: bool)
        ensures
            value == self@,
    {
        self.returned_boolean
    }

    /// Encodes this plan into its canonical version-1 bytes.
    pub fn encode(&self) -> (bytes: Vec<u8>)
        ensures
            bytes@ == boolean_plan_bytes(self@),
    {
        let mut writer = Writer::with_capacity(ENCODED_LENGTH);
        put_header(&mut writer, FORMAT_VERSION, RETURN_BOOLEAN_OPERATION);
        writer.boolean(self.returned_boolean);
        assert(writer@ =~= boolean_plan_bytes(self@));
        writer.finish()
    }

    /// Decodes exactly one canonical version-1 client-plan artefact.
    pub fn decode(bytes: &[u8]) -> (result: Result<ClientPlan, ClientPlanError>)
        ensures
            viewed(result) == decoded_boolean_plan(bytes@),
    {
        let mut reader = Reader::new(bytes);
        take_header(&mut reader, FORMAT_VERSION, RETURN_BOOLEAN_OPERATION)?;
        let value: u8 = take_u8(&mut reader)?;
        if value > 1 {
            return Err(ClientPlanError::InvalidBoolean(value));
        }
        require_finished(&reader)?;
        Ok(ClientPlan::return_boolean(value == 1))
    }
}

} // verus!
