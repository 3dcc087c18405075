//! The header that every client-plan artefact starts with, and the reader
//! calls of this format family.

use vstd::prelude::*;

use crate::artifact_codec::{read_bytes, read_i64, read_identity, read_u32, read_u8, u32_bytes};
use crate::artifact_codec::{
    lemma_bytes_read, lemma_read_bytes, lemma_read_u32, lemma_read_u8, lemma_u32_read, lemma_u8_read,
};
use crate::artifact_codec::{same_bytes, Reader, Writer};
use crate::client_plan::error::ClientPlanError;
use crate::client_plan::{MAGIC, MAX_ARTIFACT_BYTES};

verus! {

/// The magic bytes, version and operation tag of an artefact.
pub open spec fn header_bytes(version: u32, operation: u8) -> Seq<u8> {
    MAGIC@ + (u32_bytes(version) + seq![operation])
}

/// The version that an artefact declares, and what follows it.
pub open spec fn declared_version(input: Seq<u8>) -> Result<(u32, Seq<u8>), ClientPlanError> {
    match read_bytes(input, 8) {
        None => Err(ClientPlanError::Truncated),
        Some((magic, rest)) => if magic != MAGIC@ {
            Err(ClientPlanError::InvalidMagic)
        } else {
            match read_u32(rest) {
                None => Err(ClientPlanError::Truncated),
                Some((version, rest)) => Ok((version, rest)),
            }
        },
    }
}

/// What follows an expected operation tag.
pub open spec fn after_operation(input: Seq<u8>, operation: u8) -> Result<Seq<u8>, ClientPlanError> {
    match read_u8(input) {
        None => Err(ClientPlanError::Truncated),
        Some((tag, rest)) => if tag != operation {
            Err(ClientPlanError::InvalidOperation(tag))
        } else {
            Ok(rest)
        },
    }
}

/// What follows the header of an artefact of one version.
pub open spec fn after_header(input: Seq<u8>, version: u32, operation: u8) -> Result<Seq<u8>, ClientPlanError> {
    match declared_version(input) {
        Err(error) => Err(error),
        Ok((declared, rest)) => if declared != version {
            Err(ClientPlanError::UnsupportedVersion(declared))
        } else {
            after_operation(rest, operation)
        },
    }
}

/// The failure of an artefact that is longer than the format allows.
pub open spec fn size_error(size: nat) -> ClientPlanError {
    ClientPlanError::ArtifactSizeLimit { size: size as usize, maximum: MAX_ARTIFACT_BYTES }
}

/// An encoded artefact, where it keeps the size limit.
pub open spec fn sized(bytes: Seq<u8>) -> Result<Seq<u8>, ClientPlanError> {
    if bytes.len() > MAX_ARTIFACT_BYTES {
        Err(size_error(bytes.len()))
    } else {
        Ok(bytes)
    }
}

/// A header is read back, and what was read was a header.
pub proof fn lemma_header(version: u32, operation: u8, rest: Seq<u8>)
    ensures
        after_header(header_bytes(version, operation) + rest, version, operation) == Ok::<
            Seq<u8>,
            ClientPlanError,
        >(rest),
        declared_version(header_bytes(version, operation) + rest) == Ok::<(u32, Seq<u8>), ClientPlanError>(
            (version, seq![operation] + rest),
        ),
        header_bytes(version, operation).len() == 13,
{
    let after_version = seq![operation] + rest;
    assert(header_bytes(version, operation) + rest =~= MAGIC@ + (u32_bytes(version) + after_version));
    lemma_read_bytes(MAGIC@, u32_bytes(version) + after_version);
    lemma_read_u32(version, after_version);
    lemma_read_u8(operation, rest);
}

/// What a header was read from.
pub proof fn lemma_header_read(input: Seq<u8>, version: u32, operation: u8)
    ensures
        after_header(input, version, operation) matches Ok(rest) ==> input == header_bytes(version, operation) + rest,
{
    if after_header(input, version, operation) is Ok {
        lemma_bytes_read(input, 8);
        let after_magic = read_bytes(input, 8)->Some_0.1;
        lemma_u32_read(after_magic);
        let after_version = read_u32(after_magic)->Some_0.1;
        lemma_u8_read(after_version);
        let rest = read_u8(after_version)->Some_0.1;
        assert(input =~= header_bytes(version, operation) + rest);
    }
}

/// Reads one byte.
pub fn take_u8(reader: &mut Reader) -> (result: Result<u8, ClientPlanError>)
    ensures
        match read_u8(old(reader)@) {
            Some((value, rest)) => result == Ok::<u8, ClientPlanError>(value) && final(reader)@ == rest,
            None => result == Err::<u8, _>(ClientPlanError::Truncated),
        },
{
    match reader.u8() {
        Ok(value) => Ok(value),
        Err(error) => Err(ClientPlanError::from(error)),
    }
}

/// Reads a big-endian 32-bit unsigned integer.
pub fn take_u32(reader: &mut Reader) -> (result: Result<u32, ClientPlanError>)
    ensures
        match read_u32(old(reader)@) {
            Some((value, rest)) => result == Ok::<u32, ClientPlanError>(value) && final(reader)@ == rest,
            None => result == Err::<u32, _>(ClientPlanError::Truncated),
        },
{
    match reader.u32() {
        Ok(value) => Ok(value),
        Err(error) => Err(ClientPlanError::from(error)),
    }
}

/// Reads a big-endian 64-bit integer.
pub fn take_i64(reader: &mut Reader) -> (result: Result<i64, ClientPlanError>)
    ensures
        match read_i64(old(reader)@) {
            Some((value, rest)) => result == Ok::<i64, ClientPlanError>(value) && final(reader)@ == rest,
            None => result == Err::<i64, _>(ClientPlanError::Truncated),
        },
{
    match reader.i64() {
        Ok(value) => Ok(value),
        Err(error) => Err(ClientPlanError::from(error)),
    }
}

/// Reads an identity.
pub fn take_identity(reader: &mut Reader) -> (result: Result<u128, ClientPlanError>)
    ensures
        match read_identity(old(reader)@) {
            Some((value, rest)) => result == Ok::<u128, ClientPlanError>(value) && final(reader)@ == rest,
            None => result == Err::<u128, _>(ClientPlanError::Truncated),
        },
{
    match reader.identity() {
        Ok(value) => Ok(value),
        Err(error) => Err(ClientPlanError::from(error)),
    }
}

/// Reads the next `length` bytes.
pub fn take_bytes<'a>(reader: &mut Reader<'a>, length: usize) -> (result: Result<&'a [u8], ClientPlanError>)
    ensures
        match read_bytes(old(reader)@, length as nat) {
            Some((bytes, rest)) => result is Ok && result->Ok_0@ == bytes && final(reader)@ == rest,
            None => result == Err::<&'a [u8], _>(ClientPlanError::Truncated),
        },
{
    match reader.take(length) {
        Ok(value) => Ok(value),
        Err(error) => Err(ClientPlanError::from(error)),
    }
}

/// Requires that the whole artefact has been read.
pub fn require_finished(reader: &Reader) -> (result: Result<(), ClientPlanError>)
    ensures
        result == if reader@.len() == 0 {
            Ok::<(), ClientPlanError>(())
        } else {
            Err(ClientPlanError::TrailingBytes)
        },
{
    match reader.require_finished() {
        Ok(()) => Ok(()),
        Err(error) => Err(ClientPlanError::from(error)),
    }
}

/// Reads the magic bytes and the declared version.
pub fn take_version(reader: &mut Reader) -> (result: Result<u32, ClientPlanError>)
    ensures
        match declared_version(old(reader)@) {
            Ok((version, rest)) => result == Ok::<u32, ClientPlanError>(version) && final(reader)@ == rest,
            Err(error) => result == Err::<u32, _>(error),
        },
{
    let magic = take_bytes(reader, 8)?;
    if !same_bytes(magic, MAGIC.as_slice()) {
        return Err(ClientPlanError::InvalidMagic);
    }
    take_u32(reader)
}

/// Reads an operation tag that has to be `operation`.
pub fn take_operation(reader: &mut Reader, operation: u8) -> (result: Result<(), ClientPlanError>)
    ensures
        match after_operation(old(reader)@, operation) {
            Ok(rest) => result == Ok::<(), ClientPlanError>(()) && final(reader)@ == rest,
            Err(error) => result == Err::<(), _>(error),
        },
{
    let tag: u8 = take_u8(reader)?;
    if tag != operation {
        return Err(ClientPlanError::InvalidOperation(tag));
    }
    Ok(())
}

/// Reads a complete header of one version.
pub fn take_header(reader: &mut Reader, version: u32, operation: u8) -> (result: Result<(), ClientPlanError>)
    ensures
        match after_header(old(reader)@, version, operation) {
            Ok(rest) => result == Ok::<(), ClientPlanError>(()) && final(reader)@ == rest,
            Err(error) => result == Err::<(), _>(error),
        },
{
    let declared: u32 = take_version(reader)?;
    if declared != version {
        return Err(ClientPlanError::UnsupportedVersion(declared));
    }
    take_operation(reader, operation)
}

/// Refuses an artefact that is longer than the format allows.
pub fn validate_artifact_size(size: usize) -> (result: Result<(), ClientPlanError>)
    ensures
        result == if size > MAX_ARTIFACT_BYTES {
            Err::<(), _>(size_error(size as nat))
        } else {
            Ok(())
        },
{
    if size > MAX_ARTIFACT_BYTES {
        Err(ClientPlanError::ArtifactSizeLimit { size, maximum: MAX_ARTIFACT_BYTES })
    } else {
        Ok(())
    }
}

/// Writes the header of an artefact.
pub fn put_header(writer: &mut Writer, version: u32, operation: u8)
    ensures
        final(writer)@ == old(writer)@ + header_bytes(version, operation),
{
    writer.bytes(MAGIC.as_slice());
    writer.u32(version);
    writer.u8(operation);
    assert(writer@ =~= old(writer)@ + header_bytes(version, operation));
}

/// Returns a written artefact that keeps the size limit.
pub fn finish_artifact(writer: Writer) -> (result: Result<Vec<u8>, ClientPlanError>)
    ensures
        crate::artifact_codec::viewed(result) == sized(writer@),
{
    let bytes = writer.finish();
    validate_artifact_size(bytes.len())?;
    Ok(bytes)
}

} // verus!
