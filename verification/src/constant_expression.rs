//! Canonical `orna.constant-expression` artefact format, version 1.
//!
//! The format stores the closed set of constants that a compiled expression may
//! hold. It is independent of source spelling, compiler types and storage:
//!
//! ```text
//! magic[8] = ORNACE\0\0
//! version: u32 big-endian = 1
//! kind: u8
//! payload: kind-specific bytes
//! ```

use vstd::prelude::*;
use vstd::utf8::encode_utf8;

use crate::artifact_codec::{group_reads_extend, boolean_byte, i64_bytes, u32_bytes};
use crate::artifact_codec::{read_bytes, read_i64, read_u32, read_u8, saturated, viewed};
use crate::artifact_codec::{lemma_bytes_read, lemma_i64_read, lemma_u32_read, lemma_u8_read};
use crate::artifact_codec::{lemma_read_bytes, lemma_read_i64, lemma_read_u32, lemma_read_u8};
use crate::artifact_codec::{same_bytes, DecodeError, Reader, Writer};
use crate::text::{decimal, decode_text, decoded_text, law_text_round_trip};
use crate::text::{with_number, with_numbers};

verus! {

/// The stable public identity of this artefact format.
pub const FORMAT_IDENTITY: &'static str = "orna.constant-expression";

/// The only supported constant-expression artefact version.
pub const FORMAT_VERSION: u32 = 1;

/// The exact first eight bytes of every constant-expression artefact:
/// `ORNACE` and two zero bytes.
pub const MAGIC: [u8; 8] = [79, 82, 78, 65, 67, 69, 0, 0];

/// The maximum accepted encoded artefact size.
pub const MAX_ARTIFACT_BYTES: usize = 16 * 1024 * 1024;

/// A source-independent constant expression value.
#[derive(Clone, Debug, Eq, PartialEq)]
pub enum ConstantExpression {
    /// The SQL null value. Its resolved target type belongs to the catalogue.
    Null,
    /// A BOOLEAN constant.
    Boolean(bool),
    /// A signed 64-bit INTEGER constant.
    Integer(i64),
    /// An exact UTF-8 character string constant.
    Text(String),
}

/// The mathematical value of a constant expression.
pub enum ConstantValue {
    Null,
    Boolean(bool),
    Integer(i64),
    Text(Seq<char>),
}

impl View for ConstantExpression {
    type V = ConstantValue;

    open spec fn view(&self) -> ConstantValue {
        match *self {
            ConstantExpression::Null => ConstantValue::Null,
            ConstantExpression::Boolean(value) => ConstantValue::Boolean(value),
            ConstantExpression::Integer(value) => ConstantValue::Integer(value),
            ConstantExpression::Text(value) => ConstantValue::Text(value@),
        }
    }
}

/// The kind tag and payload of a constant.
pub open spec fn constant_payload(value: ConstantValue) -> Seq<u8> {
    match value {
        ConstantValue::Null => seq![1u8],
        ConstantValue::Boolean(boolean) => seq![2u8] + seq![boolean_byte(boolean)],
        ConstantValue::Integer(integer) => seq![3u8] + i64_bytes(integer),
        ConstantValue::Text(text) => {
            let bytes = encode_utf8(text);
            seq![4u8] + (u32_bytes(bytes.len() as u32) + bytes)
        },
    }
}

/// The complete version-1 artefact of a constant.
pub open spec fn constant_bytes(value: ConstantValue) -> Seq<u8> {
    MAGIC@ + (u32_bytes(FORMAT_VERSION) + constant_payload(value))
}

/// What encoding a constant gives: a text whose length does not fit the length
/// prefix is refused, then an artefact over the size limit.
pub open spec fn encoded_constant(value: ConstantValue) -> Result<Seq<u8>, ConstantExpressionError> {
    match encoded_constant_size(value) {
        Err(error) => Err(error),
        Ok(size) => if size > MAX_ARTIFACT_BYTES {
            Err(ConstantExpressionError::ArtifactSizeLimit { size, maximum: MAX_ARTIFACT_BYTES })
        } else {
            Ok(constant_bytes(value))
        },
    }
}

/// The size of the artefact of a constant.
pub open spec fn encoded_constant_size(value: ConstantValue) -> Result<usize, ConstantExpressionError> {
    match value {
        ConstantValue::Null => Ok(13),
        ConstantValue::Boolean(_) => Ok(14),
        ConstantValue::Integer(_) => Ok(21),
        ConstantValue::Text(text) => if encode_utf8(text).len() > u32::MAX {
            Err(
                ConstantExpressionError::TextSizeLimit {
                    size: encode_utf8(text).len() as usize,
                    maximum: u32::MAX as usize,
                },
            )
        } else {
            Ok(saturated(17 + encode_utf8(text).len()))
        },
    }
}

/// What decoding `bytes` gives.
pub open spec fn decoded_constant(bytes: Seq<u8>) -> Result<ConstantValue, ConstantExpressionError> {
    if bytes.len() > MAX_ARTIFACT_BYTES {
        Err(
            ConstantExpressionError::ArtifactSizeLimit {
                size: bytes.len() as usize,
                maximum: MAX_ARTIFACT_BYTES,
            },
        )
    } else {
        match read_bytes(bytes, 8) {
            None => Err(ConstantExpressionError::Truncated),
            Some((magic, rest)) => if magic != MAGIC@ {
                Err(ConstantExpressionError::InvalidMagic)
            } else {
                match read_u32(rest) {
                    None => Err(ConstantExpressionError::Truncated),
                    Some((version, rest)) => if version != FORMAT_VERSION {
                        Err(ConstantExpressionError::UnsupportedVersion(version))
                    } else {
                        match decoded_payload(rest) {
                            Err(error) => Err(error),
                            Ok((value, rest)) => if rest.len() != 0 {
                                Err(ConstantExpressionError::TrailingBytes)
                            } else {
                                Ok(value)
                            },
                        }
                    },
                }
            },
        }
    }
}

/// The constant at the front of `input`, and what follows it.
pub open spec fn decoded_payload(input: Seq<u8>) -> Result<
    (ConstantValue, Seq<u8>),
    ConstantExpressionError,
> {
    match read_u8(input) {
        None => Err(ConstantExpressionError::Truncated),
        Some((tag, rest)) => if tag == 1 {
            Ok((ConstantValue::Null, rest))
        } else if tag == 2 {
            match read_u8(rest) {
                None => Err(ConstantExpressionError::Truncated),
                Some((byte, rest)) => if byte == 0 {
                    Ok((ConstantValue::Boolean(false), rest))
                } else if byte == 1 {
                    Ok((ConstantValue::Boolean(true), rest))
                } else {
                    Err(ConstantExpressionError::InvalidBoolean(byte))
                },
            }
        } else if tag == 3 {
            match read_i64(rest) {
                None => Err(ConstantExpressionError::Truncated),
                Some((integer, rest)) => Ok((ConstantValue::Integer(integer), rest)),
            }
        } else if tag == 4 {
            match read_u32(rest) {
                None => Err(ConstantExpressionError::Truncated),
                Some((length, rest)) => match read_bytes(rest, length as nat) {
                    None => Err(ConstantExpressionError::Truncated),
                    Some((bytes, rest)) => match decoded_text(bytes) {
                        None => Err(ConstantExpressionError::InvalidUtf8),
                        Some(text) => Ok((ConstantValue::Text(text), rest)),
                    },
                },
            }
        } else {
            Err(ConstantExpressionError::InvalidKindTag(tag))
        },
    }
}

/// Decoding an encoded constant gives that constant back.
pub proof fn law_constant_round_trip(value: ConstantValue)
    ensures
        encoded_constant(value) matches Ok(bytes) ==> decoded_constant(bytes) == Ok::<
            ConstantValue,
            ConstantExpressionError,
        >(value),
{
    if encoded_constant(value) is Ok {
        let bytes = constant_bytes(value);
        let payload = constant_payload(value);
        lemma_read_bytes(MAGIC@, u32_bytes(FORMAT_VERSION) + payload);
        lemma_read_u32(FORMAT_VERSION, payload);
        let none = Seq::<u8>::empty();
        match value {
            ConstantValue::Null => {
                assert(payload =~= seq![1u8] + none);
                lemma_read_u8(1, none);
            },
            ConstantValue::Boolean(boolean) => {
                let byte = boolean_byte(boolean);
                lemma_read_u8(2, seq![byte]);
                assert(seq![byte] =~= seq![byte] + none);
                lemma_read_u8(byte, none);
            },
            ConstantValue::Integer(integer) => {
                lemma_read_u8(3, i64_bytes(integer));
                assert(i64_bytes(integer) =~= i64_bytes(integer) + none);
                lemma_read_i64(integer, none);
            },
            ConstantValue::Text(text) => {
                let encoded = encode_utf8(text);
                let length = encoded.len() as u32;
                lemma_read_u8(4, u32_bytes(length) + encoded);
                lemma_read_u32(length, encoded);
                assert(encoded =~= encoded + none);
                lemma_read_bytes(encoded, none);
                law_text_round_trip(text, encoded);
            },
        }
        assert(decoded_payload(payload) == Ok::<_, ConstantExpressionError>((value, none)));
        assert(bytes.len() <= MAX_ARTIFACT_BYTES);
    }
}

/// An artefact that decodes is the encoding of what it decodes to: every
/// constant has exactly one artefact.
pub proof fn law_constant_canonical(bytes: Seq<u8>)
    ensures
        decoded_constant(bytes) matches Ok(value) ==> encoded_constant(value) == Ok::<
            Seq<u8>,
            ConstantExpressionError,
        >(bytes),
{
    if decoded_constant(bytes) is Ok {
        let value = decoded_constant(bytes)->Ok_0;
        lemma_bytes_read(bytes, 8);
        let after_magic = read_bytes(bytes, 8)->Some_0.1;
        lemma_u32_read(after_magic);
        let payload = read_u32(after_magic)->Some_0.1;
        lemma_u8_read(payload);
        let (tag, rest) = read_u8(payload)->Some_0;
        lemma_read_u32(FORMAT_VERSION, payload);
        if tag == 2 {
            lemma_u8_read(rest);
        } else if tag == 3 {
            lemma_i64_read(rest);
            lemma_read_i64(read_i64(rest)->Some_0.0, Seq::empty());
        } else if tag == 4 {
            lemma_u32_read(rest);
            let (length, text) = read_u32(rest)->Some_0;
            lemma_bytes_read(text, length as nat);
            lemma_read_u32(length, text);
            law_text_round_trip(Seq::empty(), read_bytes(text, length as nat)->Some_0.0);
        }
        assert(constant_payload(value) =~= payload);
        assert(constant_bytes(value) =~= bytes);
    }
}

/// What follows the constant at the front of the input goes on where the input
/// goes on.
proof fn lemma_payload_extends(input: Seq<u8>, more: Seq<u8>)
    ensures
        match decoded_payload(input) {
            Err(ConstantExpressionError::Truncated) => true,
            Err(error) => decoded_payload(input + more) == Err::<(ConstantValue, Seq<u8>), ConstantExpressionError>(
                error,
            ),
            Ok((value, rest)) => decoded_payload(input + more) == Ok::<
                (ConstantValue, Seq<u8>),
                ConstantExpressionError,
            >((value, rest + more)),
        },
{
    broadcast use group_reads_extend;

}

/// Every strict prefix of an artefact that decodes is refused as truncated.
pub proof fn law_constant_prefix_truncated(bytes: Seq<u8>, length: nat)
    requires
        decoded_constant(bytes) is Ok,
        length < bytes.len(),
    ensures
        decoded_constant(bytes.take(length as int)) == Err::<ConstantValue, ConstantExpressionError>(
            ConstantExpressionError::Truncated,
        ),
{
    broadcast use group_reads_extend;

    let front = bytes.take(length as int);
    let more = bytes.skip(length as int);
    assert(front + more =~= bytes);
    if let Some((_, rest)) = read_bytes(front, 8) {
        if let Some((_, rest)) = read_u32(rest) {
            lemma_payload_extends(rest, more);
        }
    }
}

/// An artefact that decodes is refused with anything behind it: as too long
/// beyond the size limit, and for its trailing bytes within it.
pub proof fn law_constant_trailing_refused(bytes: Seq<u8>, more: Seq<u8>)
    requires
        decoded_constant(bytes) is Ok,
        more.len() > 0,
    ensures
        decoded_constant(bytes + more) == if bytes.len() + more.len() > MAX_ARTIFACT_BYTES {
            Err::<ConstantValue, ConstantExpressionError>(
                ConstantExpressionError::ArtifactSizeLimit {
                    size: (bytes.len() + more.len()) as usize,
                    maximum: MAX_ARTIFACT_BYTES,
                },
            )
        } else {
            Err::<ConstantValue, ConstantExpressionError>(ConstantExpressionError::TrailingBytes)
        },
{
    broadcast use group_reads_extend;

    if let Some((_, rest)) = read_bytes(bytes, 8) {
        if let Some((_, rest)) = read_u32(rest) {
            lemma_payload_extends(rest, more);
        }
    }
}

/// Maps the traversal failures of the shared reader.
fn traversal_error(error: DecodeError) -> (mapped: ConstantExpressionError)
    ensures
        mapped == match error {
            DecodeError::Truncated => ConstantExpressionError::Truncated,
            DecodeError::TrailingBytes => ConstantExpressionError::TrailingBytes,
        },
{
    match error {
        DecodeError::Truncated => ConstantExpressionError::Truncated,
        DecodeError::TrailingBytes => ConstantExpressionError::TrailingBytes,
    }
}

/// Refuses an artefact over the size limit.
fn validate_artifact_size(size: usize) -> (result: Result<(), ConstantExpressionError>)
    ensures
        result == if size > MAX_ARTIFACT_BYTES {
            Err::<(), _>(ConstantExpressionError::ArtifactSizeLimit { size, maximum: MAX_ARTIFACT_BYTES })
        } else {
            Ok(())
        },
{
    if size > MAX_ARTIFACT_BYTES {
        Err(ConstantExpressionError::ArtifactSizeLimit { size, maximum: MAX_ARTIFACT_BYTES })
    } else {
        Ok(())
    }
}

impl ConstantExpression {
    /// Encodes this value into canonical version-1 bytes.
    pub fn encode(&self) -> (result: Result<Vec<u8>, ConstantExpressionError>)
        ensures
            viewed(result) == encoded_constant(self@),
    {
        let size: usize = self.encoded_size()?;
        validate_artifact_size(size)?;
        let mut writer = Writer::with_capacity(size);
        writer.bytes(MAGIC.as_slice());
        writer.u32(FORMAT_VERSION);
        match self {
            ConstantExpression::Null => writer.u8(1),
            ConstantExpression::Boolean(value) => {
                writer.u8(2);
                writer.boolean(*value);
            },
            ConstantExpression::Integer(value) => {
                writer.u8(3);
                writer.i64(*value);
            },
            ConstantExpression::Text(value) => {
                let bytes = value.as_str().as_bytes();
                writer.u8(4);
                writer.u32(bytes.len() as u32);
                writer.bytes(bytes);
            },
        }
        assert(writer@ =~= constant_bytes(self@));
        Ok(writer.finish())
    }

    /// Computes the size of this value's artefact.
    fn encoded_size(&self) -> (result: Result<usize, ConstantExpressionError>)
        ensures
            result == encoded_constant_size(self@),
    {
        match self {
            ConstantExpression::Null => Ok(13),
            ConstantExpression::Boolean(_) => Ok(14),
            ConstantExpression::Integer(_) => Ok(21),
            ConstantExpression::Text(value) => {
                let length: usize = value.as_str().as_bytes().len();
                if length > u32::MAX as usize {
                    Err(ConstantExpressionError::TextSizeLimit { size: length, maximum: u32::MAX as usize })
                } else {
                    Ok(length.saturating_add(17))
                }
            },
        }
    }

    /// Decodes exactly one canonical version-1 artefact.
    pub fn decode(bytes: &[u8]) -> (result: Result<ConstantExpression, ConstantExpressionError>)
        ensures
            viewed(result) == decoded_constant(bytes@),
    {
        validate_artifact_size(bytes.len())?;
        let mut reader = Reader::new(bytes);
        let magic = match reader.take(8) {
            Ok(magic) => magic,
            Err(error) => return Err(traversal_error(error)),
        };
        if !same_bytes(magic, MAGIC.as_slice()) {
            return Err(ConstantExpressionError::InvalidMagic);
        }
        let version: u32 = match reader.u32() {
            Ok(version) => version,
            Err(error) => return Err(traversal_error(error)),
        };
        if version != FORMAT_VERSION {
            return Err(ConstantExpressionError::UnsupportedVersion(version));
        }
        let value = ConstantExpression::decode_payload(&mut reader)?;
        match reader.require_finished() {
            Ok(()) => Ok(value),
            Err(error) => Err(traversal_error(error)),
        }
    }

    /// Decodes the kind tag and payload at the reader's position.
    fn decode_payload(reader: &mut Reader) -> (result: Result<ConstantExpression, ConstantExpressionError>)
        ensures
            match decoded_payload(old(reader)@) {
                Ok((value, rest)) => result is Ok && result->Ok_0@ == value && final(reader)@ == rest,
                Err(error) => result == Err::<ConstantExpression, _>(error),
            },
    {
        let tag: u8 = match reader.u8() {
            Ok(tag) => tag,
            Err(error) => return Err(traversal_error(error)),
        };
        match tag {
            1 => Ok(ConstantExpression::Null),
            2 => match reader.u8() {
                Ok(0) => Ok(ConstantExpression::Boolean(false)),
                Ok(1) => Ok(ConstantExpression::Boolean(true)),
                Ok(byte) => Err(ConstantExpressionError::InvalidBoolean(byte)),
                Err(error) => Err(traversal_error(error)),
            },
            3 => match reader.i64() {
                Ok(integer) => Ok(ConstantExpression::Integer(integer)),
                Err(error) => Err(traversal_error(error)),
            },
            4 => {
                let length: u32 = match reader.u32() {
                    Ok(length) => length,
                    Err(error) => return Err(traversal_error(error)),
                };
                let bytes = match reader.take(length as usize) {
                    Ok(bytes) => bytes,
                    Err(error) => return Err(traversal_error(error)),
                };
                match decode_text(bytes) {
                    Some(text) => Ok(ConstantExpression::Text(text)),
                    None => Err(ConstantExpressionError::InvalidUtf8),
                }
            },
            tag => Err(ConstantExpressionError::InvalidKindTag(tag)),
        }
    }
}

/// An error returned for an invalid or unsupported constant artefact.
#[derive(Clone, Debug, Eq, PartialEq)]
pub enum ConstantExpressionError {
    /// The artefact does not start with the version-1 magic bytes.
    InvalidMagic,
    /// The artefact version is not supported.
    UnsupportedVersion(u32),
    /// The value-kind tag is not defined by version 1.
    InvalidKindTag(u8),
    /// A BOOLEAN payload was not zero or one.
    InvalidBoolean(u8),
    /// A TEXT payload is not valid UTF-8.
    InvalidUtf8,
    /// A TEXT value cannot fit the format's length prefix.
    TextSizeLimit {
        /// The supplied UTF-8 byte length.
        size: usize,
        /// The largest representable byte length.
        maximum: usize,
    },
    /// The encoded artefact exceeds the version-1 resource limit.
    ArtifactSizeLimit {
        /// The supplied artefact size.
        size: usize,
        /// The largest accepted artefact size.
        maximum: usize,
    },
    /// The artefact ends before a complete value can be read.
    Truncated,
    /// The artefact contains bytes after a complete value.
    TrailingBytes,
}

impl ConstantExpressionError {
    /// The text of this error.
    pub open spec fn text(self) -> Seq<char> {
        match self {
            ConstantExpressionError::InvalidMagic => "invalid orna.constant-expression artifact magic"@,
            ConstantExpressionError::UnsupportedVersion(version) =>
                "unsupported orna.constant-expression artifact version "@ + decimal(version as nat),
            ConstantExpressionError::InvalidKindTag(tag) => "invalid constant-expression kind tag "@ + decimal(
                tag as nat,
            ),
            ConstantExpressionError::InvalidBoolean(value) => "invalid constant-expression boolean byte "@ + decimal(
                value as nat,
            ),
            ConstantExpressionError::InvalidUtf8 => "constant TEXT payload is not UTF-8"@,
            ConstantExpressionError::TextSizeLimit { size, maximum } => "constant TEXT size "@ + decimal(size as nat)
                + " exceeds format limit "@ + decimal(maximum as nat),
            ConstantExpressionError::ArtifactSizeLimit { size, maximum } =>
                "constant-expression artifact size "@ + decimal(size as nat) + " exceeds version-1 limit "@ + decimal(
                    maximum as nat,
                ),
            ConstantExpressionError::Truncated => "truncated constant-expression artifact"@,
            ConstantExpressionError::TrailingBytes => "trailing bytes after constant-expression artifact"@,
        }
    }

    /// Renders this error for a reader.
    pub fn message(&self) -> (message: String)
        ensures
            message@ == self.text(),
    {
        match self {
            ConstantExpressionError::InvalidMagic => "invalid orna.constant-expression artifact magic".to_owned(),
            ConstantExpressionError::UnsupportedVersion(version) => with_number(
                "unsupported orna.constant-expression artifact version ",
                *version as u64,
            ),
            ConstantExpressionError::InvalidKindTag(tag) => with_number(
                "invalid constant-expression kind tag ",
                *tag as u64,
            ),
            ConstantExpressionError::InvalidBoolean(value) => with_number(
                "invalid constant-expression boolean byte ",
                *value as u64,
            ),
            ConstantExpressionError::InvalidUtf8 => "constant TEXT payload is not UTF-8".to_owned(),
            ConstantExpressionError::TextSizeLimit { size, maximum } => with_numbers(
                "constant TEXT size ",
                *size as u64,
                " exceeds format limit ",
                *maximum as u64,
            ),
            ConstantExpressionError::ArtifactSizeLimit { size, maximum } => with_numbers(
                "constant-expression artifact size ",
                *size as u64,
                " exceeds version-1 limit ",
                *maximum as u64,
            ),
            ConstantExpressionError::Truncated => "truncated constant-expression artifact".to_owned(),
            ConstantExpressionError::TrailingBytes => "trailing bytes after constant-expression artifact".to_owned(),
        }
    }
}

} // verus!
