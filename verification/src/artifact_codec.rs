//! Bounded binary primitives shared by the canonical artefact formats.
//!
//! Every `read_*` specification function takes the unread input and gives back
//! the value at its front together with what follows it, or `None` where the
//! input ends too early. [`Reader`] and [`Writer`] are their executable
//! counterparts.

use vstd::prelude::*;

use crate::big_endian::{be_bytes, be_value, get_be, put_be};
use crate::big_endian::{lemma_be_bytes_len, lemma_be_bytes_of_value, lemma_be_value_of_bytes, lemma_radix_powers};
use crate::identity::{identity_bytes, FieldId, FunctionId, ParameterId, TypeId};

verus! {

/// The next `count` bytes.
pub open spec fn read_bytes(input: Seq<u8>, count: nat) -> Option<(Seq<u8>, Seq<u8>)> {
    if input.len() < count {
        None
    } else {
        Some((input.take(count as int), input.skip(count as int)))
    }
}

/// One byte.
pub open spec fn read_u8(input: Seq<u8>) -> Option<(u8, Seq<u8>)> {
    if input.len() < 1 {
        None
    } else {
        Some((input[0], input.skip(1)))
    }
}

/// One big-endian 32-bit unsigned integer.
pub open spec fn read_u32(input: Seq<u8>) -> Option<(u32, Seq<u8>)> {
    if input.len() < 4 {
        None
    } else {
        Some((be_value(input.take(4)) as u32, input.skip(4)))
    }
}

/// One big-endian two's complement 64-bit integer.
pub open spec fn read_i64(input: Seq<u8>) -> Option<(i64, Seq<u8>)> {
    if input.len() < 8 {
        None
    } else {
        Some((i64_of_bits(be_value(input.take(8))), input.skip(8)))
    }
}

/// One sixteen-byte identity.
pub open spec fn read_identity(input: Seq<u8>) -> Option<(u128, Seq<u8>)> {
    if input.len() < 16 {
        None
    } else {
        Some((be_value(input.take(16)) as u128, input.skip(16)))
    }
}

/// The four bytes of a 32-bit unsigned integer.
pub open spec fn u32_bytes(value: u32) -> Seq<u8> {
    be_bytes(value as nat, 4)
}

/// The two's complement bit pattern of a 64-bit integer.
pub open spec fn i64_bits(value: i64) -> nat {
    if value >= 0 {
        value as nat
    } else {
        (value + 0x1_0000_0000_0000_0000) as nat
    }
}

/// The 64-bit integer that a two's complement bit pattern stands for.
pub open spec fn i64_of_bits(bits: nat) -> i64 {
    if bits < 0x8000_0000_0000_0000 {
        bits as i64
    } else {
        (bits - 0x1_0000_0000_0000_0000) as i64
    }
}

/// The eight bytes of a 64-bit integer.
pub open spec fn i64_bytes(value: i64) -> Seq<u8> {
    be_bytes(i64_bits(value), 8)
}

/// The byte of a Boolean.
pub open spec fn boolean_byte(value: bool) -> u8 {
    if value {
        1
    } else {
        0
    }
}

/// A size as a machine integer, held at the largest one where it does not fit.
pub open spec fn saturated(size: nat) -> usize {
    if size > usize::MAX {
        usize::MAX
    } else {
        size as usize
    }
}

/// The view of a successful result.
pub open spec fn viewed<T: View, E>(result: Result<T, E>) -> Result<T::V, E> {
    match result {
        Ok(value) => Ok(value@),
        Err(error) => Err(error),
    }
}

/// Bytes that are read from some input are read from any longer input too.
pub broadcast proof fn lemma_bytes_extends(input: Seq<u8>, count: nat, more: Seq<u8>)
    requires
        read_bytes(input, count) is Some,
    ensures
        #[trigger] read_bytes(input + more, count) == Some((read_bytes(input, count)->Some_0.0, read_bytes(input, count)->Some_0.1 + more)),
{
    assert((input + more).take(count as int) =~= input.take(count as int));
    assert((input + more).skip(count as int) =~= input.skip(count as int) + more);
}

/// A byte that is read from some input is read from any longer input too.
pub broadcast proof fn lemma_u8_extends(input: Seq<u8>, more: Seq<u8>)
    requires
        read_u8(input) is Some,
    ensures
        #[trigger] read_u8(input + more) == Some((read_u8(input)->Some_0.0, read_u8(input)->Some_0.1 + more)),
{
    assert((input + more).skip(1) =~= input.skip(1) + more);
}

/// A 32-bit integer that is read from some input is read from any longer input too.
pub broadcast proof fn lemma_u32_extends(input: Seq<u8>, more: Seq<u8>)
    requires
        read_u32(input) is Some,
    ensures
        #[trigger] read_u32(input + more) == Some((read_u32(input)->Some_0.0, read_u32(input)->Some_0.1 + more)),
{
    assert((input + more).take(4) =~= input.take(4));
    assert((input + more).skip(4) =~= input.skip(4) + more);
}

/// A 64-bit integer that is read from some input is read from any longer input too.
pub broadcast proof fn lemma_i64_extends(input: Seq<u8>, more: Seq<u8>)
    requires
        read_i64(input) is Some,
    ensures
        #[trigger] read_i64(input + more) == Some((read_i64(input)->Some_0.0, read_i64(input)->Some_0.1 + more)),
{
    assert((input + more).take(8) =~= input.take(8));
    assert((input + more).skip(8) =~= input.skip(8) + more);
}

/// An identity that is read from some input is read from any longer input too.
pub broadcast proof fn lemma_identity_extends(input: Seq<u8>, more: Seq<u8>)
    requires
        read_identity(input) is Some,
    ensures
        #[trigger] read_identity(input + more) == Some((read_identity(input)->Some_0.0, read_identity(input)->Some_0.1 + more)),
{
    assert((input + more).take(16) =~= input.take(16));
    assert((input + more).skip(16) =~= input.skip(16) + more);
}

pub broadcast group group_reads_extend {
    lemma_bytes_extends,
    lemma_u8_extends,
    lemma_u32_extends,
    lemma_i64_extends,
    lemma_identity_extends,
}

/// Bytes at the front of the input are read back.
pub proof fn lemma_read_bytes(bytes: Seq<u8>, rest: Seq<u8>)
    ensures
        read_bytes(bytes + rest, bytes.len()) == Some((bytes, rest)),
{
    assert((bytes + rest).take(bytes.len() as int) =~= bytes);
    assert((bytes + rest).skip(bytes.len() as int) =~= rest);
}

/// What a byte string was read from.
pub proof fn lemma_bytes_read(input: Seq<u8>, count: nat)
    ensures
        read_bytes(input, count) matches Some((bytes, rest)) ==> input == bytes + rest && bytes.len() == count,
{
    if input.len() >= count {
        assert(input =~= input.take(count as int) + input.skip(count as int));
    }
}

/// A byte at the front of the input is read back.
pub proof fn lemma_read_u8(value: u8, rest: Seq<u8>)
    ensures
        read_u8(seq![value] + rest) == Some((value, rest)),
{
    assert((seq![value] + rest).skip(1) =~= rest);
}

/// What one byte was read from.
pub proof fn lemma_u8_read(input: Seq<u8>)
    ensures
        read_u8(input) matches Some((value, rest)) ==> input == seq![value] + rest,
{
    if input.len() >= 1 {
        assert(input =~= seq![input[0]] + input.skip(1));
    }
}

/// A 32-bit unsigned integer at the front of the input is read back.
pub proof fn lemma_read_u32(value: u32, rest: Seq<u8>)
    ensures
        read_u32(u32_bytes(value) + rest) == Some((value, rest)),
        u32_bytes(value).len() == 4,
{
    lemma_radix_powers();
    lemma_be_bytes_len(value as nat, 4);
    lemma_be_value_of_bytes(value as nat, 4);
    assert((u32_bytes(value) + rest).take(4) =~= u32_bytes(value));
    assert((u32_bytes(value) + rest).skip(4) =~= rest);
}

/// What a 32-bit unsigned integer was read from.
pub proof fn lemma_u32_read(input: Seq<u8>)
    ensures
        read_u32(input) matches Some((value, rest)) ==> input == u32_bytes(value) + rest,
{
    if input.len() >= 4 {
        lemma_radix_powers();
        lemma_be_bytes_of_value(input.take(4));
        assert(input =~= input.take(4) + input.skip(4));
    }
}

/// A 64-bit integer at the front of the input is read back.
pub proof fn lemma_read_i64(value: i64, rest: Seq<u8>)
    ensures
        read_i64(i64_bytes(value) + rest) == Some((value, rest)),
        i64_bytes(value).len() == 8,
{
    lemma_radix_powers();
    lemma_be_bytes_len(i64_bits(value), 8);
    lemma_be_value_of_bytes(i64_bits(value), 8);
    assert((i64_bytes(value) + rest).take(8) =~= i64_bytes(value));
    assert((i64_bytes(value) + rest).skip(8) =~= rest);
}

/// What a 64-bit integer was read from.
pub proof fn lemma_i64_read(input: Seq<u8>)
    ensures
        read_i64(input) matches Some((value, rest)) ==> input == i64_bytes(value) + rest,
{
    if input.len() >= 8 {
        lemma_radix_powers();
        lemma_be_bytes_of_value(input.take(8));
        assert(input =~= input.take(8) + input.skip(8));
    }
}

/// An identity at the front of the input is read back.
pub proof fn lemma_read_identity(value: u128, rest: Seq<u8>)
    ensures
        read_identity(identity_bytes(value) + rest) == Some((value, rest)),
        identity_bytes(value).len() == 16,
{
    lemma_radix_powers();
    lemma_be_bytes_len(value as nat, 16);
    lemma_be_value_of_bytes(value as nat, 16);
    assert((identity_bytes(value) + rest).take(16) =~= identity_bytes(value));
    assert((identity_bytes(value) + rest).skip(16) =~= rest);
}

/// What an identity was read from.
pub proof fn lemma_identity_read(input: Seq<u8>)
    ensures
        read_identity(input) matches Some((value, rest)) ==> input == identity_bytes(value) + rest,
{
    if input.len() >= 16 {
        lemma_radix_powers();
        lemma_be_bytes_of_value(input.take(16));
        assert(input =~= input.take(16) + input.skip(16));
    }
}

/// Format-neutral failures produced while traversing canonical bytes.
#[derive(Clone, Copy, Debug, PartialEq, Eq, Structural)]
pub enum DecodeError {
    /// The input ends before a complete value can be read.
    Truncated,
    /// The input holds bytes after a complete value.
    TrailingBytes,
}

/// Tells whether two byte strings are equal.
pub fn same_bytes(left: &[u8], right: &[u8]) -> (same: bool)
    ensures
        same == (left@ == right@),
{
    if left.len() != right.len() {
        return false;
    }
    let mut index: usize = 0;
    while index < left.len()
        invariant
            index <= left@.len() == right@.len(),
            forall|i: int| 0 <= i < index ==> left@[i] == right@[i],
        decreases left@.len() - index,
    {
        if left[index] != right[index] {
            return false;
        }
        index = index + 1;
    }
    assert(left@ =~= right@);
    true
}

/// Canonical big-endian artefact writer.
pub struct Writer {
    pub bytes: Vec<u8>,
}

impl View for Writer {
    type V = Seq<u8>;

    open spec fn view(&self) -> Seq<u8> {
        self.bytes@
    }
}

impl Writer {
    /// Creates a writer that has written nothing.
    pub fn new() -> (writer: Writer)
        ensures
            writer@ == Seq::<u8>::empty(),
    {
        Writer { bytes: Vec::new() }
    }

    /// Creates an empty writer with room for `capacity` bytes.
    pub fn with_capacity(capacity: usize) -> (writer: Writer)
        ensures
            writer@ == Seq::<u8>::empty(),
    {
        Writer { bytes: Vec::with_capacity(capacity) }
    }

    /// Returns the bytes written.
    pub fn finish(self) -> (bytes: Vec<u8>)
        ensures
            bytes@ == self@,
    {
        self.bytes
    }

    /// Writes a byte string as it stands.
    pub fn bytes(&mut self, bytes: &[u8])
        ensures
            final(self)@ == old(self)@ + bytes@,
    {
        self.bytes.extend_from_slice(bytes);
        assert(self.bytes@ =~= old(self)@ + bytes@);
    }

    /// Writes one byte.
    pub fn u8(&mut self, value: u8)
        ensures
            final(self)@ == old(self)@ + seq![value],
    {
        self.bytes.push(value);
        assert(self.bytes@ =~= old(self)@ + seq![value]);
    }

    /// Writes a big-endian 32-bit unsigned integer.
    pub fn u32(&mut self, value: u32)
        ensures
            final(self)@ == old(self)@ + u32_bytes(value),
    {
        put_be(&mut self.bytes, value as u128, 4);
    }

    /// Writes a big-endian two's complement 64-bit integer.
    pub fn i64(&mut self, value: i64)
        ensures
            final(self)@ == old(self)@ + i64_bytes(value),
    {
        let bits: u128 = if value >= 0 {
            value as u128
        } else {
            (value as i128 + 0x1_0000_0000_0000_0000) as u128
        };
        put_be(&mut self.bytes, bits, 8);
    }

    /// Writes a Boolean as one byte.
    pub fn boolean(&mut self, value: bool)
        ensures
            final(self)@ == old(self)@ + seq![boolean_byte(value)],
    {
        self.u8(if value { 1 } else { 0 });
    }

    /// Writes the sixteen bytes of an identity.
    pub fn identity(&mut self, value: u128)
        ensures
            final(self)@ == old(self)@ + identity_bytes(value),
    {
        put_be(&mut self.bytes, value, 16);
    }

    /// Writes a type identity.
    pub fn type_id(&mut self, value: TypeId)
        ensures
            final(self)@ == old(self)@ + identity_bytes(value.0),
    {
        self.identity(value.0);
    }

    /// Writes a field identity.
    pub fn field_id(&mut self, value: FieldId)
        ensures
            final(self)@ == old(self)@ + identity_bytes(value.0),
    {
        self.identity(value.0);
    }

    /// Writes a function identity.
    pub fn function_id(&mut self, value: FunctionId)
        ensures
            final(self)@ == old(self)@ + identity_bytes(value.0),
    {
        self.identity(value.0);
    }

    /// Writes a parameter identity.
    pub fn parameter_id(&mut self, value: ParameterId)
        ensures
            final(self)@ == old(self)@ + identity_bytes(value.0),
    {
        self.identity(value.0);
    }
}

/// Bounds-checked cursor over one canonical artefact.
///
/// The view of a reader is the input that it has not read yet.
pub struct Reader<'a> {
    pub remaining: &'a [u8],
}

impl<'a> View for Reader<'a> {
    type V = Seq<u8>;

    open spec fn view(&self) -> Seq<u8> {
        self.remaining@
    }
}

impl<'a> Reader<'a> {
    /// Creates a reader at the start of `bytes`.
    pub fn new(bytes: &'a [u8]) -> (reader: Reader<'a>)
        ensures
            reader@ == bytes@,
    {
        Reader { remaining: bytes }
    }

    /// Reads the next `length` bytes.
    pub fn take(&mut self, length: usize) -> (result: Result<&'a [u8], DecodeError>)
        ensures
            match read_bytes(old(self)@, length as nat) {
                Some((bytes, rest)) => result is Ok && result->Ok_0@ == bytes && final(self)@ == rest,
                None => result == Err::<&'a [u8], DecodeError>(DecodeError::Truncated) && final(self)@ == old(self)@,
            },
    {
        if self.remaining.len() < length {
            return Err(DecodeError::Truncated);
        }
        let (front, rest) = self.remaining.split_at(length);
        self.remaining = rest;
        Ok(front)
    }

    /// Reads one byte.
    pub fn u8(&mut self) -> (result: Result<u8, DecodeError>)
        ensures
            match read_u8(old(self)@) {
                Some((value, rest)) => result == Ok::<u8, DecodeError>(value) && final(self)@ == rest,
                None => result == Err::<u8, DecodeError>(DecodeError::Truncated) && final(self)@ == old(self)@,
            },
    {
        let bytes = self.take(1)?;
        Ok(bytes[0])
    }

    /// Reads a big-endian 32-bit unsigned integer.
    pub fn u32(&mut self) -> (result: Result<u32, DecodeError>)
        ensures
            match read_u32(old(self)@) {
                Some((value, rest)) => result == Ok::<u32, DecodeError>(value) && final(self)@ == rest,
                None => result == Err::<u32, DecodeError>(DecodeError::Truncated) && final(self)@ == old(self)@,
            },
    {
        let bytes = self.take(4)?;
        proof {
            lemma_radix_powers();
            lemma_be_bytes_of_value(bytes@);
        }
        Ok(get_be(bytes) as u32)
    }

    /// Reads a big-endian two's complement 64-bit integer.
    pub fn i64(&mut self) -> (result: Result<i64, DecodeError>)
        ensures
            match read_i64(old(self)@) {
                Some((value, rest)) => result == Ok::<i64, DecodeError>(value) && final(self)@ == rest,
                None => result == Err::<i64, DecodeError>(DecodeError::Truncated) && final(self)@ == old(self)@,
            },
    {
        let bytes = self.take(8)?;
        proof {
            lemma_radix_powers();
            lemma_be_bytes_of_value(bytes@);
        }
        let bits: u128 = get_be(bytes);
        if bits < 0x8000_0000_0000_0000 {
            Ok(bits as i64)
        } else {
            Ok((bits as i128 - 0x1_0000_0000_0000_0000) as i64)
        }
    }

    /// Reads the sixteen bytes of an identity.
    pub fn identity(&mut self) -> (result: Result<u128, DecodeError>)
        ensures
            match read_identity(old(self)@) {
                Some((value, rest)) => result == Ok::<u128, DecodeError>(value) && final(self)@ == rest,
                None => result == Err::<u128, DecodeError>(DecodeError::Truncated) && final(self)@ == old(self)@,
            },
    {
        let bytes = self.take(16)?;
        Ok(get_be(bytes))
    }

    /// Reads a type identity.
    pub fn type_id(&mut self) -> (result: Result<TypeId, DecodeError>)
        ensures
            match read_identity(old(self)@) {
                Some((value, rest)) => result == Ok::<TypeId, DecodeError>(TypeId(value)) && final(self)@ == rest,
                None => result == Err::<TypeId, DecodeError>(DecodeError::Truncated) && final(self)@ == old(self)@,
            },
    {
        let value: u128 = self.identity()?;
        Ok(TypeId(value))
    }

    /// Reads a field identity.
    pub fn field_id(&mut self) -> (result: Result<FieldId, DecodeError>)
        ensures
            match read_identity(old(self)@) {
                Some((value, rest)) => result == Ok::<FieldId, DecodeError>(FieldId(value)) && final(self)@ == rest,
                None => result == Err::<FieldId, DecodeError>(DecodeError::Truncated) && final(self)@ == old(self)@,
            },
    {
        let value: u128 = self.identity()?;
        Ok(FieldId(value))
    }

    /// Reads a function identity.
    pub fn function_id(&mut self) -> (result: Result<FunctionId, DecodeError>)
        ensures
            match read_identity(old(self)@) {
                Some((value, rest)) => result == Ok::<FunctionId, DecodeError>(FunctionId(value)) && final(self)@ == rest,
                None => result == Err::<FunctionId, DecodeError>(DecodeError::Truncated) && final(self)@ == old(self)@,
            },
    {
        let value: u128 = self.identity()?;
        Ok(FunctionId(value))
    }

    /// Reads a parameter identity.
    pub fn parameter_id(&mut self) -> (result: Result<ParameterId, DecodeError>)
        ensures
            match read_identity(old(self)@) {
                Some((value, rest)) => result == Ok::<ParameterId, DecodeError>(ParameterId(value)) && final(self)@ == rest,
                None => result == Err::<ParameterId, DecodeError>(DecodeError::Truncated) && final(self)@ == old(self)@,
            },
    {
        let value: u128 = self.identity()?;
        Ok(ParameterId(value))
    }

    /// Requires that the whole input has been read.
    pub fn require_finished(&self) -> (result: Result<(), DecodeError>)
        ensures
            result == if self@.len() == 0 {
                Ok::<(), DecodeError>(())
            } else {
                Err::<(), DecodeError>(DecodeError::TrailingBytes)
            },
    {
        if self.remaining.len() == 0 {
            Ok(())
        } else {
            Err(DecodeError::TrailingBytes)
        }
    }
}

} // verus!
