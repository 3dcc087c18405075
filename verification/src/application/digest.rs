//! Digests of sources, table mutations and staged activations.

use sha2::{Digest, Sha256};
use vstd::prelude::*;
use vstd::string::StringSliceAdditionalSpecFns;
use vstd::utf8;

use crate::artifact_codec::Writer;
use crate::big_endian::{be_bytes, lemma_be_bytes_len, lemma_be_value_of_bytes, lemma_radix_powers, put_be};
use crate::text::law_text_round_trip;

verus! {

/// What separates activation digests from every other digest.
pub const DIGEST_DOMAIN: &'static str = "ORNA-ACTIVATION-DIGEST\0";

/// What separates source mutation identities from every other digest.
pub const SOURCE_MUTATION_DOMAIN: &'static str = "ORNA-SOURCE-MUTATION\0";

/// The SHA-256 digest of some bytes.
pub uninterp spec fn sha256_digest(bytes: Seq<u8>) -> Seq<u8>;

/// Computes a digest with `sha2::Sha256::digest`.
///
/// The claim is that the thirty-two bytes depend on nothing but the bytes that
/// are digested.
#[verifier::external_body]
fn sha256(bytes: &[u8]) -> (digest: [u8; 32])
    ensures
        digest@ == sha256_digest(bytes@),
{
    Sha256::digest(bytes).into()
}

/// Digests a module source.
pub fn source_digest(source: &str) -> (digest: [u8; 32])
    ensures
        digest@ == sha256_digest(utf8::encode_utf8(source@)),
{
    sha256(source.as_bytes())
}

/// One write of a table row, or its removal where there is no value.
#[derive(Clone, Debug, PartialEq, Eq)]
pub struct TableMutation {
    /// The identity of the mutation.
    pub id: [u8; 16],
    /// The table that is written.
    pub table: String,
    /// The encoded key of the row.
    pub key: Vec<u8>,
    /// The encoded row, or nothing where the row is removed.
    pub value: Option<Vec<u8>>,
}

/// The content of a table mutation.
pub struct MutationRecord {
    /// The identity of the mutation.
    pub id: Seq<u8>,
    /// The table that is written.
    pub table: Seq<char>,
    /// The encoded key of the row.
    pub key: Seq<u8>,
    /// The encoded row, or nothing where the row is removed.
    pub value: Option<Seq<u8>>,
}

/// The content of optional bytes.
pub open spec fn optional_bytes(value: Option<Vec<u8>>) -> Option<Seq<u8>> {
    match value {
        Some(bytes) => Some(bytes@),
        None => None,
    }
}

impl View for TableMutation {
    type V = MutationRecord;

    open spec fn view(&self) -> MutationRecord {
        MutationRecord {
            id: self.id@,
            table: self.table@,
            key: self.key@,
            value: optional_bytes(self.value),
        }
    }
}

impl TableMutation {
    /// Returns the identity of the mutation.
    pub fn id(&self) -> (id: [u8; 16])
        ensures
            id@ == self@.id,
    {
        self.id
    }

    /// Returns the table that is written.
    pub fn table(&self) -> (table: &str)
        ensures
            table@ == self@.table,
    {
        self.table.as_str()
    }

    /// Returns the encoded key of the row.
    pub fn key(&self) -> (key: &[u8])
        ensures
            key@ == self@.key,
    {
        self.key.as_slice()
    }

    /// Returns the encoded row, or nothing where the row is removed.
    pub fn value(&self) -> (value: Option<&[u8]>)
        ensures
            match value {
                Some(bytes) => self@.value == Some(bytes@),
                None => self@.value is None,
            },
    {
        match &self.value {
            Some(bytes) => Some(bytes.as_slice()),
            None => None,
        }
    }

    /// Copies the mutation.
    pub fn copied(&self) -> (copy: TableMutation)
        ensures
            copy@ == self@,
    {
        TableMutation {
            id: self.id,
            table: self.table.clone(),
            key: copied_bytes(self.key.as_slice()),
            value: copied_optional(&self.value),
        }
    }
}

/// Copies bytes.
fn copied_bytes(bytes: &[u8]) -> (copy: Vec<u8>)
    ensures
        copy@ == bytes@,
{
    let mut writer = Writer::new();
    writer.bytes(bytes);
    assert(writer@ =~= bytes@);
    writer.finish()
}

/// Copies optional bytes.
pub fn copied_optional(bytes: &Option<Vec<u8>>) -> (copy: Option<Vec<u8>>)
    ensures
        optional_bytes(copy) == optional_bytes(*bytes),
{
    match bytes {
        Some(bytes) => Some(copied_bytes(bytes.as_slice())),
        None => None,
    }
}

/// The contents of a list of mutations.
pub open spec fn records(mutations: Seq<TableMutation>) -> Seq<MutationRecord> {
    Seq::new(mutations.len(), |index: int| mutations[index]@)
}

/// Copies a list of mutations.
pub fn copied_mutations(mutations: &[TableMutation]) -> (copies: Vec<TableMutation>)
    ensures
        records(copies@) == records(mutations@),
{
    let mut copies: Vec<TableMutation> = Vec::new();
    let mut index: usize = 0;
    while index < mutations.len()
        invariant
            index <= mutations@.len(),
            copies@.len() == index,
            forall|place: int| 0 <= place < index ==> (#[trigger] copies@[place])@ == mutations@[place]@,
        decreases mutations@.len() - index,
    {
        copies.push(mutations[index].copied());
        index += 1;
    }
    assert(records(copies@) =~= records(mutations@));
    copies
}

/// Bytes behind their length.
pub open spec fn framed(bytes: Seq<u8>) -> Seq<u8> {
    be_bytes(bytes.len(), 8) + bytes
}

/// What is digested of an optional row.
pub open spec fn framed_value(value: Option<Seq<u8>>) -> Seq<u8> {
    match value {
        Some(bytes) => seq![1u8] + framed(bytes),
        None => seq![0u8],
    }
}

/// What is digested of one mutation.
pub open spec fn framed_mutation(mutation: MutationRecord) -> Seq<u8> {
    mutation.id + (framed(utf8::encode_utf8(mutation.table)) + (framed(mutation.key) + framed_value(mutation.value)))
}

/// What is digested of the mutations from `index` on.
pub open spec fn framed_mutations(mutations: Seq<MutationRecord>, index: nat) -> Seq<u8>
    decreases mutations.len() - index,
{
    if index >= mutations.len() {
        Seq::empty()
    } else {
        framed_mutation(mutations[index as int]) + framed_mutations(mutations, index + 1)
    }
}

/// The captured context that an activation is staged against.
#[derive(Clone, Debug, PartialEq, Eq)]
pub struct ActivationContext {
    /// The digest of the generation that the activation was captured in.
    pub generation_digest: [u8; 32],
    /// The canonical encoding of the captured snapshot, where it has one.
    pub snapshot: Option<Vec<u8>>,
    /// The whole seconds and the nanoseconds from the Unix epoch to the
    /// activation, or nothing where it lies before the epoch.
    pub elapsed: Option<(u64, u32)>,
}

/// The content of an activation context whose snapshot has an encoding.
pub struct ActivationPin {
    /// The digest of the generation that the activation was captured in.
    pub generation_digest: Seq<u8>,
    /// The canonical encoding of the captured snapshot.
    pub snapshot: Seq<u8>,
    /// The whole seconds from the epoch to the activation.
    pub seconds: u64,
    /// The nanoseconds beside the seconds.
    pub nanoseconds: u32,
}

impl View for ActivationContext {
    type V = Option<ActivationPin>;

    open spec fn view(&self) -> Option<ActivationPin> {
        match self.snapshot {
            Some(snapshot) => Some(
                ActivationPin {
                    generation_digest: self.generation_digest@,
                    snapshot: snapshot@,
                    seconds: match self.elapsed {
                        Some((seconds, _)) => seconds,
                        None => 0,
                    },
                    nanoseconds: match self.elapsed {
                        Some((_, nanoseconds)) => nanoseconds,
                        None => 0,
                    },
                },
            ),
            None => None,
        }
    }
}

/// What is digested of an activation and its ordered mutations.
pub open spec fn activation_preimage(pin: ActivationPin, mutations: Seq<MutationRecord>) -> Seq<u8> {
    DIGEST_DOMAIN.spec_bytes() + (pin.generation_digest + (framed(pin.snapshot) + (be_bytes(pin.seconds as nat, 8) + (
    be_bytes(pin.nanoseconds as nat, 4) + framed_mutations(mutations, 0)))))
}

/// What is digested for the identity of a source mutation.
pub open spec fn mutation_preimage(
    table: Seq<char>,
    key: Seq<u8>,
    ordinal: u64,
    value: Option<Seq<u8>>,
) -> Seq<u8> {
    SOURCE_MUTATION_DOMAIN.spec_bytes() + (utf8::encode_utf8(table) + (seq![0u8] + (key + (be_bytes(ordinal as nat, 8) + (
    match value {
        Some(bytes) => seq![1u8] + bytes,
        None => seq![0u8],
    })))))
}

/// Appends bytes behind their length.
fn put_bytes(preimage: &mut Vec<u8>, bytes: &[u8])
    ensures
        final(preimage)@ == old(preimage)@ + framed(bytes@),
{
    put_be(preimage, bytes.len() as u128, 8);
    preimage.extend_from_slice(bytes);
    assert(preimage@ =~= old(preimage)@ + framed(bytes@));
}

/// Appends what is digested of one mutation.
fn put_mutation(preimage: &mut Vec<u8>, mutation: &TableMutation)
    ensures
        final(preimage)@ == old(preimage)@ + framed_mutation(mutation@),
{
    preimage.extend_from_slice(mutation.id.as_slice());
    put_bytes(preimage, mutation.table.as_str().as_bytes());
    put_bytes(preimage, mutation.key.as_slice());
    match &mutation.value {
        Some(bytes) => {
            preimage.push(1);
            put_bytes(preimage, bytes.as_slice());
        },
        None => preimage.push(0),
    }
    assert(preimage@ =~= old(preimage)@ + framed_mutation(mutation@));
}

/// Computes the digest of an activation whose snapshot has an encoding.
fn activation_digest(
    generation_digest: &[u8; 32],
    snapshot: &[u8],
    seconds: u64,
    nanoseconds: u32,
    mutations: &[TableMutation],
) -> (digest: [u8; 32])
    ensures
        digest@ == sha256_digest(
            activation_preimage(
                (ActivationPin { generation_digest: generation_digest@, snapshot: snapshot@, seconds, nanoseconds }),
                records(mutations@),
            ),
        ),
{
    let mut preimage: Vec<u8> = Vec::new();
    preimage.extend_from_slice(DIGEST_DOMAIN.as_bytes());
    preimage.extend_from_slice(generation_digest.as_slice());
    put_bytes(&mut preimage, snapshot);
    put_be(&mut preimage, seconds as u128, 8);
    put_be(&mut preimage, nanoseconds as u128, 4);
    let ghost whole = activation_preimage(
        ActivationPin { generation_digest: generation_digest@, snapshot: snapshot@, seconds, nanoseconds },
        records(mutations@),
    );
    assert(preimage@ + framed_mutations(records(mutations@), 0) =~= whole);
    let mut index: usize = 0;
    while index < mutations.len()
        invariant
            index <= mutations@.len(),
            preimage@ + framed_mutations(records(mutations@), index as nat) == whole,
        decreases mutations@.len() - index,
    {
        let ghost before = preimage@;
        put_mutation(&mut preimage, &mutations[index]);
        proof {
            let list = records(mutations@);
            assert(list[index as int] == mutations@[index as int]@);
            assert(preimage@ + framed_mutations(list, (index + 1) as nat) =~= before + framed_mutations(
                list,
                index as nat,
            ));
        }
        index += 1;
    }
    assert(preimage@ =~= whole);
    sha256(preimage.as_slice())
}

/// Computes the digest of an activation and its ordered mutations, or nothing
/// where the snapshot has no canonical encoding.
pub fn context_digest(context: &ActivationContext, mutations: &[TableMutation]) -> (digest: Option<[u8; 32]>)
    ensures
        match (context@, digest) {
            (Some(pin), Some(bytes)) => bytes@ == sha256_digest(activation_preimage(pin, records(mutations@))),
            (None, None) => true,
            _ => false,
        },
{
    match &context.snapshot {
        Some(snapshot) => {
            let (seconds, nanoseconds): (u64, u32) = match context.elapsed {
                Some(elapsed) => elapsed,
                None => (0, 0),
            };
            Some(
                activation_digest(
                    &context.generation_digest,
                    snapshot.as_slice(),
                    seconds,
                    nanoseconds,
                    mutations,
                ),
            )
        },
        None => None,
    }
}

/// Returns the identity that a digest gives a mutation: its first half.
pub fn mutation_identity(digest: [u8; 32]) -> (id: [u8; 16])
    ensures
        id@ == digest@.take(16),
{
    let id = [
        digest[0],
        digest[1],
        digest[2],
        digest[3],
        digest[4],
        digest[5],
        digest[6],
        digest[7],
        digest[8],
        digest[9],
        digest[10],
        digest[11],
        digest[12],
        digest[13],
        digest[14],
        digest[15],
    ];
    assert(id@ =~= digest@.take(16));
    id
}

/// The mutation that a source performs as its `ordinal`-th.
pub open spec fn source_record(
    table: Seq<char>,
    key: Seq<u8>,
    ordinal: u64,
    value: Option<Seq<u8>>,
) -> MutationRecord {
    MutationRecord {
        id: sha256_digest(mutation_preimage(table, key, ordinal, value)).take(16),
        table,
        key,
        value,
    }
}

/// Builds the mutation that a source performs as its `ordinal`-th.
pub fn source_mutation(
    table: &str,
    key: Vec<u8>,
    ordinal: u64,
    value: Option<Vec<u8>>,
) -> (mutation: TableMutation)
    ensures
        mutation@ == source_record(table@, key@, ordinal, optional_bytes(value)),
{
    let mut preimage: Vec<u8> = Vec::new();
    preimage.extend_from_slice(SOURCE_MUTATION_DOMAIN.as_bytes());
    preimage.extend_from_slice(table.as_bytes());
    preimage.push(0);
    preimage.extend_from_slice(key.as_slice());
    put_be(&mut preimage, ordinal as u128, 8);
    match &value {
        Some(bytes) => {
            preimage.push(1);
            preimage.extend_from_slice(bytes.as_slice());
        },
        None => preimage.push(0),
    }
    assert(preimage@ =~= mutation_preimage(table@, key@, ordinal, optional_bytes(value)));
    let id = mutation_identity(sha256(preimage.as_slice()));
    TableMutation { id, table: table.to_owned(), key, value }
}

/// Tells whether the lengths of a mutation are those of a real one.
pub open spec fn mutation_sized(mutation: MutationRecord) -> bool {
    &&& mutation.id.len() == 16
    &&& utf8::encode_utf8(mutation.table).len() <= u64::MAX
    &&& mutation.key.len() <= u64::MAX
    &&& mutation.value matches Some(bytes) ==> bytes.len() <= u64::MAX
}

/// Tells whether the lengths of an activation context are those of a real one.
pub open spec fn pin_sized(pin: ActivationPin) -> bool {
    pin.generation_digest.len() == 32 && pin.snapshot.len() <= u64::MAX
}

/// Two sequences that start with parts of the same length are equal only part
/// by part.
proof fn lemma_split(first: Seq<u8>, rest: Seq<u8>, other: Seq<u8>, other_rest: Seq<u8>)
    requires
        first.len() == other.len(),
        first + rest == other + other_rest,
    ensures
        first == other,
        rest == other_rest,
{
    assert(first =~= (first + rest).take(first.len() as int));
    assert(other =~= (other + other_rest).take(first.len() as int));
    assert(rest =~= (first + rest).skip(first.len() as int));
    assert(other_rest =~= (other + other_rest).skip(first.len() as int));
}

/// Equal big-endian bytes stand for equal numbers.
proof fn lemma_number(first: nat, other: nat, width: nat)
    requires
        width == 4 || width == 8,
        first < crate::big_endian::radix_power(width),
        other < crate::big_endian::radix_power(width),
        be_bytes(first, width) == be_bytes(other, width),
    ensures
        first == other,
{
    lemma_be_value_of_bytes(first, width);
    lemma_be_value_of_bytes(other, width);
}

/// A frame at the front of a sequence is read in only one way.
proof fn lemma_frame(first: Seq<u8>, rest: Seq<u8>, other: Seq<u8>, other_rest: Seq<u8>)
    requires
        first.len() <= u64::MAX,
        other.len() <= u64::MAX,
        framed(first) + rest == framed(other) + other_rest,
    ensures
        first == other,
        rest == other_rest,
{
    lemma_radix_powers();
    lemma_be_bytes_len(first.len(), 8);
    lemma_be_bytes_len(other.len(), 8);
    assert(framed(first) + rest =~= be_bytes(first.len(), 8) + (first + rest));
    assert(framed(other) + other_rest =~= be_bytes(other.len(), 8) + (other + other_rest));
    lemma_split(be_bytes(first.len(), 8), first + rest, be_bytes(other.len(), 8), other + other_rest);
    lemma_number(first.len(), other.len(), 8);
    lemma_split(first, rest, other, other_rest);
}

/// An optional row at the front of a sequence is read in only one way.
proof fn lemma_value_frame(first: Option<Seq<u8>>, rest: Seq<u8>, other: Option<Seq<u8>>, other_rest: Seq<u8>)
    requires
        first matches Some(bytes) ==> bytes.len() <= u64::MAX,
        other matches Some(bytes) ==> bytes.len() <= u64::MAX,
        framed_value(first) + rest == framed_value(other) + other_rest,
    ensures
        first == other,
        rest == other_rest,
{
    let whole = framed_value(first) + rest;
    assert(whole[0] == framed_value(first)[0]);
    assert(whole[0] == framed_value(other)[0]);
    match (first, other) {
        (Some(bytes), Some(others)) => {
            assert(whole =~= seq![1u8] + (framed(bytes) + rest));
            assert(whole =~= seq![1u8] + (framed(others) + other_rest));
            lemma_split(seq![1u8], framed(bytes) + rest, seq![1u8], framed(others) + other_rest);
            lemma_frame(bytes, rest, others, other_rest);
        },
        (None, None) => {
            lemma_split(seq![0u8], rest, seq![0u8], other_rest);
        },
        _ => {},
    }
}

/// A mutation at the front of a sequence is read in only one way.
proof fn lemma_mutation_frame(first: MutationRecord, rest: Seq<u8>, other: MutationRecord, other_rest: Seq<u8>)
    requires
        mutation_sized(first),
        mutation_sized(other),
        framed_mutation(first) + rest == framed_mutation(other) + other_rest,
    ensures
        first == other,
        rest == other_rest,
{
    let table = utf8::encode_utf8(first.table);
    let other_table = utf8::encode_utf8(other.table);
    let value = framed_value(first.value) + rest;
    let other_value = framed_value(other.value) + other_rest;
    let key = framed(first.key) + value;
    let other_key = framed(other.key) + other_value;
    assert(framed_mutation(first) + rest =~= first.id + (framed(table) + key));
    assert(framed_mutation(other) + other_rest =~= other.id + (framed(other_table) + other_key));
    lemma_split(first.id, framed(table) + key, other.id, framed(other_table) + other_key);
    lemma_frame(table, key, other_table, other_key);
    law_text_round_trip(first.table, table);
    law_text_round_trip(other.table, other_table);
    lemma_frame(first.key, value, other.key, other_value);
    lemma_value_frame(first.value, rest, other.value, other_rest);
}

/// The mutations at the end of a sequence are read in only one way.
proof fn lemma_mutation_frames(mutations: Seq<MutationRecord>, others: Seq<MutationRecord>, index: nat)
    requires
        index <= mutations.len(),
        index <= others.len(),
        forall|place: int| 0 <= place < mutations.len() ==> mutation_sized(#[trigger] mutations[place]),
        forall|place: int| 0 <= place < others.len() ==> mutation_sized(#[trigger] others[place]),
        mutations.take(index as int) == others.take(index as int),
        framed_mutations(mutations, index) == framed_mutations(others, index),
    ensures
        mutations == others,
    decreases mutations.len() - index,
{
    if index == mutations.len() || index == others.len() {
        if index < others.len() {
            assert(framed_mutations(others, index).len() >= others[index as int].id.len());
        }
        if index < mutations.len() {
            assert(framed_mutations(mutations, index).len() >= mutations[index as int].id.len());
        }
        assert(mutations =~= mutations.take(index as int));
        assert(others =~= others.take(index as int));
    } else {
        lemma_mutation_frame(
            mutations[index as int],
            framed_mutations(mutations, index + 1),
            others[index as int],
            framed_mutations(others, index + 1),
        );
        assert(mutations.take(index as int + 1) =~= mutations.take(index as int).push(mutations[index as int]));
        assert(others.take(index as int + 1) =~= others.take(index as int).push(others[index as int]));
        lemma_mutation_frames(mutations, others, index + 1);
    }
}

/// What is digested of a staged activation belongs to it alone: no other
/// context and no other ordered batch of mutations shares it, so a digest can
/// be reused across neither.
pub proof fn law_activation_preimage_unique(
    pin: ActivationPin,
    mutations: Seq<MutationRecord>,
    other_pin: ActivationPin,
    others: Seq<MutationRecord>,
)
    requires
        pin_sized(pin),
        pin_sized(other_pin),
        forall|place: int| 0 <= place < mutations.len() ==> mutation_sized(#[trigger] mutations[place]),
        forall|place: int| 0 <= place < others.len() ==> mutation_sized(#[trigger] others[place]),
        activation_preimage(pin, mutations) == activation_preimage(other_pin, others),
    ensures
        pin == other_pin,
        mutations == others,
{
    lemma_radix_powers();
    lemma_be_bytes_len(pin.seconds as nat, 8);
    lemma_be_bytes_len(other_pin.seconds as nat, 8);
    lemma_be_bytes_len(pin.nanoseconds as nat, 4);
    lemma_be_bytes_len(other_pin.nanoseconds as nat, 4);
    let tail = framed_mutations(mutations, 0);
    let other_tail = framed_mutations(others, 0);
    let nanoseconds = be_bytes(pin.nanoseconds as nat, 4) + tail;
    let other_nanoseconds = be_bytes(other_pin.nanoseconds as nat, 4) + other_tail;
    let seconds = be_bytes(pin.seconds as nat, 8) + nanoseconds;
    let other_seconds = be_bytes(other_pin.seconds as nat, 8) + other_nanoseconds;
    let snapshot = framed(pin.snapshot) + seconds;
    let other_snapshot = framed(other_pin.snapshot) + other_seconds;
    lemma_split(
        DIGEST_DOMAIN.spec_bytes(),
        pin.generation_digest + snapshot,
        DIGEST_DOMAIN.spec_bytes(),
        other_pin.generation_digest + other_snapshot,
    );
    lemma_split(pin.generation_digest, snapshot, other_pin.generation_digest, other_snapshot);
    lemma_frame(pin.snapshot, seconds, other_pin.snapshot, other_seconds);
    lemma_split(
        be_bytes(pin.seconds as nat, 8),
        nanoseconds,
        be_bytes(other_pin.seconds as nat, 8),
        other_nanoseconds,
    );
    lemma_number(pin.seconds as nat, other_pin.seconds as nat, 8);
    lemma_split(
        be_bytes(pin.nanoseconds as nat, 4),
        tail,
        be_bytes(other_pin.nanoseconds as nat, 4),
        other_tail,
    );
    lemma_number(pin.nanoseconds as nat, other_pin.nanoseconds as nat, 4);
    assert(mutations.take(0) =~= others.take(0));
    lemma_mutation_frames(mutations, others, 0);
}

/// The same write performed twice by one source is identified from different
/// bytes each time, because each has an ordinal of its own.
pub proof fn law_repeated_write_preimages_differ(
    table: Seq<char>,
    key: Seq<u8>,
    value: Option<Seq<u8>>,
    ordinal: u64,
    other: u64,
)
    requires
        ordinal != other,
    ensures
        mutation_preimage(table, key, ordinal, value) != mutation_preimage(table, key, other, value),
{
    lemma_radix_powers();
    lemma_be_bytes_len(ordinal as nat, 8);
    lemma_be_bytes_len(other as nat, 8);
    let end = match value {
        Some(bytes) => seq![1u8] + bytes,
        None => seq![0u8],
    };
    let domain = SOURCE_MUTATION_DOMAIN.spec_bytes();
    let name = utf8::encode_utf8(table);
    let tail = be_bytes(ordinal as nat, 8) + end;
    let other_tail = be_bytes(other as nat, 8) + end;
    if mutation_preimage(table, key, ordinal, value) == mutation_preimage(table, key, other, value) {
        lemma_split(domain, name + (seq![0u8] + (key + tail)), domain, name + (seq![0u8] + (key + other_tail)));
        lemma_split(name, seq![0u8] + (key + tail), name, seq![0u8] + (key + other_tail));
        lemma_split(seq![0u8], key + tail, seq![0u8], key + other_tail);
        lemma_split(key, tail, key, other_tail);
        lemma_split(be_bytes(ordinal as nat, 8), end, be_bytes(other as nat, 8), end);
        lemma_number(ordinal as nat, other as nat, 8);
    }
}

} // verus!
