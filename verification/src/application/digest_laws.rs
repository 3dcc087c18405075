//! What digests are taken of.
//!
//! Two digests can only be told to be taken of the same bytes where everything
//! that they stand for is the same.

use vstd::prelude::*;
use vstd::string::StringSliceAdditionalSpecFns;
use vstd::utf8::encode_utf8;

use crate::application::admission::ApplicationAuthority;
use crate::application::digest::{
    activation_preimage, framed_mutation, framed_mutations, law_activation_preimage_unique, mutation_preimage,
    mutation_sized, records, sha256_digest, source_mutation, ActivationContext, MutationRecord, TableMutation,
    DIGEST_DOMAIN, SOURCE_MUTATION_DOMAIN,
};
use crate::application::error::ApplicationError;
use crate::big_endian::{be_bytes, be_value, lemma_be_bytes_len, lemma_be_value_of_bytes, lemma_radix_powers};

verus! {

/// Where two digests of staged work are taken of the same bytes, they are of the
/// same generation, the same snapshot, the same activation time, and the same
/// mutations in the same order. An activation before the epoch counts as one at
/// the epoch.
pub proof fn law_digest_covers_inputs(
    context: ActivationContext,
    mutations: &[TableMutation],
    digest: Result<[u8; 32], ApplicationError>,
    other_context: ActivationContext,
    others: &[TableMutation],
    other_digest: Result<[u8; 32], ApplicationError>,
)
    requires
        call_ensures(ApplicationAuthority::canonical_digest, (&context, mutations), digest),
        call_ensures(ApplicationAuthority::canonical_digest, (&other_context, others), other_digest),
        digest is Ok,
        other_digest is Ok,
        forall|place: int| 0 <= place < mutations@.len() ==> mutation_sized((#[trigger] mutations@[place])@),
        forall|place: int| 0 <= place < others@.len() ==> mutation_sized((#[trigger] others@[place])@),
        context.snapshot matches Some(snapshot) ==> snapshot@.len() <= u64::MAX,
        other_context.snapshot matches Some(snapshot) ==> snapshot@.len() <= u64::MAX,
    ensures
        exists|bytes: Seq<u8>, other_bytes: Seq<u8>| #[trigger]
            sha256_digest(bytes) == digest->Ok_0@ && #[trigger] sha256_digest(other_bytes) == other_digest->Ok_0@ && (
            bytes == other_bytes ==> {
                &&& context.generation_digest@ == other_context.generation_digest@
                &&& context.snapshot is Some
                &&& other_context.snapshot is Some
                &&& context.snapshot->Some_0@ == other_context.snapshot->Some_0@
                &&& elapsed_or_epoch(context) == elapsed_or_epoch(other_context)
                &&& mutations@.len() == others@.len()
                &&& forall|place: int|
                    0 <= place < mutations@.len() ==> (#[trigger] mutations@[place])@ == others@[place]@
            }),
{
    let pin = context@->Some_0;
    let other_pin = other_context@->Some_0;
    let list = records(mutations@);
    let other_list = records(others@);
    let bytes = activation_preimage(pin, list);
    let other_bytes = activation_preimage(other_pin, other_list);
    assert(sha256_digest(bytes) == digest->Ok_0@ && sha256_digest(other_bytes) == other_digest->Ok_0@);
    if bytes == other_bytes {
        assert forall|place: int| 0 <= place < list.len() implies mutation_sized(#[trigger] list[place]) by {
            assert(mutation_sized(mutations@[place]@));
        }
        assert forall|place: int| 0 <= place < other_list.len() implies mutation_sized(
            #[trigger] other_list[place],
        ) by {
            assert(mutation_sized(others@[place]@));
        }
        law_activation_preimage_unique(pin, list, other_pin, other_list);
        assert(list.len() == mutations@.len() && other_list.len() == others@.len());
        assert forall|place: int| 0 <= place < mutations@.len() implies (#[trigger] mutations@[place])@
            == others@[place]@ by {
            assert(list[place] == other_list[place]);
        }
    }
}

/// The time from the epoch to an activation, or no time where it lies before it.
pub open spec fn elapsed_or_epoch(context: ActivationContext) -> (u64, u32) {
    match context.elapsed {
        Some(elapsed) => elapsed,
        None => (0, 0),
    }
}

/// Two sequences that start with parts of the same length are equal only part by
/// part.
proof fn lemma_parts(first: Seq<u8>, rest: Seq<u8>, other: Seq<u8>, other_rest: Seq<u8>)
    requires
        first.len() == other.len(),
        first + rest == other + other_rest,
    ensures
        first == other,
        rest == other_rest,
{
    assert(first =~= (first + rest).take(first.len() as int));
    assert(other =~= (other + other_rest).take(first.len() as int));
    assert(rest =~= (first + rest).skip(first.len() as int));
    assert(other_rest =~= (other + other_rest).skip(first.len() as int));
}

/// The identity of a source mutation is taken of its table, its key, its ordinal
/// and its row: two mutations with keys of one length whose identities are taken
/// of the same bytes are the same in all of them, where no name of a table holds
/// a zero.
pub proof fn law_mutation_identity_covers_inputs(
    table: Seq<char>,
    key: Seq<u8>,
    ordinal: u64,
    value: Option<Seq<u8>>,
    other_table: Seq<char>,
    other_key: Seq<u8>,
    other_ordinal: u64,
    other_value: Option<Seq<u8>>,
)
    requires
        key.len() == other_key.len(),
        !encode_utf8(table).contains(0),
        !encode_utf8(other_table).contains(0),
        mutation_preimage(table, key, ordinal, value) == mutation_preimage(
            other_table,
            other_key,
            other_ordinal,
            other_value,
        ),
    ensures
        encode_utf8(table) == encode_utf8(other_table),
        key == other_key,
        ordinal == other_ordinal,
        value == other_value,
{
    broadcast use lemma_be_bytes_len;

    lemma_radix_powers();
    let domain = SOURCE_MUTATION_DOMAIN.spec_bytes();
    let name = encode_utf8(table);
    let other_name = encode_utf8(other_table);
    let end = match value {
        Some(bytes) => seq![1u8] + bytes,
        None => seq![0u8],
    };
    let other_end = match other_value {
        Some(bytes) => seq![1u8] + bytes,
        None => seq![0u8],
    };
    let tail = key + (be_bytes(ordinal as nat, 8) + end);
    let other_tail = other_key + (be_bytes(other_ordinal as nat, 8) + other_end);
    let after = name + (seq![0u8] + tail);
    let other_after = other_name + (seq![0u8] + other_tail);
    lemma_parts(domain, after, domain, other_after);
    if name.len() < other_name.len() {
        assert(after[name.len() as int] == 0);
        assert(other_after[name.len() as int] == other_name[name.len() as int]);
        assert(other_name.contains(other_name[name.len() as int]));
    }
    if other_name.len() < name.len() {
        assert(other_after[other_name.len() as int] == 0);
        assert(after[other_name.len() as int] == name[other_name.len() as int]);
        assert(name.contains(name[other_name.len() as int]));
    }
    lemma_parts(name, seq![0u8] + tail, other_name, seq![0u8] + other_tail);
    lemma_parts(seq![0u8], tail, seq![0u8], other_tail);
    lemma_parts(key, be_bytes(ordinal as nat, 8) + end, other_key, be_bytes(other_ordinal as nat, 8) + other_end);
    lemma_parts(be_bytes(ordinal as nat, 8), end, be_bytes(other_ordinal as nat, 8), other_end);
    lemma_be_value_of_bytes(ordinal as nat, 8);
    lemma_be_value_of_bytes(other_ordinal as nat, 8);
    match (value, other_value) {
        (Some(bytes), Some(others)) => {
            lemma_parts(seq![1u8], bytes, seq![1u8], others);
        },
        (Some(bytes), None) => {
            assert(end[0] == 1);
        },
        (None, Some(others)) => {
            assert(other_end[0] == 1);
        },
        (None, None) => {},
    }
}

/// Tells whether bytes are those that the digest of staged work is taken of: the
/// domain, the digest of the generation, the length and the bytes of the
/// snapshot, the seconds, the nanoseconds, and the mutations.
pub open spec fn activation_bytes(
    bytes: Seq<u8>,
    context: ActivationContext,
    snapshot: Seq<u8>,
    mutations: Seq<TableMutation>,
) -> bool {
    let start = encode_utf8("ORNA-ACTIVATION-DIGEST\0"@).len() as int;
    let behind = start + 40 + snapshot.len();
    &&& bytes.len() >= behind + 12
    &&& bytes.take(start) == encode_utf8("ORNA-ACTIVATION-DIGEST\0"@)
    &&& bytes.subrange(start, start + 32) == context.generation_digest@
    &&& be_value(bytes.subrange(start + 32, start + 40)) == snapshot.len()
    &&& bytes.subrange(start + 40, behind) == snapshot
    &&& be_value(bytes.subrange(behind, behind + 8)) == elapsed_or_epoch(context).0
    &&& be_value(bytes.subrange(behind + 8, behind + 12)) == elapsed_or_epoch(context).1
    &&& bytes.skip(behind + 12) == framed_mutations(records(mutations), 0)
}

/// The digest of staged work is that of the context and the mutations.
pub proof fn law_digest_layout(
    context: ActivationContext,
    mutations: &[TableMutation],
    digest: Result<[u8; 32], ApplicationError>,
)
    requires
        call_ensures(ApplicationAuthority::canonical_digest, (&context, mutations), digest),
        context.snapshot matches Some(snapshot) ==> snapshot@.len() <= u64::MAX,
    ensures
        digest is Ok <==> context.snapshot is Some,
        digest is Ok ==> exists|bytes: Seq<u8>| #[trigger]
            sha256_digest(bytes) == digest->Ok_0@ && activation_bytes(
                bytes,
                context,
                context.snapshot->Some_0@,
                mutations@,
            ),
{
    broadcast use lemma_be_bytes_len;

    if let Some(encoded) = context.snapshot {
        let snapshot = encoded@;
        let pin = context@->Some_0;
        let bytes = activation_preimage(pin, records(mutations@));
        let domain = encode_utf8("ORNA-ACTIVATION-DIGEST\0"@);
        let start = domain.len() as int;
        let behind = start + 40 + snapshot.len();
        lemma_radix_powers();
        lemma_be_value_of_bytes(snapshot.len(), 8);
        lemma_be_value_of_bytes(pin.seconds as nat, 8);
        lemma_be_value_of_bytes(pin.nanoseconds as nat, 4);
        assert(DIGEST_DOMAIN.spec_bytes() == domain);
        assert(bytes.take(start) =~= domain);
        assert(bytes.subrange(start, start + 32) =~= context.generation_digest@);
        assert(bytes.subrange(start + 32, start + 40) =~= be_bytes(snapshot.len(), 8));
        assert(bytes.subrange(start + 40, behind) =~= snapshot);
        assert(bytes.subrange(behind, behind + 8) =~= be_bytes(pin.seconds as nat, 8));
        assert(bytes.subrange(behind + 8, behind + 12) =~= be_bytes(pin.nanoseconds as nat, 4));
        assert(bytes.skip(behind + 12) =~= framed_mutations(records(mutations@), 0));
        assert(sha256_digest(bytes) == digest->Ok_0@);
    }
}

/// A mutation is digested by its identity, its table and its key behind their
/// lengths, and its row behind a mark and its length; a removal by a zero mark.
/// The mutations stand in order.
pub proof fn law_mutations_digested_in_order(mutations: Seq<MutationRecord>, place: nat)
    requires
        place < mutations.len(),
        mutation_sized(mutations[place as int]),
    ensures
        ({
            let mutation = mutations[place as int];
            let bytes = framed_mutations(mutations, place);
            let table = encode_utf8(mutation.table);
            let key = 24 + table.len() as int;
            let value = key + 8 + mutation.key.len();
            &&& bytes.take(16) == mutation.id
            &&& be_value(bytes.subrange(16, 24)) == table.len()
            &&& bytes.subrange(24, key) == table
            &&& be_value(bytes.subrange(key, key + 8)) == mutation.key.len()
            &&& bytes.subrange(key + 8, value) == mutation.key
            &&& match mutation.value {
                None => bytes[value] == 0 && bytes.skip(value + 1) == framed_mutations(mutations, place + 1),
                Some(row) => {
                    &&& bytes[value] == 1
                    &&& be_value(bytes.subrange(value + 1, value + 9)) == row.len()
                    &&& bytes.subrange(value + 9, value + 9 + row.len()) == row
                    &&& bytes.skip(value + 9 + row.len()) == framed_mutations(mutations, place + 1)
                },
            }
        }),
{
    broadcast use lemma_be_bytes_len;

    let mutation = mutations[place as int];
    let bytes = framed_mutations(mutations, place);
    let later = framed_mutations(mutations, place + 1);
    let table = encode_utf8(mutation.table);
    let key = 24 + table.len() as int;
    let value = key + 8 + mutation.key.len();
    lemma_radix_powers();
    lemma_be_value_of_bytes(table.len(), 8);
    lemma_be_value_of_bytes(mutation.key.len(), 8);
    assert(bytes == framed_mutation(mutation) + later);
    assert(bytes.take(16) =~= mutation.id);
    assert(bytes.subrange(16, 24) =~= be_bytes(table.len(), 8));
    assert(bytes.subrange(24, key) =~= table);
    assert(bytes.subrange(key, key + 8) =~= be_bytes(mutation.key.len(), 8));
    assert(bytes.subrange(key + 8, value) =~= mutation.key);
    match mutation.value {
        None => {
            assert(bytes.skip(value + 1) =~= later);
        },
        Some(row) => {
            lemma_be_value_of_bytes(row.len(), 8);
            assert(bytes.subrange(value + 1, value + 9) =~= be_bytes(row.len(), 8));
            assert(bytes.subrange(value + 9, value + 9 + row.len()) =~= row);
            assert(bytes.skip(value + 9 + row.len()) =~= later);
        },
    }
}

/// A source mutation is identified by the first half of the digest of the domain,
/// its table, a zero, its key, its ordinal and its row.
pub proof fn law_mutation_identity_layout(
    table: &str,
    key: Vec<u8>,
    ordinal: u64,
    row: Vec<u8>,
    mutation: TableMutation,
)
    requires
        call_ensures(source_mutation, (table, key, ordinal, Some(row)), mutation),
    ensures
        mutation@.table == table@,
        mutation@.key == key@,
        mutation@.value == Some(row@),
        exists|bytes: Seq<u8>|
            #![trigger sha256_digest(bytes)]
            {
                let start = encode_utf8("ORNA-SOURCE-MUTATION\0"@).len() as int;
                let name = start + encode_utf8(table@).len();
                let behind = name + 1 + key@.len();
                &&& mutation@.id == sha256_digest(bytes).take(16)
                &&& bytes.take(start) == encode_utf8("ORNA-SOURCE-MUTATION\0"@)
                &&& bytes.subrange(start, name) == encode_utf8(table@)
                &&& bytes[name] == 0
                &&& bytes.subrange(name + 1, behind) == key@
                &&& be_value(bytes.subrange(behind, behind + 8)) == ordinal
                &&& bytes[behind + 8] == 1
                &&& bytes.skip(behind + 9) == row@
            },
{
    broadcast use lemma_be_bytes_len;

    let bytes = mutation_preimage(table@, key@, ordinal, Some(row@));
    let domain = encode_utf8("ORNA-SOURCE-MUTATION\0"@);
    let start = domain.len() as int;
    let name = start + encode_utf8(table@).len();
    let behind = name + 1 + key@.len();
    lemma_radix_powers();
    lemma_be_value_of_bytes(ordinal as nat, 8);
    assert(SOURCE_MUTATION_DOMAIN.spec_bytes() == domain);
    assert(bytes.take(start) =~= domain);
    assert(bytes.subrange(start, name) =~= encode_utf8(table@));
    assert(bytes.subrange(name + 1, behind) =~= key@);
    assert(bytes.subrange(behind, behind + 8) =~= be_bytes(ordinal as nat, 8));
    assert(bytes.skip(behind + 9) =~= row@);
    assert(mutation@.id == sha256_digest(bytes).take(16));
}

} // verus!
