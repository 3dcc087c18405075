//! What the table boundary promises, row by row and symbol by symbol.
//!
//! The laws speak of the declared symbols, the served tables and the entries of
//! a row directly, so that they can be read without the functions that decide.

use vstd::prelude::*;

use crate::application::digest::MutationRecord;
use crate::application::effect::{
    admitted_tables, declared_schema, effect_step, first_entry, key_present, names_entry, proposed_record, row_fits,
    symbol_models, AdmissionModel, ArgumentModel, EffectArgument, EntryModel, HandlerModel, ModuleSymbol,
    SchemaModel, StepModel, SymbolModel, TableSchema,
};
use crate::application::error::EffectError;

verus! {

/// Tells whether a symbol declares a table that admits writes.
pub open spec fn declares_writable_table(symbol: SymbolModel) -> bool {
    &&& symbol.table
    &&& symbol.schema matches Some(schema) && schema.admission is Some
}

/// The selected tables are exactly the symbols that declare a table with an
/// admitted write schema, each under its name and with its schema, in
/// declaration order. The result gives the symbol of each selected table.
pub proof fn law_admitted_tables_complete(symbols: Seq<SymbolModel>, end: nat) -> (origins: Seq<int>)
    requires
        end <= symbols.len(),
    ensures
        origins.len() == admitted_tables(symbols, end).len(),
        forall|place: int| #![trigger origins[place]]
            0 <= place < origins.len() ==> {
                &&& 0 <= origins[place] < end
                &&& declares_writable_table(symbols[origins[place]])
                &&& admitted_tables(symbols, end)[place].0 == symbols[origins[place]].name
                &&& Some(admitted_tables(symbols, end)[place].1) == symbols[origins[place]].schema
            },
        forall|first: int, second: int|
            0 <= first < second < origins.len() ==> #[trigger] origins[first] < #[trigger] origins[second],
        forall|index: int|
            0 <= index < end && declares_writable_table(#[trigger] symbols[index]) ==> exists|place: int|
                0 <= place < origins.len() && #[trigger] origins[place] == index,
    decreases end,
{
    if end == 0 {
        Seq::empty()
    } else {
        let last = (end - 1) as nat;
        let earlier = law_admitted_tables_complete(symbols, last);
        let chosen = declares_writable_table(symbols[last as int]);
        let origins = if chosen {
            earlier.push(last as int)
        } else {
            earlier
        };
        assert forall|index: int|
            0 <= index < end && declares_writable_table(#[trigger] symbols[index]) implies exists|place: int|
                0 <= place < origins.len() && #[trigger] origins[place] == index by {
            if index < last {
                let place = choose|place: int| 0 <= place < earlier.len() && #[trigger] earlier[place] == index;
                assert(origins[place] == index);
            } else {
                assert(origins[earlier.len() as int] == index);
            }
        }
        origins
    }
}

/// A name is served exactly where some table has it, with the schema of the
/// first such table.
pub proof fn law_served_schema(tables: Seq<(Seq<char>, SchemaModel)>, name: Seq<char>, from: nat)
    ensures
        match declared_schema(tables, name, from) {
            Some(schema) => exists|place: int|
                from <= place < tables.len() && #[trigger] tables[place] == (name, schema) && forall|earlier: int|
                    from <= earlier < place ==> (#[trigger] tables[earlier]).0 != name,
            None => forall|place: int| from <= place < tables.len() ==> (#[trigger] tables[place]).0 != name,
        },
    decreases tables.len() - from,
{
    if from < tables.len() {
        if tables[from as int].0 == name {
            assert(tables[from as int] == (name, tables[from as int].1));
        } else {
            law_served_schema(tables, name, from + 1);
            if let Some(schema) = declared_schema(tables, name, from) {
                let place = choose|place: int|
                    from + 1 <= place < tables.len() && #[trigger] tables[place] == (name, schema) && forall|
                        earlier: int,
                    |
                        from + 1 <= earlier < place ==> (#[trigger] tables[earlier]).0 != name;
                assert(tables[place] == (name, schema) && forall|earlier: int|
                    from <= earlier < place ==> (#[trigger] tables[earlier]).0 != name);
            }
        }
    }
}

/// Every declared table with an admitted write schema is served, with exactly
/// that schema, where no two symbols share a name. No other name is.
pub proof fn law_declared_tables_served(symbols: Seq<SymbolModel>, name: Seq<char>)
    requires
        forall|first: int, second: int|
            0 <= first < second < symbols.len() ==> (#[trigger] symbols[first]).name != (
            #[trigger] symbols[second]).name,
    ensures
        forall|index: int|
            0 <= index < symbols.len() && declares_writable_table(#[trigger] symbols[index]) && symbols[index].name
                == name ==> declared_schema(admitted_tables(symbols, symbols.len()), name, 0) == symbols[index].schema,
        (forall|index: int|
            0 <= index < symbols.len() && declares_writable_table(#[trigger] symbols[index]) ==> symbols[index].name
                != name) ==> declared_schema(admitted_tables(symbols, symbols.len()), name, 0) is None,
{
    let tables = admitted_tables(symbols, symbols.len());
    let origins = law_admitted_tables_complete(symbols, symbols.len());
    law_served_schema(tables, name, 0);
    assert forall|index: int|
        0 <= index < symbols.len() && declares_writable_table(#[trigger] symbols[index]) && symbols[index].name
            == name implies declared_schema(tables, name, 0) == symbols[index].schema by {
        let origin = choose|place: int| 0 <= place < origins.len() && #[trigger] origins[place] == index;
        assert(tables[origin].0 == name);
        let schema = declared_schema(tables, name, 0)->Some_0;
        let place = choose|place: int|
            0 <= place < tables.len() && #[trigger] tables[place] == (name, schema) && forall|earlier: int|
                0 <= earlier < place ==> (#[trigger] tables[earlier]).0 != name;
        assert(symbols[origins[place]].name == name);
        assert(origins[place] == index);
    }
    if declared_schema(tables, name, 0) is Some {
        let schema = declared_schema(tables, name, 0)->Some_0;
        let place = choose|place: int|
            0 <= place < tables.len() && #[trigger] tables[place] == (name, schema) && forall|earlier: int|
                0 <= earlier < place ==> (#[trigger] tables[earlier]).0 != name;
        assert(symbols[origins[place]].name == name);
    }
}

/// Tells whether an entry can supply a key field.
pub open spec fn supplies(entry: EntryModel, key: Seq<char>) -> bool {
    entry.name == Some(key) && entry.canonical
}

/// Tells whether `place` is the first entry that can supply a key field.
pub open spec fn first_supplier(entries: Seq<EntryModel>, key: Seq<char>, place: int) -> bool {
    &&& 0 <= place < entries.len()
    &&& supplies(entries[place], key)
    &&& forall|earlier: int| 0 <= earlier < place ==> !supplies(#[trigger] entries[earlier], key)
}

/// The search for a key field finds the first entry that can supply it.
proof fn lemma_first_supplier(entries: Seq<EntryModel>, key: Seq<char>, from: nat)
    requires
        forall|earlier: int| 0 <= earlier < from ==> !supplies(#[trigger] entries[earlier], key),
    ensures
        match first_entry(entries, key, from) {
            Some(place) => first_supplier(entries, key, place as int),
            None => forall|place: int| 0 <= place < entries.len() ==> !supplies(#[trigger] entries[place], key),
        },
    decreases entries.len() - from,
{
    if from < entries.len() && !supplies(entries[from as int], key) {
        lemma_first_supplier(entries, key, from + 1);
    }
}

/// Tells whether each entry of a row is named, declared and not computed.
pub open spec fn entries_writable(fields: Seq<Seq<char>>, computed: Seq<Seq<char>>, entries: Seq<EntryModel>) -> bool {
    forall|place: int|
        0 <= place < entries.len() ==> (#[trigger] entries[place]).name is Some && fields.contains(
            entries[place].name->Some_0,
        ) && !computed.contains(entries[place].name->Some_0)
}

/// Tells whether a field is the name of an entry.
pub open spec fn written_in(entries: Seq<EntryModel>, field: Seq<char>) -> bool {
    exists|place: int| 0 <= place < entries.len() && (#[trigger] entries[place]).name == Some(field)
}

/// Tells whether an entry can supply a key field.
pub open spec fn supplied_in(entries: Seq<EntryModel>, key: Seq<char>) -> bool {
    exists|place: int| 0 <= place < entries.len() && supplies(#[trigger] entries[place], key)
}

/// Tells whether each required field is the name of an entry.
pub open spec fn required_written(required: Seq<Seq<char>>, entries: Seq<EntryModel>) -> bool {
    forall|field: int| 0 <= field < required.len() ==> written_in(entries, #[trigger] required[field])
}

/// Tells whether each key field has an entry that can supply it.
pub open spec fn keys_supplied(keys: Seq<Seq<char>>, entries: Seq<EntryModel>) -> bool {
    forall|key: int| 0 <= key < keys.len() ==> supplied_in(entries, #[trigger] keys[key])
}

/// A row is written exactly where each of its entries is named, declared and not
/// computed, each required field is among them, and each key field has a
/// canonical entry. A row that fails by its entries or its required fields is
/// refused as a row, and one that fails only by its key is refused by its key.
pub proof fn law_write_accepted_exactly(
    tables: Seq<(Seq<char>, SchemaModel)>,
    table: Seq<char>,
    member: Seq<char>,
    arguments: Seq<ArgumentModel>,
    schema: SchemaModel,
    admission: AdmissionModel,
    entries: Seq<EntryModel>,
)
    requires
        member == "insert"@ || member == "upsert"@,
        declared_schema(tables, table, 0) == Some(schema),
        schema.admission == Some(admission),
        arguments.len() == 1,
        arguments[0].entries == Some(entries),
    ensures
        effect_step(tables, Some((table, member)), arguments) is Ok <==> entries_writable(
            schema.fields,
            admission.computed,
            entries,
        ) && required_written(admission.required, entries) && keys_supplied(admission.keys, entries),
        effect_step(tables, Some((table, member)), arguments) == Err::<StepModel, EffectError>(EffectError::TableRow)
            <==> !(entries_writable(schema.fields, admission.computed, entries) && required_written(
            admission.required,
            entries,
        )),
        effect_step(tables, Some((table, member)), arguments) == Err::<StepModel, EffectError>(EffectError::TableKey)
            <==> entries_writable(schema.fields, admission.computed, entries) && required_written(
            admission.required,
            entries,
        ) && !keys_supplied(admission.keys, entries),
{
    lemma_row_fits(schema.fields, admission, entries);
    lemma_key_present(admission.keys, entries);
}

/// A row fits exactly where its entries are writable and the required fields are
/// among them.
proof fn lemma_row_fits(fields: Seq<Seq<char>>, admission: AdmissionModel, entries: Seq<EntryModel>)
    ensures
        row_fits(fields, admission, entries) <==> entries_writable(fields, admission.computed, entries)
            && required_written(admission.required, entries),
{
    assert forall|field: Seq<char>| #[trigger] names_entry(entries, field) == written_in(entries, field) by {}
    let required = admission.required;
    if row_fits(fields, admission, entries) {
        assert forall|field: int| 0 <= field < required.len() implies written_in(
            entries,
            #[trigger] required[field],
        ) by {
            assert(names_entry(entries, admission.required[field]));
        }
        assert(entries_writable(fields, admission.computed, entries));
    }
    if entries_writable(fields, admission.computed, entries) && required_written(required, entries) {
        assert forall|field: int| 0 <= field < required.len() implies names_entry(
            entries,
            #[trigger] admission.required[field],
        ) by {
            assert(written_in(entries, required[field]));
        }
        assert(row_fits(fields, admission, entries));
    }
}

/// A key is present exactly where each of its fields has an entry that can supply
/// it.
proof fn lemma_key_present(keys: Seq<Seq<char>>, entries: Seq<EntryModel>)
    ensures
        key_present(keys, entries) <==> keys_supplied(keys, entries),
{
    assert forall|key: Seq<char>| (#[trigger] first_entry(entries, key, 0)) is Some <==> supplied_in(entries, key) by {
        lemma_first_supplier(entries, key, 0);
        if let Some(place) = first_entry(entries, key, 0) {
            assert(supplies(entries[place as int], key));
        }
    }
    if keys_supplied(keys, entries) {
        assert forall|place: int| 0 <= place < keys.len() implies first_entry(entries, #[trigger] keys[place], 0)
            is Some by {
            assert(supplied_in(entries, keys[place]));
        }
    }
    if key_present(keys, entries) {
        assert forall|key: int| 0 <= key < keys.len() implies supplied_in(entries, #[trigger] keys[key]) by {
            assert(first_entry(entries, keys[key], 0) is Some);
        }
    }
}

/// A written row goes under the entries that its key fields name: one key field
/// makes the value of the first entry that can supply it the key, and any other
/// number of them the array of those values, in key order.
pub proof fn law_write_key(
    tables: Seq<(Seq<char>, SchemaModel)>,
    table: Seq<char>,
    member: Seq<char>,
    arguments: Seq<ArgumentModel>,
    keys: Seq<Seq<char>>,
)
    requires
        member == "insert"@ || member == "upsert"@,
        effect_step(tables, Some((table, member)), arguments) is Ok,
        declared_schema(tables, table, 0)->Some_0.admission->Some_0.keys == keys,
    ensures
        arguments.len() == 1,
        arguments[0].entries is Some,
        match effect_step(tables, Some((table, member)), arguments)->Ok_0 {
            StepModel::WriteSingle(place) => keys.len() == 1 && first_supplier(
                arguments[0].entries->Some_0,
                keys[0],
                place as int,
            ),
            StepModel::WriteComposite(places) => keys.len() != 1 && places.len() == keys.len() && forall|key: int|
                0 <= key < keys.len() ==> first_supplier(
                    arguments[0].entries->Some_0,
                    keys[key],
                    #[trigger] places[key] as int,
                ),
            _ => false,
        },
{
    lemma_members_apart();
    let entries = arguments[0].entries->Some_0;
    assert forall|key: int| 0 <= key < keys.len() implies first_entry(entries, #[trigger] keys[key], 0) is Some
        && first_supplier(entries, keys[key], first_entry(entries, keys[key], 0)->Some_0 as int) by {
        lemma_first_supplier(entries, keys[key], 0);
    }
}

/// The names of the written members differ.
proof fn lemma_members_apart()
    ensures
        "delete"@ != "insert"@,
        "delete"@ != "upsert"@,
        "insert"@ != "upsert"@,
{
    reveal_strlit("delete");
    reveal_strlit("insert");
    reveal_strlit("upsert");
    assert("delete"@[0] != "insert"@[0]);
    assert("delete"@[0] != "upsert"@[0]);
    assert("insert"@[0] != "upsert"@[0]);
}

/// Every call is answered in one of these ways, whatever the row is: what is no
/// member of a plain name is passed on, a name that no table has is refused, a
/// served table takes one argument for its three writes, a row has to be a map,
/// a table without an admission takes no write, a table without a key takes no
/// removal, and any other member is passed on.
pub proof fn law_calls_answered(
    tables: Seq<(Seq<char>, SchemaModel)>,
    table: Seq<char>,
    member: Seq<char>,
    arguments: Seq<ArgumentModel>,
)
    ensures
        effect_step(tables, None, arguments) == Ok::<StepModel, EffectError>(StepModel::Pass),
        ({
            let step = effect_step(tables, Some((table, member)), arguments);
            let served = exists|place: int| 0 <= place < tables.len() && (#[trigger] tables[place]).0 == table;
            let row = member == "insert"@ || member == "upsert"@;
            let removal = member == "delete"@;
            let schema = declared_schema(tables, table, 0)->Some_0;
            &&& !served ==> step == Err::<StepModel, EffectError>(EffectError::TableUnadmitted)
            &&& served && !row && !removal ==> step == Ok::<StepModel, EffectError>(StepModel::Pass)
            &&& served && (row || removal) && arguments.len() != 1 ==> step == Err::<StepModel, EffectError>(
                EffectError::TableArgument,
            )
            &&& served && row && arguments.len() == 1 && arguments[0].entries is None ==> step == Err::<
                StepModel,
                EffectError,
            >(EffectError::TableRow)
            &&& served && row && arguments.len() == 1 && arguments[0].entries is Some && schema.admission is None
                ==> step == Err::<StepModel, EffectError>(EffectError::TableUnadmitted)
            &&& served && removal && arguments.len() == 1 ==> step == if schema.admission is Some
                && schema.admission->Some_0.keys.len() >= 1 {
                Ok::<StepModel, EffectError>(StepModel::Delete)
            } else {
                Err(EffectError::TableUnadmitted)
            }
        }),
{
    lemma_members_apart();
    law_served_schema(tables, table, 0);
}

/// What an accepted write records is the encoding of its row under the encoding
/// of its key, and what an accepted removal records is no row under the encoding
/// of its argument. A value without an encoding is refused: the key of a written
/// row first, then the row itself.
pub proof fn law_recorded_encodings(
    state: HandlerModel,
    call: Option<(Seq<char>, Seq<char>)>,
    arguments: Seq<ArgumentModel>,
    key: Option<Seq<u8>>,
)
    ensures
        match effect_step(state.tables, call, arguments) {
            Err(error) => proposed_record(state, call, arguments, key) == Err::<Option<MutationRecord>, EffectError>(
                error,
            ),
            Ok(StepModel::Pass) => proposed_record(state, call, arguments, key) == Ok::<
                Option<MutationRecord>,
                EffectError,
            >(None),
            Ok(StepModel::Delete) => {
                &&& arguments[0].encoded is None <==> proposed_record(state, call, arguments, key) == Err::<
                    Option<MutationRecord>,
                    EffectError,
                >(EffectError::TableKey)
                &&& arguments[0].encoded is Some <==> proposed_record(state, call, arguments, key) is Ok
            },
            Ok(_) => {
                &&& key is None <==> proposed_record(state, call, arguments, key) == Err::<
                    Option<MutationRecord>,
                    EffectError,
                >(EffectError::TableKey)
                &&& key is Some && arguments[0].encoded is None <==> proposed_record(state, call, arguments, key)
                    == Err::<Option<MutationRecord>, EffectError>(EffectError::TableRow)
                &&& key is Some && arguments[0].encoded is Some <==> proposed_record(state, call, arguments, key)
                    is Ok
            },
        },
        proposed_record(state, call, arguments, key) matches Ok(Some(mutation)) ==> {
            let removal = call->Some_0.1 == "delete"@;
            &&& mutation.table == call->Some_0.0
            &&& removal ==> mutation.value is None && arguments[0].encoded == Some(mutation.key)
            &&& !removal ==> mutation.value is Some && arguments[0].encoded == mutation.value && key == Some(
                mutation.key,
            )
        },
{
    lemma_members_apart();
}

/// The content of a schema, a row entry, an argument and a symbol is what their
/// fields hold.
pub proof fn law_effect_content<T>(
    schema: TableSchema,
    argument: EffectArgument<T>,
    symbols: Seq<ModuleSymbol>,
    place: int,
)
    ensures
        schema@.fields.len() == schema.fields@.len(),
        0 <= place < schema.fields@.len() ==> schema@.fields[place] == schema.fields@[place]@,
        schema@.admission is Some <==> schema.admission is Some,
        schema.admission matches Some(admission) ==> {
            let content = schema@.admission->Some_0;
            &&& content.keys.len() == admission.keys@.len()
            &&& content.computed.len() == admission.computed@.len()
            &&& content.required.len() == admission.required@.len()
            &&& 0 <= place < admission.keys@.len() ==> content.keys[place] == admission.keys@[place]@
            &&& 0 <= place < admission.computed@.len() ==> content.computed[place] == admission.computed@[place]@
            &&& 0 <= place < admission.required@.len() ==> content.required[place] == admission.required@[place]@
        },
        argument@.encoded is Some <==> argument.encoded is Some,
        argument.encoded matches Some(bytes) ==> argument@.encoded->Some_0 == bytes@,
        argument@.entries is Some <==> argument.entries is Some,
        argument.entries matches Some(entries) ==> {
            let content = argument@.entries->Some_0;
            &&& content.len() == entries@.len()
            &&& 0 <= place < entries@.len() ==> {
                &&& content[place].canonical == entries@[place].canonical
                &&& content[place].name is Some <==> entries@[place].name is Some
                &&& entries@[place].name matches Some(name) ==> content[place].name->Some_0 == name@
            }
        },
        symbol_models(symbols).len() == symbols.len(),
        0 <= place < symbols.len() ==> {
            let content = symbol_models(symbols)[place];
            &&& content.name == symbols[place].name@
            &&& content.table == symbols[place].table
            &&& content.schema is Some <==> symbols[place].schema is Some
            &&& symbols[place].schema matches Some(declared) ==> content.schema->Some_0 == declared@
        },
{
}

} // verus!
