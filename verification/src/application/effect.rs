//! Lowering of admitted source table effects into runtime mutations.
//!
//! A handler decides for each call what it means, and records the mutation of an
//! accepted write. The host encodes values and asks the runtime whether a
//! mutation is well formed. Only declared tables with an admitted write schema
//! are accepted; any other write fails closed.

use vstd::prelude::*;

use crate::application::digest::{
    copied_optional, optional_bytes, records, source_mutation, source_record, MutationRecord, TableMutation,
};
use crate::application::error::{ApplicationError, EffectError};
use crate::text::{holds_text, same_text, texts};

verus! {

/// What a table admits of a written row.
#[derive(Clone, Debug, PartialEq, Eq)]
pub struct TableAdmission {
    /// The fields that make up the key, in key order.
    pub keys: Vec<String>,
    /// The fields that no row may write.
    pub computed: Vec<String>,
    /// The fields that every row must write.
    pub required: Vec<String>,
}

/// The write schema of a table.
#[derive(Clone, Debug, PartialEq, Eq)]
pub struct TableSchema {
    /// The declared fields.
    pub fields: Vec<String>,
    /// What the table admits of a written row, where it admits writes.
    pub admission: Option<TableAdmission>,
}

/// A table schema and the name it is declared under.
#[derive(Clone, Debug, PartialEq, Eq)]
pub struct NamedTable {
    /// The name of the table.
    pub name: String,
    /// The write schema of the table.
    pub schema: TableSchema,
}

/// The content of a table admission.
pub struct AdmissionModel {
    /// The fields that make up the key, in key order.
    pub keys: Seq<Seq<char>>,
    /// The fields that no row may write.
    pub computed: Seq<Seq<char>>,
    /// The fields that every row must write.
    pub required: Seq<Seq<char>>,
}

/// The content of a table schema.
pub struct SchemaModel {
    /// The declared fields.
    pub fields: Seq<Seq<char>>,
    /// What the table admits of a written row, where it admits writes.
    pub admission: Option<AdmissionModel>,
}

impl View for TableAdmission {
    type V = AdmissionModel;

    open spec fn view(&self) -> AdmissionModel {
        AdmissionModel {
            keys: texts(self.keys@),
            computed: texts(self.computed@),
            required: texts(self.required@),
        }
    }
}

impl View for TableSchema {
    type V = SchemaModel;

    open spec fn view(&self) -> SchemaModel {
        SchemaModel {
            fields: texts(self.fields@),
            admission: match self.admission {
                Some(admission) => Some(admission@),
                None => None,
            },
        }
    }
}

impl View for NamedTable {
    type V = (Seq<char>, SchemaModel);

    open spec fn view(&self) -> (Seq<char>, SchemaModel) {
        (self.name@, self.schema@)
    }
}

/// The contents of a list of tables.
pub open spec fn table_models(tables: Seq<NamedTable>) -> Seq<(Seq<char>, SchemaModel)> {
    Seq::new(tables.len(), |index: int| tables[index]@)
}

/// The schema declared under a name from `index` on.
pub open spec fn declared_schema(
    tables: Seq<(Seq<char>, SchemaModel)>,
    name: Seq<char>,
    index: nat,
) -> Option<SchemaModel>
    decreases tables.len() - index,
{
    if index >= tables.len() {
        None
    } else if tables[index as int].0 == name {
        Some(tables[index as int].1)
    } else {
        declared_schema(tables, name, index + 1)
    }
}

/// A call of a member of a named table.
#[derive(Clone, Debug, PartialEq, Eq)]
pub struct TableCall {
    /// The name that the call is made on.
    pub table: String,
    /// The called member.
    pub member: String,
}

/// One entry of a row value.
#[derive(Clone, Debug, PartialEq, Eq)]
pub struct RowEntry {
    /// The name of the entry, where its key is text.
    pub name: Option<String>,
    /// Whether the value of the entry stands as a canonical value by itself.
    pub canonical: bool,
}

/// One evaluated call argument.
#[derive(Clone, Debug, PartialEq, Eq)]
pub struct EffectArgument<T> {
    /// The argument itself.
    pub value: T,
    /// The canonical encoding of the argument, where it has one.
    pub encoded: Option<Vec<u8>>,
    /// The entries of the argument, where it is a map.
    pub entries: Option<Vec<RowEntry>>,
}

/// The content of a row entry.
pub struct EntryModel {
    /// The name of the entry, where its key is text.
    pub name: Option<Seq<char>>,
    /// Whether the value of the entry stands as a canonical value by itself.
    pub canonical: bool,
}

impl View for RowEntry {
    type V = EntryModel;

    open spec fn view(&self) -> EntryModel {
        EntryModel {
            name: match self.name {
                Some(name) => Some(name@),
                None => None,
            },
            canonical: self.canonical,
        }
    }
}

/// The contents of a list of row entries.
pub open spec fn entry_models(entries: Seq<RowEntry>) -> Seq<EntryModel> {
    Seq::new(entries.len(), |index: int| entries[index]@)
}

/// The content of a call argument, as far as the boundary reads it.
pub struct ArgumentModel {
    /// The canonical encoding of the argument, where it has one.
    pub encoded: Option<Seq<u8>>,
    /// The entries of the argument, where it is a map.
    pub entries: Option<Seq<EntryModel>>,
}

impl<T> View for EffectArgument<T> {
    type V = ArgumentModel;

    open spec fn view(&self) -> ArgumentModel {
        ArgumentModel {
            encoded: optional_bytes(self.encoded),
            entries: match self.entries {
                Some(entries) => Some(entry_models(entries@)),
                None => None,
            },
        }
    }
}

/// The contents of a list of arguments.
pub open spec fn argument_models<T>(arguments: Seq<EffectArgument<T>>) -> Seq<ArgumentModel> {
    Seq::new(arguments.len(), |index: int| arguments[index]@)
}

/// Where the components of a row key stand among the entries of the row.
#[derive(Clone, Debug, PartialEq, Eq)]
pub enum KeyComponents {
    /// The key is the value of one entry.
    Single(usize),
    /// The key is the array of the values of several entries, or of none.
    Composite(Vec<usize>),
}

/// What a call means at the table boundary.
#[derive(Clone, Debug, PartialEq, Eq)]
pub enum EffectStep {
    /// The call is no table write and stays on the ordinary evaluator path.
    Pass,
    /// The call writes its argument under the key made of these components.
    Write(KeyComponents),
    /// The call removes the row whose key is its argument.
    Delete,
}

/// The meaning of a call, by places in the row.
pub enum StepModel {
    /// The call is no table write.
    Pass,
    /// The call writes its argument under the single entry.
    WriteSingle(nat),
    /// The call writes its argument under the array of these entries.
    WriteComposite(Seq<nat>),
    /// The call removes a row.
    Delete,
}

/// The places of key components.
pub open spec fn places(list: Seq<usize>) -> Seq<nat> {
    Seq::new(list.len(), |index: int| list[index] as nat)
}

impl View for EffectStep {
    type V = StepModel;

    open spec fn view(&self) -> StepModel {
        match self {
            EffectStep::Pass => StepModel::Pass,
            EffectStep::Write(KeyComponents::Single(place)) => StepModel::WriteSingle(*place as nat),
            EffectStep::Write(KeyComponents::Composite(list)) => StepModel::WriteComposite(places(list@)),
            EffectStep::Delete => StepModel::Delete,
        }
    }
}

/// The first entry from `index` on that has a name and a canonical value.
pub open spec fn first_entry(entries: Seq<EntryModel>, name: Seq<char>, index: nat) -> Option<nat>
    decreases entries.len() - index,
{
    if index >= entries.len() {
        None
    } else if entries[index as int].name == Some(name) && entries[index as int].canonical {
        Some(index)
    } else {
        first_entry(entries, name, index + 1)
    }
}

/// Tells whether every entry of a row is named, declared and not computed, and
/// every required field is among the entries.
pub open spec fn row_fits(fields: Seq<Seq<char>>, admission: AdmissionModel, entries: Seq<EntryModel>) -> bool {
    &&& forall|place: int|
        0 <= place < entries.len() ==> ((#[trigger] entries[place]).name matches Some(name) && fields.contains(name)
            && !admission.computed.contains(name))
    &&& forall|place: int|
        0 <= place < admission.required.len() ==> names_entry(entries, #[trigger] admission.required[place])
}

/// Tells whether some entry has a name.
pub open spec fn names_entry(entries: Seq<EntryModel>, name: Seq<char>) -> bool {
    exists|place: int| 0 <= place < entries.len() && (#[trigger] entries[place]).name == Some(name)
}

/// Tells whether every key field has a canonical entry.
pub open spec fn key_present(keys: Seq<Seq<char>>, entries: Seq<EntryModel>) -> bool {
    forall|place: int| 0 <= place < keys.len() ==> first_entry(entries, #[trigger] keys[place], 0) is Some
}

/// The entries that the key fields name.
pub open spec fn key_places(keys: Seq<Seq<char>>, entries: Seq<EntryModel>) -> Seq<nat> {
    Seq::new(keys.len(), |place: int| first_entry(entries, keys[place], 0)->Some_0)
}

/// What a write of a row means.
pub open spec fn write_step(schema: SchemaModel, row: Option<Seq<EntryModel>>) -> Result<StepModel, EffectError> {
    match (row, schema.admission) {
        (None, _) => Err(EffectError::TableRow),
        (Some(_), None) => Err(EffectError::TableUnadmitted),
        (Some(entries), Some(admission)) => {
            if !row_fits(schema.fields, admission, entries) {
                Err(EffectError::TableRow)
            } else if !key_present(admission.keys, entries) {
                Err(EffectError::TableKey)
            } else if admission.keys.len() == 1 {
                Ok(StepModel::WriteSingle(key_places(admission.keys, entries)[0]))
            } else {
                Ok(StepModel::WriteComposite(key_places(admission.keys, entries)))
            }
        },
    }
}

/// What a removal means.
pub open spec fn delete_step(schema: SchemaModel) -> Result<StepModel, EffectError> {
    match schema.admission {
        Some(admission) if admission.keys.len() > 0 => Ok(StepModel::Delete),
        _ => Err(EffectError::TableUnadmitted),
    }
}

/// What a call means, given the tables that a handler serves.
///
/// A callee that is no member of a plain name is no concern of the boundary. A
/// member of a name that is no served table is refused, whatever the member is.
pub open spec fn effect_step(
    tables: Seq<(Seq<char>, SchemaModel)>,
    call: Option<(Seq<char>, Seq<char>)>,
    arguments: Seq<ArgumentModel>,
) -> Result<StepModel, EffectError> {
    match call {
        None => Ok(StepModel::Pass),
        Some((table, member)) => match declared_schema(tables, table, 0) {
            None => Err(EffectError::TableUnadmitted),
            Some(schema) => {
                if member == "insert"@ || member == "upsert"@ {
                    if arguments.len() != 1 {
                        Err(EffectError::TableArgument)
                    } else {
                        write_step(schema, arguments[0].entries)
                    }
                } else if member == "delete"@ {
                    if arguments.len() != 1 {
                        Err(EffectError::TableArgument)
                    } else {
                        delete_step(schema)
                    }
                } else {
                    Ok(StepModel::Pass)
                }
            },
        },
    }
}

/// The table and the member of an optional call.
pub open spec fn call_model(call: Option<TableCall>) -> Option<(Seq<char>, Seq<char>)> {
    match call {
        Some(call) => Some((call.table@, call.member@)),
        None => None,
    }
}

/// A result whose success is taken by its view.
pub open spec fn step_model(result: Result<EffectStep, EffectError>) -> Result<StepModel, EffectError> {
    match result {
        Ok(step) => Ok(step@),
        Err(error) => Err(error),
    }
}

/// Finds the first entry that has a name and a canonical value.
fn find_entry(entries: &[RowEntry], name: &str) -> (found: Option<usize>)
    ensures
        match found {
            Some(place) => first_entry(entry_models(entries@), name@, 0) == Some(place as nat),
            None => first_entry(entry_models(entries@), name@, 0) is None,
        },
{
    let mut index: usize = 0;
    while index < entries.len()
        invariant
            index <= entries@.len(),
            first_entry(entry_models(entries@), name@, index as nat) == first_entry(entry_models(entries@), name@, 0),
        decreases entries@.len() - index,
    {
        assert(entry_models(entries@)[index as int] == entries@[index as int]@);
        if entries[index].canonical {
            if let Some(entry) = &entries[index].name {
                if same_text(entry.as_str(), name) {
                    return Some(index);
                }
            }
        }
        index += 1;
    }
    None
}

/// Tells whether some entry has a name.
fn holds_entry(entries: &[RowEntry], name: &str) -> (held: bool)
    ensures
        held == names_entry(entry_models(entries@), name@),
{
    let mut index: usize = 0;
    while index < entries.len()
        invariant
            index <= entries@.len(),
            forall|place: int| 0 <= place < index ==> (#[trigger] entry_models(entries@)[place]).name != Some(name@),
        decreases entries@.len() - index,
    {
        assert(entry_models(entries@)[index as int] == entries@[index as int]@);
        if let Some(entry) = &entries[index].name {
            if same_text(entry.as_str(), name) {
                return true;
            }
        }
        index += 1;
    }
    false
}

impl TableSchema {
    /// Tells whether a row fits the schema.
    fn row_matches(&self, admission: &TableAdmission, entries: &[RowEntry]) -> (fits: bool)
        ensures
            fits == row_fits(self@.fields, admission@, entry_models(entries@)),
    {
        let ghost models = entry_models(entries@);
        let mut index: usize = 0;
        while index < entries.len()
            invariant
                index <= entries@.len(),
                models == entry_models(entries@),
                forall|place: int|
                    0 <= place < index ==> ((#[trigger] models[place]).name matches Some(name)
                        && self@.fields.contains(name) && !admission@.computed.contains(name)),
            decreases entries@.len() - index,
        {
            assert(models[index as int] == entries@[index as int]@);
            match &entries[index].name {
                Some(name) => {
                    if !holds_text(self.fields.as_slice(), name.as_str()) || holds_text(
                        admission.computed.as_slice(),
                        name.as_str(),
                    ) {
                        return false;
                    }
                },
                None => {
                    return false;
                },
            }
            index += 1;
        }
        let mut place: usize = 0;
        while place < admission.required.len()
            invariant
                place <= admission.required@.len(),
                models == entry_models(entries@),
                forall|earlier: int|
                    0 <= earlier < place ==> names_entry(models, #[trigger] admission@.required[earlier]),
            decreases admission.required@.len() - place,
        {
            assert(admission@.required[place as int] == admission.required@[place as int]@);
            if !holds_entry(entries, admission.required[place].as_str()) {
                return false;
            }
            place += 1;
        }
        true
    }

    /// Decides what a write of a row means.
    fn write<T>(&self, row: &EffectArgument<T>) -> (result: Result<EffectStep, EffectError>)
        ensures
            step_model(result) == write_step(self@, row@.entries),
    {
        let entries = match &row.entries {
            Some(entries) => entries,
            None => {
                return Err(EffectError::TableRow);
            },
        };
        let admission = match &self.admission {
            Some(admission) => admission,
            None => {
                return Err(EffectError::TableUnadmitted);
            },
        };
        if !self.row_matches(admission, entries.as_slice()) {
            return Err(EffectError::TableRow);
        }
        let ghost models = entry_models(entries@);
        let ghost keys = admission@.keys;
        let mut components: Vec<usize> = Vec::new();
        let mut index: usize = 0;
        while index < admission.keys.len()
            invariant
                index <= admission.keys@.len(),
                components@.len() == index,
                models == entry_models(entries@),
                keys == texts(admission.keys@),
                row@.entries == Some(models),
                self@.admission == Some(admission@),
                row_fits(self@.fields, admission@, models),
                forall|place: int|
                    0 <= place < index ==> first_entry(models, #[trigger] keys[place], 0) == Some(
                        components@[place] as nat,
                    ),
            decreases admission.keys@.len() - index,
        {
            assert(keys[index as int] == admission.keys@[index as int]@);
            match find_entry(entries.as_slice(), admission.keys[index].as_str()) {
                Some(place) => components.push(place),
                None => {
                    assert(!key_present(keys, models));
                    return Err(EffectError::TableKey);
                },
            }
            index += 1;
        }
        assert(key_present(keys, models));
        assert(places(components@) =~= key_places(keys, models));
        if components.len() == 1 {
            assert(places(components@)[0] == components@[0]);
            Ok(EffectStep::Write(KeyComponents::Single(components[0])))
        } else {
            Ok(EffectStep::Write(KeyComponents::Composite(components)))
        }
    }

    /// Decides what a removal means.
    fn delete(&self) -> (result: Result<EffectStep, EffectError>)
        ensures
            step_model(result) == delete_step(self@),
    {
        match &self.admission {
            Some(admission) => {
                if admission.keys.len() == 0 {
                    Err(EffectError::TableUnadmitted)
                } else {
                    Ok(EffectStep::Delete)
                }
            },
            None => Err(EffectError::TableUnadmitted),
        }
    }

    /// Copies the schema.
    fn copied(&self) -> (copy: TableSchema)
        ensures
            copy@ == self@,
    {
        let admission = match &self.admission {
            Some(admission) => Some(
                TableAdmission {
                    keys: copied_texts(&admission.keys),
                    computed: copied_texts(&admission.computed),
                    required: copied_texts(&admission.required),
                },
            ),
            None => None,
        };
        TableSchema { fields: copied_texts(&self.fields), admission }
    }
}

/// Copies a list of texts.
fn copied_texts(list: &Vec<String>) -> (copy: Vec<String>)
    ensures
        texts(copy@) == texts(list@),
{
    let mut copy: Vec<String> = Vec::new();
    let mut index: usize = 0;
    while index < list.len()
        invariant
            index <= list@.len(),
            copy@.len() == index,
            forall|place: int| 0 <= place < index ==> (#[trigger] copy@[place])@ == list@[place]@,
        decreases list@.len() - index,
    {
        copy.push(list[index].clone());
        index += 1;
    }
    assert(texts(copy@) =~= texts(list@));
    copy
}

/// A symbol that an analysed module declares.
#[derive(Clone, Debug, PartialEq, Eq)]
pub struct ModuleSymbol {
    /// The declared name.
    pub name: String,
    /// Whether the symbol is a table.
    pub table: bool,
    /// The write schema of the symbol, where it has one.
    pub schema: Option<TableSchema>,
}

/// The content of a module symbol.
pub struct SymbolModel {
    /// The declared name.
    pub name: Seq<char>,
    /// Whether the symbol is a table.
    pub table: bool,
    /// The write schema of the symbol, where it has one.
    pub schema: Option<SchemaModel>,
}

impl View for ModuleSymbol {
    type V = SymbolModel;

    open spec fn view(&self) -> SymbolModel {
        SymbolModel {
            name: self.name@,
            table: self.table,
            schema: match self.schema {
                Some(schema) => Some(schema@),
                None => None,
            },
        }
    }
}

/// The contents of a list of symbols.
pub open spec fn symbol_models(symbols: Seq<ModuleSymbol>) -> Seq<SymbolModel> {
    Seq::new(symbols.len(), |index: int| symbols[index]@)
}

/// The tables with an admitted write schema among the symbols before `end`.
pub open spec fn admitted_tables(symbols: Seq<SymbolModel>, end: nat) -> Seq<(Seq<char>, SchemaModel)>
    decreases end,
{
    if end == 0 {
        Seq::empty()
    } else {
        let earlier = admitted_tables(symbols, (end - 1) as nat);
        let symbol = symbols[end - 1];
        match symbol.schema {
            Some(schema) if symbol.table && schema.admission is Some => earlier.push((symbol.name, schema)),
            _ => earlier,
        }
    }
}

/// Selects the tables with an admitted write schema.
pub fn admitted_table_schemas(symbols: &[ModuleSymbol]) -> (tables: Vec<NamedTable>)
    ensures
        table_models(tables@) == admitted_tables(symbol_models(symbols@), symbols@.len()),
{
    let ghost models = symbol_models(symbols@);
    let mut tables: Vec<NamedTable> = Vec::new();
    assert(table_models(tables@) =~= admitted_tables(models, 0));
    let mut index: usize = 0;
    while index < symbols.len()
        invariant
            index <= symbols@.len(),
            models == symbol_models(symbols@),
            table_models(tables@) == admitted_tables(models, index as nat),
        decreases symbols@.len() - index,
    {
        let ghost before = tables@;
        assert(models[index as int] == symbols@[index as int]@);
        if let Some(schema) = &symbols[index].schema {
            if symbols[index].table && schema.admission.is_some() {
                tables.push(NamedTable { name: symbols[index].name.clone(), schema: schema.copied() });
                assert(table_models(tables@) =~= table_models(before).push(tables@.last()@));
            }
        }
        index += 1;
    }
    tables
}

/// Every table that is selected admits writes, and was declared as a table with
/// that schema.
pub proof fn law_admitted_tables_admit_writes(symbols: Seq<SymbolModel>, end: nat, place: int)
    requires
        end <= symbols.len(),
        0 <= place < admitted_tables(symbols, end).len(),
    ensures
        admitted_tables(symbols, end)[place].1.admission is Some,
        exists|index: int|
            0 <= index < end && (#[trigger] symbols[index]).table && symbols[index].name == admitted_tables(
                symbols,
                end,
            )[place].0 && symbols[index].schema == Some(admitted_tables(symbols, end)[place].1),
    decreases end,
{
    let earlier = admitted_tables(symbols, (end - 1) as nat);
    if place < earlier.len() {
        law_admitted_tables_admit_writes(symbols, (end - 1) as nat, place);
        let index = choose|index: int|
            0 <= index < end - 1 && (#[trigger] symbols[index]).table && symbols[index].name == earlier[place].0
                && symbols[index].schema == Some(earlier[place].1);
        assert(0 <= index < end && symbols[index].table);
    } else {
        assert(symbols[end - 1].table);
    }
}

/// Tells whether no two of the symbols before `end` share a name.
pub open spec fn symbols_distinct(symbols: Seq<SymbolModel>, end: nat) -> bool {
    forall|first: int, second: int|
        0 <= first < second < end ==> (#[trigger] symbols[first]).name != (#[trigger] symbols[second]).name
}

/// No name occurs twice among the tables that are selected from symbols with
/// distinct names.
pub proof fn law_admitted_tables_distinct(symbols: Seq<SymbolModel>, end: nat, first: int, second: int)
    requires
        end <= symbols.len(),
        symbols_distinct(symbols, end),
        0 <= first < second < admitted_tables(symbols, end).len(),
    ensures
        admitted_tables(symbols, end)[first].0 != admitted_tables(symbols, end)[second].0,
    decreases end,
{
    let earlier = admitted_tables(symbols, (end - 1) as nat);
    if second < earlier.len() {
        law_admitted_tables_distinct(symbols, (end - 1) as nat, first, second);
    } else {
        law_admitted_tables_admit_writes(symbols, (end - 1) as nat, first);
        let index = choose|index: int|
            0 <= index < end - 1 && (#[trigger] symbols[index]).table && symbols[index].name == earlier[first].0
                && symbols[index].schema == Some(earlier[first].1);
        assert(symbols[index].name != symbols[end - 1].name);
    }
}

/// Where no name occurs twice, the schema of a name is the one that any of the
/// tables of that name holds.
pub proof fn law_declared_schema_unique(tables: Seq<(Seq<char>, SchemaModel)>, index: nat, place: int)
    requires
        forall|first: int, second: int|
            0 <= first < second < tables.len() ==> (#[trigger] tables[first]).0 != (#[trigger] tables[second]).0,
        index <= place < tables.len(),
    ensures
        declared_schema(tables, tables[place].0, index) == Some(tables[place].1),
    decreases place - index,
{
    if index < place {
        assert(tables[index as int].0 != tables[place].0);
        law_declared_schema_unique(tables, index + 1, place);
    }
}

/// Copies a list of tables.
pub fn copied_tables(tables: &[NamedTable]) -> (copies: Vec<NamedTable>)
    ensures
        table_models(copies@) == table_models(tables@),
{
    let mut copies: Vec<NamedTable> = Vec::new();
    let mut index: usize = 0;
    while index < tables.len()
        invariant
            index <= tables@.len(),
            copies@.len() == index,
            forall|place: int| 0 <= place < index ==> (#[trigger] copies@[place])@ == tables@[place]@,
        decreases tables@.len() - index,
    {
        copies.push(NamedTable { name: tables[index].name.clone(), schema: tables[index].schema.copied() });
        index += 1;
    }
    assert(table_models(copies@) =~= table_models(tables@));
    copies
}

/// Takes the encoded key that the host could make, or refuses the key.
fn encoded_key(encoded: Option<Vec<u8>>) -> (result: Result<Vec<u8>, EffectError>)
    ensures
        match encoded {
            Some(key) => result == Ok::<Vec<u8>, EffectError>(key),
            None => result == Err::<Vec<u8>, EffectError>(EffectError::TableKey),
        },
{
    match encoded {
        Some(key) => Ok(key),
        None => Err(EffectError::TableKey),
    }
}

/// Takes the encoded row that the host could make, or refuses the row.
fn encoded_row(encoded: Option<Vec<u8>>) -> (result: Result<Vec<u8>, EffectError>)
    ensures
        match encoded {
            Some(row) => result == Ok::<Vec<u8>, EffectError>(row),
            None => result == Err::<Vec<u8>, EffectError>(EffectError::TableRow),
        },
{
    match encoded {
        Some(row) => Ok(row),
        None => Err(EffectError::TableRow),
    }
}

/// Lowers admitted source table effects into validated runtime mutations.
#[derive(Debug)]
pub struct SourceMutationEffectHandler {
    tables: Vec<NamedTable>,
    mutations: Vec<TableMutation>,
    next_ordinal: u64,
}

/// The state of an effect handler.
pub struct HandlerModel {
    /// The tables that the handler serves.
    pub tables: Seq<(Seq<char>, SchemaModel)>,
    /// The mutations recorded so far, in order.
    pub mutations: Seq<MutationRecord>,
    /// The ordinal of the next mutation.
    pub next_ordinal: u64,
}

impl View for SourceMutationEffectHandler {
    type V = HandlerModel;

    closed spec fn view(&self) -> HandlerModel {
        HandlerModel {
            tables: table_models(self.tables@),
            mutations: records(self.mutations@),
            next_ordinal: self.next_ordinal,
        }
    }
}

impl HandlerModel {
    /// Tells whether the next ordinal counts the recorded mutations.
    pub open spec fn counted(self) -> bool {
        self.next_ordinal == self.mutations.len()
    }
}

/// The mutation that a call would record in a state, where it is accepted and
/// is a table write.
///
/// A write records the encoding of its row under the encoded key. A removal
/// records no row under the encoding of its argument.
pub open spec fn proposed_record(
    state: HandlerModel,
    call: Option<(Seq<char>, Seq<char>)>,
    arguments: Seq<ArgumentModel>,
    key: Option<Seq<u8>>,
) -> Result<Option<MutationRecord>, EffectError> {
    match effect_step(state.tables, call, arguments) {
        Err(error) => Err(error),
        Ok(StepModel::Pass) => Ok(None),
        Ok(StepModel::Delete) => match arguments[0].encoded {
            None => Err(EffectError::TableKey),
            Some(removed) => Ok(Some(source_record(call->Some_0.0, removed, state.next_ordinal, None))),
        },
        Ok(_) => match (key, arguments[0].encoded) {
            (None, _) => Err(EffectError::TableKey),
            (Some(_), None) => Err(EffectError::TableRow),
            (Some(key), Some(row)) => Ok(Some(source_record(call->Some_0.0, key, state.next_ordinal, Some(row)))),
        },
    }
}

/// A delete is neither an insert nor an upsert.
proof fn lemma_members_differ()
    ensures
        "delete"@ != "insert"@,
        "delete"@ != "upsert"@,
{
    reveal_strlit("delete");
    reveal_strlit("insert");
    reveal_strlit("upsert");
    assert("delete"@[0] != "insert"@[0]);
    assert("delete"@[0] != "upsert"@[0]);
}

/// A result whose mutation is taken by its view.
pub open spec fn proposal_model(result: Result<Option<TableMutation>, EffectError>) -> Result<
    Option<MutationRecord>,
    EffectError,
> {
    match result {
        Ok(Some(mutation)) => Ok(Some(mutation@)),
        Ok(None) => Ok(None),
        Err(error) => Err(error),
    }
}

impl SourceMutationEffectHandler {
    /// Creates a handler that serves some tables.
    pub fn new(tables: Vec<NamedTable>) -> (handler: SourceMutationEffectHandler)
        ensures
            handler@ == (HandlerModel {
                tables: table_models(tables@),
                mutations: Seq::empty(),
                next_ordinal: 0,
            }),
            handler@.counted(),
    {
        let handler = SourceMutationEffectHandler { tables, mutations: Vec::new(), next_ordinal: 0 };
        assert(handler@.mutations =~= Seq::empty());
        handler
    }

    /// Finds the schema of a served table.
    fn table(&self, name: &str) -> (result: Result<&TableSchema, EffectError>)
        ensures
            match declared_schema(self@.tables, name@, 0) {
                Some(schema) => result is Ok && result->Ok_0@ == schema,
                None => result == Err::<&TableSchema, EffectError>(EffectError::TableUnadmitted),
            },
    {
        let mut index: usize = 0;
        while index < self.tables.len()
            invariant
                index <= self.tables@.len(),
                declared_schema(self@.tables, name@, index as nat) == declared_schema(self@.tables, name@, 0),
            decreases self.tables@.len() - index,
        {
            assert(self@.tables[index as int] == self.tables@[index as int]@);
            if same_text(self.tables[index].name.as_str(), name) {
                return Ok(&self.tables[index].schema);
            }
            index += 1;
        }
        Err(EffectError::TableUnadmitted)
    }

    /// Decides what a call means, and where the key of a written row stands.
    /// Nothing is recorded.
    pub fn step<T>(
        &self,
        call: &Option<TableCall>,
        arguments: &[EffectArgument<T>],
    ) -> (result: Result<EffectStep, EffectError>)
        ensures
            step_model(result) == effect_step(self@.tables, call_model(*call), argument_models(arguments@)),
    {
        let call = match call {
            Some(call) => call,
            None => {
                return Ok(EffectStep::Pass);
            },
        };
        let schema = self.table(call.table.as_str())?;
        let member = call.member.as_str();
        if same_text(member, "insert") || same_text(member, "upsert") {
            if arguments.len() != 1 {
                return Err(EffectError::TableArgument);
            }
            assert(argument_models(arguments@)[0] == arguments@[0]@);
            schema.write(&arguments[0])
        } else if same_text(member, "delete") {
            if arguments.len() != 1 {
                return Err(EffectError::TableArgument);
            }
            schema.delete()
        } else {
            Ok(EffectStep::Pass)
        }
    }

    /// Builds the mutation that an accepted call would record, or nothing where
    /// the call is no table write. `key` is the encoding of the key of a written
    /// row. Nothing is recorded.
    pub fn proposed_mutation<T>(
        &self,
        call: &Option<TableCall>,
        arguments: &[EffectArgument<T>],
        key: &Option<Vec<u8>>,
    ) -> (result: Result<Option<TableMutation>, EffectError>)
        ensures
            proposal_model(result) == proposed_record(
                self@,
                call_model(*call),
                argument_models(arguments@),
                optional_bytes(*key),
            ),
    {
        let step = self.step(call, arguments)?;
        let call = match call {
            Some(call) => call,
            None => {
                return Ok(None);
            },
        };
        match step {
            EffectStep::Pass => Ok(None),
            EffectStep::Write(_) => {
                assert(argument_models(arguments@)[0] == arguments@[0]@);
                let key = encoded_key(copied_optional(key))?;
                let row = encoded_row(copied_optional(&arguments[0].encoded))?;
                Ok(Some(source_mutation(call.table.as_str(), key, self.next_ordinal, Some(row))))
            },
            EffectStep::Delete => {
                assert(argument_models(arguments@)[0] == arguments@[0]@);
                let key = encoded_key(copied_optional(&arguments[0].encoded))?;
                Ok(Some(source_mutation(call.table.as_str(), key, self.next_ordinal, None)))
            },
        }
    }

    /// Handles a call: records the mutation of an accepted write behind those
    /// that were recorded before, and answers a write with the written row and a
    /// removal with `unit`.
    ///
    /// `key` is the encoding of the key of a written row, and `well_formed` what
    /// the runtime said of the proposed mutation. A malformed mutation is
    /// refused, and so is one for which no ordinal is left. The handler stays as
    /// it was wherever the call is refused or is no table write.
    pub fn handle<T>(
        &mut self,
        call: &Option<TableCall>,
        arguments: Vec<EffectArgument<T>>,
        key: &Option<Vec<u8>>,
        well_formed: bool,
        unit: T,
    ) -> (result: Result<Option<T>, EffectError>)
        ensures
            final(self)@.tables == old(self)@.tables,
            match proposed_record(
                old(self)@,
                call_model(*call),
                argument_models(arguments@),
                optional_bytes(*key),
            ) {
                Err(error) => result == Err::<Option<T>, EffectError>(error) && final(self)@ == old(self)@,
                Ok(None) => result == Ok::<Option<T>, EffectError>(None) && final(self)@ == old(self)@,
                Ok(Some(mutation)) => if !well_formed {
                    &&& result == Err::<Option<T>, EffectError>(EffectError::TableRow)
                    &&& final(self)@ == old(self)@
                } else if old(self)@.next_ordinal == u64::MAX {
                    &&& result == Err::<Option<T>, EffectError>(EffectError::Limit)
                    &&& final(self)@ == old(self)@
                } else {
                    &&& result == Ok::<Option<T>, EffectError>(
                        Some(
                            if mutation.value is Some {
                                arguments@[0].value
                            } else {
                                unit
                            },
                        ),
                    )
                    &&& final(self)@.mutations == old(self)@.mutations.push(mutation)
                    &&& final(self)@.next_ordinal == old(self)@.next_ordinal + 1
                },
            },
            result matches Ok(Some(value)) ==> call matches Some(called) && {
                let added = final(self)@.mutations.last();
                &&& added.table == called.table@
                &&& if called.member@ == "delete"@ {
                    added.value is None && value == unit
                } else {
                    added.value is Some && added.value == optional_bytes(arguments@[0].encoded) && value
                        == arguments@[0].value
                }
            },
            old(self)@.counted() ==> final(self)@.counted(),
    {
        proof {
            lemma_members_differ();
        }
        let mutation = match self.proposed_mutation(call, arguments.as_slice(), key)? {
            Some(mutation) => mutation,
            None => {
                return Ok(None);
            },
        };
        let written = mutation.value.is_some();
        self.record(mutation, well_formed)?;
        if written {
            let mut arguments = arguments;
            Ok(Some(arguments.remove(0).value))
        } else {
            Ok(Some(unit))
        }
    }

    /// Records a mutation, unless the runtime found it malformed or no ordinal is
    /// left.
    fn record(&mut self, mutation: TableMutation, well_formed: bool) -> (result: Result<(), EffectError>)
        ensures
            final(self)@.tables == old(self)@.tables,
            if !well_formed {
                &&& result == Err::<(), EffectError>(EffectError::TableRow)
                &&& final(self)@ == old(self)@
            } else if old(self)@.next_ordinal == u64::MAX {
                &&& result == Err::<(), EffectError>(EffectError::Limit)
                &&& final(self)@ == old(self)@
            } else {
                &&& result == Ok::<(), EffectError>(())
                &&& final(self)@.mutations == old(self)@.mutations.push(mutation@)
                &&& final(self)@.next_ordinal == old(self)@.next_ordinal + 1
            },
    {
        if !well_formed {
            return Err(EffectError::TableRow);
        }
        if self.next_ordinal == u64::MAX {
            return Err(EffectError::Limit);
        }
        self.next_ordinal = self.next_ordinal + 1;
        self.mutations.push(mutation);
        assert(self@.mutations =~= old(self)@.mutations.push(mutation@));
        Ok(())
    }

    /// Returns the recorded mutations, in order.
    pub fn mutations(&self) -> (mutations: &[TableMutation])
        ensures
            records(mutations@) == self@.mutations,
    {
        self.mutations.as_slice()
    }

    /// Consumes the handler, given whether the runtime found every recorded
    /// mutation well formed.
    pub fn into_mutations(self, well_formed: bool) -> (result: Result<Vec<TableMutation>, ApplicationError>)
        ensures
            if well_formed {
                result matches Ok(mutations) && records(mutations@) == self@.mutations
            } else {
                result matches Err(ApplicationError::Runtime(message)) && message@
                    == "recorded mutation was invalid"@
            },
    {
        if well_formed {
            Ok(self.mutations)
        } else {
            Err(ApplicationError::Runtime("recorded mutation was invalid".to_owned()))
        }
    }
}

/// A write is lowered only for a served table that admits writes, and then only
/// for a row that fits its schema and holds its whole key.
pub proof fn law_write_is_admitted(
    tables: Seq<(Seq<char>, SchemaModel)>,
    call: Option<(Seq<char>, Seq<char>)>,
    arguments: Seq<ArgumentModel>,
)
    requires
        effect_step(tables, call, arguments) is Ok,
        effect_step(tables, call, arguments)->Ok_0 !is Pass,
    ensures
        call is Some,
        declared_schema(tables, call->Some_0.0, 0) matches Some(schema) && schema.admission is Some,
        effect_step(tables, call, arguments)->Ok_0 !is Delete ==> {
            let schema = declared_schema(tables, call->Some_0.0, 0)->Some_0;
            &&& arguments.len() == 1
            &&& arguments[0].entries matches Some(entries) && row_fits(schema.fields, schema.admission->Some_0, entries)
                && key_present(schema.admission->Some_0.keys, entries)
        },
{
}

/// What an accepted call records is a write of the called table, and that table
/// is served and admits writes. An insert or upsert records the encoding of its
/// row, and a delete records none.
pub proof fn law_accepted_call_records(
    state: HandlerModel,
    call: Option<(Seq<char>, Seq<char>)>,
    arguments: Seq<ArgumentModel>,
    key: Option<Seq<u8>>,
)
    requires
        proposed_record(state, call, arguments, key) matches Ok(Some(_)),
    ensures
        call is Some,
        arguments.len() == 1,
        declared_schema(state.tables, call->Some_0.0, 0) matches Some(schema) && schema.admission is Some,
        ({
            let mutation = proposed_record(state, call, arguments, key)->Ok_0->Some_0;
            let member = call->Some_0.1;
            &&& mutation.table == call->Some_0.0
            &&& member == "insert"@ || member == "upsert"@ || member == "delete"@
            &&& if member == "delete"@ {
                &&& mutation.value is None
                &&& Some(mutation.key) == arguments[0].encoded
            } else {
                &&& mutation.value is Some
                &&& mutation.value == arguments[0].encoded
                &&& Some(mutation.key) == key
            }
        }),
{
    lemma_members_differ();
}

/// Whatever is called on a name that is no served table is refused.
pub proof fn law_unserved_call_refused(
    state: HandlerModel,
    call: Option<(Seq<char>, Seq<char>)>,
    arguments: Seq<ArgumentModel>,
    key: Option<Seq<u8>>,
)
    requires
        call matches Some((table, _)) && declared_schema(state.tables, table, 0) is None,
    ensures
        proposed_record(state, call, arguments, key) == Err::<Option<MutationRecord>, EffectError>(
            EffectError::TableUnadmitted,
        ),
{
}

} // verus!
