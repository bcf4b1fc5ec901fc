//! Reading blueprints from a tree of configuration values.
//!
//! A set of fields is a table. A field is the path of a file of options, a
//! list of options, or a table with the keys `n` (how many values the field
//! takes), and `file` or `choices`. A choice is a table with `file` or
//! `values`, and maybe `filter`.
//!
//! Files are not read here. The reader is handed the texts of the files that
//! are known so far, and names the first file it misses.

use crate::blueprint::{
    file_options, filter_of, BlueprintModel, BpMap, ChoiceFilter, ChoiceSource, FieldBlueprint,
    FieldModel, FilterModel, SourceModel,
};
use crate::dependency_graph::root_names;
use crate::npc_builder::NpcBlueprint;
use crate::ordered_map::{has_key, lookup, with_entry, OrderedMap};
use vstd::prelude::*;

verus! {

/// A value of the configuration.
#[derive(Debug)]
pub enum ConfigValue {
    Text(String),
    Integer(i64),
    Array(Vec<ConfigValue>),
    Table(OrderedMap<ConfigValue>),
    /// A value of a kind that no blueprint uses.
    Other,
}

impl DeepView for ConfigValue {
    type V = ConfigValue;

    /// A configuration value stands for itself.
    open spec fn deep_view(&self) -> ConfigValue {
        *self
    }
}

/// The texts of the files that are known, by path.
pub type FileTexts = OrderedMap<String>;

/// The entries of a table.
pub type TableModel = Seq<(Seq<char>, ConfigValue)>;

/// Mathematical value of the files that are known.
pub type FilesModel = Seq<(Seq<char>, Seq<char>)>;

/// Why a configuration is no blueprint.
#[derive(Debug)]
pub enum ConfigError {
    /// A table is needed here.
    ExpectedTable,
    /// A text is needed here.
    ExpectedText,
    /// A list is needed here.
    ExpectedArray,
    /// A whole number is needed here.
    ExpectedInteger,
    /// The number of values that a field takes cannot be negative.
    CountOutOfRange,
    /// A field has either a `file` or `choices`, not both and not neither.
    FileXorChoices,
    /// A choice has either a `file` or `values`, not both and not neither.
    FileXorValues,
    /// A filter is a field, a colon and a value.
    MalformedFilter,
    /// A field is a text, a list or a table.
    UnexpectedNode,
    /// The text of this file is needed and not known.
    MissingFile(String),
    /// Every field looks at another field.
    NoRootFields,
}

/// Mathematical value of a [`ConfigError`].
pub enum ConfigErrorModel {
    ExpectedTable,
    ExpectedText,
    ExpectedArray,
    ExpectedInteger,
    CountOutOfRange,
    FileXorChoices,
    FileXorValues,
    MalformedFilter,
    UnexpectedNode,
    MissingFile(Seq<char>),
    NoRootFields,
}

impl DeepView for ConfigError {
    type V = ConfigErrorModel;

    open spec fn deep_view(&self) -> ConfigErrorModel {
        match self {
            ConfigError::ExpectedTable => ConfigErrorModel::ExpectedTable,
            ConfigError::ExpectedText => ConfigErrorModel::ExpectedText,
            ConfigError::ExpectedArray => ConfigErrorModel::ExpectedArray,
            ConfigError::ExpectedInteger => ConfigErrorModel::ExpectedInteger,
            ConfigError::CountOutOfRange => ConfigErrorModel::CountOutOfRange,
            ConfigError::FileXorChoices => ConfigErrorModel::FileXorChoices,
            ConfigError::FileXorValues => ConfigErrorModel::FileXorValues,
            ConfigError::MalformedFilter => ConfigErrorModel::MalformedFilter,
            ConfigError::UnexpectedNode => ConfigErrorModel::UnexpectedNode,
            ConfigError::MissingFile(path) => ConfigErrorModel::MissingFile(path@),
            ConfigError::NoRootFields => ConfigErrorModel::NoRootFields,
        }
    }
}

/// The pool that the file at `path` offers, once its text is known.
pub open spec fn source_from_file(path: Seq<char>, files: FilesModel) -> Result<
    SourceModel,
    ConfigErrorModel,
> {
    match lookup(files, path) {
        Some(contents) => Ok(
            SourceModel { options: file_options(contents), filter: FilterModel::Unconditional },
        ),
        None => Err(ConfigErrorModel::MissingFile(path)),
    }
}

/// The texts that a list holds. A list with anything but texts in it is an
/// error.
pub open spec fn texts_of(list: Seq<ConfigValue>) -> Result<Seq<Seq<char>>, ConfigErrorModel>
    decreases list.len(),
{
    if list.len() == 0 {
        Ok(Seq::empty())
    } else {
        match texts_of(list.drop_last()) {
            Ok(texts) => match list.last() {
                ConfigValue::Text(s) => Ok(texts.push(s@)),
                _ => Err(ConfigErrorModel::ExpectedText),
            },
            Err(e) => Err(e),
        }
    }
}

/// The pool of a choice, before its filter: the options of its `file` or its
/// `values`.
pub open spec fn pool_of(tab: TableModel, files: FilesModel) -> Result<SourceModel, ConfigErrorModel> {
    let has_file = has_key(tab, "file"@);
    let has_values = has_key(tab, "values"@);
    if has_file && !has_values {
        match lookup(tab, "file"@) {
            Some(ConfigValue::Text(path)) => source_from_file(path@, files),
            _ => Err(ConfigErrorModel::ExpectedText),
        }
    } else if !has_file && has_values {
        match lookup(tab, "values"@) {
            Some(ConfigValue::Array(list)) => match texts_of(list@) {
                Ok(options) => Ok(SourceModel { options, filter: FilterModel::Unconditional }),
                Err(e) => Err(e),
            },
            _ => Err(ConfigErrorModel::ExpectedArray),
        }
    } else {
        Err(ConfigErrorModel::FileXorValues)
    }
}

/// The source that a choice stands for: its pool, under its `filter` if it
/// has one.
pub open spec fn source_of_table(tab: TableModel, files: FilesModel) -> Result<
    SourceModel,
    ConfigErrorModel,
> {
    match pool_of(tab, files) {
        Ok(pool) => match lookup(tab, "filter"@) {
            None => Ok(pool),
            Some(ConfigValue::Text(text)) => match filter_of(text@) {
                Some(filter) => Ok(SourceModel { options: pool.options, filter }),
                None => Err(ConfigErrorModel::MalformedFilter),
            },
            Some(_) => Err(ConfigErrorModel::ExpectedText),
        },
        Err(e) => Err(e),
    }
}

/// The sources that a list of choices stands for. The first choice that is
/// no source decides the error.
pub open spec fn sources_of_choices(list: Seq<ConfigValue>, files: FilesModel) -> Result<
    Seq<SourceModel>,
    ConfigErrorModel,
>
    decreases list.len(),
{
    if list.len() == 0 {
        Ok(Seq::empty())
    } else {
        match sources_of_choices(list.drop_last(), files) {
            Ok(sources) => match list.last() {
                ConfigValue::Table(tab) => match source_of_table(tab@, files) {
                    Ok(source) => Ok(sources.push(source)),
                    Err(e) => Err(e),
                },
                _ => Err(ConfigErrorModel::ExpectedTable),
            },
            Err(e) => Err(e),
        }
    }
}

/// The sources of a field that is written as a table: the one pool of its
/// `file`, or its `choices`.
pub open spec fn sources_of(tab: TableModel, files: FilesModel) -> Result<
    Seq<SourceModel>,
    ConfigErrorModel,
> {
    let has_file = has_key(tab, "file"@);
    let has_choices = has_key(tab, "choices"@);
    if has_file && !has_choices {
        match lookup(tab, "file"@) {
            Some(ConfigValue::Text(path)) => match source_from_file(path@, files) {
                Ok(source) => Ok(seq![source]),
                Err(e) => Err(e),
            },
            _ => Err(ConfigErrorModel::ExpectedText),
        }
    } else if !has_file && has_choices {
        match lookup(tab, "choices"@) {
            Some(ConfigValue::Array(list)) => sources_of_choices(list@, files),
            _ => Err(ConfigErrorModel::ExpectedArray),
        }
    } else {
        Err(ConfigErrorModel::FileXorChoices)
    }
}

/// How many values a field takes that is written as a table: its `n`, and
/// one if it has none.
pub open spec fn count_of(tab: TableModel) -> Result<int, ConfigErrorModel> {
    match lookup(tab, "n"@) {
        None => Ok(1),
        Some(ConfigValue::Integer(n)) => Ok(n as int),
        Some(_) => Err(ConfigErrorModel::ExpectedInteger),
    }
}

/// A field with one pool that is always on offer, of which it takes one
/// value.
pub open spec fn simple_field(source: SourceModel) -> FieldModel {
    FieldModel { required_count: 1, sources: seq![source] }
}

/// The field that a configuration value stands for.
pub open spec fn field_of(value: ConfigValue, files: FilesModel) -> Result<
    FieldModel,
    ConfigErrorModel,
> {
    match value {
        ConfigValue::Text(path) => match source_from_file(path@, files) {
            Ok(source) => Ok(simple_field(source)),
            Err(e) => Err(e),
        },
        ConfigValue::Table(tab) => match count_of(tab@) {
            Ok(n) => match sources_of(tab@, files) {
                Ok(sources) => if 0 <= n <= usize::MAX {
                    Ok(FieldModel { required_count: n as nat, sources })
                } else {
                    Err(ConfigErrorModel::CountOutOfRange)
                },
                Err(e) => Err(e),
            },
            Err(e) => Err(e),
        },
        ConfigValue::Array(list) => match texts_of(list@) {
            Ok(options) => Ok(
                simple_field(SourceModel { options, filter: FilterModel::Unconditional }),
            ),
            Err(e) => Err(e),
        },
        _ => Err(ConfigErrorModel::UnexpectedNode),
    }
}

/// The fields that the entries of a table stand for, in the order of the
/// entries. The first entry that is no field decides the error.
pub open spec fn fields_of(entries: TableModel, files: FilesModel) -> Result<
    BlueprintModel,
    ConfigErrorModel,
>
    decreases entries.len(),
{
    if entries.len() == 0 {
        Ok(Seq::empty())
    } else {
        match fields_of(entries.drop_last(), files) {
            Ok(fields) => match field_of(entries.last().1, files) {
                Ok(field) => Ok(with_entry(fields, entries.last().0, field)),
                Err(e) => Err(e),
            },
            Err(e) => Err(e),
        }
    }
}

/// The blueprint that a configuration value stands for: a table of fields of
/// which at least one looks at no other.
pub open spec fn blueprint_of(value: ConfigValue, files: FilesModel) -> Result<
    BlueprintModel,
    ConfigErrorModel,
> {
    match value {
        ConfigValue::Table(tab) => match fields_of(tab@, files) {
            Ok(fields) => if root_names(fields).len() == 0 {
                Err(ConfigErrorModel::NoRootFields)
            } else {
                Ok(fields)
            },
            Err(e) => Err(e),
        },
        _ => Err(ConfigErrorModel::ExpectedTable),
    }
}

/// The blueprints that the entries of a table stand for, by name. The first
/// entry that is no blueprint decides the error.
pub open spec fn blueprints_of(entries: TableModel, files: FilesModel) -> Result<
    Seq<(Seq<char>, BlueprintModel)>,
    ConfigErrorModel,
>
    decreases entries.len(),
{
    if entries.len() == 0 {
        Ok(Seq::empty())
    } else {
        match blueprints_of(entries.drop_last(), files) {
            Ok(all) => match blueprint_of(entries.last().1, files) {
                Ok(blueprint) => Ok(with_entry(all, entries.last().0, blueprint)),
                Err(e) => Err(e),
            },
            Err(e) => Err(e),
        }
    }
}

/// The mathematical value of a result of reading.
pub open spec fn read_view<T: DeepView>(r: Result<T, ConfigError>) -> Result<T::V, ConfigErrorModel> {
    match r {
        Ok(t) => Ok(t.deep_view()),
        Err(e) => Err(e.deep_view()),
    }
}

/// The pool that the file at `path` offers, once its text is known.
pub fn choice_source_from_file(path: &String, files: &FileTexts) -> (r: Result<
    ChoiceSource,
    ConfigError,
>)
    ensures
        read_view(r) == source_from_file(path@, files@),
{
    match files.get(path) {
        Some(contents) => Ok(ChoiceSource::from_file_text(contents.as_str())),
        None => Err(ConfigError::MissingFile(path.clone())),
    }
}

/// The value filed under `key` in a table.
fn table_get<'a>(tab: &'a OrderedMap<ConfigValue>, key: &str) -> (r: Option<&'a ConfigValue>)
    ensures
        r is Some <==> has_key(tab@, key@),
        match r {
            Some(v) => lookup(tab@, key@) == Some(*v),
            None => lookup(tab@, key@) is None,
        },
{
    let name = String::from_str(key);
    tab.get(&name)
}

impl ChoiceSource {
    /// The pool that a list of texts offers.
    pub fn from_array(a: &Vec<ConfigValue>) -> (r: Result<ChoiceSource, ConfigError>)
        ensures
            match r {
                Ok(source) => texts_of(a@) == Ok::<Seq<Seq<char>>, ConfigErrorModel>(
                    source.deep_view().options,
                ) && source.deep_view().filter is Unconditional,
                Err(e) => texts_of(a@) == Err::<Seq<Seq<char>>, ConfigErrorModel>(e.deep_view()),
            },
    {
        let mut values: Vec<String> = Vec::new();
        let mut i: usize = 0;
        proof {
            assert(a@.take(0) =~= Seq::empty());
            assert(values.deep_view() =~= Seq::empty());
        }
        while i < a.len()
            invariant
                i <= a@.len(),
                texts_of(a@.take(i as int)) == Ok::<Seq<Seq<char>>, ConfigErrorModel>(
                    values.deep_view(),
                ),
            decreases a@.len() - i,
        {
            let ghost before = values.deep_view();
            proof {
                assert(a@.take(i + 1).drop_last() =~= a@.take(i as int));
                assert(a@.take(i + 1).last() == a@[i as int]);
            }
            match &a[i] {
                ConfigValue::Text(s) => {
                    values.push(s.clone());
                    proof {
                        assert(values.deep_view() =~= before.push(s@));
                    }
                },
                _ => {
                    proof {
                        lemma_texts_of_error(a@, i + 1);
                    }
                    return Err(ConfigError::ExpectedText);
                },
            }
            i += 1;
        }
        proof {
            assert(a@.take(i as int) =~= a@);
        }
        Ok(ChoiceSource::from_strings(values))
    }

    /// The source that a choice stands for.
    pub fn from_table(tab: &OrderedMap<ConfigValue>, files: &FileTexts) -> (r: Result<
        ChoiceSource,
        ConfigError,
    >)
        ensures
            read_view(r) == source_of_table(tab@, files@),
    {
        let has_file = table_get(tab, "file").is_some();
        let has_values = table_get(tab, "values").is_some();
        let result = if has_file && !has_values {
            match table_get(tab, "file") {
                Some(ConfigValue::Text(path)) => choice_source_from_file(path, files),
                _ => Err(ConfigError::ExpectedText),
            }
        } else if !has_file && has_values {
            match table_get(tab, "values") {
                Some(ConfigValue::Array(vals)) => ChoiceSource::from_array(vals),
                _ => Err(ConfigError::ExpectedArray),
            }
        } else {
            Err(ConfigError::FileXorValues)
        };
        assert(read_view(result) == pool_of(tab@, files@));
        match result {
            Ok(pool) => match table_get(tab, "filter") {
                None => Ok(pool),
                Some(ConfigValue::Text(text)) => match ChoiceFilter::from_str(text.as_str()) {
                    Ok(filter) => Ok(pool.with_filter(filter)),
                    Err(_) => Err(ConfigError::MalformedFilter),
                },
                Some(_) => Err(ConfigError::ExpectedText),
            },
            Err(e) => Err(e),
        }
    }
}

/// An error among the first `k` entries of a list is the error of the whole
/// list.
pub proof fn lemma_texts_of_error(list: Seq<ConfigValue>, k: int)
    requires
        0 <= k <= list.len(),
        texts_of(list.take(k)) is Err,
    ensures
        texts_of(list) == texts_of(list.take(k)),
    decreases list.len() - k,
{
    if k == list.len() {
        assert(list.take(k) =~= list);
    } else {
        assert(list.drop_last().take(k) =~= list.take(k));
        lemma_texts_of_error(list.drop_last(), k);
    }
}

/// An error among the first `k` choices is the error of all the choices.
pub proof fn lemma_sources_of_choices_error(list: Seq<ConfigValue>, files: FilesModel, k: int)
    requires
        0 <= k <= list.len(),
        sources_of_choices(list.take(k), files) is Err,
    ensures
        sources_of_choices(list, files) == sources_of_choices(list.take(k), files),
    decreases list.len() - k,
{
    if k == list.len() {
        assert(list.take(k) =~= list);
    } else {
        assert(list.drop_last().take(k) =~= list.take(k));
        lemma_sources_of_choices_error(list.drop_last(), files, k);
    }
}

/// An error among the first `k` entries is the error of all the fields.
pub proof fn lemma_fields_of_error(entries: TableModel, files: FilesModel, k: int)
    requires
        0 <= k <= entries.len(),
        fields_of(entries.take(k), files) is Err,
    ensures
        fields_of(entries, files) == fields_of(entries.take(k), files),
    decreases entries.len() - k,
{
    if k == entries.len() {
        assert(entries.take(k) =~= entries);
    } else {
        assert(entries.drop_last().take(k) =~= entries.take(k));
        lemma_fields_of_error(entries.drop_last(), files, k);
    }
}

/// An error among the first `k` entries is the error of all the blueprints.
pub proof fn lemma_blueprints_of_error(entries: TableModel, files: FilesModel, k: int)
    requires
        0 <= k <= entries.len(),
        blueprints_of(entries.take(k), files) is Err,
    ensures
        blueprints_of(entries, files) == blueprints_of(entries.take(k), files),
    decreases entries.len() - k,
{
    if k == entries.len() {
        assert(entries.take(k) =~= entries);
    } else {
        assert(entries.drop_last().take(k) =~= entries.take(k));
        lemma_blueprints_of_error(entries.drop_last(), files, k);
    }
}

/// The sources that a list of choices stands for.
pub fn parse_choices(list: &Vec<ConfigValue>, files: &FileTexts) -> (r: Result<
    Vec<ChoiceSource>,
    ConfigError,
>)
    ensures
        read_view(r) == sources_of_choices(list@, files@),
{
    let mut sources: Vec<ChoiceSource> = Vec::new();
    let mut i: usize = 0;
    proof {
        assert(list@.take(0) =~= Seq::empty());
        assert(sources.deep_view() =~= Seq::empty());
    }
    while i < list.len()
        invariant
            i <= list@.len(),
            sources_of_choices(list@.take(i as int), files@) == Ok::<
                Seq<SourceModel>,
                ConfigErrorModel,
            >(sources.deep_view()),
        decreases list@.len() - i,
    {
        let ghost before = sources.deep_view();
        proof {
            assert(list@.take(i + 1).drop_last() =~= list@.take(i as int));
            assert(list@.take(i + 1).last() == list@[i as int]);
        }
        let parsed = match &list[i] {
            ConfigValue::Table(tab) => ChoiceSource::from_table(tab, files),
            _ => Err(ConfigError::ExpectedTable),
        };
        match parsed {
            Ok(source) => {
                sources.push(source);
                proof {
                    assert(sources.deep_view() =~= before.push(source.deep_view()));
                }
            },
            Err(e) => {
                proof {
                    lemma_sources_of_choices_error(list@, files@, i + 1);
                }
                return Err(e);
            },
        }
        i += 1;
    }
    proof {
        assert(list@.take(i as int) =~= list@);
    }
    Ok(sources)
}

/// The sources of a field that is written as a table.
pub fn parse_choice_sources(tab: &OrderedMap<ConfigValue>, files: &FileTexts) -> (r: Result<
    Vec<ChoiceSource>,
    ConfigError,
>)
    ensures
        read_view(r) == sources_of(tab@, files@),
{
    let has_file = table_get(tab, "file").is_some();
    let has_choices = table_get(tab, "choices").is_some();
    if has_file && !has_choices {
        match table_get(tab, "file") {
            Some(ConfigValue::Text(path)) => match choice_source_from_file(path, files) {
                Ok(source) => {
                    let sources = vec![source];
                    proof {
                        assert(sources.deep_view() =~= seq![source.deep_view()]);
                    }
                    Ok(sources)
                },
                Err(e) => Err(e),
            },
            _ => Err(ConfigError::ExpectedText),
        }
    } else if !has_file && has_choices {
        match table_get(tab, "choices") {
            Some(ConfigValue::Array(list)) => parse_choices(list, files),
            _ => Err(ConfigError::ExpectedArray),
        }
    } else {
        Err(ConfigError::FileXorChoices)
    }
}

impl FieldBlueprint {
    /// The field that a configuration value stands for.
    pub fn parse(value: &ConfigValue, files: &FileTexts) -> (r: Result<FieldBlueprint, ConfigError>)
        ensures
            read_view(r) == field_of(*value, files@),
    {
        match value {
            ConfigValue::Text(path) => match choice_source_from_file(path, files) {
                Ok(source) => Ok(FieldBlueprint::simple(source)),
                Err(e) => Err(e),
            },
            ConfigValue::Table(tab) => {
                let n_selections: i64 = match table_get(tab, "n") {
                    None => 1,
                    Some(ConfigValue::Integer(n)) => *n,
                    Some(_) => {
                        return Err(ConfigError::ExpectedInteger);
                    },
                };
                match parse_choice_sources(tab, files) {
                    Ok(sources) => {
                        if n_selections < 0 || n_selections as u64 > usize::MAX as u64 {
                            Err(ConfigError::CountOutOfRange)
                        } else {
                            Ok(FieldBlueprint::new(n_selections as usize, sources))
                        }
                    },
                    Err(e) => Err(e),
                }
            },
            ConfigValue::Array(list) => match ChoiceSource::from_array(list) {
                Ok(source) => Ok(FieldBlueprint::simple(source)),
                Err(e) => Err(e),
            },
            _ => Err(ConfigError::UnexpectedNode),
        }
    }
}

/// The fields that the entries of a table stand for.
pub fn parse_fields(tab: &OrderedMap<ConfigValue>, files: &FileTexts) -> (r: Result<
    BpMap,
    ConfigError,
>)
    ensures
        read_view(r) == fields_of(tab@, files@),
        r matches Ok(fields) ==> fields.wf(),
{
    let mut fields = BpMap::new();
    let mut i: usize = 0;
    proof {
        assert(tab@.take(0) =~= Seq::empty());
        assert(fields@ =~= Seq::empty());
    }
    while i < tab.len()
        invariant
            i <= tab@.len(),
            fields.wf(),
            fields_of(tab@.take(i as int), files@) == Ok::<BlueprintModel, ConfigErrorModel>(
                fields@,
            ),
        decreases tab@.len() - i,
    {
        proof {
            assert(tab@.take(i + 1).drop_last() =~= tab@.take(i as int));
            assert(tab@.take(i + 1).last() == tab@[i as int]);
        }
        match FieldBlueprint::parse(tab.value_at(i), files) {
            Ok(field) => {
                fields.insert(tab.key_at(i).clone(), field);
            },
            Err(e) => {
                proof {
                    lemma_fields_of_error(tab@, files@, i + 1);
                }
                return Err(e);
            },
        }
        i += 1;
    }
    proof {
        assert(tab@.take(i as int) =~= tab@);
    }
    Ok(fields)
}

impl NpcBlueprint {
    /// The blueprint that a configuration value stands for.
    pub fn parse(value: &ConfigValue, files: &FileTexts) -> (r: Result<NpcBlueprint, ConfigError>)
        ensures
            read_view(r) == blueprint_of(*value, files@),
            r matches Ok(blueprint) ==> blueprint.wf(),
    {
        match value {
            ConfigValue::Table(tab) => match parse_fields(tab, files) {
                Ok(fields) => {
                    proof {
                        crate::dependency_graph::lemma_no_roots(fields@);
                    }
                    match NpcBlueprint::new(fields) {
                        Ok(blueprint) => {
                            proof {
                                blueprint.lemma_views_agree();
                            }
                            Ok(blueprint)
                        },
                        Err(_) => Err(ConfigError::NoRootFields),
                    }
                },
                Err(e) => Err(e),
            },
            _ => Err(ConfigError::ExpectedTable),
        }
    }
}

/// Every blueprint of a set is valid.
pub open spec fn all_valid(blueprints: &OrderedMap<NpcBlueprint>) -> bool {
    forall|i: int|
        0 <= i < blueprints.values().len() ==> (#[trigger] blueprints.values()[i]).wf()
}

/// The blueprints that the entries of a table stand for, by name.
pub fn load_blueprints_from_table(tab: &OrderedMap<ConfigValue>, files: &FileTexts) -> (r: Result<
    OrderedMap<NpcBlueprint>,
    ConfigError,
>)
    ensures
        match r {
            Ok(all) => blueprints_of(tab@, files@) == Ok::<
                Seq<(Seq<char>, BlueprintModel)>,
                ConfigErrorModel,
            >(all@) && all.wf() && all_valid(&all),
            Err(e) => blueprints_of(tab@, files@) == Err::<
                Seq<(Seq<char>, BlueprintModel)>,
                ConfigErrorModel,
            >(e.deep_view()),
        },
{
    let mut all: OrderedMap<NpcBlueprint> = OrderedMap::new();
    let mut i: usize = 0;
    proof {
        assert(tab@.take(0) =~= Seq::empty());
        assert(all@ =~= Seq::empty());
    }
    while i < tab.len()
        invariant
            i <= tab@.len(),
            all.wf(),
            all_valid(&all),
            blueprints_of(tab@.take(i as int), files@) == Ok::<
                Seq<(Seq<char>, BlueprintModel)>,
                ConfigErrorModel,
            >(all@),
        decreases tab@.len() - i,
    {
        proof {
            assert(tab@.take(i + 1).drop_last() =~= tab@.take(i as int));
            assert(tab@.take(i + 1).last() == tab@[i as int]);
        }
        match NpcBlueprint::parse(tab.value_at(i), files) {
            Ok(blueprint) => {
                let ghost before = all.values();
                let ghost entries = all@;
                let name = tab.key_at(i).clone();
                proof {
                    all.lemma_values_len();
                }
                all.insert(name, blueprint);
                proof {
                    assert forall|k: int| 0 <= k < all.values().len() implies (
                    #[trigger] all.values()[k]).wf() by {
                        if has_key(entries, name@) {
                            let p = crate::ordered_map::position_of(entries, name@);
                            if k != p {
                                assert(all.values()[k] == before[k]);
                            }
                        } else if k < before.len() {
                            assert(all.values()[k] == before[k]);
                        }
                    }
                }
            },
            Err(e) => {
                proof {
                    lemma_blueprints_of_error(tab@, files@, i + 1);
                }
                return Err(e);
            },
        }
        i += 1;
    }
    proof {
        assert(tab@.take(i as int) =~= tab@);
    }
    Ok(all)
}

} // verus!
