//! The blueprint model: what a field of the generated record may hold, and
//! under which condition each pool of candidate values is on offer.

use crate::ordered_map::{contains_text, copy_texts, has_key, OrderedMap};
use crate::text::{lines_of, split_at_char, split_text, trim_text, trimmed};
use vstd::prelude::*;

verus! {

/// The record under construction: for each resolved field the values chosen
/// for it, in the order in which the fields were resolved.
pub type StringMap = OrderedMap<Vec<String>>;

/// The fields of one kind of record, in the order in which they were declared.
pub type BpMap = OrderedMap<FieldBlueprint>;

/// Mathematical value of a record under construction.
pub type RecordModel = Seq<(Seq<char>, Seq<Seq<char>>)>;

/// Mathematical value of a blueprint set.
pub type BlueprintModel = Seq<(Seq<char>, FieldModel)>;

/// When a pool of candidate values is on offer.
#[derive(Debug, Clone)]
pub enum ChoiceFilter {
    /// Only once `target_field` has been resolved to values that include
    /// `target_value`.
    FieldValue { target_field: String, target_value: String },
    /// Always.
    Unconditional,
}

/// One pool of candidate values together with its condition.
#[derive(Debug, Clone)]
pub struct ChoiceSource {
    pub options: Vec<String>,
    pub filter: ChoiceFilter,
}

/// One field of the record: how many values it takes and where they come from.
#[derive(Debug, Clone)]
pub struct FieldBlueprint {
    pub n_selections: usize,
    pub sources: Vec<ChoiceSource>,
}

/// Mathematical value of a [`ChoiceFilter`].
pub enum FilterModel {
    FieldValue { target_field: Seq<char>, target_value: Seq<char> },
    Unconditional,
}

/// Mathematical value of a [`ChoiceSource`].
pub struct SourceModel {
    pub options: Seq<Seq<char>>,
    pub filter: FilterModel,
}

/// Mathematical value of a [`FieldBlueprint`].
pub struct FieldModel {
    pub required_count: nat,
    pub sources: Seq<SourceModel>,
}

impl DeepView for ChoiceFilter {
    type V = FilterModel;

    open spec fn deep_view(&self) -> FilterModel {
        match self {
            ChoiceFilter::FieldValue { target_field, target_value } => FilterModel::FieldValue {
                target_field: target_field@,
                target_value: target_value@,
            },
            ChoiceFilter::Unconditional => FilterModel::Unconditional,
        }
    }
}

impl DeepView for ChoiceSource {
    type V = SourceModel;

    open spec fn deep_view(&self) -> SourceModel {
        SourceModel { options: lines_of(self.options@), filter: self.filter.deep_view() }
    }
}

impl DeepView for FieldBlueprint {
    type V = FieldModel;

    open spec fn deep_view(&self) -> FieldModel {
        FieldModel {
            required_count: self.n_selections as nat,
            sources: Seq::new(self.sources@.len(), |i: int| self.sources@[i].deep_view()),
        }
    }
}

/// The source is on offer for a record at stage `record`: it has no condition,
/// or the field it looks at is resolved and its values include the one asked
/// for. A condition on a field that is not resolved yet is simply not met.
pub open spec fn source_active(source: SourceModel, record: RecordModel) -> bool {
    match source.filter {
        FilterModel::Unconditional => true,
        FilterModel::FieldValue { target_field, target_value } => exists|i: int|
            0 <= i < record.len() && (#[trigger] record[i]).0 == target_field
                && record[i].1.contains(target_value),
    }
}

/// The values on offer for a field at stage `record`: the pools of its active
/// sources, one after the other in source order.
pub open spec fn active_options(sources: Seq<SourceModel>, record: RecordModel) -> Seq<Seq<char>>
    decreases sources.len(),
{
    if sources.len() == 0 {
        Seq::empty()
    } else {
        let rest = active_options(sources.drop_last(), record);
        if source_active(sources.last(), record) {
            rest + sources.last().options
        } else {
            rest
        }
    }
}

/// The field has at least one source that looks at another field.
pub open spec fn has_dependency(field: FieldModel) -> bool {
    exists|i: int|
        0 <= i < field.sources.len() && (#[trigger] field.sources[i]).filter is FieldValue
}

/// Some source of the field looks at `target`.
pub open spec fn depends_on(field: FieldModel, target: Seq<char>) -> bool {
    exists|i: int|
        0 <= i < field.sources.len() && (#[trigger] field.sources[i]).filter is FieldValue
            && field.sources[i].filter->target_field == target
}

/// Every field that `field` looks at is resolved in `record`.
pub open spec fn dependencies_met(field: FieldModel, record: RecordModel) -> bool {
    forall|target: Seq<char>| #[trigger] depends_on(field, target) ==> has_key(record, target)
}

impl ChoiceFilter {
    /// The condition "`field` was resolved to values that include `value`".
    pub fn field_value(field: String, value: String) -> (filter: ChoiceFilter)
        ensures
            filter.deep_view() == (FilterModel::FieldValue {
                target_field: field@,
                target_value: value@,
            }),
    {
        ChoiceFilter::FieldValue { target_field: field, target_value: value }
    }

    /// Whether the condition is met at stage `record`.
    pub fn is_met(&self, record: &StringMap) -> (met: bool)
        requires
            record.wf(),
        ensures
            met == source_active(
                SourceModel { options: Seq::empty(), filter: self.deep_view() },
                record@,
            ),
    {
        match self {
            ChoiceFilter::Unconditional => true,
            ChoiceFilter::FieldValue { target_field, target_value } => {
                match record.position(target_field) {
                    Some(i) => {
                        let chosen = record.value_at(i);
                        let found = contains_text(chosen, target_value);
                        proof {
                            let r = record@;
                            if found {
                                assert(r[i as int].0 == target_field@ && r[i as int].1.contains(
                                    target_value@,
                                ));
                            } else {
                                assert forall|j: int|
                                    0 <= j < r.len() && (#[trigger] r[j]).0
                                        == target_field@ implies !r[j].1.contains(
                                    target_value@,
                                ) by {
                                    if j < i {
                                        assert(r[j].0 != r[i as int].0);
                                    } else if i < j {
                                        assert(r[i as int].0 != r[j].0);
                                    }
                                }
                            }
                        }
                        found
                    },
                    None => false,
                }
            },
        }
    }
}

impl ChoiceSource {
    /// A pool that is always on offer.
    pub fn from_strings(vals: Vec<String>) -> (source: ChoiceSource)
        ensures
            source.deep_view() == (SourceModel {
                options: vals.deep_view(),
                filter: FilterModel::Unconditional,
            }),
    {
        proof {
            assert(lines_of(vals@) =~= vals.deep_view());
        }
        ChoiceSource { options: vals, filter: ChoiceFilter::Unconditional }
    }

    /// The same pool under the condition `filter`.
    pub fn with_filter(self, filter: ChoiceFilter) -> (source: ChoiceSource)
        ensures
            source.deep_view() == (SourceModel {
                options: self.deep_view().options,
                filter: filter.deep_view(),
            }),
    {
        ChoiceSource { options: self.options, filter }
    }

    /// Whether the pool is on offer at stage `record`.
    pub fn is_active(&self, record: &StringMap) -> (active: bool)
        requires
            record.wf(),
        ensures
            active == source_active(self.deep_view(), record@),
    {
        self.filter.is_met(record)
    }
}

impl FieldBlueprint {
    /// A field that takes one value from a single pool.
    pub fn simple(cs: ChoiceSource) -> (field: FieldBlueprint)
        ensures
            field.deep_view() == (FieldModel {
                required_count: 1,
                sources: seq![cs.deep_view()],
            }),
    {
        let field = FieldBlueprint { n_selections: 1, sources: vec![cs] };
        proof {
            assert(field.deep_view().sources =~= seq![cs.deep_view()]);
        }
        field
    }

    /// A field that takes `n_selections` values from the pools `sources`.
    pub fn new(n_selections: usize, sources: Vec<ChoiceSource>) -> (field: FieldBlueprint)
        ensures
            field.deep_view() == (FieldModel {
                required_count: n_selections as nat,
                sources: sources.deep_view(),
            }),
    {
        let field = FieldBlueprint { n_selections, sources };
        proof {
            assert(field.deep_view().sources =~= sources.deep_view());
        }
        field
    }

    /// The fields that this one looks at, one entry per conditional source, in
    /// source order.
    pub fn filter_targets(&self) -> (targets: Vec<String>)
        ensures
            forall|t: Seq<char>|
                targets.deep_view().contains(t) <==> depends_on(self.deep_view(), t),
            targets@.len() == 0 <==> !has_dependency(self.deep_view()),
    {
        let mut targets: Vec<String> = Vec::new();
        let mut i: usize = 0;
        let ghost field = self.deep_view();
        while i < self.sources.len()
            invariant
                i <= self.sources@.len(),
                field == self.deep_view(),
                forall|t: Seq<char>|
                    targets.deep_view().contains(t) <==> exists|j: int|
                        0 <= j < i && (#[trigger] field.sources[j]).filter is FieldValue
                            && field.sources[j].filter->target_field == t,
            decreases self.sources@.len() - i,
        {
            let ghost before = targets.deep_view();
            match &self.sources[i].filter {
                ChoiceFilter::FieldValue { target_field, target_value: _ } => {
                    targets.push(target_field.clone());
                    proof {
                        let after = targets.deep_view();
                        assert(after =~= before.push(target_field@));
                        assert(field.sources[i as int].filter->target_field == target_field@);
                        assert forall|t: Seq<char>| after.contains(t) <==> exists|j: int|
                            0 <= j < i + 1 && (#[trigger] field.sources[j]).filter is FieldValue
                                && field.sources[j].filter->target_field == t by {
                            if after.contains(t) {
                                let k = choose|k: int| 0 <= k < after.len() && after[k] == t;
                                if k < before.len() {
                                    assert(before[k] == t);
                                    assert(before.contains(t));
                                } else {
                                    assert(field.sources[i as int].filter is FieldValue);
                                }
                            }
                            if exists|j: int|
                                0 <= j < i + 1 && (#[trigger] field.sources[j]).filter is FieldValue
                                    && field.sources[j].filter->target_field == t {
                                let j = choose|j: int|
                                    0 <= j < i + 1 && (
                                    #[trigger] field.sources[j]).filter is FieldValue
                                        && field.sources[j].filter->target_field == t;
                                if j < i {
                                    assert(before.contains(t));
                                    let k = choose|k: int| 0 <= k < before.len() && before[k] == t;
                                    assert(after[k] == t);
                                } else {
                                    assert(after[before.len() as int] == t);
                                }
                            }
                        }
                    }
                },
                ChoiceFilter::Unconditional => {
                    proof {
                        assert(!(field.sources[i as int].filter is FieldValue));
                    }
                },
            }
            i += 1;
        }
        proof {
            if targets@.len() == 0 {
                if has_dependency(field) {
                    let j = choose|j: int|
                        0 <= j < field.sources.len() && (
                        #[trigger] field.sources[j]).filter is FieldValue;
                    let t = field.sources[j].filter->target_field;
                    assert(depends_on(field, t));
                    assert(targets.deep_view().contains(t));
                }
            } else {
                let t = targets.deep_view()[0];
                assert(targets.deep_view().contains(t));
                assert(depends_on(field, t));
            }
        }
        targets
    }

    /// The values on offer for this field at stage `record`: the pools of the
    /// sources whose condition is met, one after the other.
    pub fn active_options(&self, record: &StringMap) -> (opts: Vec<String>)
        requires
            record.wf(),
        ensures
            opts.deep_view() == active_options(self.deep_view().sources, record@),
    {
        let mut opts: Vec<String> = Vec::new();
        let ghost sources = self.deep_view().sources;
        let mut i: usize = 0;
        proof {
            assert(sources.take(0) =~= Seq::empty());
            assert(opts.deep_view() =~= Seq::empty());
        }
        while i < self.sources.len()
            invariant
                i <= self.sources@.len(),
                record.wf(),
                sources == self.deep_view().sources,
                opts.deep_view() == active_options(sources.take(i as int), record@),
            decreases self.sources@.len() - i,
        {
            let source = &self.sources[i];
            let ghost before = opts.deep_view();
            proof {
                assert(sources.take(i + 1).drop_last() =~= sources.take(i as int));
                assert(sources.take(i + 1).last() == source.deep_view());
            }
            if source.is_active(record) {
                let mut j: usize = 0;
                while j < source.options.len()
                    invariant
                        j <= source.options@.len(),
                        opts.deep_view() == before + source.deep_view().options.take(j as int),
                    decreases source.options@.len() - j,
                {
                    let ghost prev = opts.deep_view();
                    opts.push(source.options[j].clone());
                    proof {
                        assert(opts.deep_view() =~= prev.push(source.options@[j as int]@));
                        assert(source.deep_view().options.take(j + 1) =~= source.deep_view().options.take(
                            j as int,
                        ).push(source.options@[j as int]@));
                        assert(opts.deep_view() =~= before + source.deep_view().options.take(
                            j + 1,
                        ));
                    }
                    j += 1;
                }
                proof {
                    assert(source.deep_view().options.take(j as int) =~= source.deep_view().options);
                }
            }
            i += 1;
        }
        proof {
            assert(sources.take(i as int) =~= sources);
        }
        opts
    }
}

/// A condition that is not written as a field, a colon and a value.
#[derive(Debug, Clone, Copy, PartialEq, Eq, Structural)]
pub struct MalformedFilter;

/// What a text says about a condition: the field to look at, a colon, and the
/// value to look for. White space around either does not count.
pub open spec fn filter_of(src: Seq<char>) -> Option<FilterModel> {
    let parts = split_at_char(src, ':');
    if parts.len() == 2 {
        Some(
            FilterModel::FieldValue {
                target_field: trimmed(parts[0]),
                target_value: trimmed(parts[1]),
            },
        )
    } else {
        None
    }
}

/// What a line of a file of options offers: the text before any `#`, without
/// the white space around it.
pub open spec fn option_of_line(line: Seq<char>) -> Seq<char> {
    trimmed(split_at_char(line, '#')[0])
}

/// What lines offer, one option for each line that is not empty or a
/// comment.
pub open spec fn options_of_lines(lines: Seq<Seq<char>>) -> Seq<Seq<char>>
    decreases lines.len(),
{
    if lines.len() == 0 {
        Seq::empty()
    } else {
        let rest = options_of_lines(lines.drop_last());
        let option = option_of_line(lines.last());
        if option.len() > 0 {
            rest.push(option)
        } else {
            rest
        }
    }
}

/// The options that the text of a file offers.
pub open spec fn file_options(contents: Seq<char>) -> Seq<Seq<char>> {
    options_of_lines(split_at_char(contents, '\n'))
}

impl ChoiceFilter {
    /// Reads a condition from a text `field: value`.
    pub fn from_str(src: &str) -> (r: Result<ChoiceFilter, MalformedFilter>)
        ensures
            match r {
                Ok(filter) => filter_of(src@) == Some(filter.deep_view()),
                Err(_) => filter_of(src@) is None,
            },
    {
        let splits = split_text(src, ':');
        if splits.len() != 2 {
            return Err(MalformedFilter);
        }
        proof {
            assert(lines_of(splits@)[0] == splits@[0]@);
            assert(lines_of(splits@)[1] == splits@[1]@);
        }
        Ok(
            ChoiceFilter::FieldValue {
                target_field: trim_text(splits[0].as_str()),
                target_value: trim_text(splits[1].as_str()),
            },
        )
    }

    /// A copy of the condition.
    pub fn duplicate(&self) -> (copy: ChoiceFilter)
        ensures
            copy.deep_view() == self.deep_view(),
    {
        match self {
            ChoiceFilter::FieldValue { target_field, target_value } => ChoiceFilter::FieldValue {
                target_field: target_field.clone(),
                target_value: target_value.clone(),
            },
            ChoiceFilter::Unconditional => ChoiceFilter::Unconditional,
        }
    }
}

impl ChoiceSource {
    /// The pool that the text of a file offers: one option a line, where `#`
    /// begins a comment and empty lines do not count.
    pub fn from_file_text(contents: &str) -> (source: ChoiceSource)
        ensures
            source.deep_view() == (SourceModel {
                options: file_options(contents@),
                filter: FilterModel::Unconditional,
            }),
    {
        let lines = split_text(contents, '\n');
        let mut values: Vec<String> = Vec::new();
        let ghost all = lines_of(lines@);
        let mut i: usize = 0;
        proof {
            assert(all.take(0) =~= Seq::empty());
            assert(values.deep_view() =~= Seq::empty());
        }
        while i < lines.len()
            invariant
                i <= lines@.len(),
                all == lines_of(lines@),
                values.deep_view() == options_of_lines(all.take(i as int)),
            decreases lines@.len() - i,
        {
            let ghost before = values.deep_view();
            let pieces = split_text(lines[i].as_str(), '#');
            let clean = trim_text(pieces[0].as_str());
            proof {
                assert(all.take(i + 1).drop_last() =~= all.take(i as int));
                assert(all.take(i + 1).last() == lines@[i as int]@);
                assert(lines_of(pieces@)[0] == pieces@[0]@);
                assert(clean@ == option_of_line(lines@[i as int]@));
            }
            if !clean.as_str().is_empty() {
                values.push(clean);
                proof {
                    assert(values.deep_view() =~= before.push(clean@));
                }
            }
            i += 1;
        }
        proof {
            assert(all.take(i as int) =~= all);
        }
        ChoiceSource::from_strings(values)
    }

    /// A copy of the pool and its condition.
    pub fn duplicate(&self) -> (copy: ChoiceSource)
        ensures
            copy.deep_view() == self.deep_view(),
    {
        let options = copy_texts(&self.options);
        let copy = ChoiceSource { options, filter: self.filter.duplicate() };
        proof {
            assert(lines_of(copy.options@) =~= copy.options.deep_view());
            assert(lines_of(self.options@) =~= self.options.deep_view());
        }
        copy
    }
}

impl FieldBlueprint {
    /// A copy of the field.
    pub fn duplicate(&self) -> (copy: FieldBlueprint)
        ensures
            copy.deep_view() == self.deep_view(),
    {
        let mut sources: Vec<ChoiceSource> = Vec::new();
        let mut i: usize = 0;
        while i < self.sources.len()
            invariant
                i <= self.sources@.len(),
                sources@.len() == i,
                forall|j: int|
                    0 <= j < i ==> (#[trigger] sources@[j]).deep_view()
                        == self.sources@[j].deep_view(),
            decreases self.sources@.len() - i,
        {
            sources.push(self.sources[i].duplicate());
            i += 1;
        }
        let copy = FieldBlueprint { n_selections: self.n_selections, sources };
        proof {
            assert(copy.deep_view().sources =~= self.deep_view().sources);
        }
        copy
    }
}

/// A copy of a blueprint set, field by field.
pub fn copy_blueprints(bps: &BpMap) -> (copy: BpMap)
    requires
        bps.wf(),
    ensures
        copy.wf(),
        copy@ == bps@,
{
    let mut copy = BpMap::new();
    let mut i: usize = 0;
    proof {
        assert(bps@.take(0) =~= copy@);
    }
    while i < bps.len()
        invariant
            i <= bps@.len(),
            bps.wf(),
            copy.wf(),
            copy@ == bps@.take(i as int),
        decreases bps@.len() - i,
    {
        let ghost before = copy@;
        let name = bps.key_at(i).clone();
        let field = bps.value_at(i).duplicate();
        proof {
            if has_key(before, name@) {
                let k = choose|k: int| 0 <= k < before.len() && (#[trigger] before[k]).0 == name@;
                assert(bps@[k].0 != bps@[i as int].0);
            }
        }
        copy.insert(name, field);
        proof {
            assert(bps@.take(i + 1) =~= bps@.take(i as int).push(bps@[i as int]));
        }
        i += 1;
    }
    proof {
        assert(bps@.take(i as int) =~= bps@);
    }
    copy
}

} // verus!
