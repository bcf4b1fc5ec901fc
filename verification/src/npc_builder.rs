//! The builder: it resolves the fields of a record one at a time, offering for
//! each the values that the choices made so far leave open.
//!
//! Where several fields can be resolved next, the builder takes the first in
//! this order: the fields without a condition, as declared, and then the
//! fields whose conditions look only at resolved fields, as declared.

use crate::blueprint::{
    active_options, copy_blueprints, BlueprintModel, BpMap, FieldModel, RecordModel, StringMap,
};
use crate::dependency_graph::{
    available_unset_fields, graph_of, lemma_dependent_names, lemma_root_names, DependencyGraph,
    NoRootFieldsError,
};
use crate::blueprint::has_dependency;
use crate::ordered_map::{
    contains_text, has_key, keys_distinct, lemma_position_unique, lemma_push_fresh, value_of,
};
use vstd::pervasive::unreached;
use vstd::prelude::*;

verus! {

/// Why a selection was not accepted.
#[derive(Debug)]
pub enum SetFieldError {
    /// The number of values handed in, and the number the field takes.
    WrongN(usize, usize),
    /// The first value that is not on offer, and the values that are.
    InvalidValue(String, Vec<String>),
    /// Every field is resolved already.
    NPCCompleteError,
}

/// Mathematical value of a [`SetFieldError`].
pub enum SetFieldErrorModel {
    WrongN(nat, nat),
    InvalidValue(Seq<char>, Seq<Seq<char>>),
    NPCCompleteError,
}

impl DeepView for SetFieldError {
    type V = SetFieldErrorModel;

    open spec fn deep_view(&self) -> SetFieldErrorModel {
        match self {
            SetFieldError::WrongN(got, expected) => SetFieldErrorModel::WrongN(
                *got as nat,
                *expected as nat,
            ),
            SetFieldError::InvalidValue(value, allowed) => SetFieldErrorModel::InvalidValue(
                value@,
                allowed.deep_view(),
            ),
            SetFieldError::NPCCompleteError => SetFieldErrorModel::NPCCompleteError,
        }
    }
}

/// What the builder reports about the field to resolve next.
pub struct FieldInfoModel {
    pub name: Seq<char>,
    pub options: Seq<Seq<char>>,
    pub required_count: nat,
}

/// The fields that can be resolved next at stage `record`, first choice first.
pub open spec fn available_fields(bps: BlueprintModel, record: RecordModel) -> Seq<Seq<char>> {
    available_unset_fields(graph_of(bps), record)
}

/// Every field of the blueprint set is resolved in `record`.
pub open spec fn is_complete(bps: BlueprintModel, record: RecordModel) -> bool {
    forall|i: int| 0 <= i < bps.len() ==> has_key(record, (#[trigger] bps[i]).0)
}

/// The field to resolve next at stage `record` with the values on offer for it
/// and the number of values it takes; `None` when no field can be resolved.
pub open spec fn current_field(bps: BlueprintModel, record: RecordModel) -> Option<FieldInfoModel> {
    let available = available_fields(bps, record);
    if available.len() == 0 {
        None
    } else {
        let field: FieldModel = value_of(bps, available[0]);
        Some(
            FieldInfoModel {
                name: available[0],
                options: active_options(field.sources, record),
                required_count: field.required_count,
            },
        )
    }
}

/// `values[i]` is not on offer, and every value before it is.
pub open spec fn is_first_outside(values: Seq<Seq<char>>, allowed: Seq<Seq<char>>, i: int) -> bool {
    &&& 0 <= i < values.len()
    &&& !allowed.contains(values[i])
    &&& forall|j: int| 0 <= j < i ==> allowed.contains(#[trigger] values[j])
}

/// Every one of `values` is on offer.
pub open spec fn all_allowed(values: Seq<Seq<char>>, allowed: Seq<Seq<char>>) -> bool {
    forall|j: int| 0 <= j < values.len() ==> allowed.contains(#[trigger] values[j])
}

/// The first of `values` that is not on offer (meaningful when there is one).
pub open spec fn first_outside(values: Seq<Seq<char>>, allowed: Seq<Seq<char>>) -> Seq<char> {
    values[choose|i: int| is_first_outside(values, allowed, i)]
}

/// What a submission leads to: the answer to the caller, and the record
/// afterwards.
pub struct SubmitModel {
    pub answer: Result<Option<RecordModel>, SetFieldErrorModel>,
    pub record: RecordModel,
}

/// The outcome of submitting `values` at stage `record`. The checks come in
/// this order: is there a field to resolve, is the number of values right, is
/// every value on offer. Only when all pass is the selection committed.
pub open spec fn submit_outcome(
    bps: BlueprintModel,
    record: RecordModel,
    values: Seq<Seq<char>>,
) -> SubmitModel {
    match current_field(bps, record) {
        None => SubmitModel { answer: Err(SetFieldErrorModel::NPCCompleteError), record },
        Some(info) => if values.len() != info.required_count {
            SubmitModel {
                answer: Err(SetFieldErrorModel::WrongN(values.len(), info.required_count)),
                record,
            }
        } else if !all_allowed(values, info.options) {
            SubmitModel {
                answer: Err(
                    SetFieldErrorModel::InvalidValue(
                        first_outside(values, info.options),
                        info.options,
                    ),
                ),
                record,
            }
        } else {
            let next = record.push((info.name, values));
            SubmitModel {
                answer: Ok(
                    if is_complete(bps, next) {
                        Some(next)
                    } else {
                        None
                    },
                ),
                record: next,
            }
        },
    }
}

/// The mathematical value of what `set_current_field_val` hands back.
pub open spec fn answer_view(res: Result<Option<StringMap>, SetFieldError>) -> Result<
    Option<RecordModel>,
    SetFieldErrorModel,
> {
    match res {
        Ok(Some(record)) => Ok(Some(record@)),
        Ok(None) => Ok(None),
        Err(e) => Err(e.deep_view()),
    }
}

/// The mathematical value of what `current_field_infos` hands back.
pub open spec fn info_view(info: Option<(String, Vec<String>, usize)>) -> Option<FieldInfoModel> {
    match info {
        Some((name, options, n)) => Some(
            FieldInfoModel { name: name@, options: options.deep_view(), required_count: n as nat },
        ),
        None => None,
    }
}

/// What passes a filter was there before and meets the condition, and the
/// other way round.
pub proof fn lemma_filter_member<A>(s: Seq<A>, pred: spec_fn(A) -> bool, x: A)
    ensures
        s.filter(pred).contains(x) <==> s.contains(x) && pred(x),
    decreases s.len(),
{
    reveal(Seq::filter);
    if s.len() > 0 {
        let front = s.drop_last();
        lemma_filter_member(front, pred, x);
        let f = s.filter(pred);
        let ff = front.filter(pred);
        if f.contains(x) {
            let k = choose|k: int| 0 <= k < f.len() && f[k] == x;
            if k < ff.len() {
                assert(ff[k] == x);
                let i = choose|i: int| 0 <= i < front.len() && front[i] == x;
                assert(s[i] == x);
            } else {
                assert(s[s.len() - 1] == x);
            }
        }
        if s.contains(x) && pred(x) {
            let i = choose|i: int| 0 <= i < s.len() && s[i] == x;
            if i < front.len() {
                assert(front[i] == x);
                let k = choose|k: int| 0 <= k < ff.len() && ff[k] == x;
                assert(f[k] == x);
            } else {
                assert(f[f.len() - 1] == x);
            }
        }
    }
}

/// A field that can be resolved next is a field of the blueprint set, and the
/// record does not hold it yet.
pub proof fn lemma_available_is_declared(bps: BlueprintModel, record: RecordModel, name: Seq<char>)
    requires
        available_fields(bps, record).contains(name),
    ensures
        has_key(bps, name),
        !has_key(record, name),
{
    let g = graph_of(bps);
    let determined = g.dependents.filter(
        |d: Seq<char>| crate::dependency_graph::targets_met(g, d, record),
    );
    let candidates = g.roots + determined;
    lemma_filter_member(candidates, |f: Seq<char>| !has_key(record, f), name);
    let k = choose|k: int| 0 <= k < candidates.len() && candidates[k] == name;
    if k < g.roots.len() {
        assert(g.roots[k] == name);
        lemma_root_names(bps, name);
    } else {
        assert(determined[k - g.roots.len()] == name);
        lemma_filter_member(
            g.dependents,
            |d: Seq<char>| crate::dependency_graph::targets_met(g, d, record),
            name,
        );
        lemma_dependent_names(bps, name);
    }
}

/// A submission changes the record only when it is accepted, and then by
/// exactly one entry, filed under a name that the record did not hold: the
/// number of resolved fields never goes down, and goes up by one on success.
pub proof fn lemma_submit_progress(bps: BlueprintModel, record: RecordModel, values: Seq<Seq<char>>)
    requires
        keys_distinct(record),
    ensures
        ({
            let out = submit_outcome(bps, record, values);
            &&& out.answer is Err ==> out.record == record
            &&& out.answer is Ok ==> out.record.len() == record.len() + 1
            &&& out.answer is Ok ==> out.record.drop_last() == record
            &&& out.answer is Ok ==> !has_key(record, out.record.last().0)
            &&& out.record.len() >= record.len()
            &&& keys_distinct(out.record)
        }),
{
    let out = submit_outcome(bps, record, values);
    if out.answer is Ok {
        let info = current_field(bps, record)->0;
        let available = available_fields(bps, record);
        assert(available.contains(available[0]));
        lemma_available_is_declared(bps, record, info.name);
        lemma_push_fresh(record, info.name, values);
        assert(out.record.drop_last() =~= record);
    }
}

/// A record that a submission hands back as finished holds every field of the
/// blueprint set and nothing else, provided that the record before held only
/// fields of the set.
pub proof fn lemma_finished_record_closed(
    bps: BlueprintModel,
    record: RecordModel,
    values: Seq<Seq<char>>,
)
    requires
        keys_distinct(record),
        forall|i: int| 0 <= i < record.len() ==> has_key(bps, (#[trigger] record[i]).0),
    ensures
        ({
            let out = submit_outcome(bps, record, values);
            &&& forall|i: int|
                0 <= i < out.record.len() ==> has_key(bps, (#[trigger] out.record[i]).0)
            &&& out.answer matches Ok(Some(finished)) ==> finished == out.record && forall|
                name: Seq<char>,
            | has_key(finished, name) <==> has_key(bps, name)
        }),
{
    let out = submit_outcome(bps, record, values);
    if out.answer is Ok {
        let info = current_field(bps, record)->0;
        let available = available_fields(bps, record);
        assert(available.contains(available[0]));
        lemma_available_is_declared(bps, record, info.name);
        let next = out.record;
        assert forall|i: int| 0 <= i < next.len() implies has_key(bps, (#[trigger] next[i]).0) by {
            if i < record.len() {
                assert(next[i] == record[i]);
            }
        }
        if out.answer matches Ok(Some(_)) {
            let finished = next;
            assert forall|name: Seq<char>| has_key(finished, name) <==> has_key(bps, name) by {
                if has_key(finished, name) {
                    let i = choose|i: int| 0 <= i < next.len() && (#[trigger] next[i]).0 == name;
                    assert(has_key(bps, next[i].0));
                }
                if has_key(bps, name) {
                    let i = choose|i: int| 0 <= i < bps.len() && (#[trigger] bps[i]).0 == name;
                    assert(has_key(next, bps[i].0));
                }
            }
        }
    }
}

/// The fields of one kind of record together with their dependency graph.
#[derive(Debug)]
pub struct NpcBlueprint {
    blueprints: BpMap,
    dependency_graph: DependencyGraph,
}

impl View for NpcBlueprint {
    type V = BlueprintModel;

    /// The fields, in declaration order.
    closed spec fn view(&self) -> BlueprintModel {
        self.blueprints@
    }
}

impl DeepView for NpcBlueprint {
    type V = BlueprintModel;

    /// The fields, in declaration order.
    closed spec fn deep_view(&self) -> BlueprintModel {
        self.blueprints@
    }
}

impl NpcBlueprint {
    /// Both views of a blueprint are its fields.
    pub proof fn lemma_views_agree(&self)
        ensures
            self.deep_view() == self@,
    {
    }

    /// A copy of the blueprint.
    pub fn duplicate(&self) -> (copy: NpcBlueprint)
        requires
            self.wf(),
        ensures
            copy.wf(),
            copy@ == self@,
    {
        proof {
            self.lemma_wf();
        }
        match NpcBlueprint::new(copy_blueprints(&self.blueprints)) {
            Ok(copy) => copy,
            Err(_) => unreached(),
        }
    }

    /// Validity: no two fields share a name, and the graph is the graph of
    /// the fields.
    pub closed spec fn wf(&self) -> bool {
        &&& self.blueprints.wf()
        &&& self.dependency_graph.wf()
        &&& self.dependency_graph@ == graph_of(self.blueprints@)
    }

    /// Validity implies that no two fields share a name and that some field
    /// has no conditional source.
    pub proof fn lemma_wf(&self)
        requires
            self.wf(),
        ensures
            keys_distinct(self@),
            exists|i: int| 0 <= i < self@.len() && !has_dependency((#[trigger] self@[i]).1),
    {
        crate::dependency_graph::lemma_no_roots(self@);
    }

    /// Joins the fields with their graph. A set in which every field has a
    /// conditional source is refused.
    pub fn new(blueprints: BpMap) -> (res: Result<NpcBlueprint, NoRootFieldsError>)
        requires
            blueprints.wf(),
        ensures
            res matches Ok(bp) ==> bp.wf() && bp@ == blueprints@,
            res is Err <==> forall|i: int|
                0 <= i < blueprints@.len() ==> has_dependency((#[trigger] blueprints@[i]).1),
    {
        match DependencyGraph::from_blueprints(&blueprints) {
            Ok(dependency_graph) => Ok(NpcBlueprint { blueprints, dependency_graph }),
            Err(e) => Err(e),
        }
    }

    /// The fields.
    pub fn blueprints(&self) -> (fields: &BpMap)
        ensures
            fields@ == self@,
            self.wf() ==> fields.wf(),
    {
        &self.blueprints
    }

    /// The graph of the fields.
    pub fn dependency_graph(&self) -> (graph: &DependencyGraph)
        ensures
            self.wf() ==> graph.wf() && graph@ == graph_of(self@),
    {
        &self.dependency_graph
    }
}

/// A record under construction, with the blueprint it is built from.
#[derive(Debug)]
pub struct NpcBuilder {
    constructed_npc: StringMap,
    blueprint: NpcBlueprint,
}

impl NpcBuilder {
    /// The fields of the blueprint, in declaration order.
    pub closed spec fn fields(&self) -> BlueprintModel {
        self.blueprint@
    }

    /// The record as far as it is built, in the order of resolution.
    pub closed spec fn record(&self) -> RecordModel {
        self.constructed_npc@
    }

    /// Validity: the blueprint is valid, no field is resolved twice, and
    /// every resolved field is a field of the blueprint.
    pub closed spec fn wf(&self) -> bool {
        &&& self.blueprint.wf()
        &&& self.constructed_npc.wf()
        &&& forall|i: int|
            0 <= i < self.record().len() ==> has_key(self.fields(), (#[trigger] self.record()[i]).0)
    }

    /// Validity implies that no field is resolved twice and that every
    /// resolved field is a field of the blueprint.
    pub proof fn lemma_wf(&self)
        requires
            self.wf(),
        ensures
            keys_distinct(self.record()),
            keys_distinct(self.fields()),
            forall|i: int|
                0 <= i < self.record().len() ==> has_key(
                    self.fields(),
                    (#[trigger] self.record()[i]).0,
                ),
    {
    }

    /// A builder that has resolved nothing yet.
    pub fn new(blueprint: NpcBlueprint) -> (builder: NpcBuilder)
        requires
            blueprint.wf(),
        ensures
            builder.wf(),
            builder.fields() == blueprint@,
            builder.record().len() == 0,
    {
        NpcBuilder { constructed_npc: StringMap::new(), blueprint }
    }

    /// A copy of the builder at its present stage.
    pub fn duplicate(&self) -> (copy: NpcBuilder)
        requires
            self.wf(),
        ensures
            copy.wf(),
            copy.fields() == self.fields(),
            copy.record() == self.record(),
    {
        let copy = NpcBuilder {
            constructed_npc: self.constructed_npc.duplicate(),
            blueprint: self.blueprint.duplicate(),
        };
        proof {
            assert(copy.record() == self.record());
            assert(copy.fields() == self.fields());
            assert forall|i: int| 0 <= i < copy.record().len() implies has_key(
                copy.fields(),
                (#[trigger] copy.record()[i]).0,
            ) by {
                assert(has_key(self.fields(), self.record()[i].0));
            }
        }
        copy
    }

    /// The record as far as it is built.
    pub fn constructed_npc(&self) -> (record: &StringMap)
        ensures
            record@ == self.record(),
            self.wf() ==> record.wf(),
    {
        &self.constructed_npc
    }

    /// The name of the field to resolve next, the values on offer for it, and
    /// the number of values it takes; `None` when no field can be resolved.
    pub fn current_field_infos(&self) -> (info: Option<(String, Vec<String>, usize)>)
        requires
            self.wf(),
        ensures
            info_view(info) == current_field(self.fields(), self.record()),
    {
        let fields = self.blueprint.dependency_graph.get_available_unset_fields(
            &self.constructed_npc,
        );
        if fields.len() > 0 {
            let field = &fields[0];
            proof {
                let available = available_fields(self.fields(), self.record());
                assert(available[0] == field@);
                assert(available.contains(field@));
                lemma_available_is_declared(self.fields(), self.record(), field@);
            }
            let bp = self.blueprint.blueprints.get(field).unwrap();
            let opts = bp.active_options(&self.constructed_npc);
            Some((field.clone(), opts, bp.n_selections))
        } else {
            None
        }
    }

    /// Commits `values` for the current field if they are as many as the field
    /// takes and every one of them is on offer. The answer is the finished
    /// record once every field is resolved, and `None` while fields remain.
    /// A refused selection leaves the record as it was.
    pub fn set_current_field_val(&mut self, values: Vec<String>) -> (res: Result<
        Option<StringMap>,
        SetFieldError,
    >)
        requires
            old(self).wf(),
        ensures
            final(self).wf(),
            final(self).fields() == old(self).fields(),
            answer_view(res) == submit_outcome(
                old(self).fields(),
                old(self).record(),
                values.deep_view(),
            ).answer,
            final(self).record() == submit_outcome(
                old(self).fields(),
                old(self).record(),
                values.deep_view(),
            ).record,
            res is Err ==> final(self).record() == old(self).record(),
            res is Ok ==> final(self).record().len() == old(self).record().len() + 1,
            res matches Ok(Some(finished)) ==> finished.wf() && finished@ == final(self).record()
                && forall|name: Seq<char>|
                has_key(finished@, name) <==> has_key(old(self).fields(), name),
    {
        proof {
            lemma_submit_progress(self.fields(), self.record(), values.deep_view());
            lemma_finished_record_closed(self.fields(), self.record(), values.deep_view());
        }
        match self.current_field_infos() {
            Some((field, opts, n)) => {
                if values.len() != n {
                    Err(SetFieldError::WrongN(values.len(), n))
                } else {
                    match first_invalid(&values, &opts) {
                        Some(i) => {
                            let offending = values[i].clone();
                            Err(SetFieldError::InvalidValue(offending, opts))
                        },
                        None => {
                            let ghost before = self.record();
                            let ghost chosen = values.deep_view();
                            proof {
                                let available = available_fields(self.fields(), self.record());
                                assert(available.contains(available[0]));
                                lemma_available_is_declared(
                                    self.fields(),
                                    self.record(),
                                    field@,
                                );
                            }
                            self.constructed_npc.insert(field, values);
                            assert(self.record() == before.push((field@, chosen)));
                            if self.npc_completed() {
                                Ok(Some(self.constructed_npc.duplicate()))
                            } else {
                                Ok(None)
                            }
                        },
                    }
                }
            },
            None => Err(SetFieldError::NPCCompleteError),
        }
    }

    /// Whether every field of the blueprint is resolved.
    pub fn npc_completed(&self) -> (done: bool)
        ensures
            done == is_complete(self.fields(), self.record()),
    {
        let mut i: usize = 0;
        while i < self.blueprint.blueprints.len()
            invariant
                i <= self.fields().len(),
                forall|j: int|
                    0 <= j < i ==> has_key(self.record(), (#[trigger] self.fields()[j]).0),
            decreases self.fields().len() - i,
        {
            if !self.constructed_npc.contains_key(self.blueprint.blueprints.key_at(i)) {
                assert(!has_key(self.record(), self.fields()[i as int].0));
                return false;
            }
            i += 1;
        }
        true
    }
}

/// The position of the first of `values` that is not among `allowed`.
pub fn first_invalid(values: &Vec<String>, allowed: &Vec<String>) -> (r: Option<usize>)
    ensures
        match r {
            Some(i) => is_first_outside(values.deep_view(), allowed.deep_view(), i as int)
                && values.deep_view()[i as int] == first_outside(
                values.deep_view(),
                allowed.deep_view(),
            ),
            None => all_allowed(values.deep_view(), allowed.deep_view()),
        },
{
    let mut i: usize = 0;
    while i < values.len()
        invariant
            i <= values@.len(),
            forall|j: int|
                0 <= j < i ==> allowed.deep_view().contains(#[trigger] values.deep_view()[j]),
        decreases values@.len() - i,
    {
        if !contains_text(allowed, &values[i]) {
            proof {
                let v = values.deep_view();
                let a = allowed.deep_view();
                assert(is_first_outside(v, a, i as int));
                let c = choose|c: int| is_first_outside(v, a, c);
                if c < i {
                    assert(a.contains(v[c]));
                } else if i < c {
                    assert(a.contains(v[i as int]));
                }
            }
            return Some(i);
        }
        i += 1;
    }
    None
}

} // verus!
