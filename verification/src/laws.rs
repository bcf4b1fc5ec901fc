//! What the dependency graph and the builder compute, said over the
//! blueprints alone.

use crate::blueprint::{
    active_options, dependencies_met, depends_on, has_dependency, source_active, BlueprintModel,
    RecordModel, SourceModel,
};
use crate::dependency_graph::{
    determined_fields, graph_of, lemma_dependent_names, lemma_root_names, targets_met,
};
use crate::npc_builder::{available_fields, lemma_filter_member};
use crate::ordered_map::{has_key, keys_distinct};
use vstd::prelude::*;

verus! {

/// In the graph of a blueprint set with distinct names, the targets of a
/// field are met exactly if every field that one of its sources looks at is
/// resolved.
pub proof fn lemma_targets_are_dependencies(bps: BlueprintModel, record: RecordModel, i: int)
    requires
        keys_distinct(bps),
        0 <= i < bps.len(),
    ensures
        targets_met(graph_of(bps), bps[i].0, record) <==> dependencies_met(bps[i].1, record),
{
    let g = graph_of(bps);
    let name = bps[i].0;
    if targets_met(g, name, record) {
        assert forall|t: Seq<char>| #[trigger] depends_on(bps[i].1, t) implies has_key(
            record,
            t,
        ) by {
            assert(g.edges.contains((name, t)));
        }
    }
    if dependencies_met(bps[i].1, record) {
        assert forall|t: Seq<char>| #[trigger] g.edges.contains((name, t)) implies has_key(
            record,
            t,
        ) by {
            let k = choose|k: int|
                0 <= k < bps.len() && (#[trigger] bps[k]).0 == (name, t).0 && depends_on(
                    bps[k].1,
                    (name, t).1,
                );
            if k < i {
                assert(bps[k].0 != bps[i].0);
            } else if i < k {
                assert(bps[i].0 != bps[k].0);
            }
            assert(depends_on(bps[i].1, t));
        }
    }
}

/// A field is determined exactly if it has a conditional source and every
/// field that its sources look at is resolved, whatever values those fields
/// took.
pub proof fn lemma_determined_fields(bps: BlueprintModel, record: RecordModel, name: Seq<char>)
    requires
        keys_distinct(bps),
    ensures
        determined_fields(graph_of(bps), record).contains(name) <==> exists|i: int|
            0 <= i < bps.len() && (#[trigger] bps[i]).0 == name && has_dependency(bps[i].1)
                && dependencies_met(bps[i].1, record),
{
    let g = graph_of(bps);
    lemma_filter_member(g.dependents, |d: Seq<char>| targets_met(g, d, record), name);
    lemma_dependent_names(bps, name);
    if determined_fields(g, record).contains(name) {
        let i = choose|i: int|
            0 <= i < bps.len() && (#[trigger] bps[i]).0 == name && has_dependency(bps[i].1);
        lemma_targets_are_dependencies(bps, record, i);
    }
    if exists|i: int|
        0 <= i < bps.len() && (#[trigger] bps[i]).0 == name && has_dependency(bps[i].1)
            && dependencies_met(bps[i].1, record) {
        let i = choose|i: int|
            0 <= i < bps.len() && (#[trigger] bps[i]).0 == name && has_dependency(bps[i].1)
                && dependencies_met(bps[i].1, record);
        lemma_targets_are_dependencies(bps, record, i);
    }
}

/// A field can be resolved next exactly if it is not resolved yet and either
/// has no conditional source or looks only at resolved fields.
pub proof fn lemma_available_fields(bps: BlueprintModel, record: RecordModel, name: Seq<char>)
    requires
        keys_distinct(bps),
    ensures
        available_fields(bps, record).contains(name) <==> !has_key(record, name) && exists|i: int|
            0 <= i < bps.len() && (#[trigger] bps[i]).0 == name && (!has_dependency(bps[i].1)
                || dependencies_met(bps[i].1, record)),
{
    let g = graph_of(bps);
    let determined = determined_fields(g, record);
    let candidates = g.roots + determined;
    lemma_filter_member(candidates, |f: Seq<char>| !has_key(record, f), name);
    lemma_root_names(bps, name);
    lemma_determined_fields(bps, record, name);
    if candidates.contains(name) {
        let k = choose|k: int| 0 <= k < candidates.len() && candidates[k] == name;
        if k < g.roots.len() {
            assert(g.roots[k] == name);
        } else {
            assert(determined[k - g.roots.len()] == name);
        }
    }
    if g.roots.contains(name) {
        let k = choose|k: int| 0 <= k < g.roots.len() && g.roots[k] == name;
        assert(candidates[k] == name);
    }
    if determined.contains(name) {
        let k = choose|k: int| 0 <= k < determined.len() && determined[k] == name;
        assert(candidates[g.roots.len() + k] == name);
    }
    if exists|i: int|
        0 <= i < bps.len() && (#[trigger] bps[i]).0 == name && (!has_dependency(bps[i].1)
            || dependencies_met(bps[i].1, record)) {
        let i = choose|i: int|
            0 <= i < bps.len() && (#[trigger] bps[i]).0 == name && (!has_dependency(bps[i].1)
                || dependencies_met(bps[i].1, record));
        if has_dependency(bps[i].1) {
            assert(determined.contains(name));
        } else {
            assert(g.roots.contains(name));
        }
    }
}

/// The values on offer are the union of the pools of the active sources: a
/// value is on offer exactly if some active source holds it.
pub proof fn lemma_active_options_union(
    sources: Seq<SourceModel>,
    record: RecordModel,
    value: Seq<char>,
)
    ensures
        active_options(sources, record).contains(value) <==> exists|i: int|
            0 <= i < sources.len() && source_active(#[trigger] sources[i], record)
                && sources[i].options.contains(value),
    decreases sources.len(),
{
    if sources.len() > 0 {
        let front = sources.drop_last();
        let last = sources.last();
        lemma_active_options_union(front, record, value);
        let all = active_options(sources, record);
        let before = active_options(front, record);
        if all.contains(value) {
            let k = choose|k: int| 0 <= k < all.len() && all[k] == value;
            if k < before.len() {
                assert(before[k] == value);
                let i = choose|i: int|
                    0 <= i < front.len() && source_active(#[trigger] front[i], record)
                        && front[i].options.contains(value);
                assert(sources[i] == front[i]);
            } else {
                assert(last.options[k - before.len()] == value);
                assert(sources[sources.len() - 1] == last);
            }
        }
        if exists|i: int|
            0 <= i < sources.len() && source_active(#[trigger] sources[i], record)
                && sources[i].options.contains(value) {
            let i = choose|i: int|
                0 <= i < sources.len() && source_active(#[trigger] sources[i], record)
                    && sources[i].options.contains(value);
            if i < front.len() {
                assert(front[i] == sources[i]);
                let k = choose|k: int| 0 <= k < before.len() && before[k] == value;
                assert(all[k] == value);
            } else {
                let k = choose|k: int| 0 <= k < last.options.len() && last.options[k] == value;
                assert(all[before.len() + k] == value);
            }
        }
    }
}

} // verus!
