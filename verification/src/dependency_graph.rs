//! Which field looks at which other field, and which fields can be resolved
//! at a given stage of the record.
//!
//! The relation itself is kept in a `ManyToMany` of the `many-to-many` crate.
//! That collection hands its contents out in no particular order, so the graph
//! also keeps the names of the fields in declaration order: every list it
//! returns follows that order.

use crate::blueprint::{
    depends_on, has_dependency, BlueprintModel, BpMap, RecordModel, StringMap,
};
use crate::ordered_map::has_key;
use crate::text::lines_of;
use many_to_many::ManyToMany;
use std::rc::Rc;
use vstd::prelude::*;

verus! {

/// `many_to_many::ManyToMany`: a relation between left and right keys.
#[verifier::external_type_specification]
#[verifier::external_body]
#[verifier::reject_recursive_types(L)]
#[verifier::reject_recursive_types(R)]
pub struct ExManyToMany<L: std::hash::Hash + Eq + Clone, R: std::hash::Hash + Eq + Clone>(
    ManyToMany<L, R>,
);

/// The pairs `(left, right)` that a `ManyToMany` of strings holds.
pub uninterp spec fn relation_pairs(m: ManyToMany<String, String>) -> Set<(Seq<char>, Seq<char>)>;

/// `ManyToMany::new`: a relation that holds no pair.
#[verifier::external_body]
fn relation_new() -> (m: ManyToMany<String, String>)
    ensures
        relation_pairs(m) == Set::<(Seq<char>, Seq<char>)>::empty(),
{
    ManyToMany::new()
}

/// `ManyToMany::insert`: afterwards the relation holds the pair `(left, right)`
/// besides the pairs it held before. The result tells whether the pair is new.
#[verifier::external_body]
fn relation_insert(m: &mut ManyToMany<String, String>, left: String, right: String) -> (fresh: bool)
    ensures
        relation_pairs(*final(m)) == relation_pairs(*old(m)).insert((left@, right@)),
        fresh == !relation_pairs(*old(m)).contains((left@, right@)),
{
    m.insert(left, right)
}

/// `ManyToMany::get_left`: the right-hand partners of `left`, each once, in no
/// particular order; `None` when `left` has no partner. (The collection
/// keeps no key without a partner.)
#[verifier::external_body]
fn relation_get_left(m: &ManyToMany<String, String>, left: &String) -> (partners: Option<
    Vec<String>,
>)
    ensures
        partners is Some <==> exists|r: Seq<char>| relation_pairs(*m).contains((left@, r)),
        partners is Some ==> partners->0.deep_view().no_duplicates(),
        partners is Some ==> forall|r: Seq<char>|
            partners->0.deep_view().contains(r) <==> relation_pairs(*m).contains((left@, r)),
{
    m.get_left(left)
}

/// `ManyToMany::get_right`: the left-hand partners of `right`, each once, in no
/// particular order; `None` when `right` has no partner. (The collection
/// keeps no key without a partner.)
#[verifier::external_body]
fn relation_get_right(m: &ManyToMany<String, String>, right: &String) -> (partners: Option<
    Vec<String>,
>)
    ensures
        partners is Some <==> exists|l: Seq<char>| relation_pairs(*m).contains((l, right@)),
        partners is Some ==> partners->0.deep_view().no_duplicates(),
        partners is Some ==> forall|l: Seq<char>|
            partners->0.deep_view().contains(l) <==> relation_pairs(*m).contains((l, right@)),
{
    m.get_right(right)
}

/// Mathematical value of a [`DependencyGraph`].
pub struct GraphModel {
    /// The fields that look at no other field, in declaration order.
    pub roots: Seq<Seq<char>>,
    /// The fields that look at some other field, in declaration order.
    pub dependents: Seq<Seq<char>>,
    /// `(a, b)` is an edge when some source of `a` looks at `b`.
    pub edges: Set<(Seq<char>, Seq<char>)>,
}

/// The names of the fields without a conditional source, in declaration order.
pub open spec fn root_names(bps: BlueprintModel) -> Seq<Seq<char>>
    decreases bps.len(),
{
    if bps.len() == 0 {
        Seq::empty()
    } else if has_dependency(bps.last().1) {
        root_names(bps.drop_last())
    } else {
        root_names(bps.drop_last()).push(bps.last().0)
    }
}

/// The names of the fields with a conditional source, in declaration order.
pub open spec fn dependent_names(bps: BlueprintModel) -> Seq<Seq<char>>
    decreases bps.len(),
{
    if bps.len() == 0 {
        Seq::empty()
    } else if has_dependency(bps.last().1) {
        dependent_names(bps.drop_last()).push(bps.last().0)
    } else {
        dependent_names(bps.drop_last())
    }
}

/// The pairs `(a, b)` such that some source of the field `a` looks at `b`.
pub open spec fn edges_of(bps: BlueprintModel) -> Set<(Seq<char>, Seq<char>)> {
    Set::new(
        |p: (Seq<char>, Seq<char>)|
            exists|i: int|
                0 <= i < bps.len() && (#[trigger] bps[i]).0 == p.0 && depends_on(bps[i].1, p.1),
    )
}

/// The graph that a blueprint set gives rise to.
pub open spec fn graph_of(bps: BlueprintModel) -> GraphModel {
    GraphModel { roots: root_names(bps), dependents: dependent_names(bps), edges: edges_of(bps) }
}

/// Every field that `field` looks at is resolved in `record`. Only presence
/// counts here, not the values chosen.
pub open spec fn targets_met(g: GraphModel, field: Seq<char>, record: RecordModel) -> bool {
    forall|t: Seq<char>| #[trigger] g.edges.contains((field, t)) ==> has_key(record, t)
}

/// Those of `names` whose targets are all resolved in `record`.
pub open spec fn keep_determined(
    g: GraphModel,
    record: RecordModel,
    names: Seq<Seq<char>>,
) -> Seq<Seq<char>> {
    names.filter(|d: Seq<char>| targets_met(g, d, record))
}

/// Those of `names` that are not resolved in `record`.
pub open spec fn keep_unset(record: RecordModel, names: Seq<Seq<char>>) -> Seq<Seq<char>> {
    names.filter(|f: Seq<char>| !has_key(record, f))
}

/// The dependent fields whose targets are all resolved in `record`, in
/// declaration order.
pub open spec fn determined_fields(g: GraphModel, record: RecordModel) -> Seq<Seq<char>> {
    keep_determined(g, record, g.dependents)
}

/// The fields that can be resolved next: the roots, then the determined
/// fields, without those that `record` already holds.
pub open spec fn available_unset_fields(g: GraphModel, record: RecordModel) -> Seq<Seq<char>> {
    keep_unset(record, g.roots + determined_fields(g, record))
}

/// One more element under a filter: it is appended if it passes and dropped if
/// it does not.
pub proof fn lemma_filter_step<A>(s: Seq<A>, pred: spec_fn(A) -> bool, i: int)
    requires
        0 <= i < s.len(),
    ensures
        s.take(i + 1).filter(pred) == if pred(s[i]) {
            s.take(i).filter(pred).push(s[i])
        } else {
            s.take(i).filter(pred)
        },
{
    reveal(Seq::filter);
    assert(s.take(i + 1).drop_last() =~= s.take(i));
}

/// Nothing passes a filter where there is nothing.
pub proof fn lemma_filter_none<A>(s: Seq<A>, pred: spec_fn(A) -> bool)
    ensures
        s.take(0).filter(pred) == Seq::<A>::empty(),
{
    reveal(Seq::filter);
    assert(s.take(0).filter(pred) =~= Seq::<A>::empty());
}

/// A name is a root exactly if some field of that name has no conditional
/// source.
pub proof fn lemma_root_names(bps: BlueprintModel, name: Seq<char>)
    ensures
        root_names(bps).contains(name) <==> exists|i: int|
            0 <= i < bps.len() && (#[trigger] bps[i]).0 == name && !has_dependency(bps[i].1),
    decreases bps.len(),
{
    if bps.len() > 0 {
        let front = bps.drop_last();
        lemma_root_names(front, name);
        let r = root_names(bps);
        let rf = root_names(front);
        if r.contains(name) {
            let k = choose|k: int| 0 <= k < r.len() && r[k] == name;
            if k < rf.len() {
                assert(rf[k] == name);
                let i = choose|i: int|
                    0 <= i < front.len() && (#[trigger] front[i]).0 == name && !has_dependency(
                        front[i].1,
                    );
                assert(bps[i] == front[i]);
            } else {
                assert(bps[bps.len() - 1].0 == name);
            }
        }
        if exists|i: int|
            0 <= i < bps.len() && (#[trigger] bps[i]).0 == name && !has_dependency(bps[i].1) {
            let i = choose|i: int|
                0 <= i < bps.len() && (#[trigger] bps[i]).0 == name && !has_dependency(bps[i].1);
            if i < front.len() {
                assert(front[i] == bps[i]);
                assert(rf.contains(name));
                let k = choose|k: int| 0 <= k < rf.len() && rf[k] == name;
                assert(r[k] == name);
            } else {
                assert(r[r.len() - 1] == name);
            }
        }
    }
}

/// A name is a dependent exactly if some field of that name has a conditional
/// source.
pub proof fn lemma_dependent_names(bps: BlueprintModel, name: Seq<char>)
    ensures
        dependent_names(bps).contains(name) <==> exists|i: int|
            0 <= i < bps.len() && (#[trigger] bps[i]).0 == name && has_dependency(bps[i].1),
    decreases bps.len(),
{
    if bps.len() > 0 {
        let front = bps.drop_last();
        lemma_dependent_names(front, name);
        let r = dependent_names(bps);
        let rf = dependent_names(front);
        if r.contains(name) {
            let k = choose|k: int| 0 <= k < r.len() && r[k] == name;
            if k < rf.len() {
                assert(rf[k] == name);
                let i = choose|i: int|
                    0 <= i < front.len() && (#[trigger] front[i]).0 == name && has_dependency(
                        front[i].1,
                    );
                assert(bps[i] == front[i]);
            } else {
                assert(bps[bps.len() - 1].0 == name);
            }
        }
        if exists|i: int|
            0 <= i < bps.len() && (#[trigger] bps[i]).0 == name && has_dependency(bps[i].1) {
            let i = choose|i: int|
                0 <= i < bps.len() && (#[trigger] bps[i]).0 == name && has_dependency(bps[i].1);
            if i < front.len() {
                assert(front[i] == bps[i]);
                assert(rf.contains(name));
                let k = choose|k: int| 0 <= k < rf.len() && rf[k] == name;
                assert(r[k] == name);
            } else {
                assert(r[r.len() - 1] == name);
            }
        }
    }
}

/// A blueprint set has no root exactly if every one of its fields has a
/// conditional source.
pub proof fn lemma_no_roots(bps: BlueprintModel)
    ensures
        root_names(bps).len() == 0 <==> forall|i: int|
            0 <= i < bps.len() ==> has_dependency((#[trigger] bps[i]).1),
{
    let r = root_names(bps);
    if r.len() > 0 {
        assert(r.contains(r[0]));
        lemma_root_names(bps, r[0]);
    }
    if !(forall|i: int| 0 <= i < bps.len() ==> has_dependency((#[trigger] bps[i]).1)) {
        let i = choose|i: int| 0 <= i < bps.len() && !has_dependency((#[trigger] bps[i]).1);
        lemma_root_names(bps, bps[i].0);
        assert(r.contains(bps[i].0));
    }
}

/// A blueprint set in which every field looks at some other field: there is
/// no field to begin with.
#[derive(Debug, Clone, Copy, PartialEq, Eq)]
pub struct NoRootFieldsError;

/// The fields of a blueprint set with the relation "looks at" between them.
#[derive(Debug, Clone)]
pub struct DependencyGraph {
    /// The fields that look at no other field.
    roots: Vec<String>,
    /// The fields that look at some other field.
    dependents: Vec<String>,
    /// Left looks at right.
    dependencies: Rc<ManyToMany<String, String>>,
}

impl View for DependencyGraph {
    type V = GraphModel;

    closed spec fn view(&self) -> GraphModel {
        GraphModel {
            roots: lines_of(self.roots@),
            dependents: lines_of(self.dependents@),
            edges: relation_pairs(*self.dependencies),
        }
    }
}

/// The edges of the fields in `done`, and the edges from `name` to `targets`.
spec fn partial_edges(
    done: BlueprintModel,
    name: Seq<char>,
    targets: Seq<Seq<char>>,
) -> Set<(Seq<char>, Seq<char>)> {
    Set::new(
        |p: (Seq<char>, Seq<char>)|
            edges_of(done).contains(p) || (p.0 == name && targets.contains(p.1)),
    )
}

impl DependencyGraph {
    /// Validity: there is a root, and the dependents are exactly the fields
    /// that an edge starts from.
    pub open spec fn wf(&self) -> bool {
        &&& self@.roots.len() > 0
        &&& forall|d: Seq<char>|
            self@.dependents.contains(d) <==> exists|t: Seq<char>| self@.edges.contains((d, t))
    }

    /// Builds the graph of a blueprint set. A set without a root is refused:
    /// that is the case exactly if every field has a conditional source.
    pub fn from_blueprints(bps: &BpMap) -> (res: Result<DependencyGraph, NoRootFieldsError>)
        ensures
            match res {
                Ok(g) => g@ == graph_of(bps@) && g.wf(),
                Err(_) => graph_of(bps@).roots.len() == 0,
            },
            res is Err <==> forall|i: int|
                0 <= i < bps@.len() ==> has_dependency((#[trigger] bps@[i]).1),
    {
        let mut roots: Vec<String> = Vec::new();
        let mut dependents: Vec<String> = Vec::new();
        let mut relation = relation_new();
        let ghost all = bps@;
        let mut i: usize = 0;
        proof {
            assert(all.take(0) =~= Seq::empty());
            assert(lines_of(roots@) =~= root_names(all.take(0)));
            assert(lines_of(dependents@) =~= dependent_names(all.take(0)));
            assert(relation_pairs(relation) =~= edges_of(all.take(0)));
        }
        while i < bps.len()
            invariant
                i <= all.len(),
                all == bps@,
                lines_of(roots@) == root_names(all.take(i as int)),
                lines_of(dependents@) == dependent_names(all.take(i as int)),
                relation_pairs(relation) == edges_of(all.take(i as int)),
            decreases all.len() - i,
        {
            let current_field = bps.key_at(i);
            let blueprint = bps.value_at(i);
            let field_deps = blueprint.filter_targets();
            let ghost done = all.take(i as int);
            let ghost next = all.take(i + 1);
            let ghost targets = field_deps.deep_view();
            proof {
                assert(next.drop_last() =~= done);
                assert(next.last() == all[i as int]);
                assert(blueprint.deep_view() == all[i as int].1);
            }
            if field_deps.len() == 0 {
                let ghost before = lines_of(roots@);
                roots.push(current_field.clone());
                proof {
                    assert(lines_of(roots@) =~= before.push(current_field@));
                    assert forall|p: (Seq<char>, Seq<char>)|
                        edges_of(next).contains(p) implies edges_of(done).contains(p) by {
                        let k = choose|k: int|
                            0 <= k < next.len() && (#[trigger] next[k]).0 == p.0 && depends_on(
                                next[k].1,
                                p.1,
                            );
                        if k == i {
                            assert(targets.contains(p.1));
                        } else {
                            assert(done[k] == next[k]);
                        }
                    }
                    assert forall|p: (Seq<char>, Seq<char>)|
                        edges_of(done).contains(p) implies edges_of(next).contains(p) by {
                        let k = choose|k: int|
                            0 <= k < done.len() && (#[trigger] done[k]).0 == p.0 && depends_on(
                                done[k].1,
                                p.1,
                            );
                        assert(next[k] == done[k]);
                    }
                    assert(edges_of(next) =~= edges_of(done));
                }
            } else {
                let ghost before = lines_of(dependents@);
                dependents.push(current_field.clone());
                proof {
                    assert(lines_of(dependents@) =~= before.push(current_field@));
                    assert(field_deps@.len() > 0);
                    assert(has_dependency(blueprint.deep_view()));
                    assert(partial_edges(done, current_field@, targets.take(0)) =~= edges_of(
                        done,
                    )) by {
                        assert forall|p: (Seq<char>, Seq<char>)|
                            !targets.take(0).contains(p.1) by {}
                    }
                }
                let mut j: usize = 0;
                while j < field_deps.len()
                    invariant
                        j <= field_deps@.len(),
                        targets == field_deps.deep_view(),
                        relation_pairs(relation) == partial_edges(
                            done,
                            current_field@,
                            targets.take(j as int),
                        ),
                    decreases field_deps@.len() - j,
                {
                    let ghost held = relation_pairs(relation);
                    relation_insert(&mut relation, current_field.clone(), field_deps[j].clone());
                    proof {
                        let t = targets[j as int];
                        assert(t == field_deps@[j as int]@);
                        assert(targets.take(j + 1) =~= targets.take(j as int).push(t));
                        assert forall|p: (Seq<char>, Seq<char>)|
                            held.insert((current_field@, t)).contains(p) <==> partial_edges(
                                done,
                                current_field@,
                                targets.take(j + 1),
                            ).contains(p) by {
                            let less = targets.take(j as int);
                            let more = targets.take(j + 1);
                            if less.contains(p.1) {
                                let k = choose|k: int| 0 <= k < less.len() && less[k] == p.1;
                                assert(more[k] == p.1);
                            }
                            if more.contains(p.1) {
                                let k = choose|k: int| 0 <= k < more.len() && more[k] == p.1;
                                if k < j {
                                    assert(less[k] == p.1);
                                }
                            }
                            assert(more[j as int] == t);
                        }
                        assert(relation_pairs(relation) =~= partial_edges(
                            done,
                            current_field@,
                            targets.take(j + 1),
                        ));
                    }
                    j += 1;
                }
                proof {
                    assert(targets.take(j as int) =~= targets);
                    assert forall|p: (Seq<char>, Seq<char>)|
                        partial_edges(done, current_field@, targets).contains(p) <==> edges_of(
                            next,
                        ).contains(p) by {
                        if edges_of(next).contains(p) {
                            let k = choose|k: int|
                                0 <= k < next.len() && (#[trigger] next[k]).0 == p.0 && depends_on(
                                    next[k].1,
                                    p.1,
                                );
                            if k == i {
                                assert(targets.contains(p.1));
                            } else {
                                assert(done[k] == next[k]);
                            }
                        }
                        if edges_of(done).contains(p) {
                            let k = choose|k: int|
                                0 <= k < done.len() && (#[trigger] done[k]).0 == p.0 && depends_on(
                                    done[k].1,
                                    p.1,
                                );
                            assert(next[k] == done[k]);
                        }
                        if p.0 == current_field@ && targets.contains(p.1) {
                            assert(next[i as int].0 == p.0 && depends_on(next[i as int].1, p.1));
                        }
                    }
                    assert(relation_pairs(relation) =~= edges_of(next));
                }
            }
            i += 1;
        }
        proof {
            assert(all.take(i as int) =~= all);
            lemma_no_roots(all);
        }
        if roots.len() == 0 {
            return Err(NoRootFieldsError);
        }
        let graph = DependencyGraph { roots, dependents, dependencies: Rc::new(relation) };
        proof {
            assert(graph@ == graph_of(all));
            assert forall|d: Seq<char>|
                graph@.dependents.contains(d) <==> exists|t: Seq<char>|
                    graph@.edges.contains((d, t)) by {
                lemma_dependent_names(all, d);
                if graph@.dependents.contains(d) {
                    let k = choose|k: int|
                        0 <= k < all.len() && (#[trigger] all[k]).0 == d && has_dependency(
                            all[k].1,
                        );
                    let s = choose|s: int|
                        0 <= s < all[k].1.sources.len() && (
                        #[trigger] all[k].1.sources[s]).filter is FieldValue;
                    let t = all[k].1.sources[s].filter->target_field;
                    assert(depends_on(all[k].1, t));
                    assert(edges_of(all).contains((d, t)));
                }
                if exists|t: Seq<char>| graph@.edges.contains((d, t)) {
                    let t = choose|t: Seq<char>| graph@.edges.contains((d, t));
                    let k = choose|k: int|
                        0 <= k < all.len() && (#[trigger] all[k]).0 == (d, t).0 && depends_on(
                            all[k].1,
                            (d, t).1,
                        );
                    assert(has_dependency(all[k].1));
                }
            }
        }
        Ok(graph)
    }

    /// The fields that look at `dependant`, each once, in no particular order.
    pub fn get_depending_fields(&self, dependant: &String) -> (fields: Vec<String>)
        ensures
            fields.deep_view().no_duplicates(),
            forall|a: Seq<char>|
                fields.deep_view().contains(a) <==> self@.edges.contains((a, dependant@)),
    {
        match relation_get_right(&self.dependencies, dependant) {
            Some(fields) => fields,
            None => {
                let fields: Vec<String> = Vec::new();
                proof {
                    assert(fields.deep_view() =~= Seq::empty());
                }
                fields
            },
        }
    }

    /// The fields that can be resolved next, in the order "roots in declaration
    /// order, then determined fields in declaration order".
    pub fn get_available_unset_fields(&self, npc: &StringMap) -> (fields: Vec<String>)
        ensures
            fields.deep_view() == available_unset_fields(self@, npc@),
    {
        let determined = self.get_determined_fields(npc);
        let mut fields: Vec<String> = Vec::new();
        let ghost roots = self@.roots;
        let ghost det = determined.deep_view();
        let ghost unset = |f: Seq<char>| !has_key(npc@, f);
        let mut i: usize = 0;
        proof {
            lemma_filter_none(roots, unset);
            assert(fields.deep_view() =~= Seq::empty());
            assert(keep_unset(npc@, roots.take(0)) == roots.take(0).filter(unset));
        }
        while i < self.roots.len()
            invariant
                i <= self.roots@.len(),
                roots == self@.roots,
                fields.deep_view() == keep_unset(npc@, roots.take(i as int)),
            decreases self.roots@.len() - i,
        {
            let ghost before = fields.deep_view();
            proof {
                lemma_filter_step(roots, |f: Seq<char>| !has_key(npc@, f), i as int);
            }
            if !npc.contains_key(&self.roots[i]) {
                fields.push(self.roots[i].clone());
                proof {
                    assert(fields.deep_view() =~= before.push(roots[i as int]));
                }
            }
            i += 1;
        }
        proof {
            assert(roots.take(i as int) =~= roots);
            assert(det.take(0) =~= Seq::empty());
            assert(roots + det.take(0) =~= roots);
        }
        let mut j: usize = 0;
        while j < determined.len()
            invariant
                j <= determined@.len(),
                det == determined.deep_view(),
                fields.deep_view() == keep_unset(npc@, roots + det.take(j as int)),
            decreases determined@.len() - j,
        {
            let ghost before = fields.deep_view();
            proof {
                let joined = roots + det;
                lemma_filter_step(
                    joined,
                    |f: Seq<char>| !has_key(npc@, f),
                    roots.len() + j as int,
                );
                assert(joined.take(roots.len() + j as int) =~= roots + det.take(j as int));
                assert(joined.take(roots.len() + j as int + 1) =~= roots + det.take(j + 1));
                assert(joined[roots.len() + j as int] == det[j as int]);
            }
            if !npc.contains_key(&determined[j]) {
                fields.push(determined[j].clone());
                proof {
                    assert(fields.deep_view() =~= before.push(det[j as int]));
                }
            }
            j += 1;
        }
        proof {
            assert(det.take(j as int) =~= det);
        }
        fields
    }

    /// The dependent fields whose targets are all resolved in `npc`, in
    /// declaration order. Only presence counts, not the values chosen.
    pub fn get_determined_fields(&self, npc: &StringMap) -> (fields: Vec<String>)
        ensures
            fields.deep_view() == determined_fields(self@, npc@),
    {
        let mut fields: Vec<String> = Vec::new();
        let ghost names = self@.dependents;
        let mut i: usize = 0;
        proof {
            lemma_filter_none(names, |d: Seq<char>| targets_met(self@, d, npc@));
            assert(fields.deep_view() =~= Seq::empty());
        }
        while i < self.dependents.len()
            invariant
                i <= self.dependents@.len(),
                names == self@.dependents,
                fields.deep_view() == keep_determined(self@, npc@, names.take(i as int)),
            decreases self.dependents@.len() - i,
        {
            let field = &self.dependents[i];
            let ghost before = fields.deep_view();
            proof {
                lemma_filter_step(names, |d: Seq<char>| targets_met(self@, d, npc@), i as int);
            }
            let met = match relation_get_left(&self.dependencies, field) {
                Some(deps) => {
                    let all_set = all_resolved(&deps, npc);
                    proof {
                        let targets = deps.deep_view();
                        if all_set {
                            assert forall|t: Seq<char>| #[trigger]
                                self@.edges.contains((field@, t)) implies has_key(npc@, t) by {
                                assert(targets.contains(t));
                            }
                        } else {
                            let k = choose|k: int|
                                0 <= k < targets.len() && !has_key(npc@, #[trigger] targets[k]);
                            assert(targets.contains(targets[k]));
                            assert(self@.edges.contains((field@, targets[k])));
                        }
                    }
                    all_set
                },
                None => true,
            };
            if met {
                fields.push(field.clone());
                proof {
                    assert(fields.deep_view() =~= before.push(names[i as int]));
                }
            }
            i += 1;
        }
        proof {
            assert(names.take(i as int) =~= names);
        }
        fields
    }
}

/// Whether every one of `names` is resolved in `npc`.
pub fn all_resolved(names: &Vec<String>, npc: &StringMap) -> (all: bool)
    ensures
        all == forall|k: int|
            0 <= k < names.deep_view().len() ==> has_key(npc@, #[trigger] names.deep_view()[k]),
{
    let mut k: usize = 0;
    while k < names.len()
        invariant
            k <= names@.len(),
            forall|j: int| 0 <= j < k ==> has_key(npc@, #[trigger] names.deep_view()[j]),
        decreases names@.len() - k,
    {
        if !npc.contains_key(&names[k]) {
            assert(!has_key(npc@, names.deep_view()[k as int]));
            return false;
        }
        k += 1;
    }
    true
}

} // verus!
