use campman::blueprint::{BpMap, ChoiceFilter, ChoiceSource, FieldBlueprint, StringMap};
use campman::dependency_graph::{DependencyGraph, NoRootFieldsError};
use campman::npc_builder::{NpcBlueprint, NpcBuilder, SetFieldError};

fn s(text: &str) -> String {
    text.to_string()
}

fn strings(texts: &[&str]) -> Vec<String> {
    texts.iter().map(|t| t.to_string()).collect()
}

fn pool(texts: &[&str]) -> ChoiceSource {
    ChoiceSource::from_strings(strings(texts))
}

fn pool_if(texts: &[&str], field: &str, value: &str) -> ChoiceSource {
    pool(texts).with_filter(ChoiceFilter::field_value(s(field), s(value)))
}

fn entries(record: &StringMap) -> Vec<(String, Vec<String>)> {
    (0..record.len())
        .map(|i| (record.key_at(i).clone(), record.value_at(i).clone()))
        .collect()
}

fn race_and_weapon() -> BpMap {
    let mut bps = BpMap::new();
    bps.insert(s("Race"), FieldBlueprint::new(1, vec![pool(&["Elf", "Orc"])]));
    bps.insert(
        s("Weapon"),
        FieldBlueprint::new(
            1,
            vec![pool_if(&["Axe"], "Race", "Orc"), pool_if(&["Bow"], "Race", "Elf")],
        ),
    );
    bps
}

fn a_after_b() -> BpMap {
    let mut bps = BpMap::new();
    bps.insert(
        s("A"),
        FieldBlueprint::new(1, vec![pool(&["x", "y"]), pool_if(&["z"], "B", "b1")]),
    );
    bps.insert(s("B"), FieldBlueprint::new(1, vec![pool(&["b1", "b2"])]));
    bps
}

fn builder(bps: BpMap) -> NpcBuilder {
    NpcBuilder::new(NpcBlueprint::new(bps).unwrap())
}

#[test]
fn end_to_end_race_then_weapon() {
    let mut b = builder(race_and_weapon());
    assert_eq!(
        b.current_field_infos(),
        Some((s("Race"), strings(&["Elf", "Orc"]), 1))
    );
    let step = b.set_current_field_val(strings(&["Orc"])).unwrap();
    assert!(step.is_none());
    assert!(!b.npc_completed());
    assert_eq!(b.current_field_infos(), Some((s("Weapon"), strings(&["Axe"]), 1)));
    let done = b.set_current_field_val(strings(&["Axe"])).unwrap().unwrap();
    assert_eq!(
        entries(&done),
        vec![(s("Race"), strings(&["Orc"])), (s("Weapon"), strings(&["Axe"]))]
    );
    assert!(b.npc_completed());
    assert_eq!(b.current_field_infos(), None);
}

#[test]
fn elf_gets_the_bow() {
    let mut b = builder(race_and_weapon());
    b.set_current_field_val(strings(&["Elf"])).unwrap();
    assert_eq!(b.current_field_infos(), Some((s("Weapon"), strings(&["Bow"]), 1)));
    match b.set_current_field_val(strings(&["Axe"])) {
        Err(SetFieldError::InvalidValue(v, allowed)) => {
            assert_eq!(v, "Axe");
            assert_eq!(allowed, strings(&["Bow"]));
        }
        other => panic!("unexpected: {:?}", other),
    }
}

#[test]
fn filter_leaves_out_the_pool_whose_value_was_not_chosen() {
    let mut b = builder(a_after_b());
    assert_eq!(b.current_field_infos(), Some((s("B"), strings(&["b1", "b2"]), 1)));
    b.set_current_field_val(strings(&["b2"])).unwrap();
    assert_eq!(b.current_field_infos(), Some((s("A"), strings(&["x", "y"]), 1)));
}

#[test]
fn filter_adds_the_pool_whose_value_was_chosen() {
    let mut b = builder(a_after_b());
    b.set_current_field_val(strings(&["b1"])).unwrap();
    assert_eq!(
        b.current_field_infos(),
        Some((s("A"), strings(&["x", "y", "z"]), 1))
    );
}

#[test]
fn a_filter_on_an_unresolved_field_is_not_met() {
    let record = StringMap::new();
    let filter = ChoiceFilter::field_value(s("B"), s("b1"));
    assert!(!filter.is_met(&record));
    assert!(ChoiceFilter::Unconditional.is_met(&record));
    let field = FieldBlueprint::new(1, vec![pool(&["x"]), pool_if(&["z"], "B", "b1")]);
    assert_eq!(field.active_options(&record), strings(&["x"]));
}

#[test]
fn no_root_is_refused() {
    let mut bps = BpMap::new();
    bps.insert(s("A"), FieldBlueprint::new(1, vec![pool_if(&["x"], "B", "b")]));
    bps.insert(s("B"), FieldBlueprint::new(1, vec![pool_if(&["b"], "A", "x")]));
    assert_eq!(DependencyGraph::from_blueprints(&bps).err(), Some(NoRootFieldsError));
    assert!(NpcBlueprint::new(bps).is_err());
}

#[test]
fn an_empty_blueprint_set_has_no_root() {
    let bps = BpMap::new();
    assert!(DependencyGraph::from_blueprints(&bps).is_err());
}

#[test]
fn one_conditional_source_makes_a_field_a_dependent() {
    let mut bps = a_after_b();
    bps.insert(s("C"), FieldBlueprint::new(1, vec![pool_if(&["c"], "B", "b2")]));
    let graph = DependencyGraph::from_blueprints(&bps).unwrap();
    let mut on_b = graph.get_depending_fields(&s("B"));
    on_b.sort();
    assert_eq!(on_b, strings(&["A", "C"]));
    assert_eq!(graph.get_depending_fields(&s("A")), Vec::<String>::new());
    assert_eq!(graph.get_depending_fields(&s("nowhere")), Vec::<String>::new());

    let mut record = StringMap::new();
    assert_eq!(graph.get_determined_fields(&record), Vec::<String>::new());
    assert_eq!(graph.get_available_unset_fields(&record), strings(&["B"]));
    record.insert(s("B"), strings(&["b1"]));
    assert_eq!(graph.get_determined_fields(&record), strings(&["A", "C"]));
    assert_eq!(graph.get_available_unset_fields(&record), strings(&["A", "C"]));
    record.insert(s("A"), strings(&["x"]));
    assert_eq!(graph.get_determined_fields(&record), strings(&["A", "C"]));
    assert_eq!(graph.get_available_unset_fields(&record), strings(&["C"]));
}

#[test]
fn wrong_count_is_refused_and_changes_nothing() {
    let mut bps = BpMap::new();
    bps.insert(s("Traits"), FieldBlueprint::new(2, vec![pool(&["x", "y", "z"])]));
    let mut b = builder(bps);
    match b.set_current_field_val(strings(&["x"])) {
        Err(SetFieldError::WrongN(1, 2)) => {}
        other => panic!("unexpected: {:?}", other),
    }
    assert_eq!(b.constructed_npc().len(), 0);
    match b.set_current_field_val(strings(&["x", "y", "z"])) {
        Err(SetFieldError::WrongN(3, 2)) => {}
        other => panic!("unexpected: {:?}", other),
    }
    assert_eq!(b.constructed_npc().len(), 0);
    assert_eq!(
        b.current_field_infos(),
        Some((s("Traits"), strings(&["x", "y", "z"]), 2))
    );
    let done = b.set_current_field_val(strings(&["z", "x"])).unwrap().unwrap();
    assert_eq!(entries(&done), vec![(s("Traits"), strings(&["z", "x"]))]);
}

#[test]
fn the_count_is_checked_before_the_values() {
    let mut bps = BpMap::new();
    bps.insert(s("Traits"), FieldBlueprint::new(2, vec![pool(&["x", "y"])]));
    let mut b = builder(bps);
    match b.set_current_field_val(strings(&["q"])) {
        Err(SetFieldError::WrongN(1, 2)) => {}
        other => panic!("unexpected: {:?}", other),
    }
}

#[test]
fn invalid_value_is_refused_with_the_allowed_values() {
    let mut bps = BpMap::new();
    bps.insert(s("F"), FieldBlueprint::simple(pool(&["x", "y"])));
    let mut b = builder(bps);
    match b.set_current_field_val(strings(&["q"])) {
        Err(SetFieldError::InvalidValue(v, allowed)) => {
            assert_eq!(v, "q");
            assert_eq!(allowed, strings(&["x", "y"]));
        }
        other => panic!("unexpected: {:?}", other),
    }
    assert_eq!(b.constructed_npc().len(), 0);
}

#[test]
fn the_first_offending_value_is_reported() {
    let mut bps = BpMap::new();
    bps.insert(s("F"), FieldBlueprint::new(3, vec![pool(&["x", "y"])]));
    let mut b = builder(bps);
    match b.set_current_field_val(strings(&["x", "p", "q"])) {
        Err(SetFieldError::InvalidValue(v, _)) => assert_eq!(v, "p"),
        other => panic!("unexpected: {:?}", other),
    }
}

#[test]
fn submitting_to_a_finished_record_is_refused() {
    let mut bps = BpMap::new();
    bps.insert(s("F"), FieldBlueprint::simple(pool(&["x"])));
    let mut b = builder(bps);
    assert!(b.set_current_field_val(strings(&["x"])).unwrap().is_some());
    match b.set_current_field_val(strings(&["x"])) {
        Err(SetFieldError::NPCCompleteError) => {}
        other => panic!("unexpected: {:?}", other),
    }
    assert_eq!(b.constructed_npc().len(), 1);
}

#[test]
fn every_success_adds_one_field_and_the_result_holds_all_fields() {
    let mut bps = race_and_weapon();
    bps.insert(s("Name"), FieldBlueprint::simple(pool(&["Ann", "Bob"])));
    let mut b = builder(bps);
    let mut resolved = 0;
    let mut finished = None;
    while let Some((_, opts, n)) = b.current_field_infos() {
        let pick: Vec<String> = opts.into_iter().take(n).collect();
        finished = b.set_current_field_val(pick).unwrap();
        resolved += 1;
        assert_eq!(b.constructed_npc().len(), resolved);
    }
    let finished = finished.unwrap();
    let mut names: Vec<String> = finished.keys();
    assert_eq!(names, strings(&["Race", "Name", "Weapon"]));
    names.sort();
    assert_eq!(names, strings(&["Name", "Race", "Weapon"]));
}

#[test]
fn the_same_submission_gives_the_same_answer() {
    let mut one = builder(race_and_weapon());
    let mut two = builder(race_and_weapon());
    let a = one.set_current_field_val(strings(&["Troll"]));
    let b = two.set_current_field_val(strings(&["Troll"]));
    assert_eq!(format!("{:?}", a), format!("{:?}", b));
    let a = one.set_current_field_val(strings(&["Orc"]));
    let b = two.set_current_field_val(strings(&["Orc"]));
    assert_eq!(format!("{:?}", a), format!("{:?}", b));
    assert_eq!(entries(one.constructed_npc()), entries(two.constructed_npc()));
}

#[test]
fn a_field_that_takes_no_value_accepts_the_empty_selection() {
    let mut bps = BpMap::new();
    bps.insert(s("F"), FieldBlueprint::new(0, vec![pool(&["x"])]));
    let mut b = builder(bps);
    let done = b.set_current_field_val(vec![]).unwrap().unwrap();
    assert_eq!(entries(&done), vec![(s("F"), strings(&[]))]);
}

#[test]
fn fields_that_look_at_each_other_stall_the_builder() {
    let mut bps = BpMap::new();
    bps.insert(s("R"), FieldBlueprint::simple(pool(&["r"])));
    bps.insert(s("A"), FieldBlueprint::new(1, vec![pool_if(&["x"], "B", "b")]));
    bps.insert(s("B"), FieldBlueprint::new(1, vec![pool_if(&["b"], "A", "x")]));
    let mut b = builder(bps);
    assert!(b.set_current_field_val(strings(&["r"])).unwrap().is_none());
    assert_eq!(b.current_field_infos(), None);
    assert!(!b.npc_completed());
}

#[test]
fn ordered_map_keeps_positions_and_replaces_values() {
    let mut m = StringMap::new();
    assert_eq!(m.insert(s("a"), strings(&["1"])), None);
    assert_eq!(m.insert(s("b"), strings(&["2"])), None);
    assert_eq!(m.insert(s("a"), strings(&["3"])), Some(strings(&["1"])));
    assert_eq!(m.len(), 2);
    assert_eq!(m.keys(), strings(&["a", "b"]));
    assert_eq!(m.get(&s("a")), Some(&strings(&["3"])));
    assert_eq!(m.get(&s("c")), None);
    assert_eq!(m.position(&s("b")), Some(1));
    assert!(m.contains_key(&s("b")));
    assert!(!m.contains_key(&s("c")));
    let copy = m.duplicate();
    assert_eq!(entries(&copy), entries(&m));
}

#[test]
fn filter_targets_lists_a_target_per_conditional_source() {
    let field = FieldBlueprint::new(
        1,
        vec![pool(&["x"]), pool_if(&["y"], "B", "1"), pool_if(&["z"], "C", "2")],
    );
    assert_eq!(field.filter_targets(), strings(&["B", "C"]));
    assert_eq!(FieldBlueprint::simple(pool(&["x"])).filter_targets(), strings(&[]));
}
