use campman::blueprint::{BpMap, ChoiceFilter, ChoiceSource, FieldBlueprint};
use campman::gen_npc_tab::{
    copy_display, roll_options, selected, Blueprints, GenNpcMessage, GenNpcTab, State, TabAction,
};
use campman::npc_builder::NpcBlueprint;
use campman::ordered_map::OrderedMap;

fn s(text: &str) -> String {
    text.to_string()
}

fn strings(texts: &[&str]) -> Vec<String> {
    texts.iter().map(|t| t.to_string()).collect()
}

fn pool(texts: &[&str]) -> ChoiceSource {
    ChoiceSource::from_strings(strings(texts))
}

fn hero() -> NpcBlueprint {
    let mut bps = BpMap::new();
    bps.insert(s("Race"), FieldBlueprint::new(1, vec![pool(&["Elf", "Orc"])]));
    bps.insert(
        s("Weapon"),
        FieldBlueprint::new(
            1,
            vec![
                pool(&["Axe"]).with_filter(ChoiceFilter::field_value(s("Race"), s("Orc"))),
                pool(&["Bow"]).with_filter(ChoiceFilter::field_value(s("Race"), s("Elf"))),
            ],
        ),
    );
    NpcBlueprint::new(bps).unwrap()
}

fn stalling() -> NpcBlueprint {
    let mut bps = BpMap::new();
    bps.insert(s("R"), FieldBlueprint::simple(pool(&["r"])));
    bps.insert(
        s("A"),
        FieldBlueprint::simple(pool(&["x"]).with_filter(ChoiceFilter::field_value(s("B"), s("b")))),
    );
    bps.insert(
        s("B"),
        FieldBlueprint::simple(pool(&["b"]).with_filter(ChoiceFilter::field_value(s("A"), s("x")))),
    );
    NpcBlueprint::new(bps).unwrap()
}

fn blueprints() -> Blueprints {
    let mut all = Blueprints::new();
    all.insert(s("hero"), hero());
    all.insert(s("stuck"), stalling());
    all
}

fn tell(tab: &mut GenNpcTab, message: GenNpcMessage) -> TabAction {
    assert!(tab.accepts(&message), "{:?}", message);
    tab.update(message)
}

#[test]
fn a_record_is_generated_click_by_click() {
    let mut tab = GenNpcTab::new(Ok(blueprints()));
    assert!(matches!(tab.state(), State::Initiated(_)));
    assert_eq!(tell(&mut tab, GenNpcMessage::GenNpc(s("hero"))), TabAction::Stay);
    match tab.state() {
        State::Building(_, _, bd) => {
            assert_eq!(bd.field_name, "Race");
            assert_eq!(bd.n, 1);
            assert_eq!(bd.all_options, strings(&["Elf", "Orc"]));
            let mut shown = bd.displayed_options.keys();
            shown.sort();
            assert_eq!(shown, strings(&["Elf", "Orc"]));
            assert_eq!(selected(&bd.displayed_options), strings(&[]));
        }
        other => panic!("unexpected: {:?}", other),
    }
    tell(&mut tab, GenNpcMessage::AttribSelected(s("Orc")));
    match tab.state() {
        State::Building(_, builder, bd) => {
            assert_eq!(bd.field_name, "Weapon");
            assert_eq!(bd.all_options, strings(&["Axe"]));
            assert_eq!(bd.displayed_options.keys(), strings(&["Axe"]));
            assert_eq!(builder.constructed_npc().len(), 1);
        }
        other => panic!("unexpected: {:?}", other),
    }
    tell(&mut tab, GenNpcMessage::AttribSelected(s("Axe")));
    match tab.state() {
        State::Finalizing(all, npc) => {
            assert_eq!(all.len(), 2);
            assert_eq!(npc.keys(), strings(&["Race", "Weapon"]));
            assert_eq!(npc.get(&s("Race")), Some(&strings(&["Orc"])));
            assert_eq!(npc.get(&s("Weapon")), Some(&strings(&["Axe"])));
        }
        other => panic!("unexpected: {:?}", other),
    }
}

#[test]
fn a_click_turns_a_mark_over_until_enough_are_marked() {
    let mut bps = BpMap::new();
    bps.insert(s("Traits"), FieldBlueprint::new(2, vec![pool(&["a", "b", "c"])]));
    let mut all = Blueprints::new();
    all.insert(s("t"), NpcBlueprint::new(bps).unwrap());
    let mut tab = GenNpcTab::new(Ok(all));
    tell(&mut tab, GenNpcMessage::GenNpc(s("t")));
    tell(&mut tab, GenNpcMessage::AttribSelected(s("b")));
    match tab.state() {
        State::Building(_, builder, bd) => {
            assert_eq!(selected(&bd.displayed_options), strings(&["b"]));
            assert_eq!(bd.displayed_options.len(), 3);
            assert_eq!(builder.constructed_npc().len(), 0);
        }
        other => panic!("unexpected: {:?}", other),
    }
    tell(&mut tab, GenNpcMessage::AttribSelected(s("b")));
    match tab.state() {
        State::Building(_, _, bd) => assert_eq!(selected(&bd.displayed_options), strings(&[])),
        other => panic!("unexpected: {:?}", other),
    }
    tell(&mut tab, GenNpcMessage::AttribSelected(s("c")));
    tell(&mut tab, GenNpcMessage::AttribSelected(s("a")));
    match tab.state() {
        State::Finalizing(_, npc) => {
            let mut values = npc.get(&s("Traits")).unwrap().clone();
            values.sort();
            assert_eq!(values, strings(&["a", "c"]));
        }
        other => panic!("unexpected: {:?}", other),
    }
}

#[test]
fn the_tab_says_what_it_cannot_take() {
    let mut tab = GenNpcTab::new(Ok(blueprints()));
    assert!(!tab.accepts(&GenNpcMessage::GenNpc(s("dragon"))));
    assert!(tab.accepts(&GenNpcMessage::AttribSelected(s("Orc"))));
    assert!(tab.accepts(&GenNpcMessage::ReInit));
    tell(&mut tab, GenNpcMessage::GenNpc(s("hero")));
    assert!(!tab.accepts(&GenNpcMessage::AttribSelected(s("Troll"))));
    assert!(tab.accepts(&GenNpcMessage::AttribSelected(s("Elf"))));
    assert!(tab.accepts(&GenNpcMessage::GenNpc(s("dragon"))));

    let mut stuck = GenNpcTab::new(Ok(blueprints()));
    tell(&mut stuck, GenNpcMessage::GenNpc(s("stuck")));
    assert!(!stuck.accepts(&GenNpcMessage::AttribSelected(s("r"))));
}

#[test]
fn a_message_out_of_place_leads_to_an_error() {
    let mut tab = GenNpcTab::new(Ok(blueprints()));
    tell(&mut tab, GenNpcMessage::AttribSelected(s("Orc")));
    match tab.state() {
        State::Error(text) => assert_eq!(
            text,
            "Unexpected State, expected: State::Building(blueprints, mut builder, mut bd), got Error(\"Switching States\") "
        ),
        other => panic!("unexpected: {:?}", other),
    }
    tell(&mut tab, GenNpcMessage::GenNpc(s("hero")));
    match tab.state() {
        State::Error(text) => assert_eq!(
            text,
            "Unexpected State, expected: State::Initiated(bps), got Error(\"Switching States\") "
        ),
        other => panic!("unexpected: {:?}", other),
    }
}

#[test]
fn reloading_is_left_to_the_caller() {
    let mut tab = GenNpcTab::new(Err(s("Could not load npc_gen.toml")));
    match tab.state() {
        State::Error(text) => assert_eq!(text, "Could not load npc_gen.toml"),
        other => panic!("unexpected: {:?}", other),
    }
    assert_eq!(tell(&mut tab, GenNpcMessage::ReInit), TabAction::Reload);
    assert!(matches!(tab.state(), State::Error(_)));
    let mut tab = GenNpcTab::new(Ok(blueprints()));
    assert_eq!(tell(&mut tab, GenNpcMessage::ReInit), TabAction::Reload);
    assert!(matches!(tab.state(), State::Initiated(_)));
}

#[test]
fn options_are_drawn_from_what_is_open() {
    let xs: Vec<String> = (0..20).map(|i| format!("o{}", i)).collect();
    for _ in 0..50 {
        let display = roll_options(&xs, 2);
        assert_eq!(display.len(), 6);
        let mut names = display.keys();
        assert!(names.iter().all(|n| xs.contains(n)));
        names.sort();
        names.dedup();
        assert_eq!(names.len(), 6);
        assert_eq!(selected(&display), strings(&[]));
    }
    assert_eq!(roll_options(&xs, 0).len(), 0);
    assert_eq!(roll_options(&xs, 7).len(), 20);
    assert_eq!(roll_options(&strings(&[]), 3).len(), 0);
    let same = strings(&["a", "a", "a", "a"]);
    assert_eq!(roll_options(&same, 1).keys(), strings(&["a"]));
}

#[test]
fn a_display_is_copied_mark_by_mark() {
    let mut display: OrderedMap<bool> = OrderedMap::new();
    display.insert(s("a"), true);
    display.insert(s("b"), false);
    display.insert(s("c"), true);
    let copy = copy_display(&display);
    assert_eq!(copy.keys(), strings(&["a", "b", "c"]));
    assert_eq!(selected(&copy), strings(&["a", "c"]));
}
