use campman::combat_state::{CombatState, Participant, TimeVec};
use campman::initiative_order::descending;
use campman::states::adding_modifier::AddingModifiers;
use campman::states::editing_modifiers::EditingModifiers;
use campman::states::fighting::{find_hp_key, find_tag_key, to_key_infos, Fighting, KeyInfo};
use campman::states::insert::Insert;
use campman::states::managing_modifiers::ManagingModifiers;
use campman::states::msg::Msg;
use campman::states::normal::{NoParticipants, Normal};
use campman::states::{is_quit, Key, KeyPress, TrackerError, TrackerState};
use campman::combat_state::ParseError;
use std::cmp::Ordering;

fn participant(name: &str, hp: u16) -> Participant {
    Participant { name: name.to_string(), hp, modifiers: vec![] }
}

fn fight(names: &[&str]) -> CombatState {
    CombatState::from_participants(names.iter().map(|n| participant(n, 10)).collect())
}

fn names(cs: &CombatState) -> Vec<String> {
    cs.participants.iter().map(|p| p.name.clone()).collect()
}

fn press(c: char) -> KeyPress {
    KeyPress { code: Key::Char(c), control: false }
}

fn key(code: Key) -> KeyPress {
    KeyPress { code, control: false }
}

fn normal(names: &[&str], selection: usize) -> Normal {
    let mut n = Normal::from_combat_state(fight(names)).unwrap();
    n.current_selection = selection;
    n
}

fn typed(state: TrackerState, text: &str) -> TrackerState {
    let mut state = state;
    for c in text.chars() {
        assert!(state.accepts(&press(c)));
        state = state.process(press(c)).unwrap();
    }
    state
}

#[test]
fn typing_a_participant_adds_it() {
    let state = typed(TrackerState::Insert(Insert::default()), "Orc: 12: 7");
    let state = state.process(key(Key::Enter)).unwrap();
    let state = typed(state, "Elf:9x");
    let state = state.process(key(Key::Backspace)).unwrap();
    let state = state.process(key(Key::Enter)).unwrap();
    match &state {
        TrackerState::Insert(i) => {
            assert_eq!(names(&i.combat_state), vec!["Orc", "Elf"]);
            assert_eq!(i.combat_state.participants[0].hp, 12);
            assert_eq!(i.combat_state.participants[1].hp, 9);
            assert_eq!(i.initiatives, vec![Some(7), None]);
            assert_eq!(i.input_buffer, "");
        }
        other => panic!("unexpected: {:?}", other),
    }
    match state.process(key(Key::Esc)).unwrap() {
        TrackerState::Normal(n) => {
            assert_eq!(names(&n.combat_state), vec!["Orc", "Elf"]);
            assert_eq!(n.initiatives, vec![Some(7), None]);
            assert_eq!(n.current_selection, 0);
        }
        other => panic!("unexpected: {:?}", other),
    }
}

#[test]
fn a_line_that_cannot_be_read_is_a_failure() {
    let state = typed(TrackerState::Insert(Insert::default()), "Orc");
    assert_eq!(
        state.process(key(Key::Enter)).err(),
        Some(TrackerError::Parse(ParseError::MissingColon))
    );
}

#[test]
fn escape_without_participants_stays_in_the_typing_mode() {
    let state = typed(TrackerState::Insert(Insert::default()), "x");
    match state.process(key(Key::Esc)).unwrap() {
        TrackerState::Insert(i) => assert_eq!(i.input_buffer, "x"),
        other => panic!("unexpected: {:?}", other),
    }
    let i = Insert::default().with_char_pop();
    assert_eq!(i.input_buffer, "");
    let i = i.with_char_push('a').with_char_push('b').with_char_pop();
    assert_eq!(i.input_buffer, "a");
    let i = i.with_new_participant(participant("p", 3), Some(4));
    assert_eq!((names(&i.combat_state), i.initiatives.clone()), (vec!["p".to_string()], vec![Some(4)]));
    let i = Insert::new(fight(&["a"]), "buf".to_string(), vec![None]).with_input_buffer("new".to_string());
    assert_eq!(i.input_buffer, "new");
}

#[test]
fn normal_mode_needs_a_participant() {
    assert_eq!(Normal::new(fight(&[]), vec![]).err(), Some(NoParticipants));
    assert_eq!(Normal::from_combat_state(fight(&[])).err(), Some(NoParticipants));
    let n = Normal::from_combat_state(fight(&["a", "b"])).unwrap();
    assert_eq!(n.initiatives, vec![None, None]);
    assert_eq!(n.current_selection, 0);
    let n = Normal::new(fight(&["a"]), vec![Some(3)]).unwrap();
    assert_eq!(n.initiatives, vec![Some(3)]);
}

#[test]
fn the_selection_goes_round() {
    assert_eq!(normal(&["a", "b", "c"], 0).increment_selection().current_selection, 1);
    assert_eq!(normal(&["a", "b", "c"], 2).increment_selection().current_selection, 0);
    assert_eq!(normal(&["a", "b", "c"], 2).decrement_selection().current_selection, 1);
    assert_eq!(normal(&["a", "b", "c"], 0).decrement_selection().current_selection, 1);
    assert_eq!(normal(&["a", "b"], 0).decrement_selection().current_selection, 0);
    assert_eq!(normal(&["a"], 0).increment_selection().current_selection, 0);
}

#[test]
fn moving_exchanges_neighbours() {
    let n = normal(&["a", "b", "c"], 0).move_selected_down();
    assert_eq!((names(&n.combat_state), n.current_selection), (vec!["b".into(), "a".into(), "c".into()], 1));
    let n = normal(&["a", "b", "c"], 2).move_selected_down();
    assert_eq!((names(&n.combat_state), n.current_selection), (vec!["c".into(), "b".into(), "a".into()], 0));
    let n = normal(&["a", "b", "c"], 2).move_selected_up();
    assert_eq!((names(&n.combat_state), n.current_selection), (vec!["a".into(), "c".into(), "b".into()], 1));
    let n = normal(&["a", "b", "c"], 0).move_selected_up();
    assert_eq!((names(&n.combat_state), n.current_selection), (vec!["b".into(), "a".into(), "c".into()], 1));
    let n = normal(&["a", "b", "c"], 1).swap_current_selection_with(1);
    assert_eq!(names(&n.combat_state), vec!["a", "b", "c"]);
}

#[test]
fn deleting_keeps_the_selection_in_the_list() {
    let n = normal(&["a", "b", "c"], 1).delete_selection();
    assert_eq!((names(&n.combat_state), n.current_selection, n.initiatives.len()), (vec!["a".into(), "c".into()], 1, 2));
    let n = normal(&["a", "b", "c"], 2).delete_selection();
    assert_eq!((names(&n.combat_state), n.current_selection), (vec!["a".into(), "b".into()], 1));
    let n = normal(&["a", "b"], 0).delete_selection();
    assert_eq!((names(&n.combat_state), n.current_selection), (vec!["b".into()], 0));
}

#[test]
fn changing_puts_the_participant_into_the_line() {
    let mut n = normal(&["a", "b"], 1);
    n.initiatives[1] = Some(17);
    let i = n.change_selection();
    assert_eq!(i.input_buffer, "b: 10:17");
    assert_eq!((names(&i.combat_state), i.initiatives.clone()), (vec!["a".to_string()], vec![None]));
    let i = normal(&["a", "b"], 0).change_selection();
    assert_eq!(i.input_buffer, "a: 10");
    match TrackerState::Insert(i).process(key(Key::Enter)).unwrap() {
        TrackerState::Insert(i) => assert_eq!(names(&i.combat_state), vec!["b", "a"]),
        other => panic!("unexpected: {:?}", other),
    }
}

#[test]
fn rolling_fills_the_gaps_and_sorts_from_high_to_low() {
    for _ in 0..50 {
        let mut n = normal(&["a", "b", "c", "d", "e"], 3);
        n.initiatives = vec![Some(5), None, Some(20), Some(5), None];
        let n = n.roll_initiatives();
        assert_eq!(n.current_selection, 3);
        let inis: Vec<u8> = n.initiatives.iter().map(|i| i.unwrap()).collect();
        let mut sorted = inis.clone();
        sorted.sort_by(|a, b| b.cmp(a));
        assert_eq!(inis, sorted);
        let order = names(&n.combat_state);
        for (name, ini) in order.iter().zip(&inis) {
            match name.as_str() {
                "a" | "d" => assert_eq!(*ini, 5),
                "c" => assert_eq!(*ini, 20),
                _ => assert!((2..=12).contains(ini)),
            }
        }
        let a = order.iter().position(|x| x == "a").unwrap();
        let d = order.iter().position(|x| x == "d").unwrap();
        assert!(a < d);
        let mut all = order.clone();
        all.sort();
        assert_eq!(all, vec!["a", "b", "c", "d", "e"]);
    }
}

#[test]
fn rolling_with_known_initiatives_is_a_stable_sort() {
    let mut n = normal(&["a", "b", "c", "d"], 0);
    n.initiatives = vec![Some(3), Some(9), Some(3), Some(12)];
    let n = n.roll_initiatives();
    assert_eq!(names(&n.combat_state), vec!["d", "b", "a", "c"]);
    assert_eq!(n.initiatives, vec![Some(12), Some(9), Some(3), Some(3)]);
}

#[test]
fn descending_puts_the_higher_first() {
    assert_eq!(descending(&3, &2), Ordering::Less);
    assert_eq!(descending(&2, &2), Ordering::Equal);
    assert_eq!(descending(&2, &3), Ordering::Greater);
}

#[test]
fn normal_mode_says_what_it_cannot_take() {
    let single = normal(&["a"], 0);
    assert!(single.accepts(&press('j')));
    assert!(!single.accepts(&press('k')));
    assert!(single.accepts(&press('J')));
    assert!(!single.accepts(&press('K')));
    assert!(!single.accepts(&press('d')));
    assert!(single.accepts(&press('c')));
    assert!(single.accepts(&press('r')));
    assert!(single.accepts(&press('x')));
    assert!(single.accepts(&key(Key::Enter)));
    let mut odd = normal(&["a", "b"], 1);
    odd.initiatives.pop();
    assert!(!odd.accepts(&press('r')));
    assert!(!odd.accepts(&press('c')));
    assert!(!odd.accepts(&press('d')));
    assert!(odd.accepts(&press('k')));
}

#[test]
fn normal_mode_follows_its_keys() {
    let state = TrackerState::Normal(normal(&["a", "b", "c"], 0));
    let state = state.process(press('j')).unwrap();
    let state = state.process(press('J')).unwrap();
    let state = state.process(press('k')).unwrap();
    let state = state.process(press('K')).unwrap();
    let state = state.process(press('x')).unwrap();
    let state = match state {
        TrackerState::Normal(n) => {
            assert_eq!((names(&n.combat_state), n.current_selection), (vec!["c".into(), "a".into(), "b".into()], 0));
            TrackerState::Normal(n)
        }
        other => panic!("unexpected: {:?}", other),
    };
    let state = state.process(press('d')).unwrap();
    let state = match state.process(press('i')).unwrap() {
        TrackerState::Insert(i) => {
            assert_eq!((names(&i.combat_state), i.input_buffer.as_str()), (vec!["a".into(), "b".into()], ""));
            TrackerState::Insert(i).process(key(Key::Esc)).unwrap()
        }
        other => panic!("unexpected: {:?}", other),
    };
    let state = state.process(press('r')).unwrap();
    match state.process(key(Key::Enter)).unwrap() {
        TrackerState::Fighting(f) => {
            assert_eq!(f.combat_state.participants.len(), 2);
            assert_eq!(f.key_infos.len(), 2);
        }
        other => panic!("unexpected: {:?}", other),
    }
}

#[test]
fn key_infos_come_in_threes() {
    let keys = to_key_infos("qweasd");
    assert_eq!(
        keys,
        vec![
            KeyInfo { decrement: 'q', increment: 'w', edit_modifiers: 'e' },
            KeyInfo { decrement: 'a', increment: 's', edit_modifiers: 'd' },
        ]
    );
    assert_eq!(to_key_infos(""), vec![]);
    assert_eq!(find_hp_key(&keys, 'q'), Some((0, false)));
    assert_eq!(find_hp_key(&keys, 's'), Some((1, true)));
    assert_eq!(find_hp_key(&keys, 'e'), None);
    assert_eq!(find_tag_key(&keys, 'e'), Some(0));
    assert_eq!(find_tag_key(&keys, 'q'), None);
    let twice = to_key_infos("abcabc");
    assert_eq!(find_hp_key(&twice, 'a'), Some((1, false)));
    assert_eq!(find_tag_key(&twice, 'c'), Some(1));
    let both = to_key_infos("aac");
    assert_eq!(find_hp_key(&both, 'a'), Some((0, true)));
}

#[test]
fn a_fight_has_keys_for_twenty() {
    let f = Fighting::new(fight(&["a", "b", "c"]));
    assert_eq!(f.key_infos, to_key_infos("qweasdzxc"));
    let many: Vec<String> = (0..25).map(|i| i.to_string()).collect();
    let many: Vec<&str> = many.iter().map(|s| s.as_str()).collect();
    let f = Fighting::new(fight(&many));
    assert_eq!(f.key_infos.len(), 20);
    assert_eq!(f.key_infos[19], KeyInfo { decrement: 'P', increment: ':', edit_modifiers: '?' });
    assert_eq!(Fighting::new(fight(&[])).key_infos, vec![]);
}

#[test]
fn fighting_changes_hit_points_and_moves_on() {
    let mut cs = fight(&["a", "b"]);
    cs.participants[0].hp = 1;
    let state = TrackerState::Fighting(Fighting::new(cs));
    let state = state.process(press('q')).unwrap();
    let state = state.process(press('q')).unwrap();
    let state = state.process(press('s')).unwrap();
    let state = state.process(press('!')).unwrap();
    let state = state.process(KeyPress { code: Key::Char('n'), control: true }).unwrap();
    let state = match state {
        TrackerState::Fighting(f) => {
            assert_eq!(f.combat_state.participants[0].hp, 0);
            assert_eq!(f.combat_state.participants[1].hp, 11);
            assert_eq!((f.combat_state.current_round, f.combat_state.current_idx), (0, 1));
            TrackerState::Fighting(f)
        }
        other => panic!("unexpected: {:?}", other),
    };
    match state.process(key(Key::Esc)).unwrap() {
        TrackerState::Normal(n) => {
            assert_eq!(n.initiatives, vec![None, None]);
            assert_eq!((n.combat_state.current_round, n.combat_state.current_idx), (0, 1));
        }
        other => panic!("unexpected: {:?}", other),
    }
}

#[test]
fn fighting_says_what_it_cannot_take() {
    let mut cs = fight(&["a"]);
    cs.participants[0].hp = u16::MAX;
    let f = Fighting::new(cs);
    assert!(!f.accepts(&press('w')));
    assert!(f.accepts(&press('q')));
    assert!(f.accepts(&KeyPress { code: Key::Char('n'), control: true }));
    let empty = Fighting::new(fight(&[]));
    assert!(!empty.accepts(&KeyPress { code: Key::Char('n'), control: true }));
    assert!(empty.accepts(&press('n')));
    assert_eq!(
        TrackerState::Fighting(empty).process(key(Key::Esc)).err(),
        Some(TrackerError::NoParticipants)
    );
    let f = Fighting::new(fight(&["a"])).with_hp_change(5, true);
    assert_eq!(f.combat_state.participants[0].hp, 10);
}

#[test]
fn a_modifier_is_typed_in_and_given() {
    let mut cs = fight(&["a", "b"]);
    cs.current_round = 2;
    cs.current_idx = 1;
    let state = TrackerState::Fighting(Fighting::new(cs));
    let state = state.process(press('d')).unwrap();
    let state = typed(state, "slow: 3x");
    let state = state.process(key(Key::Backspace)).unwrap();
    let state = state.process(key(Key::Other)).unwrap();
    assert!(state.accepts(&key(Key::Enter)));
    match state.process(key(Key::Enter)).unwrap() {
        TrackerState::Fighting(f) => {
            assert_eq!(f.combat_state.participants[0].modifiers.len(), 0);
            let m = &f.combat_state.participants[1].modifiers[0];
            assert_eq!((m.name.as_str(), m.duration), ("slow", Some(3)));
            let at = m.introduced_at;
            assert_eq!((at.round, at.sub_round_time.nom, at.sub_round_time.denom), (2, 1, 2));
        }
        other => panic!("unexpected: {:?}", other),
    }
}

#[test]
fn a_modifier_that_cannot_be_read_leads_to_a_message() {
    let state = TrackerState::Fighting(Fighting::new(fight(&["a"])));
    let state = state.process(press('e')).unwrap();
    let state = typed(state, "a:b:c");
    let state = match state.process(key(Key::Enter)).unwrap() {
        TrackerState::Msg(m) => {
            assert_eq!(m.msg, "Modifiers must have the following format: <Name>[:<Duration>]");
            TrackerState::Msg(m)
        }
        other => panic!("unexpected: {:?}", other),
    };
    let state = state.process(press('x')).unwrap();
    assert!(matches!(state, TrackerState::Msg(_)));
    let state = match state.process(key(Key::Enter)).unwrap() {
        TrackerState::AddingModifiers(a) => {
            assert_eq!(a.input_buffer, "a:b:c");
            assert_eq!(a.target_participant, 0);
            TrackerState::AddingModifiers(a)
        }
        other => panic!("unexpected: {:?}", other),
    };
    assert!(matches!(state.process(key(Key::Esc)).unwrap(), TrackerState::Fighting(_)));
}

#[test]
fn a_modifier_needs_its_participant() {
    let adding = AddingModifiers::new(Fighting::new(fight(&["a"])), 3, "slow".to_string());
    assert!(!adding.accepts(&key(Key::Enter)));
    assert!(adding.accepts(&key(Key::Esc)));
    let unread = AddingModifiers::new(Fighting::new(fight(&["a"])), 3, "a:b:c".to_string());
    assert!(unread.accepts(&key(Key::Enter)));
    let fac = campman::combat_state::Modifier::parse_factory("x").unwrap();
    let f = AddingModifiers::new(Fighting::new(fight(&["a"])), 0, String::new()).parent_with_modifier(fac);
    assert_eq!(f.combat_state.participants[0].modifiers[0].name, "x");
    assert_eq!(f.combat_state.participants[0].modifiers[0].duration, None);
}

#[test]
fn control_c_quits() {
    assert!(is_quit(&KeyPress { code: Key::Char('c'), control: true }));
    assert!(!is_quit(&KeyPress { code: Key::Char('c'), control: false }));
    assert!(!is_quit(&KeyPress { code: Key::Char('n'), control: true }));
    assert!(!is_quit(&KeyPress { code: Key::Esc, control: true }));
}

#[test]
fn the_modifier_modes_hold_what_they_are_given() {
    let e = EditingModifiers::new(fight(&["a"]), 1, 2, "buf".to_string());
    assert_eq!((e.participant_idx, e.modifier_idx, e.buffer.as_str()), (1, 2, "buf"));
    assert_eq!(e.combat_state.participants.len(), 1);
    let m = ManagingModifiers::new(fight(&["a", "b"]), 1, 0);
    assert_eq!((m.participant_pos, m.selected_modifier), (1, 0));
    let msg = Msg::new(Box::new(TrackerState::Insert(Insert::default())), "hello".to_string());
    assert_eq!(msg.msg, "hello");
    let _ = TimeVec::default();
}
