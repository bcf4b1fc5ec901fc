use campman::combat_state::{
    modifiers_in_force, still_in_force, CombatState, Modifier, ModifierFac, ParseError,
    Participant, SubRoundTime, TimeVec,
};
use campman::utils::{parse_participant_with_ini, roll, update_nth, with_popped_n};

fn participant(name: &str, hp: u16) -> Participant {
    Participant { name: name.to_string(), hp, modifiers: vec![] }
}

fn modifier(name: &str, round: usize, nom: usize, denom: usize, dur: Option<usize>) -> Modifier {
    Modifier::new(name.to_string(), TimeVec::new(round, nom, denom), dur)
}

fn names(ps: &[Participant]) -> Vec<String> {
    ps.iter().map(|p| p.name.clone()).collect()
}

fn three() -> CombatState {
    CombatState::from_participants(vec![
        participant("a", 1),
        participant("b", 2),
        participant("c", 3),
    ])
}

#[test]
fn time_moves_on_within_a_round_and_into_the_next() {
    let t = TimeVec::new(4, 0, 3);
    let t = t.with_next_turn();
    assert_eq!((t.round, t.sub_round_time.nom, t.sub_round_time.denom), (4, 1, 3));
    let t = t.with_next_turn();
    assert_eq!((t.round, t.sub_round_time.nom, t.sub_round_time.denom), (4, 2, 3));
    let t = t.with_next_turn();
    assert_eq!((t.round, t.sub_round_time.nom, t.sub_round_time.denom), (5, 0, 3));
    let single = TimeVec::new(0, 0, 1).with_next_turn();
    assert_eq!((single.round, single.sub_round_time.nom), (1, 0));
}

#[test]
fn sub_round_times_compare_as_fractions() {
    let half = SubRoundTime::new(1, 2);
    let third = SubRoundTime::new(1, 3);
    let two_quarters = SubRoundTime::new(2, 4);
    assert!(half.is_after(&third));
    assert!(!third.is_after(&half));
    assert!(!half.is_after(&two_quarters));
    assert!(!two_quarters.is_after(&half));
    let huge = SubRoundTime::new(usize::MAX, usize::MAX - 1);
    let one = SubRoundTime::new(usize::MAX, usize::MAX);
    assert!(huge.is_after(&one));
    let nothing = SubRoundTime::new(0, 0);
    assert!(!nothing.is_after(&half));
    assert!(!half.is_after(&nothing));
    let infinite = SubRoundTime::new(1, 0);
    assert!(infinite.is_after(&half));
    assert!(!half.is_after(&infinite));
}

#[test]
fn now_is_the_round_and_the_turn_out_of_all() {
    let s = CombatState::new(7, 2, vec![participant("a", 1), participant("b", 1), participant("c", 1)]);
    let t = s.now();
    assert_eq!((t.round, t.sub_round_time.nom, t.sub_round_time.denom), (7, 2, 3));
    let empty = CombatState::default().now();
    assert_eq!((empty.round, empty.sub_round_time.nom, empty.sub_round_time.denom), (0, 0, 0));
}

#[test]
fn remaining_rounds_counts_down() {
    let m = modifier("bless", 2, 1, 3, Some(2));
    assert_eq!(m.remaining_rounds(&TimeVec::new(2, 1, 3)), Some(2));
    assert_eq!(m.remaining_rounds(&TimeVec::new(2, 2, 3)), Some(2));
    assert_eq!(m.remaining_rounds(&TimeVec::new(3, 0, 3)), Some(2));
    assert_eq!(m.remaining_rounds(&TimeVec::new(3, 1, 3)), Some(1));
    assert_eq!(m.remaining_rounds(&TimeVec::new(4, 0, 3)), Some(1));
    assert_eq!(m.remaining_rounds(&TimeVec::new(4, 1, 3)), Some(0));
    assert_eq!(m.remaining_rounds(&TimeVec::new(5, 1, 3)), Some(-1));
    assert_eq!(modifier("curse", 2, 1, 3, None).remaining_rounds(&TimeVec::new(9, 0, 3)), None);
    assert_eq!(modifier("now", 0, 0, 1, Some(0)).remaining_rounds(&TimeVec::new(0, 0, 1)), Some(0));
}

#[test]
fn in_force_is_remaining_rounds_above_zero() {
    for dur in [None, Some(0), Some(1), Some(2), Some(5)] {
        for round in 0..8 {
            for nom in 0..3 {
                let m = modifier("m", 2, 1, 3, dur);
                let now = TimeVec::new(round, nom, 3);
                let expected = match m.remaining_rounds(&now) {
                    Some(left) => left > 0,
                    None => true,
                };
                assert_eq!(still_in_force(&m, &now), expected);
            }
        }
    }
    let forever = modifier("m", usize::MAX, 0, 1, Some(usize::MAX));
    assert!(still_in_force(&forever, &TimeVec::new(usize::MAX, 0, 1)));
}

#[test]
fn next_turn_moves_the_turn_order_and_drops_what_ran_out() {
    let mut s = three();
    s.participants[0].modifiers.push(modifier("short", 0, 0, 3, Some(0)));
    s.participants[0].modifiers.push(modifier("forever", 0, 0, 3, None));
    s.participants[2].modifiers.push(modifier("one round", 0, 0, 3, Some(1)));
    let s = s.with_next_turn();
    assert_eq!((s.current_round, s.current_idx), (0, 1));
    assert_eq!(names(&s.participants), vec!["a", "b", "c"]);
    let kept: Vec<&str> = s.participants[0].modifiers.iter().map(|m| m.name.as_str()).collect();
    assert_eq!(kept, vec!["forever"]);
    assert_eq!(s.participants[2].modifiers.len(), 1);
    let s = s.with_next_turn();
    assert_eq!((s.current_round, s.current_idx), (0, 2));
    assert_eq!(s.participants[2].modifiers.len(), 1);
    let s = s.with_next_turn();
    assert_eq!((s.current_round, s.current_idx), (1, 0));
    assert_eq!(s.participants[2].modifiers.len(), 0);
    let s = s.with_next_turn();
    assert_eq!((s.current_round, s.current_idx), (1, 1));
    assert_eq!(s.participants[0].modifiers.len(), 1);
    assert_eq!(s.participants[0].hp, 1);
}

#[test]
fn modifiers_in_force_keeps_the_order() {
    let mods = vec![
        modifier("a", 0, 0, 2, Some(3)),
        modifier("b", 0, 0, 2, Some(0)),
        modifier("c", 0, 0, 2, None),
        modifier("d", 0, 0, 2, Some(1)),
    ];
    let kept = modifiers_in_force(&mods, &TimeVec::new(1, 0, 2));
    let kept: Vec<&str> = kept.iter().map(|m| m.name.as_str()).collect();
    assert_eq!(kept, vec!["a", "c"]);
}

#[test]
fn participants_leave_by_position() {
    let (rest, popped) = three().with_nth_participant_popped(1);
    assert_eq!(popped.name, "b");
    assert_eq!(names(&rest.participants), vec!["a", "c"]);
    assert_eq!(names(&three().without_participant(0).participants), vec!["b", "c"]);
    assert_eq!(names(&three().without_participant(2).participants), vec!["a", "b"]);
    let s = CombatState::new(3, 1, vec![participant("x", 1), participant("y", 1)]);
    let s = s.without_participant(1);
    assert_eq!((s.current_round, s.current_idx), (3, 1));
}

#[test]
fn a_participant_is_a_name_and_hit_points() {
    let p = Participant::parse("Gandalf: 25").unwrap();
    assert_eq!((p.name.as_str(), p.hp, p.modifiers.len()), ("Gandalf", 25, 0));
    let p = Participant::parse("a:b: 7 ").unwrap();
    assert_eq!((p.name.as_str(), p.hp), ("a:b", 7));
    let p = Participant::parse(" spaced name :65535").unwrap();
    assert_eq!((p.name.as_str(), p.hp), (" spaced name ", 65535));
    assert_eq!(Participant::parse("Gandalf").err(), Some(ParseError::MissingColon));
    assert_eq!(Participant::parse("").err(), Some(ParseError::MissingColon));
    assert_eq!(Participant::parse("Gandalf: many").err(), Some(ParseError::InvalidHitPoints));
    assert_eq!(Participant::parse("Gandalf: 65536").err(), Some(ParseError::InvalidHitPoints));
    assert_eq!(Participant::parse("Gandalf:").err(), Some(ParseError::InvalidHitPoints));
    assert_eq!(Participant::parse("Gandalf: -1").err(), Some(ParseError::InvalidHitPoints));
    let p = Participant::parse_splits(vec!["x".to_string(), "y".to_string(), "3".to_string()]).unwrap();
    assert_eq!((p.name.as_str(), p.hp), ("x:y", 3));
    assert_eq!(
        Participant::parse_splits(vec!["x".to_string()]).err(),
        Some(ParseError::MissingColon)
    );
    assert_eq!(Participant::parse_splits(vec![]).err(), Some(ParseError::MissingColon));
}

#[test]
fn a_described_participant_is_read_back() {
    for (name, hp) in [("Gandalf", 25u16), ("a:b", 0), ("", 65535)] {
        let line = participant(name, hp).describe();
        assert_eq!(line, format!("{}: {}", name, hp));
        let back = Participant::parse(&line).unwrap();
        assert_eq!((back.name.as_str(), back.hp), (name, hp));
    }
}

#[test]
fn an_initiative_comes_as_a_third_part() {
    let (ini, p) = parse_participant_with_ini("Orc: 12: 7").unwrap();
    assert_eq!((ini, p.name.as_str(), p.hp), (Some(7), "Orc", 12));
    let (ini, p) = parse_participant_with_ini("Orc: 12").unwrap();
    assert_eq!((ini, p.name.as_str(), p.hp), (None, "Orc", 12));
    let (ini, p) = parse_participant_with_ini("a:b:3:255").unwrap();
    assert_eq!((ini, p.name.as_str(), p.hp), (Some(255), "a:b", 3));
    assert_eq!(
        parse_participant_with_ini("Orc: 12: 256").err(),
        Some(ParseError::InvalidInitiative)
    );
    assert_eq!(
        parse_participant_with_ini("Orc: x: 7").err(),
        Some(ParseError::InvalidHitPoints)
    );
    assert_eq!(parse_participant_with_ini("Orc").err(), Some(ParseError::MissingColon));
    assert_eq!(
        parse_participant_with_ini("Orc: twelve").err(),
        Some(ParseError::InvalidHitPoints)
    );
}

#[test]
fn a_modifier_is_a_name_and_maybe_a_duration() {
    let fac: ModifierFac = Modifier::parse_factory(" blessed ").unwrap();
    assert_eq!((fac.name.as_str(), fac.duration), ("blessed", None));
    let fac = Modifier::parse_factory("poisoned : 3 ").unwrap();
    assert_eq!((fac.name.as_str(), fac.duration), ("poisoned", Some(3)));
    let fac = Modifier::parse_factory("").unwrap();
    assert_eq!((fac.name.as_str(), fac.duration), ("", None));
    assert_eq!(Modifier::parse_factory("a: b").err(), Some(ParseError::InvalidDuration));
    assert_eq!(Modifier::parse_factory("a:").err(), Some(ParseError::InvalidDuration));
    assert_eq!(Modifier::parse_factory("a: 1: 2").err(), Some(ParseError::MalformedModifier));
    let m = Modifier::parse_factory("slow: 2").unwrap().build(TimeVec::new(3, 1, 4));
    assert_eq!((m.name.as_str(), m.duration, m.introduced_at.round), ("slow", Some(2), 3));
    assert_eq!((m.introduced_at.sub_round_time.nom, m.introduced_at.sub_round_time.denom), (1, 4));
}

#[test]
fn every_failure_has_a_message() {
    assert_eq!(ParseError::MissingColon.message(), "Didn't find a :");
    assert_eq!(ParseError::InvalidDuration.message(), "Parsing Modifier Duration");
    assert_eq!(
        ParseError::MalformedModifier.message(),
        "Modifiers must have the following format: <Name>[:<Duration>]"
    );
    assert!(!ParseError::InvalidHitPoints.message().is_empty());
    assert!(!ParseError::InvalidInitiative.message().is_empty());
}

#[test]
fn popping_takes_the_element_out() {
    let (x, rest) = with_popped_n(vec![10, 20, 30], 1);
    assert_eq!((x, rest), (20, vec![10, 30]));
    let (x, rest) = with_popped_n(vec![10], 0);
    assert_eq!((x, rest), (10, vec![]));
}

#[test]
fn update_nth_changes_one_element_or_none() {
    assert_eq!(update_nth(vec![1, 2, 3], 1, |x| x * 10), vec![1, 20, 3]);
    assert_eq!(update_nth(vec![1, 2, 3], 3, |x| x * 10), vec![1, 2, 3]);
    assert_eq!(update_nth(Vec::<u8>::new(), 0, |x| x + 1), Vec::<u8>::new());
}

#[test]
fn dice_stay_within_their_faces() {
    for _ in 0..200 {
        let two = roll(2, 6);
        assert!((2..=12).contains(&two));
        assert_eq!(roll(0, 6), 0);
        assert_eq!(roll(3, 1), 3);
        let many = roll(42, 6);
        assert!((42..=252).contains(&many));
    }
}

#[test]
fn clones_are_equal_in_every_part() {
    let mut s = three();
    s.participants[1].modifiers.push(modifier("m", 1, 2, 3, Some(4)));
    let t = s.clone();
    assert_eq!(format!("{:?}", s), format!("{:?}", t));
}
