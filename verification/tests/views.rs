//! Tests for the ordering policy, the membership filter and the log
//! aggregator.

use wartownik::filter::{filter_persons_excluding_group, member_ids};
use wartownik::logview::aggregate_log;
use wartownik::order::{person_le_exec, sort_members};
use wartownik::{
    GroupWithMembers, LocalEvent, LocalStamp, Log, Methodology, Person, Presence, RankLevel,
    UtcStamp,
};

fn person(id: i32, name: &str, surname: &str, methodology: Methodology) -> Person {
    Person {
        id,
        name: String::from(name),
        surname: String::from(surname),
        rank_level: RankLevel::RankNone,
        methodology,
        presence: Presence::Out,
    }
}

fn ids(persons: &[Person]) -> Vec<i32> {
    persons.iter().map(|p| p.id).collect()
}

fn stamp(hour: u8, minute: u8, second: u8) -> LocalStamp {
    LocalStamp { year: 2024, month: 5, day: 17, hour, minute, second }
}

#[test]
fn sort_orders_by_methodology_then_names() {
    let mut members = vec![
        person(1, "Zoe", "Young", Methodology::Rover),
        person(2, "Ann", "Brown", Methodology::Cub),
        person(3, "Bea", "Adams", Methodology::Cub),
        person(4, "Cal", "Adams", Methodology::Scout),
    ];
    sort_members(&mut members);
    assert_eq!(ids(&members), vec![3, 2, 4, 1]);
}

#[test]
fn sort_is_case_insensitive_on_surnames() {
    // Case-sensitively "Beta" (capital B) would come before "alpha";
    // the policy folds case first, so "alpha" wins.
    let mut members = vec![
        person(1, "A", "Beta", Methodology::Cub),
        person(2, "A", "alpha", Methodology::Cub),
    ];
    sort_members(&mut members);
    assert_eq!(ids(&members), vec![2, 1]);
}

#[test]
fn sort_is_case_insensitive_on_given_names() {
    let mut members = vec![
        person(1, "Boris", "same", Methodology::Cub),
        person(2, "ania", "Same", Methodology::Cub),
    ];
    sort_members(&mut members);
    assert_eq!(ids(&members), vec![2, 1]);
}

#[test]
fn sort_is_stable_on_equal_keys() {
    let mut members = vec![
        person(7, "Ann", "Brown", Methodology::Scout),
        person(3, "ann", "brown", Methodology::Scout),
        person(5, "ANN", "BROWN", Methodology::Scout),
    ];
    sort_members(&mut members);
    assert_eq!(ids(&members), vec![7, 3, 5]);
}

#[test]
fn sort_twice_yields_same_sequence() {
    let mut members = vec![
        person(1, "Zoe", "Young", Methodology::Rover),
        person(2, "Ann", "Brown", Methodology::Cub),
        person(3, "Bea", "Adams", Methodology::VentureScout),
        person(4, "Cal", "Adams", Methodology::Scout),
        person(5, "Cal", "adams", Methodology::Scout),
    ];
    sort_members(&mut members);
    let once = ids(&members);
    sort_members(&mut members);
    assert_eq!(ids(&members), once);
}

#[test]
fn person_comparison_keys_determine_order() {
    let a = person(1, "Ann", "Brown", Methodology::Cub);
    let b = person(2, "Ann", "Brown", Methodology::Scout);
    assert!(person_le_exec(&a, &b));
    assert!(!person_le_exec(&b, &a));
    let c = person(3, "Ann", "Adams", Methodology::Scout);
    assert!(person_le_exec(&c, &b));
    assert!(!person_le_exec(&b, &c));
}

#[test]
fn member_ids_lists_ids_in_order() {
    let g = GroupWithMembers {
        id: 7,
        name: String::from("Hikers"),
        members: vec![
            person(4, "Cal", "Adams", Methodology::Scout),
            person(2, "Ann", "Brown", Methodology::Cub),
        ],
    };
    assert_eq!(member_ids(&g), vec![4, 2]);
}

#[test]
fn filter_excludes_exactly_the_members() {
    let roster = vec![
        person(1, "Ann", "Brown", Methodology::Cub),
        person(2, "Bea", "Adams", Methodology::Cub),
        person(3, "Cal", "Young", Methodology::Scout),
    ];
    let g = GroupWithMembers {
        id: 7,
        name: String::from("Hikers"),
        members: vec![person(2, "Bea", "Adams", Methodology::Cub)],
    };
    let kept = filter_persons_excluding_group(&roster, &g);
    assert_eq!(ids(&kept), vec![1, 3]);
    // Disjointness: no kept id is a member id; cover: every roster entry
    // is kept or a member.
    let member = member_ids(&g);
    for p in &kept {
        assert!(!member.contains(&p.id));
    }
    for p in &roster {
        assert!(kept.iter().any(|k| k.id == p.id) || member.contains(&p.id));
    }
}

#[test]
fn filter_with_empty_group_keeps_everyone() {
    let roster = vec![person(1, "Ann", "Brown", Methodology::Cub)];
    let g = GroupWithMembers { id: 9, name: String::from("New"), members: vec![] };
    let kept = filter_persons_excluding_group(&roster, &g);
    assert_eq!(ids(&kept), vec![1]);
}

#[test]
fn aggregator_groups_by_minute_within_one_day() {
    let roster = vec![
        person(1, "Ann", "Brown", Methodology::Cub),
        person(2, "Bea", "Adams", Methodology::Cub),
        person(3, "Cal", "Young", Methodology::Scout),
    ];
    let events = vec![
        LocalEvent { subject_id: 1, presence: Presence::In, stamp: stamp(10, 0, 5) },
        LocalEvent { subject_id: 2, presence: Presence::In, stamp: stamp(10, 0, 40) },
        LocalEvent { subject_id: 3, presence: Presence::In, stamp: stamp(10, 1, 0) },
    ];
    let days = aggregate_log(&events, &roster);
    assert_eq!(days.len(), 1);
    let day = &days[0];
    assert_eq!((day.year, day.month, day.day), (2024, 5, 17));
    assert_eq!(day.minutes.len(), 2);
    assert_eq!((day.minutes[0].hour, day.minutes[0].minute), (10, 0));
    assert_eq!(day.minutes[0].entries.len(), 2);
    assert_eq!(day.minutes[0].entries[0].subject_id, 1);
    assert_eq!(day.minutes[0].entries[0].name, "Ann");
    assert_eq!(day.minutes[0].entries[1].subject_id, 2);
    assert_eq!((day.minutes[1].hour, day.minutes[1].minute), (10, 1));
    assert_eq!(day.minutes[1].entries.len(), 1);
    assert_eq!(day.minutes[1].entries[0].subject_id, 3);
}

#[test]
fn aggregator_opens_new_day_on_date_change() {
    let roster = vec![person(1, "Ann", "Brown", Methodology::Cub)];
    let mut late = stamp(23, 59, 59);
    late.day = 17;
    let mut next_day = stamp(0, 0, 10);
    next_day.day = 18;
    let events = vec![
        LocalEvent { subject_id: 1, presence: Presence::In, stamp: late },
        LocalEvent { subject_id: 1, presence: Presence::Out, stamp: next_day },
    ];
    let days = aggregate_log(&events, &roster);
    assert_eq!(days.len(), 2);
    assert_eq!(days[0].day, 17);
    assert_eq!(days[1].day, 18);
    assert_eq!(days[0].minutes.len(), 1);
    assert_eq!(days[1].minutes.len(), 1);
    assert_eq!(days[1].minutes[0].entries[0].presence, Presence::Out);
}

#[test]
fn aggregator_drops_unknown_subjects() {
    let roster = vec![person(1, "Ann", "Brown", Methodology::Cub)];
    let events = vec![
        LocalEvent { subject_id: 99, presence: Presence::In, stamp: stamp(10, 0, 5) },
        LocalEvent { subject_id: 1, presence: Presence::In, stamp: stamp(10, 0, 40) },
    ];
    let days = aggregate_log(&events, &roster);
    assert_eq!(days.len(), 1);
    assert_eq!(days[0].minutes.len(), 1);
    assert_eq!(days[0].minutes[0].entries.len(), 1);
    assert_eq!(days[0].minutes[0].entries[0].subject_id, 1);
}

#[test]
fn localize_events_keeps_subjects_directions_and_order() {
    let t = |second: u8| UtcStamp { year: 2024, month: 5, day: 17, hour: 10, minute: 0, second };
    let rows = vec![
        Log { id: 1, subject_id: 4, presence: Presence::In, time: t(5) },
        Log { id: 2, subject_id: 9, presence: Presence::Out, time: t(40) },
    ];
    let events = wartownik::clock::localize_events(&rows);
    assert_eq!(events.len(), 2);
    assert_eq!(events[0].subject_id, 4);
    assert_eq!(events[0].presence, Presence::In);
    assert_eq!(events[1].subject_id, 9);
    assert_eq!(events[1].presence, Presence::Out);
}

#[test]
fn aggregated_entries_preserve_input_order() {
    let roster = vec![
        person(1, "Ann", "Brown", Methodology::Cub),
        person(2, "Bea", "Adams", Methodology::Cub),
    ];
    let mut st1 = stamp(23, 59, 0);
    let mut st2 = stamp(0, 1, 0);
    st1.day = 17;
    st2.day = 18;
    let events = vec![
        LocalEvent { subject_id: 1, presence: Presence::In, stamp: st1 },
        LocalEvent { subject_id: 99, presence: Presence::In, stamp: st1 },
        LocalEvent { subject_id: 2, presence: Presence::In, stamp: st1 },
        LocalEvent { subject_id: 2, presence: Presence::Out, stamp: st2 },
        LocalEvent { subject_id: 1, presence: Presence::Out, stamp: st2 },
    ];
    let days = aggregate_log(&events, &roster);
    let mut flattened: Vec<(i32, Presence)> = Vec::new();
    for day in &days {
        for minute in &day.minutes {
            for entry in &minute.entries {
                flattened.push((entry.subject_id, entry.presence));
            }
        }
    }
    // The unknown subject 99 is dropped; everything else keeps its order.
    assert_eq!(
        flattened,
        vec![
            (1, Presence::In),
            (2, Presence::In),
            (2, Presence::Out),
            (1, Presence::Out),
        ]
    );
}

#[test]
fn aggregator_of_no_events_is_empty() {
    let roster = vec![person(1, "Ann", "Brown", Methodology::Cub)];
    let events: Vec<LocalEvent> = vec![];
    let days = aggregate_log(&events, &roster);
    assert!(days.is_empty());
}
