//! Tests for the state-synchronization controller: reload, the derived
//! projections, the transient selection and the mutation handlers.

use wartownik::controller::HandlerError;
use wartownik::{
    Controller, DatabaseRecord, GroupWithMembers, LocalEvent, LocalStamp, Methodology, Person,
    Presence, RankLevel, UtcStamp,
};

fn person(id: i32, name: &str, surname: &str, methodology: Methodology, presence: Presence) -> Person {
    Person {
        id,
        name: String::from(name),
        surname: String::from(surname),
        rank_level: RankLevel::RankNone,
        methodology,
        presence,
    }
}

fn group(id: i32, name: &str, members: Vec<Person>) -> GroupWithMembers {
    GroupWithMembers { id, name: String::from(name), members }
}

fn ids(persons: &[Person]) -> Vec<i32> {
    persons.iter().map(|p| p.id).collect()
}

/// A small snapshot: the all-persons group, one methodology group and two
/// user groups, deliberately out of id order.
fn snapshot() -> Vec<GroupWithMembers> {
    let ann = || person(1, "Ann", "Brown", Methodology::Cub, Presence::In);
    let bea = || person(2, "Bea", "Adams", Methodology::Cub, Presence::Out);
    let cal = || person(3, "Cal", "Young", Methodology::Scout, Presence::Out);
    vec![
        group(7, "Hikers", vec![bea()]),
        group(1, "Camp", vec![ann(), bea(), cal()]),
        group(2, "Cub", vec![ann(), bea()]),
        group(6, "Cooks", vec![]),
        group(3, "Scout", vec![cal()]),
    ]
}

fn events() -> Vec<LocalEvent> {
    let st = |minute: u8| LocalStamp { year: 2024, month: 5, day: 17, hour: 9, minute, second: 0 };
    vec![
        LocalEvent { subject_id: 1, presence: Presence::In, stamp: st(0) },
        LocalEvent { subject_id: 2, presence: Presence::Out, stamp: st(1) },
    ]
}

#[test]
fn reload_orders_groups_and_builds_roster() {
    let mut c = Controller::new();
    c.reload(snapshot(), events());
    let group_ids: Vec<i32> = c.groups.iter().map(|g| g.id).collect();
    assert_eq!(group_ids, vec![1, 2, 3, 6, 7]);
    // Roster comes from group 1, sorted: Cubs Adams, Brown then Scout Young.
    assert_eq!(ids(&c.roster), vec![2, 1, 3]);
    let user_ids: Vec<i32> = c.user_groups.iter().map(|g| g.id).collect();
    assert_eq!(user_ids, vec![6, 7]);
    assert_eq!(c.user_group_names, vec![String::from("Cooks"), String::from("Hikers")]);
}

#[test]
fn reload_partitions_by_presence() {
    let mut c = Controller::new();
    c.reload(snapshot(), events());
    assert_eq!(ids(&c.inside), vec![1]);
    assert_eq!(ids(&c.outside), vec![2, 3]);
    // Every roster entry is in exactly one partition.
    assert_eq!(c.inside.len() + c.outside.len(), c.roster.len());
    for p in &c.roster {
        let inside = c.inside.iter().any(|q| q.id == p.id);
        let outside = c.outside.iter().any(|q| q.id == p.id);
        assert!(inside != outside);
    }
}

#[test]
fn reload_builds_picker_for_first_user_group() {
    let mut c = Controller::new();
    c.reload(snapshot(), events());
    // First user group is 6 (Cooks, empty): everyone is available.
    assert_eq!(ids(&c.filtered_picker), vec![2, 1, 3]);
    c.group_selection_changed(1);
    // Group 7 (Hikers) holds Bea (id 2): she is filtered out.
    assert_eq!(ids(&c.filtered_picker), vec![1, 3]);
    c.group_selection_changed(5);
    // Out-of-range context falls back to the whole roster.
    assert_eq!(ids(&c.filtered_picker), vec![2, 1, 3]);
}

#[test]
fn reload_aggregates_the_log() {
    let mut c = Controller::new();
    c.reload(snapshot(), events());
    assert_eq!(c.log_view.len(), 1);
    assert_eq!(c.log_view[0].minutes.len(), 2);
    assert_eq!(c.log_view[0].minutes[0].entries[0].subject_id, 1);
    assert_eq!(c.log_view[0].minutes[1].entries[0].subject_id, 2);
}

#[test]
fn reload_twice_yields_identical_projections() {
    let mut c = Controller::new();
    c.toggle_selection(2);
    c.reload(snapshot(), events());
    let group_ids: Vec<i32> = c.groups.iter().map(|g| g.id).collect();
    let roster_ids = ids(&c.roster);
    let names = c.user_group_names.clone();
    let inside_ids = ids(&c.inside);
    let outside_ids = ids(&c.outside);
    let inside_marks = c.inside_marks.clone();
    let outside_marks = c.outside_marks.clone();
    let picker_ids = ids(&c.filtered_picker);
    let selection = c.selection.clone();
    let day_count = c.log_view.len();
    c.reload(snapshot(), events());
    let group_ids2: Vec<i32> = c.groups.iter().map(|g| g.id).collect();
    assert_eq!(group_ids2, group_ids);
    assert_eq!(ids(&c.roster), roster_ids);
    assert_eq!(c.user_group_names, names);
    assert_eq!(ids(&c.inside), inside_ids);
    assert_eq!(ids(&c.outside), outside_ids);
    assert_eq!(c.inside_marks, inside_marks);
    assert_eq!(c.outside_marks, outside_marks);
    assert_eq!(ids(&c.filtered_picker), picker_ids);
    assert_eq!(c.selection, selection);
    assert_eq!(c.log_view.len(), day_count);
}

#[test]
fn selection_survives_reload_and_marks_follow_it() {
    let mut c = Controller::new();
    c.reload(snapshot(), events());
    c.toggle_selection(2);
    c.reload(snapshot(), events());
    assert_eq!(c.selection, vec![2]);
    // Outside partition is [2, 3]: only the first row is marked.
    assert_eq!(c.outside_marks, vec![true, false]);
    assert_eq!(c.inside_marks, vec![false]);
}

#[test]
fn toggle_selection_flips_and_updates_marks() {
    let mut c = Controller::new();
    c.reload(snapshot(), events());
    c.toggle_selection(3);
    assert_eq!(c.selection, vec![3]);
    assert_eq!(c.outside_marks, vec![false, true]);
    c.toggle_selection(3);
    assert!(c.selection.is_empty());
    assert_eq!(c.outside_marks, vec![false, false]);
}

#[test]
fn select_by_group_replaces_the_selection() {
    let mut c = Controller::new();
    c.reload(snapshot(), events());
    c.toggle_selection(3);
    let r = c.select_by_group(7);
    assert!(r.is_ok());
    assert_eq!(c.selection, vec![2]);
    assert_eq!(c.outside_marks, vec![true, false]);
}

#[test]
fn select_by_unknown_group_is_rejected_unchanged() {
    let mut c = Controller::new();
    c.reload(snapshot(), events());
    c.toggle_selection(3);
    let r = c.select_by_group(42);
    assert_eq!(r, Err(HandlerError::UnknownGroup));
    assert_eq!(c.selection, vec![3]);
}

#[test]
fn bulk_check_in_clears_selection_and_writes_one_log_per_id() {
    let mut c = Controller::new();
    c.reload(snapshot(), events());
    c.toggle_selection(2);
    c.toggle_selection(3);
    let writes = c.bulk_check_in();
    assert_eq!(writes.len(), 2);
    match &writes[0] {
        DatabaseRecord::Log(l) => {
            assert_eq!(l.subject_id, 2);
            assert_eq!(l.presence, Presence::In);
        },
        _ => panic!("expected a presence write"),
    }
    match &writes[1] {
        DatabaseRecord::Log(l) => {
            assert_eq!(l.subject_id, 3);
            assert_eq!(l.presence, Presence::In);
        },
        _ => panic!("expected a presence write"),
    }
    assert!(c.selection.is_empty());
    assert_eq!(c.inside_marks, vec![false]);
    assert_eq!(c.outside_marks, vec![false, false]);
}

#[test]
fn bulk_check_out_writes_out_direction() {
    let mut c = Controller::new();
    c.reload(snapshot(), events());
    c.toggle_selection(1);
    let writes = c.bulk_check_out();
    assert_eq!(writes.len(), 1);
    match &writes[0] {
        DatabaseRecord::Log(l) => {
            assert_eq!(l.subject_id, 1);
            assert_eq!(l.presence, Presence::Out);
        },
        _ => panic!("expected a presence write"),
    }
    assert!(c.selection.is_empty());
}

#[test]
fn bulk_check_in_on_empty_selection_writes_nothing() {
    let mut c = Controller::new();
    c.reload(snapshot(), events());
    let writes = c.bulk_check_in();
    assert!(writes.is_empty());
    assert!(c.selection.is_empty());
}

#[test]
fn bulk_set_presence_at_stamps_every_write() {
    let mut c = Controller::new();
    c.reload(snapshot(), events());
    c.toggle_selection(2);
    let now = UtcStamp { year: 2024, month: 5, day: 17, hour: 8, minute: 30, second: 0 };
    let writes = c.bulk_set_presence_at(Presence::In, now);
    assert_eq!(writes.len(), 1);
    match &writes[0] {
        DatabaseRecord::Log(l) => {
            assert_eq!(l.time, now);
            assert_eq!(l.id, 0);
        },
        _ => panic!("expected a presence write"),
    }
}

#[test]
fn add_membership_rejects_duplicates() {
    let mut c = Controller::new();
    c.reload(snapshot(), events());
    // Bea (2) is already in group 7.
    match c.add_membership(7, 2) {
        Err(e) => assert_eq!(e, HandlerError::DuplicateMembership),
        Ok(_) => panic!("duplicate pair must be rejected"),
    }
    // Cal (3) is not.
    match c.add_membership(7, 3) {
        Ok(DatabaseRecord::GroupMembers(g, p)) => {
            assert_eq!((g, p), (7, 3));
        },
        other => panic!("expected a membership write, got {:?}", other),
    }
}

#[test]
fn add_person_validates_the_codes() {
    let ok = wartownik::controller::add_person(
        String::from("Dana"),
        String::from("Hill"),
        5,
        1,
    );
    match ok {
        Ok(DatabaseRecord::Person(p)) => {
            assert_eq!(p.id, 0);
            assert_eq!(p.name, "Dana");
            assert_eq!(p.surname, "Hill");
            assert_eq!(p.rank_level.code(), 5);
            assert_eq!(p.methodology, Methodology::Scout);
            assert_eq!(p.presence, Presence::Out);
        },
        other => panic!("expected a person write, got {:?}", other),
    }
    let bad_rank = wartownik::controller::add_person(
        String::from("Dana"),
        String::from("Hill"),
        11,
        1,
    );
    assert_eq!(bad_rank.unwrap_err(), HandlerError::InvalidRank);
    let bad_methodology = wartownik::controller::add_person(
        String::from("Dana"),
        String::from("Hill"),
        5,
        9,
    );
    assert_eq!(bad_methodology.unwrap_err(), HandlerError::InvalidMethodology);
}

#[test]
fn add_group_builds_the_write() {
    match wartownik::controller::add_group(String::from("Sailors")) {
        DatabaseRecord::Group(g) => {
            assert_eq!(g.id, 0);
            assert_eq!(g.name, "Sailors");
        },
        other => panic!("expected a group write, got {:?}", other),
    }
}

#[test]
fn reload_from_empty_snapshot_clears_everything() {
    let mut c = Controller::new();
    c.reload(snapshot(), events());
    c.reload(Vec::new(), Vec::new());
    assert!(c.groups.is_empty());
    assert!(c.roster.is_empty());
    assert!(c.inside.is_empty());
    assert!(c.outside.is_empty());
    assert!(c.filtered_picker.is_empty());
    assert!(c.log_view.is_empty());
}

#[test]
fn reload_without_all_persons_group_has_empty_roster() {
    let mut c = Controller::new();
    let snap = vec![group(7, "Hikers", vec![person(
        2,
        "Bea",
        "Adams",
        Methodology::Cub,
        Presence::Out,
    )])];
    c.reload(snap, Vec::new());
    assert!(c.roster.is_empty());
    assert_eq!(c.user_groups.len(), 1);
    // With no roster the picker is empty too.
    assert!(c.filtered_picker.is_empty());
}
