//! End-to-end test against a real sqlite store: the writes the handlers
//! produce are applied the way the storage boundary applies them, the
//! snapshot is read back, and the reloaded projections are checked.

use rusqlite::Connection;
use wartownik::{
    Controller, DatabaseRecord, GroupWithMembers, Methodology, Person, Presence, RankLevel,
};

fn open_store() -> Connection {
    let conn = Connection::open_in_memory().expect("open in-memory store");
    conn.execute_batch(
        "CREATE TABLE Person(
            id INTEGER PRIMARY KEY AUTOINCREMENT,
            name TEXT NOT NULL,
            surname TEXT NOT NULL,
            rank_level INTEGER NOT NULL,
            methodology INTEGER NOT NULL,
            presence INTEGER NOT NULL DEFAULT 0
        );
        CREATE TABLE GroupTable(
            id INTEGER PRIMARY KEY AUTOINCREMENT,
            name TEXT NOT NULL
        );
        CREATE TABLE GroupMembers(
            group_id INTEGER NOT NULL REFERENCES GroupTable(id) ON DELETE CASCADE,
            person_id INTEGER NOT NULL REFERENCES Person(id) ON DELETE CASCADE,
            PRIMARY KEY (group_id, person_id)
        );
        INSERT INTO GroupTable(id, name) VALUES
            (1, 'Camp'), (2, 'Cub'), (3, 'Scout'), (4, 'Venture Scout'), (5, 'Rover');",
    )
    .expect("create schema");
    conn
}

fn apply_write(conn: &Connection, record: &DatabaseRecord) {
    match record {
        DatabaseRecord::Person(p) => {
            conn.execute(
                "INSERT INTO Person(name, surname, rank_level, methodology, presence)
                 VALUES (?1, ?2, ?3, ?4, ?5);",
                (
                    &p.name,
                    &p.surname,
                    p.rank_level.code(),
                    p.methodology.code(),
                    p.presence.code(),
                ),
            )
            .expect("insert person");
            let person_id = conn.last_insert_rowid() as i32;
            let group_id = p.methodology.code() + 2;
            conn.execute(
                "INSERT INTO GroupMembers(group_id, person_id) VALUES (?1, ?2);",
                (group_id, person_id),
            )
            .expect("insert methodology membership");
            conn.execute(
                "INSERT INTO GroupMembers(group_id, person_id) VALUES (1, ?1);",
                (person_id,),
            )
            .expect("insert all-persons membership");
        },
        DatabaseRecord::Group(g) => {
            conn.execute("INSERT INTO GroupTable(name) VALUES (?1);", (&g.name,))
                .expect("insert group");
        },
        DatabaseRecord::GroupMembers(group_id, person_id) => {
            conn.execute(
                "INSERT INTO GroupMembers(group_id, person_id) VALUES (?1, ?2);",
                (*group_id, *person_id),
            )
            .expect("insert membership");
        },
        DatabaseRecord::Log(_) => panic!("not part of this test"),
    }
}

fn read_snapshot(conn: &Connection) -> Vec<GroupWithMembers> {
    let mut groups: Vec<GroupWithMembers> = Vec::new();
    let mut stmt = conn.prepare("SELECT id, name FROM GroupTable;").expect("prepare groups");
    let rows = stmt
        .query_map([], |row| Ok((row.get::<_, i32>(0)?, row.get::<_, String>(1)?)))
        .expect("query groups");
    for row in rows {
        let (id, name) = row.expect("group row");
        groups.push(GroupWithMembers { id, name, members: Vec::new() });
    }
    let mut member_stmt = conn
        .prepare(
            "SELECT gm.group_id, p.id, p.name, p.surname, p.rank_level, p.methodology, p.presence
             FROM GroupMembers gm JOIN Person p ON gm.person_id = p.id;",
        )
        .expect("prepare members");
    let member_rows = member_stmt
        .query_map([], |row| {
            Ok((
                row.get::<_, i32>(0)?,
                row.get::<_, i32>(1)?,
                row.get::<_, String>(2)?,
                row.get::<_, String>(3)?,
                row.get::<_, i32>(4)?,
                row.get::<_, i32>(5)?,
                row.get::<_, i32>(6)?,
            ))
        })
        .expect("query members");
    for row in member_rows {
        let (group_id, id, name, surname, rank, methodology, presence) =
            row.expect("member row");
        let person = Person {
            id,
            name,
            surname,
            rank_level: RankLevel::try_from(rank).unwrap_or(RankLevel::RankNone),
            methodology: Methodology::try_from(methodology).unwrap_or(Methodology::Cub),
            presence: Presence::try_from(presence).unwrap_or(Presence::Out),
        };
        if let Some(g) = groups.iter_mut().find(|g| g.id == group_id) {
            g.members.push(person);
        }
    }
    groups
}

#[test]
fn added_scout_appears_in_camp_and_scout_groups_only() {
    let conn = open_store();
    let record = wartownik::controller::add_person(
        String::from("Dana"),
        String::from("Hill"),
        0,
        Methodology::Scout.code(),
    )
    .expect("valid codes");
    apply_write(&conn, &record);
    let mut c = Controller::new();
    c.reload(read_snapshot(&conn), Vec::new());

    // The new person got id 1 and is on the roster.
    assert_eq!(c.roster.len(), 1);
    let dana = &c.roster[0];
    assert_eq!(dana.name, "Dana");
    assert_eq!(dana.methodology, Methodology::Scout);

    // Present in the all-persons group and the Scout group, in no other.
    for g in &c.groups {
        let has = g.members.iter().any(|m| m.id == dana.id);
        if g.id == 1 || g.id == 3 {
            assert!(has, "expected membership in group {}", g.id);
        } else {
            assert!(!has, "unexpected membership in group {}", g.id);
        }
    }
    // In particular, no user-managed group lists the new person.
    for g in &c.user_groups {
        assert!(g.members.is_empty());
    }
}

#[test]
fn duplicate_membership_leaves_one_row_and_is_rejected() {
    let conn = open_store();
    // A user group and a person.
    apply_write(&conn, &wartownik::controller::add_group(String::from("Hikers")));
    let record = wartownik::controller::add_person(
        String::from("Dana"),
        String::from("Hill"),
        0,
        Methodology::Scout.code(),
    )
    .expect("valid codes");
    apply_write(&conn, &record);

    let mut c = Controller::new();
    c.reload(read_snapshot(&conn), Vec::new());
    // The auto-assigned ids: group 6, person 1.
    let first = c.add_membership(6, 1).expect("first insert accepted");
    apply_write(&conn, &first);

    c.reload(read_snapshot(&conn), Vec::new());
    // Second attempt is rejected before any write.
    assert!(c.add_membership(6, 1).is_err());
    let count: i32 = conn
        .query_row(
            "SELECT COUNT(*) FROM GroupMembers WHERE group_id = 6 AND person_id = 1;",
            [],
            |row| row.get(0),
        )
        .expect("count rows");
    assert_eq!(count, 1);
}
