//! Mathematical model of the persistent store: the tables as maps, sets
//! and sequences, and the effect of each kind of write. The storage
//! boundary applies the writes; these definitions state what a correct
//! store does with them, and the laws about repeated or bulk writes are
//! proved against them.

use vstd::prelude::*;

use crate::types::{methodology_code, DatabaseRecord, Presence, PersonView, UtcStamp};

verus! {

/// Id of the reserved group whose membership is the full roster.
pub open spec fn all_persons_group_id() -> int {
    1
}

/// First id of the user-managed group range; smaller ids are reserved.
pub open spec fn first_user_group_id() -> int {
    6
}

/// Id of the reserved group implied by a methodology.
pub open spec fn methodology_group_id(m: crate::types::Methodology) -> int {
    methodology_code(m) + 2
}

/// One row of the append-only presence log.
#[verifier::ext_equal]
pub struct LogRowView {
    pub id: int,
    pub subject_id: int,
    pub presence: Presence,
    pub time: UtcStamp,
}

/// The store's tables. Memberships form a set because the pair is the
/// table's primary key.
#[verifier::ext_equal]
pub struct StoreModel {
    pub persons: Map<int, PersonView>,
    pub groups: Map<int, Seq<char>>,
    pub memberships: Set<(int, int)>,
    pub log: Seq<LogRowView>,
    pub next_person_id: int,
    pub next_group_id: int,
    pub next_log_id: int,
}

/// The store's own invariants: ids are keys, assigned below the
/// auto-increment counters, and membership rows reference assigned ids.
pub open spec fn store_wf(s: StoreModel) -> bool {
    &&& forall|id: int| #[trigger] s.persons.dom().contains(id) ==> s.persons[id].id == id && id
        < s.next_person_id
    &&& forall|gp: (int, int)| #[trigger] s.memberships.contains(gp) ==> gp.1 < s.next_person_id
}

/// Inserting a person assigns the next id, stores the row with presence
/// as given, and adds the two implied membership rows: the all-persons
/// group and the group of the person's methodology.
pub open spec fn apply_insert_person(s: StoreModel, p: PersonView) -> StoreModel {
    let id = s.next_person_id;
    let stored = PersonView {
        id: id,
        name: p.name,
        surname: p.surname,
        rank_level: p.rank_level,
        methodology: p.methodology,
        presence: p.presence,
    };
    StoreModel {
        persons: s.persons.insert(id, stored),
        groups: s.groups,
        memberships: s.memberships.insert((all_persons_group_id(), id)).insert(
            (methodology_group_id(p.methodology), id),
        ),
        log: s.log,
        next_person_id: id + 1,
        next_group_id: s.next_group_id,
        next_log_id: s.next_log_id,
    }
}

/// Inserting a group assigns the next group id; no membership is implied.
pub open spec fn apply_insert_group(s: StoreModel, name: Seq<char>) -> StoreModel {
    StoreModel {
        persons: s.persons,
        groups: s.groups.insert(s.next_group_id, name),
        memberships: s.memberships,
        log: s.log,
        next_person_id: s.next_person_id,
        next_group_id: s.next_group_id + 1,
        next_log_id: s.next_log_id,
    }
}

/// Inserting a membership adds the pair; the pair is the primary key, so
/// the table holds at most one such row.
pub open spec fn apply_insert_membership(s: StoreModel, group_id: int, person_id: int) -> StoreModel {
    StoreModel {
        persons: s.persons,
        groups: s.groups,
        memberships: s.memberships.insert((group_id, person_id)),
        log: s.log,
        next_person_id: s.next_person_id,
        next_group_id: s.next_group_id,
        next_log_id: s.next_log_id,
    }
}

/// One presence write: the subject's flag is updated (when the subject
/// exists) and one log row is appended — a single logical write, so flag
/// and audit trail never diverge.
pub open spec fn apply_presence_write(
    s: StoreModel,
    subject_id: int,
    dir: Presence,
    t: UtcStamp,
) -> StoreModel {
    let persons = if s.persons.dom().contains(subject_id) {
        let p = s.persons[subject_id];
        s.persons.insert(
            subject_id,
            PersonView {
                id: p.id,
                name: p.name,
                surname: p.surname,
                rank_level: p.rank_level,
                methodology: p.methodology,
                presence: dir,
            },
        )
    } else {
        s.persons
    };
    StoreModel {
        persons: persons,
        groups: s.groups,
        memberships: s.memberships,
        log: s.log.push(
            LogRowView { id: s.next_log_id, subject_id: subject_id, presence: dir, time: t },
        ),
        next_person_id: s.next_person_id,
        next_group_id: s.next_group_id,
        next_log_id: s.next_log_id + 1,
    }
}

/// Presence writes for a whole selection, in selection order.
pub open spec fn apply_presence_writes(
    s: StoreModel,
    ids: Seq<int>,
    dir: Presence,
    t: UtcStamp,
) -> StoreModel
    decreases ids.len(),
{
    if ids.len() == 0 {
        s
    } else {
        apply_presence_writes(apply_presence_write(s, ids[0], dir, t), ids.drop_first(), dir, t)
    }
}

/// What one write record does to the store.
pub open spec fn apply_record(s: StoreModel, r: DatabaseRecord) -> StoreModel {
    match r {
        DatabaseRecord::Person(p) => apply_insert_person(s, p@),
        DatabaseRecord::Group(g) => apply_insert_group(s, g@.name),
        DatabaseRecord::GroupMembers(gid, pid) => apply_insert_membership(
            s,
            gid as int,
            pid as int,
        ),
        DatabaseRecord::Log(l) => apply_presence_write(s, l.subject_id as int, l.presence, l.time),
    }
}

/// What a whole write list does to the store, first record first.
pub open spec fn apply_records(s: StoreModel, rs: Seq<DatabaseRecord>) -> StoreModel
    decreases rs.len(),
{
    if rs.len() == 0 {
        s
    } else {
        apply_records(apply_record(s, rs[0]), rs.drop_first())
    }
}

/// The write list a bulk presence handler produces — one presence record
/// per selected id, in selection order, all with one direction and one
/// timestamp — applies to the store exactly as the bulk presence-write
/// semantics.
pub proof fn lemma_bulk_writes_apply(
    s: StoreModel,
    w: Seq<DatabaseRecord>,
    ids: Seq<int>,
    dir: Presence,
    t: UtcStamp,
)
    requires
        w.len() == ids.len(),
        forall|j: int|
            0 <= j < ids.len() ==> ((#[trigger] w[j]) matches DatabaseRecord::Log(l)
                && l.subject_id as int == ids[j] && l.presence == dir && l.time == t),
    ensures
        apply_records(s, w) == apply_presence_writes(s, ids, dir, t),
    decreases w.len(),
{
    if w.len() > 0 {
        let s1 = apply_record(s, w[0]);
        assert(s1 == apply_presence_write(s, ids[0], dir, t));
        assert forall|j: int|
            0 <= j < ids.drop_first().len() implies ((#[trigger] w.drop_first()[j])
            matches DatabaseRecord::Log(l) && l.subject_id as int == ids.drop_first()[j]
            && l.presence == dir && l.time == t) by {
            assert(w.drop_first()[j] == w[j + 1]);
            assert(ids.drop_first()[j] == ids[j + 1]);
        }
        lemma_bulk_writes_apply(s1, w.drop_first(), ids.drop_first(), dir, t);
    }
}

/// A membership insert leaves exactly one row for the pair, and repeating
/// the same insert changes nothing: the pair is the table's primary key.
pub proof fn lemma_duplicate_membership_insert(s: StoreModel, group_id: int, person_id: int)
    ensures
        apply_insert_membership(s, group_id, person_id).memberships.contains(
            (group_id, person_id),
        ),
        apply_insert_membership(apply_insert_membership(s, group_id, person_id), group_id, person_id)
            == apply_insert_membership(s, group_id, person_id),
{
    let s1 = apply_insert_membership(s, group_id, person_id);
    let s2 = apply_insert_membership(s1, group_id, person_id);
    assert(s2.memberships =~= s1.memberships);
    assert(s2 =~= s1);
}

/// A newly inserted person belongs to the all-persons group and to the
/// group of their methodology, and to no user-managed group.
pub proof fn lemma_insert_person_memberships(s: StoreModel, p: PersonView)
    requires
        store_wf(s),
    ensures
        apply_insert_person(s, p).memberships.contains(
            (all_persons_group_id(), s.next_person_id),
        ),
        apply_insert_person(s, p).memberships.contains(
            (methodology_group_id(p.methodology), s.next_person_id),
        ),
        forall|g: int| g >= first_user_group_id() ==> !apply_insert_person(
            s,
            p,
        ).memberships.contains((g, s.next_person_id)),
        store_wf(apply_insert_person(s, p)),
{
    let id = s.next_person_id;
    let s2 = apply_insert_person(s, p);
    assert forall|g: int| g >= first_user_group_id() implies !s2.memberships.contains(
        (g, id),
    ) by {
        assert(methodology_group_id(p.methodology) <= 5);
        if s.memberships.contains((g, id)) {
            assert(id < s.next_person_id);
        }
    }
}

/// After a bulk presence write over a selection: every selected person
/// that exists now carries the written flag, unselected persons are
/// untouched, and the log grew by exactly one row per selected id, in
/// selection order and all carrying the written direction.
pub proof fn lemma_bulk_presence_writes(s: StoreModel, ids: Seq<int>, dir: Presence, t: UtcStamp)
    ensures
        ({
            let s2 = apply_presence_writes(s, ids, dir, t);
            &&& s2.log.len() == s.log.len() + ids.len()
            &&& forall|j: int| 0 <= j < s.log.len() ==> s2.log[j] == s.log[j]
            &&& forall|j: int|
                0 <= j < ids.len() ==> (#[trigger] s2.log[s.log.len() + j]).subject_id == ids[j]
                    && s2.log[s.log.len() + j].presence == dir
            &&& s2.persons.dom() =~= s.persons.dom()
            &&& forall|id: int|
                ids.contains(id) && s.persons.dom().contains(id)
                    ==> (#[trigger] s2.persons[id]).presence == dir
            &&& forall|id: int|
                !ids.contains(id) && s.persons.dom().contains(id) ==> #[trigger] s2.persons[id]
                    == s.persons[id]
            &&& s2.memberships == s.memberships
            &&& s2.groups == s.groups
        }),
    decreases ids.len(),
{
    if ids.len() > 0 {
        let s1 = apply_presence_write(s, ids[0], dir, t);
        lemma_bulk_presence_writes(s1, ids.drop_first(), dir, t);
        let s2 = apply_presence_writes(s, ids, dir, t);
        assert(s1.persons.dom() =~= s.persons.dom());
        assert forall|j: int|
            0 <= j < ids.len() implies (#[trigger] s2.log[s.log.len() + j]).subject_id == ids[j]
            && s2.log[s.log.len() + j].presence == dir by {
            if j == 0 {
                assert(s2.log[s.log.len() as int] == s1.log[s.log.len() as int]);
                assert(s1.log[s.log.len() as int].subject_id == ids[0]);
            } else {
                assert(s2.log[s1.log.len() + (j - 1)].subject_id == ids.drop_first()[j - 1]);
                assert(ids.drop_first()[j - 1] == ids[j]);
            }
        }
        assert forall|id: int|
            ids.contains(id) && s.persons.dom().contains(id) implies (
        #[trigger] s2.persons[id]).presence == dir by {
            if ids.drop_first().contains(id) {
            } else {
                let k = choose|k: int| 0 <= k < ids.len() && ids[k] == id;
                if k >= 1 {
                    assert(ids.drop_first()[k - 1] == id);
                    assert(ids.drop_first().contains(id));
                }
                assert(id == ids[0]);
                assert(s1.persons[id].presence == dir);
                assert(s2.persons[id] == s1.persons[id]);
            }
        }
        assert forall|id: int|
            !ids.contains(id) && s.persons.dom().contains(id) implies #[trigger] s2.persons[id]
            == s.persons[id] by {
            assert(!ids.drop_first().contains(id)) by {
                if ids.drop_first().contains(id) {
                    let k = choose|k: int|
                        0 <= k < ids.drop_first().len() && ids.drop_first()[k] == id;
                    assert(ids[k + 1] == id);
                }
            }
            assert(id != ids[0]);
            assert(s1.persons[id] == s.persons[id]);
        }
    }
}

} // verus!
