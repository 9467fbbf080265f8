//! Membership filter: given the roster and a group, the subset of the
//! roster not already a member of that group. It feeds the "available to
//! add" pickers.

use vstd::prelude::*;

use crate::types::{persons_vw, GroupWithMembers, GroupWithMembersView, Person, PersonView};

verus! {

/// The member ids of a group, in member-list order.
pub open spec fn ids_seq(members: Seq<PersonView>) -> Seq<int> {
    members.map_values(|p: PersonView| p.id)
}

/// Integer values of a vector of stored ids.
pub open spec fn ids_of(s: Seq<i32>) -> Seq<int> {
    s.map_values(|v: i32| v as int)
}

/// The predicate the membership filter keeps: the person is not a member
/// of `g`.
pub open spec fn excl_pred(g: GroupWithMembersView) -> spec_fn(PersonView) -> bool {
    |p: PersonView| !member_id_set(g).contains(p.id)
}

/// The set of ids of a group's members.
pub open spec fn member_id_set(g: GroupWithMembersView) -> Set<int> {
    ids_seq(g.members).to_set()
}

/// A person stays in the filtered list exactly when their id is not a
/// member id of the group.
pub open spec fn membership_filter(roster: Seq<PersonView>, g: GroupWithMembersView) -> Seq<
    PersonView,
> {
    roster.filter(excl_pred(g))
}

/// Collect a group's member ids.
pub fn member_ids(group: &GroupWithMembers) -> (r: Vec<i32>)
    ensures
        ids_of(r@) == ids_seq(group@.members),
{
    let mut r: Vec<i32> = Vec::new();
    let mut i: usize = 0;
    while i < group.members.len()
        invariant
            i <= group.members.len(),
            ids_of(r@) =~= ids_seq(group@.members).take(i as int),
        decreases group.members.len() - i,
    {
        let ghost r_pre = r@;
        r.push(group.members[i].id);
        proof {
            assert(r@ =~= r_pre.push(group.members@[i as int].id));
            assert(group@.members[i as int] == group.members@[i as int]@);
            assert(ids_of(r_pre).len() == i as int);
            assert(r_pre.len() == i as int);
            assert(ids_of(r@).len() == i + 1);
            assert(ids_of(r@)[i as int] == group.members@[i as int].id as int);
            assert(group@.members.len() == group.members@.len());
            assert(ids_seq(group@.members).take(i + 1)[i as int] == group@.members[i as int].id);
            assert forall|k: int| 0 <= k < i + 1 implies ids_of(r@)[k]
                == #[trigger] ids_seq(group@.members).take(i + 1)[k] by {
                if k < i {
                    assert(r@[k] == r_pre[k]);
                    assert(ids_of(r@)[k] == ids_of(r_pre)[k]);
                    assert(ids_of(r_pre)[k] == ids_seq(group@.members).take(i as int)[k]);
                    assert(ids_seq(group@.members).take(i as int)[k] == ids_seq(
                        group@.members,
                    )[k]);
                }
            }
            assert(ids_of(r@) =~= ids_seq(group@.members).take(i + 1));
        }
        i = i + 1;
    }
    proof {
        assert(ids_seq(group@.members).take(group.members@.len() as int) =~= ids_seq(
            group@.members,
        ));
    }
    r
}

/// Linear membership test over an id list.
pub(crate) fn contains_id(ids: &Vec<i32>, id: i32) -> (r: bool)
    ensures
        r == ids_of(ids@).contains(id as int),
{
    let mut i: usize = 0;
    while i < ids.len()
        invariant
            i <= ids.len(),
            forall|k: int| 0 <= k < i ==> #[trigger] ids@[k] != id,
        decreases ids.len() - i,
    {
        if ids[i] == id {
            proof {
                assert(ids_of(ids@)[i as int] == id as int);
            }
            return true;
        }
        i = i + 1;
    }
    proof {
        let m = ids_of(ids@);
        if m.contains(id as int) {
            let k = choose|k: int| 0 <= k < m.len() && m[k] == id as int;
            assert(ids@[k] != id);
            assert(ids@[k] as int == id as int);
        }
    }
    false
}

/// Keep exactly the persons whose id is not a member id of `group`,
/// preserving roster order.
pub fn filter_persons_excluding_group(persons: &Vec<Person>, group: &GroupWithMembers) -> (r: Vec<
    Person,
>)
    ensures
        persons_vw(r@) == membership_filter(persons_vw(persons@), group@),
{
    let ids = member_ids(group);
    let ghost pred = excl_pred(group@);
    let mut out: Vec<Person> = Vec::new();
    let mut i: usize = 0;
    proof {
        reveal(Seq::filter);
        assert(persons_vw(persons@).take(0) =~= Seq::<PersonView>::empty());
        assert(persons_vw(out@) =~= persons_vw(persons@).take(0).filter(pred));
    }
    while i < persons.len()
        invariant
            i <= persons.len(),
            persons_vw(out@) == persons_vw(persons@).take(i as int).filter(pred),
            pred == excl_pred(group@),
            ids_of(ids@) == ids_seq(group@.members),
        decreases persons.len() - i,
    {
        let ghost seen = persons_vw(persons@).take(i as int);
        let ghost next = persons_vw(persons@).take(i + 1);
        proof {
            assert(next.drop_last() =~= seen);
            assert(next.last() == persons@[i as int]@);
        }
        let p = &persons[i];
        let keep = !contains_id(&ids, p.id);
        proof {
            assert(member_id_set(group@).contains(p@.id) == ids_seq(group@.members).contains(
                p@.id,
            ));
            assert(keep == pred(p@));
        }
        proof {
            assert(persons_vw(persons@).len() == persons@.len());
            assert(next =~= seen.push(persons@[i as int]@));
            seen.lemma_filter_push(persons@[i as int]@, pred);
        }
        if keep {
            let ghost out_pre = out@;
            out.push(p.clone());
            proof {
                assert(persons_vw(out@) =~= persons_vw(out_pre).push(p@));
                assert(persons_vw(out@) =~= next.filter(pred));
            }
        } else {
            proof {
                assert(persons_vw(out@) =~= next.filter(pred));
            }
        }
        i = i + 1;
    }
    proof {
        assert(persons_vw(persons@).take(persons@.len() as int) =~= persons_vw(persons@));
    }
    out
}

/// The membership filter is disjoint from the group's members and,
/// together with them, covers the whole roster: no filtered person is a
/// member, and every roster entry is either filtered in or a member.
pub proof fn lemma_membership_filter_partition(roster: Seq<PersonView>, g: GroupWithMembersView)
    ensures
        forall|i: int| 0 <= i < membership_filter(roster, g).len() ==> !member_id_set(g).contains(
            #[trigger] membership_filter(roster, g)[i].id,
        ),
        forall|p: PersonView| #[trigger] roster.contains(p) ==> membership_filter(
            roster,
            g,
        ).contains(p) || member_id_set(g).contains(p.id),
{
    broadcast use vstd::seq_lib::group_filter_ensures;

    let pred = excl_pred(g);
    assert forall|p: PersonView| #[trigger] roster.contains(p) implies membership_filter(
        roster,
        g,
    ).contains(p) || member_id_set(g).contains(p.id) by {
        if !member_id_set(g).contains(p.id) {
            let i = choose|i: int| 0 <= i < roster.len() && roster[i] == p;
            assert(pred(roster[i]));
        }
    }
}

} // verus!
