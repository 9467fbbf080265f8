//! State synchronization controller: owns every derived cache, rebuilds
//! them all from a store snapshot on reload, and validates user mutations
//! before any write reaches the storage boundary.
//!
//! The controller never patches a cache incrementally: reload replaces
//! every projection wholesale, so each published view is a function of the
//! snapshot and the surviving transient selection alone.

use vstd::prelude::*;

use crate::filter::{
    excl_pred, ids_of, ids_seq, member_id_set, member_ids, membership_filter,
    filter_persons_excluding_group,
};
use crate::logview::{aggregate_log, aggregate_spec, days_vw, DayGroup, DayGroupView};
use crate::order::{
    group_order, person_order, sort_by_spec, sort_groups, sort_members,
};
use crate::types::{
    clone_persons, groups_vw, persons_vw, DatabaseRecord, Group, GroupWithMembers,
    GroupWithMembersView, LocalEvent, Log, Person, PersonView, Presence, UtcStamp,
};

verus! {

/// Stored id of the reserved all-persons group.
pub const ALL_PERSONS_GROUP_ID: i32 = 1;

/// Stored id of the first user-managed group; smaller ids are reserved.
pub const FIRST_USER_MANAGED_GROUP_ID: i32 = 6;

/// A group with its member list sorted by the ordering policy.
pub open spec fn sorted_members_of(g: GroupWithMembersView) -> GroupWithMembersView {
    GroupWithMembersView {
        id: g.id,
        name: g.name,
        members: sort_by_spec(g.members, person_order()),
    }
}

/// Step one of reload: groups ordered by ascending id, every member list
/// ordered by the ordering policy.
pub open spec fn reload_groups_spec(input: Seq<GroupWithMembersView>) -> Seq<
    GroupWithMembersView,
> {
    sort_by_spec(input, group_order()).map_values(|g: GroupWithMembersView| sorted_members_of(g))
}

/// First group carrying the given id.
pub open spec fn lookup_group(groups: Seq<GroupWithMembersView>, id: int) -> Option<
    GroupWithMembersView,
>
    decreases groups.len(),
{
    if groups.len() == 0 {
        Option::None
    } else if groups[0].id == id {
        Option::Some(groups[0])
    } else {
        lookup_group(groups.drop_first(), id)
    }
}

/// The authoritative roster: the member list of the all-persons group,
/// empty when that group is missing from the snapshot.
pub open spec fn roster_spec(groups: Seq<GroupWithMembersView>) -> Seq<PersonView> {
    match lookup_group(groups, ALL_PERSONS_GROUP_ID as int) {
        Option::Some(g) => g.members,
        Option::None => Seq::empty(),
    }
}

/// The user-managed group test.
pub open spec fn user_group_pred() -> spec_fn(GroupWithMembersView) -> bool {
    |g: GroupWithMembersView| g.id >= FIRST_USER_MANAGED_GROUP_ID as int
}

/// The user-managed groups, in id order.
pub open spec fn user_groups_spec(groups: Seq<GroupWithMembersView>) -> Seq<
    GroupWithMembersView,
> {
    groups.filter(user_group_pred())
}

/// The user-group names, in id order.
pub open spec fn names_spec(ugs: Seq<GroupWithMembersView>) -> Seq<Seq<char>> {
    ugs.map_values(|g: GroupWithMembersView| g.name)
}

/// The group-id to member-ids index, in group order.
pub open spec fn member_index_spec(groups: Seq<GroupWithMembersView>) -> Seq<(int, Seq<int>)> {
    groups.map_values(|g: GroupWithMembersView| (g.id, ids_seq(g.members)))
}

/// The inside test.
pub open spec fn inside_pred() -> spec_fn(PersonView) -> bool {
    |p: PersonView| p.presence == Presence::In
}

/// The outside test.
pub open spec fn outside_pred() -> spec_fn(PersonView) -> bool {
    |p: PersonView| p.presence == Presence::Out
}

/// The part of the roster currently inside, in roster order.
pub open spec fn inside_spec(roster: Seq<PersonView>) -> Seq<PersonView> {
    roster.filter(inside_pred())
}

/// The part of the roster currently outside, in roster order.
pub open spec fn outside_spec(roster: Seq<PersonView>) -> Seq<PersonView> {
    roster.filter(outside_pred())
}

/// Selection markers for a partition, positionally parallel to it.
pub open spec fn marks_spec(part: Seq<PersonView>, sel: Seq<int>) -> Seq<bool> {
    part.map_values(|p: PersonView| sel.contains(p.id))
}

/// The picker list for the active group context: the membership filter
/// against the first user group, or the whole roster when there is none.
pub open spec fn picker_spec(
    roster: Seq<PersonView>,
    ugs: Seq<GroupWithMembersView>,
) -> Seq<PersonView> {
    if ugs.len() > 0 {
        membership_filter(roster, ugs[0])
    } else {
        roster
    }
}

/// Everything the controller publishes, as one mathematical value.
#[verifier::ext_equal]
pub struct ControllerView {
    pub groups: Seq<GroupWithMembersView>,
    pub roster: Seq<PersonView>,
    pub user_groups: Seq<GroupWithMembersView>,
    pub user_group_names: Seq<Seq<char>>,
    pub member_index: Seq<(int, Seq<int>)>,
    pub inside: Seq<PersonView>,
    pub outside: Seq<PersonView>,
    pub inside_marks: Seq<bool>,
    pub outside_marks: Seq<bool>,
    pub selection: Seq<int>,
    pub filtered_picker: Seq<PersonView>,
    pub log_view: Seq<DayGroupView>,
}

/// The full state reload publishes for a snapshot and a surviving
/// selection: every projection is a function of those two alone.
pub open spec fn reload_model(
    input: Seq<GroupWithMembersView>,
    events: Seq<LocalEvent>,
    sel: Seq<int>,
) -> ControllerView {
    let groups = reload_groups_spec(input);
    let roster = roster_spec(groups);
    let ugs = user_groups_spec(groups);
    ControllerView {
        groups: groups,
        roster: roster,
        user_groups: ugs,
        user_group_names: names_spec(ugs),
        member_index: member_index_spec(groups),
        inside: inside_spec(roster),
        outside: outside_spec(roster),
        inside_marks: marks_spec(inside_spec(roster), sel),
        outside_marks: marks_spec(outside_spec(roster), sel),
        selection: sel,
        filtered_picker: picker_spec(roster, ugs),
        log_view: aggregate_spec(events, roster),
    }
}

/// The controller and all the caches it owns. All lists are rebuilt
/// wholesale by [`Controller::reload`]; only `selection` survives a reload.
pub struct Controller {
    pub groups: Vec<GroupWithMembers>,
    pub roster: Vec<Person>,
    pub user_groups: Vec<GroupWithMembers>,
    pub user_group_names: Vec<String>,
    pub member_index: Vec<(i32, Vec<i32>)>,
    pub inside: Vec<Person>,
    pub outside: Vec<Person>,
    pub inside_marks: Vec<bool>,
    pub outside_marks: Vec<bool>,
    pub selection: Vec<i32>,
    pub filtered_picker: Vec<Person>,
    pub log_view: Vec<DayGroup>,
}

/// Value of a name list.
pub open spec fn names_vw(s: Seq<String>) -> Seq<Seq<char>> {
    s.map_values(|n: String| n@)
}

/// Value of the member index.
pub open spec fn index_vw(s: Seq<(i32, Vec<i32>)>) -> Seq<(int, Seq<int>)> {
    s.map_values(|e: (i32, Vec<i32>)| (e.0 as int, ids_of(e.1@)))
}

impl View for Controller {
    type V = ControllerView;

    open spec fn view(&self) -> ControllerView {
        ControllerView {
            groups: groups_vw(self.groups@),
            roster: persons_vw(self.roster@),
            user_groups: groups_vw(self.user_groups@),
            user_group_names: names_vw(self.user_group_names@),
            member_index: index_vw(self.member_index@),
            inside: persons_vw(self.inside@),
            outside: persons_vw(self.outside@),
            inside_marks: self.inside_marks@,
            outside_marks: self.outside_marks@,
            selection: ids_of(self.selection@),
            filtered_picker: persons_vw(self.filtered_picker@),
            log_view: days_vw(self.log_view@),
        }
    }
}

impl Controller {
    /// A fresh controller: every cache empty, nothing selected.
    pub fn new() -> (r: Controller)
        ensures
            r@ == reload_model(Seq::empty(), Seq::empty(), Seq::empty()),
    {
        let r = Controller {
            groups: Vec::new(),
            roster: Vec::new(),
            user_groups: Vec::new(),
            user_group_names: Vec::new(),
            member_index: Vec::new(),
            inside: Vec::new(),
            outside: Vec::new(),
            inside_marks: Vec::new(),
            outside_marks: Vec::new(),
            selection: Vec::new(),
            filtered_picker: Vec::new(),
            log_view: Vec::new(),
        };
        proof {
            lemma_reload_model_empty();
            assert(r@ =~~= reload_model(Seq::empty(), Seq::empty(), Seq::empty()));
        }
        r
    }
}

/// Sort every group's member list by the ordering policy.
fn sort_each_members(groups: Vec<GroupWithMembers>) -> (r: Vec<GroupWithMembers>)
    ensures
        groups_vw(r@) == groups_vw(groups@).map_values(
            |g: GroupWithMembersView| sorted_members_of(g),
        ),
{
    let ghost orig = groups@;
    let mut gs = groups;
    let mut out: Vec<GroupWithMembers> = Vec::new();
    proof {
        assert(groups_vw(out@) =~= groups_vw(orig.take(0)).map_values(
            |g: GroupWithMembersView| sorted_members_of(g),
        ));
    }
    while gs.len() > 0
        invariant
            gs@.len() <= orig.len(),
            gs@ == orig.skip(orig.len() - gs@.len()),
            groups_vw(out@) == groups_vw(orig.take(orig.len() - gs@.len())).map_values(
                |g: GroupWithMembersView| sorted_members_of(g),
            ),
        decreases gs@.len(),
    {
        let ghost pre = gs@;
        let ghost consumed = orig.len() - pre.len();
        let mut g = gs.remove(0);
        proof {
            assert(pre == orig.skip(consumed));
            assert(g == pre[0]);
            assert(g == orig.skip(consumed)[0]);
            assert(orig.skip(consumed)[0] == orig[consumed]);
            assert(gs@ =~= orig.skip(consumed + 1));
        }
        sort_members(&mut g.members);
        let ghost out_pre = out@;
        out.push(g);
        proof {
            assert(out@.last()@ =~~= sorted_members_of(orig[consumed]@));
            assert(groups_vw(out@) =~= groups_vw(out_pre).push(sorted_members_of(orig[consumed]@)));
            assert(groups_vw(orig.take(consumed + 1)) =~= groups_vw(orig.take(consumed)).push(
                orig[consumed]@,
            ));
            assert(groups_vw(out@) =~= groups_vw(orig.take(consumed + 1)).map_values(
                |g2: GroupWithMembersView| sorted_members_of(g2),
            ));
        }
    }
    proof {
        assert(orig.take(orig.len() as int) =~= orig);
    }
    out
}

/// Extract the roster: the member list of the all-persons group.
fn roster_of(groups: &Vec<GroupWithMembers>) -> (r: Vec<Person>)
    ensures
        persons_vw(r@) == roster_spec(groups_vw(groups@)),
{
    let ghost gv = groups_vw(groups@);
    let mut j: usize = 0;
    proof {
        assert(gv.skip(0) =~= gv);
    }
    loop
        invariant
            j <= groups@.len(),
            gv == groups_vw(groups@),
            lookup_group(gv, ALL_PERSONS_GROUP_ID as int) == lookup_group(
                gv.skip(j as int),
                ALL_PERSONS_GROUP_ID as int,
            ),
        decreases groups@.len() - j,
    {
        if j == groups.len() {
            assert(gv.skip(j as int).len() == 0);
            let r: Vec<Person> = Vec::new();
            proof {
                assert(persons_vw(r@) =~= Seq::<PersonView>::empty());
            }
            return r;
        }
        let g = &groups[j];
        proof {
            assert(gv.skip(j as int)[0] == gv[j as int]);
            assert(gv[j as int] == groups@[j as int]@);
        }
        if g.id == ALL_PERSONS_GROUP_ID {
            return clone_persons(&g.members);
        }
        proof {
            assert(gv.skip(j as int).drop_first() =~= gv.skip(j as int + 1));
        }
        j = j + 1;
    }
}

/// Keep the user-managed groups, in order.
fn user_groups_of(groups: &Vec<GroupWithMembers>) -> (r: Vec<GroupWithMembers>)
    ensures
        groups_vw(r@) == user_groups_spec(groups_vw(groups@)),
{
    let ghost pred = user_group_pred();
    let mut out: Vec<GroupWithMembers> = Vec::new();
    let mut i: usize = 0;
    proof {
        reveal(Seq::filter);
        assert(groups_vw(groups@).take(0) =~= Seq::<GroupWithMembersView>::empty());
        assert(groups_vw(out@) =~= groups_vw(groups@).take(0).filter(pred));
    }
    while i < groups.len()
        invariant
            i <= groups.len(),
            groups_vw(out@) == groups_vw(groups@).take(i as int).filter(pred),
            pred == user_group_pred(),
        decreases groups.len() - i,
    {
        let ghost seen = groups_vw(groups@).take(i as int);
        let ghost next = groups_vw(groups@).take(i + 1);
        proof {
            assert(groups_vw(groups@).len() == groups@.len());
            assert(next.drop_last() =~= seen);
            assert(next.last() == groups@[i as int]@);
            assert(next =~= seen.push(groups@[i as int]@));
            seen.lemma_filter_push(groups@[i as int]@, pred);
        }
        let g = &groups[i];
        let keep = g.id >= FIRST_USER_MANAGED_GROUP_ID;
        proof {
            assert(keep == pred(g@));
        }
        if keep {
            let ghost out_pre = out@;
            out.push(g.clone());
            proof {
                assert(groups_vw(out@) =~= groups_vw(out_pre).push(g@));
                assert(groups_vw(out@) =~= next.filter(pred));
            }
        } else {
            proof {
                assert(groups_vw(out@) =~= next.filter(pred));
            }
        }
        i = i + 1;
    }
    proof {
        assert(groups_vw(groups@).take(groups@.len() as int) =~= groups_vw(groups@));
    }
    out
}

/// Collect the group names, in order.
fn names_of(groups: &Vec<GroupWithMembers>) -> (r: Vec<String>)
    ensures
        names_vw(r@) == names_spec(groups_vw(groups@)),
{
    let mut out: Vec<String> = Vec::new();
    let mut i: usize = 0;
    proof {
        assert(names_vw(out@) =~= names_spec(groups_vw(groups@)).take(0));
    }
    while i < groups.len()
        invariant
            i <= groups.len(),
            names_vw(out@) == names_spec(groups_vw(groups@)).take(i as int),
        decreases groups.len() - i,
    {
        let ghost out_pre = out@;
        out.push(groups[i].name.clone());
        proof {
            assert(groups_vw(groups@)[i as int] == groups@[i as int]@);
            assert(names_vw(out@) =~= names_vw(out_pre).push(groups@[i as int]@.name));
            assert(names_vw(out@) =~= names_spec(groups_vw(groups@)).take(i + 1));
        }
        i = i + 1;
    }
    proof {
        assert(names_spec(groups_vw(groups@)).take(groups@.len() as int) =~= names_spec(
            groups_vw(groups@),
        ));
    }
    out
}

/// Rebuild the group-id to member-ids index.
fn build_index(groups: &Vec<GroupWithMembers>) -> (r: Vec<(i32, Vec<i32>)>)
    ensures
        index_vw(r@) == member_index_spec(groups_vw(groups@)),
{
    let mut out: Vec<(i32, Vec<i32>)> = Vec::new();
    let mut i: usize = 0;
    proof {
        assert(index_vw(out@) =~= member_index_spec(groups_vw(groups@)).take(0));
    }
    while i < groups.len()
        invariant
            i <= groups.len(),
            index_vw(out@) == member_index_spec(groups_vw(groups@)).take(i as int),
        decreases groups.len() - i,
    {
        let g = &groups[i];
        let ids = member_ids(g);
        let ghost out_pre = out@;
        out.push((g.id, ids));
        proof {
            assert(groups_vw(groups@)[i as int] == groups@[i as int]@);
            assert(index_vw(out@) =~= index_vw(out_pre).push(
                (groups@[i as int]@.id, ids_seq(groups@[i as int]@.members)),
            ));
            assert(index_vw(out@) =~= member_index_spec(groups_vw(groups@)).take(i + 1));
        }
        i = i + 1;
    }
    proof {
        assert(member_index_spec(groups_vw(groups@)).take(groups@.len() as int)
            =~= member_index_spec(groups_vw(groups@)));
    }
    out
}

/// Keep the roster entries currently inside, in roster order.
fn filter_inside(roster: &Vec<Person>) -> (r: Vec<Person>)
    ensures
        persons_vw(r@) == inside_spec(persons_vw(roster@)),
{
    let ghost pred = inside_pred();
    let mut out: Vec<Person> = Vec::new();
    let mut i: usize = 0;
    proof {
        reveal(Seq::filter);
        assert(persons_vw(roster@).take(0) =~= Seq::<PersonView>::empty());
        assert(persons_vw(out@) =~= persons_vw(roster@).take(0).filter(pred));
    }
    while i < roster.len()
        invariant
            i <= roster.len(),
            persons_vw(out@) == persons_vw(roster@).take(i as int).filter(pred),
            pred == inside_pred(),
        decreases roster.len() - i,
    {
        let ghost seen = persons_vw(roster@).take(i as int);
        let ghost next = persons_vw(roster@).take(i + 1);
        proof {
            assert(persons_vw(roster@).len() == roster@.len());
            assert(next.drop_last() =~= seen);
            assert(next.last() == roster@[i as int]@);
            assert(next =~= seen.push(roster@[i as int]@));
            seen.lemma_filter_push(roster@[i as int]@, pred);
        }
        let p = &roster[i];
        let keep = p.presence == Presence::In;
        proof {
            assert(keep == pred(p@));
        }
        if keep {
            let ghost out_pre = out@;
            out.push(p.clone());
            proof {
                assert(persons_vw(out@) =~= persons_vw(out_pre).push(p@));
                assert(persons_vw(out@) =~= next.filter(pred));
            }
        } else {
            proof {
                assert(persons_vw(out@) =~= next.filter(pred));
            }
        }
        i = i + 1;
    }
    proof {
        assert(persons_vw(roster@).take(roster@.len() as int) =~= persons_vw(roster@));
    }
    out
}

/// Keep the roster entries currently outside, in roster order.
fn filter_outside(roster: &Vec<Person>) -> (r: Vec<Person>)
    ensures
        persons_vw(r@) == outside_spec(persons_vw(roster@)),
{
    let ghost pred = outside_pred();
    let mut out: Vec<Person> = Vec::new();
    let mut i: usize = 0;
    proof {
        reveal(Seq::filter);
        assert(persons_vw(roster@).take(0) =~= Seq::<PersonView>::empty());
        assert(persons_vw(out@) =~= persons_vw(roster@).take(0).filter(pred));
    }
    while i < roster.len()
        invariant
            i <= roster.len(),
            persons_vw(out@) == persons_vw(roster@).take(i as int).filter(pred),
            pred == outside_pred(),
        decreases roster.len() - i,
    {
        let ghost seen = persons_vw(roster@).take(i as int);
        let ghost next = persons_vw(roster@).take(i + 1);
        proof {
            assert(persons_vw(roster@).len() == roster@.len());
            assert(next.drop_last() =~= seen);
            assert(next.last() == roster@[i as int]@);
            assert(next =~= seen.push(roster@[i as int]@));
            seen.lemma_filter_push(roster@[i as int]@, pred);
        }
        let p = &roster[i];
        let keep = p.presence == Presence::Out;
        proof {
            assert(keep == pred(p@));
        }
        if keep {
            let ghost out_pre = out@;
            out.push(p.clone());
            proof {
                assert(persons_vw(out@) =~= persons_vw(out_pre).push(p@));
                assert(persons_vw(out@) =~= next.filter(pred));
            }
        } else {
            proof {
                assert(persons_vw(out@) =~= next.filter(pred));
            }
        }
        i = i + 1;
    }
    proof {
        assert(persons_vw(roster@).take(roster@.len() as int) =~= persons_vw(roster@));
    }
    out
}

/// Selection markers for one partition, positionally parallel to it.
fn compute_marks(part: &Vec<Person>, sel: &Vec<i32>) -> (r: Vec<bool>)
    ensures
        r@ == marks_spec(persons_vw(part@), ids_of(sel@)),
{
    let mut out: Vec<bool> = Vec::new();
    let mut i: usize = 0;
    proof {
        assert(out@ =~= marks_spec(persons_vw(part@), ids_of(sel@)).take(0));
    }
    while i < part.len()
        invariant
            i <= part.len(),
            out@ == marks_spec(persons_vw(part@), ids_of(sel@)).take(i as int),
        decreases part.len() - i,
    {
        let marked = crate::filter::contains_id(sel, part[i].id);
        let ghost out_pre = out@;
        out.push(marked);
        proof {
            assert(persons_vw(part@)[i as int] == part@[i as int]@);
            assert(marked == marks_spec(persons_vw(part@), ids_of(sel@))[i as int]);
            assert(out@ =~= marks_spec(persons_vw(part@), ids_of(sel@)).take(i + 1));
        }
        i = i + 1;
    }
    proof {
        assert(marks_spec(persons_vw(part@), ids_of(sel@)).take(part@.len() as int) =~= marks_spec(
            persons_vw(part@),
            ids_of(sel@),
        ));
    }
    out
}

impl Controller {
    /// The full-reload algorithm: rebuild every projection from the
    /// snapshot, keeping only the transient selection. Each published
    /// cache equals the corresponding clause of [`reload_model`].
    pub fn reload(&mut self, groups_input: Vec<GroupWithMembers>, events: Vec<LocalEvent>)
        ensures
            final(self)@ == reload_model(
                groups_vw(groups_input@),
                events@,
                old(self)@.selection,
            ),
    {
        let ghost input_vw = groups_vw(groups_input@);
        let mut gs = groups_input;
        sort_groups(&mut gs);
        let gs = sort_each_members(gs);
        proof {
            assert(groups_vw(gs@) == reload_groups_spec(input_vw));
        }
        let roster = roster_of(&gs);
        let ugs = user_groups_of(&gs);
        let names = names_of(&ugs);
        let index = build_index(&gs);
        let inside = filter_inside(&roster);
        let outside = filter_outside(&roster);
        let inside_marks = compute_marks(&inside, &self.selection);
        let outside_marks = compute_marks(&outside, &self.selection);
        let picker = if ugs.len() > 0 {
            filter_persons_excluding_group(&roster, &ugs[0])
        } else {
            clone_persons(&roster)
        };
        proof {
            assert(groups_vw(ugs@).len() > 0 ==> groups_vw(ugs@)[0] == ugs@[0]@);
        }
        let log_view = aggregate_log(&events, &roster);
        self.groups = gs;
        self.roster = roster;
        self.user_groups = ugs;
        self.user_group_names = names;
        self.member_index = index;
        self.inside = inside;
        self.outside = outside;
        self.inside_marks = inside_marks;
        self.outside_marks = outside_marks;
        self.filtered_picker = picker;
        self.log_view = log_view;
        proof {
            assert(self@ =~~= reload_model(input_vw, events@, old(self)@.selection));
        }
    }
}

/// Why a mutation handler refused to produce a write.
#[derive(Clone, Copy, Debug, PartialEq, Eq, Structural)]
pub enum HandlerError {
    InvalidRank,
    InvalidMethodology,
    DuplicateMembership,
    UnknownGroup,
}

/// The member index holds the pair: some entry for the group lists the
/// person.
pub open spec fn index_has_pair(c: ControllerView, g: int, p: int) -> bool {
    exists|k: int|
        0 <= k < c.member_index.len() && (#[trigger] c.member_index[k]).0 == g
            && c.member_index[k].1.contains(p)
}

/// Member ids of the first index entry for the given group id.
pub open spec fn lookup_ids(index: Seq<(int, Seq<int>)>, g: int) -> Option<Seq<int>>
    decreases index.len(),
{
    if index.len() == 0 {
        Option::None
    } else if index[0].0 == g {
        Option::Some(index[0].1)
    } else {
        lookup_ids(index.drop_first(), g)
    }
}

/// The selection without one id.
pub open spec fn sel_without(sel: Seq<int>, id: int) -> Seq<int> {
    sel.filter(ne_pred(id))
}

/// The test an id survives a removal.
pub open spec fn ne_pred(id: int) -> spec_fn(int) -> bool {
    |x: int| x != id
}

/// Validate the codes for a new person and build the store write. The
/// person is stored with presence "outside" by default; the store assigns
/// the id and the two implied memberships.
pub fn add_person(name: String, surname: String, rank_code_arg: i32, methodology_code_arg: i32) -> (r:
    Result<DatabaseRecord, HandlerError>)
    ensures
        r is Ok <==> (0 <= rank_code_arg <= 10 && 0 <= methodology_code_arg <= 3),
        !(0 <= rank_code_arg <= 10) ==> r == Result::<DatabaseRecord, HandlerError>::Err(
            HandlerError::InvalidRank,
        ),
        (0 <= rank_code_arg <= 10 && !(0 <= methodology_code_arg <= 3)) ==> r == Result::<
            DatabaseRecord,
            HandlerError,
        >::Err(HandlerError::InvalidMethodology),
        r is Ok ==> (r->Ok_0 matches DatabaseRecord::Person(p) && p@ == (PersonView {
            id: 0,
            name: name@,
            surname: surname@,
            rank_level: p@.rank_level,
            methodology: p@.methodology,
            presence: Presence::Out,
        }) && crate::types::rank_code(p@.rank_level) == rank_code_arg
            && crate::types::methodology_code(p@.methodology) == methodology_code_arg),
{
    let rank = match crate::types::RankLevel::try_from(rank_code_arg) {
        Ok(rl) => rl,
        Err(_) => {
            return Err(HandlerError::InvalidRank);
        },
    };
    let methodology = match crate::types::Methodology::try_from(methodology_code_arg) {
        Ok(m) => m,
        Err(_) => {
            return Err(HandlerError::InvalidMethodology);
        },
    };
    Ok(
        DatabaseRecord::Person(
            Person {
                id: 0,
                name: name,
                surname: surname,
                rank_level: rank,
                methodology: methodology,
                presence: Presence::Out,
            },
        ),
    )
}

/// Build the store write for a new user group; the store assigns the id.
pub fn add_group(name: String) -> (r: DatabaseRecord)
    ensures
        (r matches DatabaseRecord::Group(g) && g@.id == 0 && g@.name == name@),
{
    DatabaseRecord::Group(Group { id: 0, name })
}

impl Controller {
    /// Duplicate check for a membership pair against the member index.
    pub fn relation_exists(&self, group_id: i32, person_id: i32) -> (r: bool)
        ensures
            r == index_has_pair(self@, group_id as int, person_id as int),
    {
        let mut k: usize = 0;
        while k < self.member_index.len()
            invariant
                k <= self.member_index.len(),
                forall|k2: int|
                    0 <= k2 < k ==> !((#[trigger] index_vw(self.member_index@)[k2]).0
                        == group_id as int && index_vw(self.member_index@)[k2].1.contains(
                        person_id as int,
                    )),
            decreases self.member_index.len() - k,
        {
            let e = &self.member_index[k];
            proof {
                assert(index_vw(self.member_index@)[k as int] == (
                    e.0 as int,
                    ids_of(e.1@),
                ));
            }
            if e.0 == group_id {
                if crate::filter::contains_id(&e.1, person_id) {
                    proof {
                        assert((#[trigger] self@.member_index[k as int]).0 == group_id as int
                            && self@.member_index[k as int].1.contains(person_id as int));
                    }
                    return true;
                }
            }
            k = k + 1;
        }
        proof {
            if index_has_pair(self@, group_id as int, person_id as int) {
                let k2 = choose|k2: int|
                    0 <= k2 < self@.member_index.len() && (#[trigger] self@.member_index[k2]).0
                        == group_id as int && self@.member_index[k2].1.contains(person_id as int);
                assert(index_vw(self.member_index@)[k2].0 == group_id as int);
            }
        }
        false
    }

    /// Validate a membership insert: a pair already present in the index
    /// is rejected as a duplicate without producing a write.
    pub fn add_membership(&self, group_id: i32, person_id: i32) -> (r: Result<
        DatabaseRecord,
        HandlerError,
    >)
        ensures
            r is Err <==> index_has_pair(self@, group_id as int, person_id as int),
            r is Err ==> r->Err_0 == HandlerError::DuplicateMembership,
            r is Ok ==> (r->Ok_0 matches DatabaseRecord::GroupMembers(g, p) && g == group_id && p
                == person_id),
    {
        if self.relation_exists(group_id, person_id) {
            Err(HandlerError::DuplicateMembership)
        } else {
            Ok(DatabaseRecord::GroupMembers(group_id, person_id))
        }
    }

    /// Flip one id in the transient selection set and republish the
    /// selection markers; persisted state and every other cache stay
    /// untouched.
    pub fn toggle_selection(&mut self, person_id: i32)
        ensures
            old(self)@.selection.contains(person_id as int) ==> final(self)@.selection
                == sel_without(old(self)@.selection, person_id as int),
            !old(self)@.selection.contains(person_id as int) ==> final(self)@.selection == old(
                self,
            )@.selection.push(person_id as int),
            final(self)@.inside_marks == marks_spec(old(self)@.inside, final(self)@.selection),
            final(self)@.outside_marks == marks_spec(old(self)@.outside, final(self)@.selection),
            final(self)@.groups == old(self)@.groups,
            final(self)@.roster == old(self)@.roster,
            final(self)@.user_groups == old(self)@.user_groups,
            final(self)@.user_group_names == old(self)@.user_group_names,
            final(self)@.member_index == old(self)@.member_index,
            final(self)@.inside == old(self)@.inside,
            final(self)@.outside == old(self)@.outside,
            final(self)@.filtered_picker == old(self)@.filtered_picker,
            final(self)@.log_view == old(self)@.log_view,
    {
        let has = crate::filter::contains_id(&self.selection, person_id);
        if has {
            let new_sel = remove_id(&self.selection, person_id);
            self.selection = new_sel;
        } else {
            let ghost pre = self.selection@;
            self.selection.push(person_id);
            proof {
                assert(ids_of(self.selection@) =~= ids_of(pre).push(person_id as int));
            }
        }
        self.inside_marks = compute_marks(&self.inside, &self.selection);
        self.outside_marks = compute_marks(&self.outside, &self.selection);
    }

    /// Replace the whole transient selection with the member-id set of
    /// the given group, as the index lists it; an unknown group id leaves
    /// everything unchanged.
    pub fn select_by_group(&mut self, group_id: i32) -> (r: Result<(), HandlerError>)
        ensures
            r is Ok <==> lookup_ids(old(self)@.member_index, group_id as int) is Some,
            r is Err ==> r->Err_0 == HandlerError::UnknownGroup && final(self)@ == old(self)@,
            r is Ok ==> final(self)@.selection == lookup_ids(
                old(self)@.member_index,
                group_id as int,
            )->0,
            r is Ok ==> final(self)@.inside_marks == marks_spec(
                old(self)@.inside,
                final(self)@.selection,
            ) && final(self)@.outside_marks == marks_spec(
                old(self)@.outside,
                final(self)@.selection,
            ),
            final(self)@.groups == old(self)@.groups,
            final(self)@.roster == old(self)@.roster,
            final(self)@.user_groups == old(self)@.user_groups,
            final(self)@.user_group_names == old(self)@.user_group_names,
            final(self)@.member_index == old(self)@.member_index,
            final(self)@.inside == old(self)@.inside,
            final(self)@.outside == old(self)@.outside,
            final(self)@.filtered_picker == old(self)@.filtered_picker,
            final(self)@.log_view == old(self)@.log_view,
    {
        let ghost iv = index_vw(self.member_index@);
        let mut k: usize = 0;
        proof {
            assert(iv.skip(0) =~= iv);
        }
        loop
            invariant
                k <= self.member_index@.len(),
                iv == index_vw(self.member_index@),
                self == old(self),
                lookup_ids(iv, group_id as int) == lookup_ids(iv.skip(k as int), group_id as int),
            decreases self.member_index@.len() - k,
        {
            if k == self.member_index.len() {
                proof {
                    assert(iv.skip(k as int).len() == 0);
                }
                return Err(HandlerError::UnknownGroup);
            }
            let e = &self.member_index[k];
            proof {
                assert(iv.skip(k as int)[0] == iv[k as int]);
                assert(iv[k as int] == (e.0 as int, ids_of(e.1@)));
            }
            if e.0 == group_id {
                let ids = clone_ids(&e.1);
                self.selection = ids;
                self.inside_marks = compute_marks(&self.inside, &self.selection);
                self.outside_marks = compute_marks(&self.outside, &self.selection);
                return Ok(());
            }
            proof {
                assert(iv.skip(k as int).drop_first() =~= iv.skip(k as int + 1));
            }
            k = k + 1;
        }
    }

    /// Persist a presence change for every selected id: one store write
    /// per id, in selection order, each updating the person's flag and
    /// appending one log row as a single logical write. The selection is
    /// cleared afterwards and the markers republished.
    pub fn bulk_set_presence_at(&mut self, dir: Presence, now: UtcStamp) -> (w: Vec<
        DatabaseRecord,
    >)
        ensures
            w@.len() == old(self)@.selection.len(),
            forall|j: int|
                0 <= j < old(self)@.selection.len() ==> ((#[trigger] w@[j])
                    matches DatabaseRecord::Log(l) && l.subject_id as int == old(
                    self,
                )@.selection[j] && l.presence == dir && l.time == now && l.id == 0),
            final(self)@.selection == Seq::<int>::empty(),
            final(self)@.inside_marks == marks_spec(old(self)@.inside, Seq::empty()),
            final(self)@.outside_marks == marks_spec(old(self)@.outside, Seq::empty()),
            final(self)@.groups == old(self)@.groups,
            final(self)@.roster == old(self)@.roster,
            final(self)@.user_groups == old(self)@.user_groups,
            final(self)@.user_group_names == old(self)@.user_group_names,
            final(self)@.member_index == old(self)@.member_index,
            final(self)@.inside == old(self)@.inside,
            final(self)@.outside == old(self)@.outside,
            final(self)@.filtered_picker == old(self)@.filtered_picker,
            final(self)@.log_view == old(self)@.log_view,
    {
        let mut w: Vec<DatabaseRecord> = Vec::new();
        let mut i: usize = 0;
        while i < self.selection.len()
            invariant
                i <= self.selection@.len(),
                self == old(self),
                w@.len() == i,
                forall|j: int|
                    0 <= j < i ==> ((#[trigger] w@[j]) matches DatabaseRecord::Log(l)
                        && l.subject_id as int == ids_of(old(self).selection@)[j] && l.presence
                        == dir && l.time == now && l.id == 0),
            decreases self.selection@.len() - i,
        {
            let id = self.selection[i];
            w.push(
                DatabaseRecord::Log(
                    Log { id: 0, subject_id: id, presence: dir, time: now },
                ),
            );
            proof {
                assert(ids_of(self.selection@)[i as int] == id as int);
            }
            i = i + 1;
        }
        self.selection = Vec::new();
        self.inside_marks = compute_marks(&self.inside, &self.selection);
        self.outside_marks = compute_marks(&self.outside, &self.selection);
        proof {
            assert(ids_of(self.selection@) =~= Seq::<int>::empty());
        }
        w
    }

    /// Bulk check-in at the current time: every selected person is marked
    /// inside and audit-logged; the selection is cleared.
    pub fn bulk_check_in(&mut self) -> (w: Vec<DatabaseRecord>)
        ensures
            w@.len() == old(self)@.selection.len(),
            forall|j: int|
                0 <= j < old(self)@.selection.len() ==> ((#[trigger] w@[j])
                    matches DatabaseRecord::Log(l) && l.subject_id as int == old(
                    self,
                )@.selection[j] && l.presence == Presence::In && l.id == 0),
            forall|j: int, j2: int|
                0 <= j < old(self)@.selection.len() && 0 <= j2 < old(self)@.selection.len() ==> ((
                #[trigger] w@[j]) matches DatabaseRecord::Log(l) && (#[trigger] w@[j2])
                    matches DatabaseRecord::Log(l2) && l.time == l2.time
                    && crate::types::utc_stamp_valid(l.time)),
            final(self)@.selection == Seq::<int>::empty(),
            final(self)@.inside_marks == marks_spec(old(self)@.inside, Seq::empty()),
            final(self)@.outside_marks == marks_spec(old(self)@.outside, Seq::empty()),
            final(self)@.groups == old(self)@.groups,
            final(self)@.roster == old(self)@.roster,
            final(self)@.user_groups == old(self)@.user_groups,
            final(self)@.user_group_names == old(self)@.user_group_names,
            final(self)@.member_index == old(self)@.member_index,
            final(self)@.inside == old(self)@.inside,
            final(self)@.outside == old(self)@.outside,
            final(self)@.filtered_picker == old(self)@.filtered_picker,
            final(self)@.log_view == old(self)@.log_view,
    {
        let now = crate::clock::now_utc();
        self.bulk_set_presence_at(Presence::In, now)
    }

    /// Bulk check-out at the current time: every selected person is
    /// marked outside and audit-logged; the selection is cleared.
    pub fn bulk_check_out(&mut self) -> (w: Vec<DatabaseRecord>)
        ensures
            w@.len() == old(self)@.selection.len(),
            forall|j: int|
                0 <= j < old(self)@.selection.len() ==> ((#[trigger] w@[j])
                    matches DatabaseRecord::Log(l) && l.subject_id as int == old(
                    self,
                )@.selection[j] && l.presence == Presence::Out && l.id == 0),
            final(self)@.selection == Seq::<int>::empty(),
            final(self)@.inside_marks == marks_spec(old(self)@.inside, Seq::empty()),
            final(self)@.outside_marks == marks_spec(old(self)@.outside, Seq::empty()),
            final(self)@.groups == old(self)@.groups,
            final(self)@.roster == old(self)@.roster,
            final(self)@.user_groups == old(self)@.user_groups,
            final(self)@.user_group_names == old(self)@.user_group_names,
            final(self)@.member_index == old(self)@.member_index,
            final(self)@.inside == old(self)@.inside,
            final(self)@.outside == old(self)@.outside,
            final(self)@.filtered_picker == old(self)@.filtered_picker,
            final(self)@.log_view == old(self)@.log_view,
    {
        let now = crate::clock::now_utc();
        self.bulk_set_presence_at(Presence::Out, now)
    }

    /// Recompute the picker list for a newly selected group context; an
    /// index outside the user-group list falls back to the whole roster.
    pub fn group_selection_changed(&mut self, group_index: i32)
        ensures
            (0 <= group_index && (group_index as int) < old(self)@.user_groups.len())
                ==> final(self)@.filtered_picker == membership_filter(
                old(self)@.roster,
                old(self)@.user_groups[group_index as int],
            ),
            !(0 <= group_index && (group_index as int) < old(self)@.user_groups.len())
                ==> final(self)@.filtered_picker == old(self)@.roster,
            final(self)@.groups == old(self)@.groups,
            final(self)@.roster == old(self)@.roster,
            final(self)@.user_groups == old(self)@.user_groups,
            final(self)@.user_group_names == old(self)@.user_group_names,
            final(self)@.member_index == old(self)@.member_index,
            final(self)@.inside == old(self)@.inside,
            final(self)@.outside == old(self)@.outside,
            final(self)@.inside_marks == old(self)@.inside_marks,
            final(self)@.outside_marks == old(self)@.outside_marks,
            final(self)@.selection == old(self)@.selection,
            final(self)@.log_view == old(self)@.log_view,
    {
        if group_index >= 0 && (group_index as usize) < self.user_groups.len() {
            let g = &self.user_groups[group_index as usize];
            proof {
                assert(groups_vw(self.user_groups@)[group_index as int] == self.user_groups@[
                    group_index as int
                ]@);
            }
            let picker = filter_persons_excluding_group(&self.roster, g);
            self.filtered_picker = picker;
        } else {
            let picker = clone_persons(&self.roster);
            self.filtered_picker = picker;
        }
    }
}

/// Remove every occurrence of one id from a selection vector.
fn remove_id(sel: &Vec<i32>, id: i32) -> (r: Vec<i32>)
    ensures
        ids_of(r@) == sel_without(ids_of(sel@), id as int),
{
    let ghost m = ids_of(sel@);
    let ghost pred = ne_pred(id as int);
    let mut out: Vec<i32> = Vec::new();
    let mut i: usize = 0;
    proof {
        reveal(Seq::filter);
        assert(m.take(0) =~= Seq::<int>::empty());
        assert(ids_of(out@) =~= m.take(0).filter(pred));
    }
    while i < sel.len()
        invariant
            i <= sel.len(),
            m == ids_of(sel@),
            pred == ne_pred(id as int),
            ids_of(out@) == m.take(i as int).filter(pred),
        decreases sel.len() - i,
    {
        let ghost seen = m.take(i as int);
        let ghost next = m.take(i + 1);
        proof {
            assert(m.len() == sel@.len());
            assert(next.drop_last() =~= seen);
            assert(next.last() == m[i as int]);
            assert(next =~= seen.push(m[i as int]));
            seen.lemma_filter_push(m[i as int], pred);
        }
        let v = sel[i];
        proof {
            assert(m[i as int] == v as int);
        }
        if v != id {
            let ghost out_pre = out@;
            out.push(v);
            proof {
                assert(ids_of(out@) =~= ids_of(out_pre).push(v as int));
                assert(ids_of(out@) =~= next.filter(pred));
            }
        } else {
            proof {
                assert(ids_of(out@) =~= next.filter(pred));
            }
        }
        i = i + 1;
    }
    proof {
        assert(m.take(sel@.len() as int) =~= m);
    }
    out
}

/// Copy a selection vector.
fn clone_ids(v: &Vec<i32>) -> (r: Vec<i32>)
    ensures
        r@ == v@,
{
    let mut out: Vec<i32> = Vec::new();
    let mut i: usize = 0;
    while i < v.len()
        invariant
            i <= v.len(),
            out@ == v@.take(i as int),
        decreases v.len() - i,
    {
        out.push(v[i]);
        proof {
            assert(out@ =~= v@.take(i + 1));
        }
        i = i + 1;
    }
    proof {
        assert(v@.take(v@.len() as int) =~= v@);
    }
    out
}

/// Reload is idempotent: a second reload from the same snapshot, with the
/// selection the first one preserved, publishes the same projections.
pub proof fn lemma_reload_idempotent(
    input: Seq<GroupWithMembersView>,
    events: Seq<LocalEvent>,
    sel: Seq<int>,
)
    ensures
        reload_model(input, events, reload_model(input, events, sel).selection) == reload_model(
            input,
            events,
            sel,
        ),
{
}

/// Every roster entry stands in exactly one presence partition: the two
/// partitions carry only matching flags, and together they hold exactly
/// the roster's occurrences.
pub proof fn lemma_presence_partition(roster: Seq<PersonView>)
    ensures
        forall|i: int| 0 <= i < inside_spec(roster).len() ==> (#[trigger] inside_spec(
            roster,
        )[i]).presence == Presence::In,
        forall|i: int| 0 <= i < outside_spec(roster).len() ==> (#[trigger] outside_spec(
            roster,
        )[i]).presence == Presence::Out,
        inside_spec(roster).to_multiset().add(outside_spec(roster).to_multiset())
            == roster.to_multiset(),
    decreases roster.len(),
{
    broadcast use vstd::seq_lib::group_to_multiset_ensures;
    broadcast use vstd::seq_lib::group_filter_ensures;

    if roster.len() == 0 {
        reveal(Seq::filter);
        assert(inside_spec(roster).to_multiset().add(outside_spec(roster).to_multiset())
            =~= roster.to_multiset());
    } else {
        let t = roster.drop_last();
        let x = roster.last();
        lemma_presence_partition(t);
        assert(roster =~= t.push(x));
        t.lemma_filter_push(x, inside_pred());
        t.lemma_filter_push(x, outside_pred());
        if x.presence == Presence::In {
            assert(inside_spec(roster).to_multiset() =~= inside_spec(t).to_multiset().insert(x));
            assert(outside_spec(roster) == outside_spec(t));
            assert(inside_spec(roster).to_multiset().add(outside_spec(roster).to_multiset())
                =~= roster.to_multiset());
        } else {
            assert(x.presence == Presence::Out);
            assert(outside_spec(roster).to_multiset() =~= outside_spec(t).to_multiset().insert(x));
            assert(inside_spec(roster) == inside_spec(t));
            assert(inside_spec(roster).to_multiset().add(outside_spec(roster).to_multiset())
                =~= roster.to_multiset());
        }
    }
}

/// A found group is an element of the searched sequence.
proof fn lemma_lookup_group_contained(groups: Seq<GroupWithMembersView>, id: int)
    requires
        lookup_group(groups, id) is Some,
    ensures
        exists|k: int| 0 <= k < groups.len() && groups[k] == lookup_group(groups, id)->0,
    decreases groups.len(),
{
    if groups.len() > 0 && groups[0].id != id {
        lemma_lookup_group_contained(groups.drop_first(), id);
        let k = choose|k: int|
            0 <= k < groups.drop_first().len() && groups.drop_first()[k] == lookup_group(
                groups,
                id,
            )->0;
        assert(groups[k + 1] == lookup_group(groups, id)->0);
    }
}

/// Reload publishes everything in the promised order: groups ascending by
/// id, every member list sorted by the ordering policy, and the roster
/// with them.
pub proof fn lemma_reload_lists_sorted(input: Seq<GroupWithMembersView>)
    ensures
        vstd::relations::sorted_by(reload_groups_spec(input), group_order()),
        forall|k: int| 0 <= k < reload_groups_spec(input).len()
            ==> vstd::relations::sorted_by(
            (#[trigger] reload_groups_spec(input)[k]).members,
            person_order(),
        ),
        vstd::relations::sorted_by(roster_spec(reload_groups_spec(input)), person_order()),
{
    crate::order::lemma_group_order_total_preorder();
    crate::order::lemma_person_order_total_preorder();
    let base = sort_by_spec(input, group_order());
    crate::order::lemma_sort_by_spec_sorted(input, group_order());
    let groups = reload_groups_spec(input);
    assert forall|i: int, j: int| 0 <= i < j < groups.len() implies group_order()(
        groups[i],
        groups[j],
    ) by {
        assert(group_order()(base[i], base[j]));
    }
    assert forall|k: int| 0 <= k < groups.len() implies vstd::relations::sorted_by(
        (#[trigger] groups[k]).members,
        person_order(),
    ) by {
        assert(groups[k] == sorted_members_of(base[k]));
        crate::order::lemma_sort_by_spec_sorted(base[k].members, person_order());
    }
    if lookup_group(groups, ALL_PERSONS_GROUP_ID as int) is Some {
        lemma_lookup_group_contained(groups, ALL_PERSONS_GROUP_ID as int);
    }
}

/// Reloading from an empty snapshot publishes empty projections.
proof fn lemma_reload_model_empty()
    ensures
        (reload_model(Seq::empty(), Seq::empty(), Seq::empty()) =~~= ControllerView {
            groups: Seq::empty(),
            roster: Seq::empty(),
            user_groups: Seq::empty(),
            user_group_names: Seq::empty(),
            member_index: Seq::empty(),
            inside: Seq::empty(),
            outside: Seq::empty(),
            inside_marks: Seq::empty(),
            outside_marks: Seq::empty(),
            selection: Seq::empty(),
            filtered_picker: Seq::empty(),
            log_view: Seq::empty(),
        }),
{
    reveal(Seq::filter);
    assert(sort_by_spec(Seq::<GroupWithMembersView>::empty(), group_order()) =~= Seq::<
        GroupWithMembersView,
    >::empty());
    assert(reload_groups_spec(Seq::empty()) =~= Seq::<GroupWithMembersView>::empty());
}

} // verus!
