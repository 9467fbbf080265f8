//! Core data model: persons, groups, ranks, methodologies, presence and
//! the record values that describe pending store writes.

use vstd::prelude::*;

verus! {

/// Rank held by a person. `RankNone` stands for "no rank"; the remaining
/// tiers come in gendered pairs up to the fourth tier.
#[derive(Clone, Copy, Debug, PartialEq, Eq, Structural)]
pub enum RankLevel {
    RankNone,
    RankFirstM,
    RankFirstF,
    RankSecondM,
    RankSecondF,
    RankThirdM,
    RankThirdF,
    RankFourthM,
    RankFourthF,
    RankFifth,
    RankSixth,
}

/// Integer code a rank is stored under.
pub open spec fn rank_code(r: RankLevel) -> int {
    match r {
        RankLevel::RankNone => 0,
        RankLevel::RankFirstM => 1,
        RankLevel::RankFirstF => 2,
        RankLevel::RankSecondM => 3,
        RankLevel::RankSecondF => 4,
        RankLevel::RankThirdM => 5,
        RankLevel::RankThirdF => 6,
        RankLevel::RankFourthM => 7,
        RankLevel::RankFourthF => 8,
        RankLevel::RankFifth => 9,
        RankLevel::RankSixth => 10,
    }
}

impl RankLevel {
    /// Integer code this rank is stored under.
    pub fn code(&self) -> (r: i32)
        ensures
            r == rank_code(*self),
    {
        match self {
            RankLevel::RankNone => 0,
            RankLevel::RankFirstM => 1,
            RankLevel::RankFirstF => 2,
            RankLevel::RankSecondM => 3,
            RankLevel::RankSecondF => 4,
            RankLevel::RankThirdM => 5,
            RankLevel::RankThirdF => 6,
            RankLevel::RankFourthM => 7,
            RankLevel::RankFourthF => 8,
            RankLevel::RankFifth => 9,
            RankLevel::RankSixth => 10,
        }
    }

    /// Decode a stored rank code; every code outside `0 ..= 10` is rejected.
    pub fn try_from(value: i32) -> (r: Result<RankLevel, &'static str>)
        ensures
            r is Ok <==> 0 <= value <= 10,
            r is Ok ==> rank_code(r->Ok_0) == value,
    {
        match value {
            0 => Ok(RankLevel::RankNone),
            1 => Ok(RankLevel::RankFirstM),
            2 => Ok(RankLevel::RankFirstF),
            3 => Ok(RankLevel::RankSecondM),
            4 => Ok(RankLevel::RankSecondF),
            5 => Ok(RankLevel::RankThirdM),
            6 => Ok(RankLevel::RankThirdF),
            7 => Ok(RankLevel::RankFourthM),
            8 => Ok(RankLevel::RankFourthF),
            9 => Ok(RankLevel::RankFifth),
            10 => Ok(RankLevel::RankSixth),
            _ => Err("invalid RankLevel"),
        }
    }
}

/// Display label of a rank.
pub open spec fn rank_label(r: RankLevel) -> Seq<char> {
    match r {
        RankLevel::RankNone => ""@,
        RankLevel::RankFirstM => "RANK_FIRST_MALE"@,
        RankLevel::RankFirstF => "RANK_FIRST_FEMALE"@,
        RankLevel::RankSecondM => "RANK_SECOND_MALE"@,
        RankLevel::RankSecondF => "RANK_SECOND_FEMALE"@,
        RankLevel::RankThirdM => "RANK_THIRD_MALE"@,
        RankLevel::RankThirdF => "RANK_THIRD_FEMALE"@,
        RankLevel::RankFourthM => "RANK_FOURTH_MALE"@,
        RankLevel::RankFourthF => "RANK_FOURTH_FEMALE"@,
        RankLevel::RankFifth => "RANK_FIFTH"@,
        RankLevel::RankSixth => "RANK_SIXTH"@,
    }
}

impl RankLevel {
    /// Translation key under which this rank is displayed.
    pub fn as_str(&self) -> (r: &'static str)
        ensures
            r@ == rank_label(*self),
    {
        match self {
            RankLevel::RankNone => "",
            RankLevel::RankFirstM => "RANK_FIRST_MALE",
            RankLevel::RankFirstF => "RANK_FIRST_FEMALE",
            RankLevel::RankSecondM => "RANK_SECOND_MALE",
            RankLevel::RankSecondF => "RANK_SECOND_FEMALE",
            RankLevel::RankThirdM => "RANK_THIRD_MALE",
            RankLevel::RankThirdF => "RANK_THIRD_FEMALE",
            RankLevel::RankFourthM => "RANK_FOURTH_MALE",
            RankLevel::RankFourthF => "RANK_FOURTH_FEMALE",
            RankLevel::RankFifth => "RANK_FIFTH",
            RankLevel::RankSixth => "RANK_SIXTH",
        }
    }
}

/// One of the four fixed age-section categories; the declaration order is
/// the category order used by the ordering policy and by the reserved
/// methodology groups.
#[derive(Clone, Copy, Debug, PartialEq, Eq, Structural)]
pub enum Methodology {
    Cub,
    Scout,
    VentureScout,
    Rover,
}

/// Integer code a methodology is stored under; also its position in the
/// fixed category order.
pub open spec fn methodology_code(m: Methodology) -> int {
    match m {
        Methodology::Cub => 0,
        Methodology::Scout => 1,
        Methodology::VentureScout => 2,
        Methodology::Rover => 3,
    }
}

impl Methodology {
    /// Integer code this methodology is stored under.
    pub fn code(&self) -> (r: i32)
        ensures
            r == methodology_code(*self),
    {
        match self {
            Methodology::Cub => 0,
            Methodology::Scout => 1,
            Methodology::VentureScout => 2,
            Methodology::Rover => 3,
        }
    }

    /// Decode a stored methodology code; every code outside `0 ..= 3` is
    /// rejected.
    pub fn try_from(value: i32) -> (r: Result<Methodology, &'static str>)
        ensures
            r is Ok <==> 0 <= value <= 3,
            r is Ok ==> methodology_code(r->Ok_0) == value,
    {
        match value {
            0 => Ok(Methodology::Cub),
            1 => Ok(Methodology::Scout),
            2 => Ok(Methodology::VentureScout),
            3 => Ok(Methodology::Rover),
            _ => Err("invalid Methodology"),
        }
    }
}

/// A person's current physical presence.
#[derive(Clone, Copy, Debug, PartialEq, Eq, Structural)]
pub enum Presence {
    Out,
    In,
}

/// Integer code a presence flag is stored under.
pub open spec fn presence_code(p: Presence) -> int {
    match p {
        Presence::Out => 0,
        Presence::In => 1,
    }
}

impl Presence {
    /// Integer code this presence flag is stored under.
    pub fn code(&self) -> (r: i32)
        ensures
            r == presence_code(*self),
    {
        match self {
            Presence::Out => 0,
            Presence::In => 1,
        }
    }

    /// Decode a stored presence flag; every code other than 0 or 1 is
    /// rejected.
    pub fn try_from(value: i32) -> (r: Result<Presence, &'static str>)
        ensures
            r is Ok <==> value == 0 || value == 1,
            r is Ok ==> presence_code(r->Ok_0) == value,
    {
        match value {
            0 => Ok(Presence::Out),
            1 => Ok(Presence::In),
            _ => Err("invalid Presence"),
        }
    }
}

/// A point in time in UTC, as the store hands it out: calendar date plus
/// time of day, second precision.
#[derive(Clone, Copy, Debug, PartialEq, Eq, Structural)]
pub struct UtcStamp {
    pub year: i32,
    pub month: u8,
    pub day: u8,
    pub hour: u8,
    pub minute: u8,
    pub second: u8,
}

/// A point in time in the machine's local zone, produced from a [`UtcStamp`]
/// at aggregation time.
#[derive(Clone, Copy, Debug, PartialEq, Eq, Structural)]
pub struct LocalStamp {
    pub year: i32,
    pub month: u8,
    pub day: u8,
    pub hour: u8,
    pub minute: u8,
    pub second: u8,
}

/// The calendar fields of a UTC stamp lie in their usual ranges.
pub open spec fn utc_stamp_valid(s: UtcStamp) -> bool {
    &&& 1 <= s.month <= 12
    &&& 1 <= s.day <= 31
    &&& s.hour < 24
    &&& s.minute < 60
    &&& s.second < 60
}

/// The calendar fields lie in their usual ranges.
pub open spec fn local_stamp_valid(s: LocalStamp) -> bool {
    &&& 1 <= s.month <= 12
    &&& 1 <= s.day <= 31
    &&& s.hour < 24
    &&& s.minute < 60
    &&& s.second < 60
}

/// A person as the store holds it; `id` is assigned by the store.
#[derive(Debug)]
pub struct Person {
    pub id: i32,
    pub name: String,
    pub surname: String,
    pub rank_level: RankLevel,
    pub methodology: Methodology,
    pub presence: Presence,
}

/// Mathematical value of a [`Person`].
#[verifier::ext_equal]
pub struct PersonView {
    pub id: int,
    pub name: Seq<char>,
    pub surname: Seq<char>,
    pub rank_level: RankLevel,
    pub methodology: Methodology,
    pub presence: Presence,
}

impl View for Person {
    type V = PersonView;

    open spec fn view(&self) -> PersonView {
        PersonView {
            id: self.id as int,
            name: self.name@,
            surname: self.surname@,
            rank_level: self.rank_level,
            methodology: self.methodology,
            presence: self.presence,
        }
    }
}

/// Value of a sequence of persons.
pub open spec fn persons_vw(s: Seq<Person>) -> Seq<PersonView> {
    s.map_values(|p: Person| p@)
}

impl Clone for Person {
    /// Cloning preserves the person's value.
    fn clone(&self) -> (r: Self)
        ensures
            r@ == self@,
    {
        Person {
            id: self.id,
            name: self.name.clone(),
            surname: self.surname.clone(),
            rank_level: self.rank_level,
            methodology: self.methodology,
            presence: self.presence,
        }
    }
}

/// Element-wise clones of a person sequence have the same value.
pub proof fn lemma_cloned_persons(a: Seq<Person>, b: Seq<Person>)
    requires
        a.len() == b.len(),
        forall|i: int| #![all_triggers] 0 <= i < a.len() ==> vstd::pervasive::cloned::<Person>(
            a[i],
            b[i],
        ),
    ensures
        persons_vw(a) == persons_vw(b),
{
    assert forall|i: int| 0 <= i < a.len() implies #[trigger] persons_vw(b)[i] == persons_vw(a)[i] by {
        assert(vstd::pervasive::cloned::<Person>(a[i], b[i]));
    }
    assert(persons_vw(a) =~= persons_vw(b));
}

/// Clone a person vector, preserving its value.
pub fn clone_persons(v: &Vec<Person>) -> (r: Vec<Person>)
    ensures
        persons_vw(r@) == persons_vw(v@),
{
    let r = v.clone();
    proof {
        lemma_cloned_persons(v@, r@);
    }
    r
}

/// A group as the store holds it; `id` is assigned by the store.
#[derive(Debug)]
pub struct Group {
    pub id: i32,
    pub name: String,
}

/// Mathematical value of a [`Group`].
#[verifier::ext_equal]
pub struct GroupView {
    pub id: int,
    pub name: Seq<char>,
}

impl View for Group {
    type V = GroupView;

    open spec fn view(&self) -> GroupView {
        GroupView { id: self.id as int, name: self.name@ }
    }
}

impl Clone for Group {
    /// Cloning preserves the group's value.
    fn clone(&self) -> (r: Self)
        ensures
            r@ == self@,
    {
        Group { id: self.id, name: self.name.clone() }
    }
}

/// A group together with its resolved member list, as one store read
/// returns it.
#[derive(Debug)]
pub struct GroupWithMembers {
    pub id: i32,
    pub name: String,
    pub members: Vec<Person>,
}

/// Mathematical value of a [`GroupWithMembers`].
#[verifier::ext_equal]
pub struct GroupWithMembersView {
    pub id: int,
    pub name: Seq<char>,
    pub members: Seq<PersonView>,
}

impl View for GroupWithMembers {
    type V = GroupWithMembersView;

    open spec fn view(&self) -> GroupWithMembersView {
        GroupWithMembersView {
            id: self.id as int,
            name: self.name@,
            members: persons_vw(self.members@),
        }
    }
}

/// Value of a sequence of groups with members.
pub open spec fn groups_vw(s: Seq<GroupWithMembers>) -> Seq<GroupWithMembersView> {
    s.map_values(|g: GroupWithMembers| g@)
}

impl Clone for GroupWithMembers {
    /// Cloning preserves the group's value, member list included.
    fn clone(&self) -> (r: Self)
        ensures
            r@ == self@,
    {
        let members = clone_persons(&self.members);
        GroupWithMembers { id: self.id, name: self.name.clone(), members }
    }
}

/// One presence-change entry of the append-only activity log.
#[derive(Clone, Copy, Debug, PartialEq, Eq, Structural)]
pub struct Log {
    pub id: i32,
    pub subject_id: i32,
    pub presence: Presence,
    pub time: UtcStamp,
}

/// A presence-change event already moved to the local zone, as the log
/// aggregator consumes it.
#[derive(Clone, Copy, Debug, PartialEq, Eq, Structural)]
pub struct LocalEvent {
    pub subject_id: i32,
    pub presence: Presence,
    pub stamp: LocalStamp,
}

/// A pending store write, handed to the storage boundary to apply.
#[derive(Debug)]
pub enum DatabaseRecord {
    Person(Person),
    Group(Group),
    GroupMembers(i32, i32),
    Log(Log),
}

} // verus!
