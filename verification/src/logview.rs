//! Log aggregator: one forward pass over a chronologically ordered event
//! sequence, grouping entries into Day groups of Minute groups while
//! preserving input order. Events whose subject is not on the roster are
//! dropped; empty groups are never emitted.

use vstd::prelude::*;

use crate::types::{persons_vw, LocalEvent, LocalStamp, Person, PersonView, Presence};

verus! {

/// One display entry of the aggregated log.
#[derive(Debug)]
pub struct LogEntry {
    pub subject_id: i32,
    pub name: String,
    pub surname: String,
    pub presence: Presence,
    pub stamp: LocalStamp,
}

/// Mathematical value of a [`LogEntry`].
#[verifier::ext_equal]
pub struct LogEntryView {
    pub subject_id: int,
    pub name: Seq<char>,
    pub surname: Seq<char>,
    pub presence: Presence,
    pub stamp: LocalStamp,
}

impl View for LogEntry {
    type V = LogEntryView;

    open spec fn view(&self) -> LogEntryView {
        LogEntryView {
            subject_id: self.subject_id as int,
            name: self.name@,
            surname: self.surname@,
            presence: self.presence,
            stamp: self.stamp,
        }
    }
}

/// All entries of one minute, in input order.
#[derive(Debug)]
pub struct MinuteGroup {
    pub hour: u8,
    pub minute: u8,
    pub entries: Vec<LogEntry>,
}

/// Mathematical value of a [`MinuteGroup`].
#[verifier::ext_equal]
pub struct MinuteGroupView {
    pub hour: int,
    pub minute: int,
    pub entries: Seq<LogEntryView>,
}

impl View for MinuteGroup {
    type V = MinuteGroupView;

    open spec fn view(&self) -> MinuteGroupView {
        MinuteGroupView {
            hour: self.hour as int,
            minute: self.minute as int,
            entries: self.entries@.map_values(|e: LogEntry| e@),
        }
    }
}

/// All minute groups of one local calendar day, in input order.
#[derive(Debug)]
pub struct DayGroup {
    pub year: i32,
    pub month: u8,
    pub day: u8,
    pub minutes: Vec<MinuteGroup>,
}

/// Mathematical value of a [`DayGroup`].
#[verifier::ext_equal]
pub struct DayGroupView {
    pub year: int,
    pub month: int,
    pub day: int,
    pub minutes: Seq<MinuteGroupView>,
}

impl View for DayGroup {
    type V = DayGroupView;

    open spec fn view(&self) -> DayGroupView {
        DayGroupView {
            year: self.year as int,
            month: self.month as int,
            day: self.day as int,
            minutes: self.minutes@.map_values(|m: MinuteGroup| m@),
        }
    }
}

/// Value of a sequence of day groups.
pub open spec fn days_vw(s: Seq<DayGroup>) -> Seq<DayGroupView> {
    s.map_values(|d: DayGroup| d@)
}

/// The open day group covers the event's local calendar date.
pub open spec fn same_day(d: DayGroupView, s: LocalStamp) -> bool {
    &&& d.year == s.year as int
    &&& d.month == s.month as int
    &&& d.day == s.day as int
}

/// The open minute group covers the event's local hour and minute.
pub open spec fn same_minute(m: MinuteGroupView, s: LocalStamp) -> bool {
    &&& m.hour == s.hour as int
    &&& m.minute == s.minute as int
}

/// First person on the roster carrying the given id.
pub open spec fn lookup_person(roster: Seq<PersonView>, id: int) -> Option<PersonView>
    decreases roster.len(),
{
    if roster.len() == 0 {
        Option::None
    } else if roster[0].id == id {
        Option::Some(roster[0])
    } else {
        lookup_person(roster.drop_first(), id)
    }
}

/// Display entry for an event whose subject resolved to `p`.
pub open spec fn entry_of(p: PersonView, e: LocalEvent) -> LogEntryView {
    LogEntryView {
        subject_id: e.subject_id as int,
        name: p.name,
        surname: p.surname,
        presence: e.presence,
        stamp: e.stamp,
    }
}

/// A fresh minute group holding just `en`.
pub open spec fn minute_of(en: LogEntryView) -> MinuteGroupView {
    MinuteGroupView {
        hour: en.stamp.hour as int,
        minute: en.stamp.minute as int,
        entries: seq![en],
    }
}

/// A fresh day group holding just `en`.
pub open spec fn day_of(en: LogEntryView) -> DayGroupView {
    DayGroupView {
        year: en.stamp.year as int,
        month: en.stamp.month as int,
        day: en.stamp.day as int,
        minutes: seq![minute_of(en)],
    }
}

/// Place one entry: into the open minute of the open day when both keys
/// match, into a fresh minute of the open day when only the date matches,
/// and into a fresh day otherwise.
pub open spec fn agg_push(days: Seq<DayGroupView>, en: LogEntryView) -> Seq<DayGroupView> {
    if days.len() > 0 && same_day(days.last(), en.stamp) {
        let d = days.last();
        let d2 = if d.minutes.len() > 0 && same_minute(d.minutes.last(), en.stamp) {
            let m = d.minutes.last();
            DayGroupView {
                year: d.year,
                month: d.month,
                day: d.day,
                minutes: d.minutes.update(
                    d.minutes.len() - 1,
                    MinuteGroupView {
                        hour: m.hour,
                        minute: m.minute,
                        entries: m.entries.push(en),
                    },
                ),
            }
        } else {
            DayGroupView {
                year: d.year,
                month: d.month,
                day: d.day,
                minutes: d.minutes.push(minute_of(en)),
            }
        };
        days.update(days.len() - 1, d2)
    } else {
        days.push(day_of(en))
    }
}

/// The aggregated log of an event sequence: a single forward pass, one
/// `agg_push` per event whose subject is on the roster.
pub open spec fn aggregate_spec(events: Seq<LocalEvent>, roster: Seq<PersonView>) -> Seq<
    DayGroupView,
>
    decreases events.len(),
{
    if events.len() == 0 {
        Seq::empty()
    } else {
        let prev = aggregate_spec(events.drop_last(), roster);
        let e = events.last();
        match lookup_person(roster, e.subject_id as int) {
            Option::Some(p) => agg_push(prev, entry_of(p, e)),
            Option::None => prev,
        }
    }
}

/// Value of an optional person.
pub open spec fn opt_person_vw(o: Option<Person>) -> Option<PersonView> {
    match o {
        Option::None => Option::None,
        Option::Some(p) => Option::Some(p@),
    }
}

/// Find the first roster entry with the given id.
pub fn find_person(roster: &Vec<Person>, id: i32) -> (r: Option<Person>)
    ensures
        opt_person_vw(r) == lookup_person(persons_vw(roster@), id as int),
{
    let ghost rv = persons_vw(roster@);
    let mut j: usize = 0;
    proof {
        assert(rv.skip(0) =~= rv);
    }
    loop
        invariant
            j <= roster@.len(),
            rv == persons_vw(roster@),
            lookup_person(rv, id as int) == lookup_person(rv.skip(j as int), id as int),
        decreases roster@.len() - j,
    {
        if j == roster.len() {
            assert(rv.skip(j as int).len() == 0);
            return None;
        }
        let p = &roster[j];
        proof {
            assert(rv.skip(j as int)[0] == rv[j as int]);
            assert(rv[j as int] == roster@[j as int]@);
        }
        if p.id == id {
            return Some(p.clone());
        }
        proof {
            assert(rv.skip(j as int).drop_first() =~= rv.skip(j as int + 1));
        }
        j = j + 1;
    }
}

/// Aggregate a chronologically ordered, locally stamped event sequence
/// into the nested Day/Minute/Entries structure.
pub fn aggregate_log(events: &Vec<LocalEvent>, roster: &Vec<Person>) -> (r: Vec<DayGroup>)
    ensures
        days_vw(r@) == aggregate_spec(events@, persons_vw(roster@)),
{
    let ghost rv = persons_vw(roster@);
    let mut days: Vec<DayGroup> = Vec::new();
    let mut i: usize = 0;
    proof {
        assert(events@.take(0) =~= Seq::<LocalEvent>::empty());
        assert(days_vw(days@) =~= aggregate_spec(events@.take(0), rv));
    }
    while i < events.len()
        invariant
            i <= events@.len(),
            rv == persons_vw(roster@),
            days_vw(days@) == aggregate_spec(events@.take(i as int), rv),
        decreases events@.len() - i,
    {
        let ev = events[i];
        let ghost prefix = events@.take(i as int);
        let ghost next = events@.take(i + 1);
        proof {
            assert(next.drop_last() =~= prefix);
            assert(next.last() == events@[i as int]);
        }
        let found = find_person(roster, ev.subject_id);
        match found {
            None => {
                proof {
                    assert(aggregate_spec(next, rv) == aggregate_spec(prefix, rv));
                }
            },
            Some(p) => {
                let entry = LogEntry {
                    subject_id: ev.subject_id,
                    name: p.name,
                    surname: p.surname,
                    presence: ev.presence,
                    stamp: ev.stamp,
                };
                proof {
                    assert(entry@ == entry_of(lookup_person(rv, ev.subject_id as int)->Some_0, ev));
                }
                let ghost pre_days = days@;
                push_entry(&mut days, entry);
                proof {
                    assert(days_vw(days@) == agg_push(days_vw(pre_days), entry@));
                    assert(aggregate_spec(next, rv) == agg_push(
                        aggregate_spec(prefix, rv),
                        entry@,
                    ));
                }
            },
        }
        i = i + 1;
    }
    proof {
        assert(events@.take(events@.len() as int) =~= events@);
    }
    days
}

/// Append one entry to the aggregated structure, opening a new minute or
/// day group as its local stamp demands.
fn push_entry(days: &mut Vec<DayGroup>, entry: LogEntry)
    ensures
        days_vw(final(days)@) == agg_push(days_vw(old(days)@), entry@),
{
    let ghost pre = days@;
    let mut open_day = false;
    if days.len() > 0 {
        let d = &days[days.len() - 1];
        open_day = d.year == entry.stamp.year && d.month == entry.stamp.month && d.day
            == entry.stamp.day;
        proof {
            assert(days_vw(pre).last() == pre.last()@);
            assert(open_day == same_day(days_vw(pre).last(), entry@.stamp));
        }
    }
    if !open_day {
        let mut es: Vec<LogEntry> = Vec::new();
        es.push(entry);
        let mut ms: Vec<MinuteGroup> = Vec::new();
        let ghost entry_vw = entry@;
        let stamp = es[0].stamp;
        ms.push(MinuteGroup { hour: stamp.hour, minute: stamp.minute, entries: es });
        days.push(DayGroup { year: stamp.year, month: stamp.month, day: stamp.day, minutes: ms });
        proof {
            assert(days@.last()@ =~~= day_of(entry_vw));
            assert(days_vw(days@) =~~= days_vw(pre).push(day_of(entry_vw)));
        }
        return ;
    }
    let mut d = days.pop().unwrap();
    let ghost d_vw = d@;
    let mut open_minute = false;
    if d.minutes.len() > 0 {
        let m = &d.minutes[d.minutes.len() - 1];
        open_minute = m.hour == entry.stamp.hour && m.minute == entry.stamp.minute;
        proof {
            assert(d_vw.minutes.last() == d.minutes@.last()@);
            assert(open_minute == same_minute(d_vw.minutes.last(), entry@.stamp));
        }
    }
    let ghost entry_vw = entry@;
    if open_minute {
        let mut m = d.minutes.pop().unwrap();
        let ghost m_vw = m@;
        m.entries.push(entry);
        proof {
            assert(m@.entries =~= m_vw.entries.push(entry_vw));
        }
        d.minutes.push(m);
        proof {
            assert(d@.minutes =~~= d_vw.minutes.update(
                d_vw.minutes.len() - 1,
                MinuteGroupView {
                    hour: d_vw.minutes.last().hour,
                    minute: d_vw.minutes.last().minute,
                    entries: d_vw.minutes.last().entries.push(entry_vw),
                },
            ));
        }
    } else {
        let mut es: Vec<LogEntry> = Vec::new();
        es.push(entry);
        let stamp = es[0].stamp;
        d.minutes.push(MinuteGroup { hour: stamp.hour, minute: stamp.minute, entries: es });
        proof {
            assert(d@.minutes =~~= d_vw.minutes.push(minute_of(entry_vw)));
        }
    }
    days.push(d);
    proof {
        assert(days_vw(days@) =~~= agg_push(days_vw(pre), entry_vw));
    }
}

/// All entries of one day group, in display order.
pub open spec fn day_entries(d: DayGroupView) -> Seq<LogEntryView> {
    d.minutes.map_values(|m: MinuteGroupView| m.entries).flatten()
}

/// All entries of the aggregated structure, in display order.
pub open spec fn all_entries(days: Seq<DayGroupView>) -> Seq<LogEntryView> {
    days.map_values(|d: DayGroupView| day_entries(d)).flatten()
}

/// The display entries of the events whose subject resolves on the
/// roster, in input order.
pub open spec fn kept_entries(events: Seq<LocalEvent>, roster: Seq<PersonView>) -> Seq<
    LogEntryView,
>
    decreases events.len(),
{
    if events.len() == 0 {
        Seq::empty()
    } else {
        let prev = kept_entries(events.drop_last(), roster);
        let e = events.last();
        match lookup_person(roster, e.subject_id as int) {
            Option::Some(p) => prev.push(entry_of(p, e)),
            Option::None => prev,
        }
    }
}

/// Placing one entry appends it at the very end of the flattened
/// structure and touches nothing before it.
proof fn lemma_agg_push_entries(days: Seq<DayGroupView>, en: LogEntryView)
    ensures
        all_entries(agg_push(days, en)) == all_entries(days).push(en),
{
    broadcast use Seq::lemma_flatten_push;

    let f = |d: DayGroupView| day_entries(d);
    let fm = |m: MinuteGroupView| m.entries;
    if days.len() > 0 && same_day(days.last(), en.stamp) {
        let d = days.last();
        let cur = agg_push(days, en);
        let d2 = cur.last();
        assert(cur =~= days.drop_last().push(d2));
        assert(days =~= days.drop_last().push(d));
        assert(days.map_values(f) =~= days.drop_last().map_values(f).push(day_entries(d)));
        assert(cur.map_values(f) =~= days.drop_last().map_values(f).push(day_entries(d2)));
        assert(day_entries(d2) =~= day_entries(d).push(en)) by {
            if d.minutes.len() > 0 && same_minute(d.minutes.last(), en.stamp) {
                let m = d.minutes.last();
                let m2 = d2.minutes.last();
                assert(d2.minutes =~= d.minutes.drop_last().push(m2));
                assert(d.minutes =~= d.minutes.drop_last().push(m));
                assert(d.minutes.map_values(fm) =~= d.minutes.drop_last().map_values(fm).push(
                    m.entries,
                ));
                assert(d2.minutes.map_values(fm) =~= d.minutes.drop_last().map_values(fm).push(
                    m2.entries,
                ));
                assert(m2.entries =~= m.entries.push(en));
            } else {
                assert(d2.minutes =~= d.minutes.push(minute_of(en)));
                assert(d2.minutes.map_values(fm) =~= d.minutes.map_values(fm).push(
                    minute_of(en).entries,
                ));
                assert(minute_of(en).entries =~= seq![en]);
                assert(d.minutes.map_values(fm).push(seq![en]).flatten() =~= d.minutes.map_values(
                    fm,
                ).flatten() + seq![en]);
            }
        }
        assert(all_entries(cur) =~= all_entries(days.drop_last()) + day_entries(d2));
        assert(all_entries(days) =~= all_entries(days.drop_last()) + day_entries(d));
    } else {
        let cur = agg_push(days, en);
        assert(cur =~= days.push(day_of(en)));
        assert(cur.map_values(f) =~= days.map_values(f).push(day_entries(day_of(en))));
        assert(day_entries(day_of(en)) =~= seq![en]) by {
            assert(day_of(en).minutes.map_values(fm) =~= seq![seq![en]]);
            assert(seq![seq![en]] =~= Seq::<Seq<LogEntryView>>::empty().push(seq![en]));
            assert(Seq::<Seq<LogEntryView>>::empty().flatten() =~= Seq::<LogEntryView>::empty());
        }
        assert(all_entries(cur) =~= all_entries(days) + seq![en]);
    }
    assert(all_entries(agg_push(days, en)) =~= all_entries(days).push(en));
}

/// The aggregator preserves input order and loses nothing but events with
/// unknown subjects: flattening the nested structure yields exactly the
/// display entries of the kept events, in input order.
pub proof fn lemma_aggregate_preserves_order(events: Seq<LocalEvent>, roster: Seq<PersonView>)
    ensures
        all_entries(aggregate_spec(events, roster)) == kept_entries(events, roster),
    decreases events.len(),
{
    if events.len() == 0 {
        assert(aggregate_spec(events, roster).map_values(|d: DayGroupView| day_entries(d))
            =~= Seq::<Seq<LogEntryView>>::empty());
        assert(all_entries(aggregate_spec(events, roster)) =~= kept_entries(events, roster));
    } else {
        lemma_aggregate_preserves_order(events.drop_last(), roster);
        let prev = aggregate_spec(events.drop_last(), roster);
        let e = events.last();
        match lookup_person(roster, e.subject_id as int) {
            Option::Some(p) => {
                lemma_agg_push_entries(prev, entry_of(p, e));
            },
            Option::None => {},
        }
    }
}

/// The aggregator never emits an empty group: every day group holds at
/// least one minute group, and every minute group at least one entry.
pub proof fn lemma_aggregate_no_empty_groups(events: Seq<LocalEvent>, roster: Seq<PersonView>)
    ensures
        forall|i: int| 0 <= i < aggregate_spec(events, roster).len() ==> (
        #[trigger] aggregate_spec(events, roster)[i]).minutes.len() > 0,
        forall|i: int, j: int|
            0 <= i < aggregate_spec(events, roster).len() && 0 <= j < aggregate_spec(
                events,
                roster,
            )[i].minutes.len() ==> (#[trigger] aggregate_spec(events, roster)[i].minutes[j]).entries.len()
                > 0,
    decreases events.len(),
{
    if events.len() > 0 {
        lemma_aggregate_no_empty_groups(events.drop_last(), roster);
        let prev = aggregate_spec(events.drop_last(), roster);
        let e = events.last();
        match lookup_person(roster, e.subject_id as int) {
            Option::Some(p) => {
                let en = entry_of(p, e);
                let cur = agg_push(prev, en);
                assert forall|i: int| 0 <= i < cur.len() implies (#[trigger] cur[i]).minutes.len()
                    > 0 by {
                    if i < prev.len() && cur[i] != prev[i] {
                        assert(cur[i].minutes.len() > 0);
                    }
                }
                assert forall|i: int, j: int|
                    0 <= i < cur.len() && 0 <= j < cur[i].minutes.len() implies (
                #[trigger] cur[i].minutes[j]).entries.len() > 0 by {
                    if i < prev.len() {
                        if cur[i] == prev[i] {
                        } else {
                            let d = prev.last();
                            if d.minutes.len() > 0 && same_minute(d.minutes.last(), en.stamp) {
                                if j < d.minutes.len() - 1 {
                                    assert(cur[i].minutes[j] == d.minutes[j]);
                                } else {
                                    assert(cur[i].minutes[j].entries.len() == d.minutes[
                                        j
                                    ].entries.len() + 1);
                                }
                            } else {
                                if j < d.minutes.len() {
                                    assert(cur[i].minutes[j] == d.minutes[j]);
                                } else {
                                    assert(cur[i].minutes[j] == minute_of(en));
                                }
                            }
                        }
                    } else {
                        assert(cur[i] == day_of(en));
                    }
                }
            },
            Option::None => {},
        }
    }
}

} // verus!
