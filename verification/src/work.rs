//! Units of work that consume resources, and their ranking by processor
//! time and by wakeups.

use vstd::prelude::*;
use vstd::string::StringExecFns;

verus! {

/// The number of units that a ranked list shows.
pub const LIST_LIMIT: usize = 5;

/// The wakeups per second, in thousandths, above which a unit counts as
/// waking often.
pub const HIGH_WAKEUPS: i64 = 50_000;

/// One unit of work that consumes resources, with its activity counters.
#[derive(Clone, Debug, PartialEq, Eq)]
pub struct WorkUnit {
    pub name: String,
    /// Processor time in thousandths of a millisecond per second.
    pub cpu_time: i64,
    /// Wakeups per second, in thousandths.
    pub wakeups: i64,
}

/// The lists that are reported of the work units of one sample.
#[derive(Clone, Debug, PartialEq, Eq)]
pub struct WorkSummary {
    /// Wakeups per second over all units, in thousandths.
    pub wakeups: i128,
    /// The units that used the most processor time, most first.
    pub top_cpu: Vec<WorkUnit>,
    /// The units that wake often, in the order of their processor time.
    pub high_wakeups: Vec<WorkUnit>,
}

/// The name is that of a unit of the system itself, which no list shows.
pub open spec fn is_system_name(name: Seq<char>) -> bool {
    ||| name == "kernel_task"@
    ||| name == "powerd"@
    ||| name == "powermetrics"@
    ||| name == "launchd"@
}

/// The units that are not of the system itself, in their order.
pub open spec fn listed(units: Seq<WorkUnit>) -> Seq<WorkUnit>
    decreases units.len(),
{
    if units.len() == 0 {
        Seq::empty()
    } else if is_system_name(units.last().name@) {
        listed(units.drop_last())
    } else {
        listed(units.drop_last()).push(units.last())
    }
}

/// The sum of the wakeups of all units.
pub open spec fn wakeups_of(units: Seq<WorkUnit>) -> int
    decreases units.len(),
{
    if units.len() == 0 {
        0
    } else {
        wakeups_of(units.drop_last()) + units.last().wakeups
    }
}

/// The place of a unit with this processor time in a ranked list: behind
/// every unit at the front that has at least as much.
pub open spec fn slot(ranked: Seq<WorkUnit>, cpu_time: i64) -> int
    decreases ranked.len(),
{
    if ranked.len() == 0 || ranked[0].cpu_time < cpu_time {
        0
    } else {
        1 + slot(ranked.drop_first(), cpu_time)
    }
}

/// The units by falling processor time; units with the same time keep
/// their order.
pub open spec fn by_cpu_time(units: Seq<WorkUnit>) -> Seq<WorkUnit>
    decreases units.len(),
{
    if units.len() == 0 {
        Seq::empty()
    } else {
        let ranked = by_cpu_time(units.drop_last());
        ranked.insert(slot(ranked, units.last().cpu_time), units.last())
    }
}

/// No unit has more processor time than one before it.
pub open spec fn descending(units: Seq<WorkUnit>) -> bool {
    forall|i: int, j: int|
        0 <= i < j < units.len() ==> (#[trigger] units[i]).cpu_time >= (
        #[trigger] units[j]).cpu_time
}

/// The units with exactly this processor time, in their order.
pub open spec fn with_cpu_time(units: Seq<WorkUnit>, cpu_time: i64) -> Seq<WorkUnit>
    decreases units.len(),
{
    if units.len() == 0 {
        Seq::empty()
    } else if units.last().cpu_time == cpu_time {
        with_cpu_time(units.drop_last(), cpu_time).push(units.last())
    } else {
        with_cpu_time(units.drop_last(), cpu_time)
    }
}

/// The units with more wakeups than `above`, in their order.
pub open spec fn waking(units: Seq<WorkUnit>, above: i64) -> Seq<WorkUnit>
    decreases units.len(),
{
    if units.len() == 0 {
        Seq::empty()
    } else if units.last().wakeups > above {
        waking(units.drop_last(), above).push(units.last())
    } else {
        waking(units.drop_last(), above)
    }
}

/// The first `limit` units, or all where there are fewer.
pub open spec fn first_of(units: Seq<WorkUnit>, limit: int) -> Seq<WorkUnit> {
    if limit < units.len() {
        units.take(limit)
    } else {
        units
    }
}

/// The place that `slot` gives in a descending list parts it: every unit
/// before the place has at least this processor time, every unit from the
/// place on has less.
pub proof fn lemma_slot(ranked: Seq<WorkUnit>, cpu_time: i64)
    requires
        descending(ranked),
    ensures
        0 <= slot(ranked, cpu_time) <= ranked.len(),
        forall|i: int| 0 <= i < slot(ranked, cpu_time) ==> (#[trigger] ranked[i]).cpu_time >= cpu_time,
        forall|i: int|
            slot(ranked, cpu_time) <= i < ranked.len() ==> (#[trigger] ranked[i]).cpu_time
                < cpu_time,
    decreases ranked.len(),
{
    if ranked.len() == 0 {
    } else if ranked[0].cpu_time < cpu_time {
        assert forall|i: int| 0 <= i < ranked.len() implies (#[trigger] ranked[i]).cpu_time
            < cpu_time by {
            if i > 0 {
                assert(ranked[0].cpu_time >= ranked[i].cpu_time);
            }
        }
    } else {
        let rest = ranked.drop_first();
        assert forall|i: int, j: int| 0 <= i < j < rest.len() implies (#[trigger] rest[i]).cpu_time
            >= (#[trigger] rest[j]).cpu_time by {
            assert(rest[i] == ranked[i + 1] && rest[j] == ranked[j + 1]);
        }
        lemma_slot(rest, cpu_time);
        let p = slot(rest, cpu_time);
        assert forall|i: int| 0 <= i < p + 1 implies (#[trigger] ranked[i]).cpu_time
            >= cpu_time by {
            if i > 0 {
                assert(rest[i - 1] == ranked[i]);
            }
        }
        assert forall|i: int| p + 1 <= i < ranked.len() implies (#[trigger] ranked[i]).cpu_time
            < cpu_time by {
            assert(rest[i - 1] == ranked[i]);
        }
    }
}

/// The units with one processor time of two lists laid end to end are
/// those of the first and then those of the second.
pub proof fn lemma_with_cpu_time_concat(a: Seq<WorkUnit>, b: Seq<WorkUnit>, cpu_time: i64)
    ensures
        with_cpu_time(a + b, cpu_time) == with_cpu_time(a, cpu_time) + with_cpu_time(b, cpu_time),
    decreases b.len(),
{
    if b.len() == 0 {
        assert(a + b =~= a);
        assert(with_cpu_time(a, cpu_time) + with_cpu_time(b, cpu_time) =~= with_cpu_time(
            a,
            cpu_time,
        ));
    } else {
        assert((a + b).drop_last() =~= a + b.drop_last());
        assert((a + b).last() == b.last());
        lemma_with_cpu_time_concat(a, b.drop_last(), cpu_time);
        if b.last().cpu_time == cpu_time {
            assert(with_cpu_time(a + b, cpu_time) =~= with_cpu_time(a, cpu_time) + with_cpu_time(
                b,
                cpu_time,
            ));
        }
    }
}

/// A list in which no unit has this processor time holds no unit with it.
pub proof fn lemma_with_cpu_time_none(units: Seq<WorkUnit>, cpu_time: i64)
    requires
        forall|i: int| 0 <= i < units.len() ==> (#[trigger] units[i]).cpu_time != cpu_time,
    ensures
        with_cpu_time(units, cpu_time) == Seq::<WorkUnit>::empty(),
    decreases units.len(),
{
    if units.len() > 0 {
        let rest = units.drop_last();
        assert forall|i: int| 0 <= i < rest.len() implies (#[trigger] rest[i]).cpu_time
            != cpu_time by {
            assert(rest[i] == units[i]);
        }
        lemma_with_cpu_time_none(rest, cpu_time);
        assert(units[units.len() - 1].cpu_time != cpu_time);
    }
}

/// Ranking orders and loses nothing: the ranked list is descending, holds
/// the units that were given, each as often as it was given, and holds
/// the units of any one processor time in the order in which they came.
pub proof fn lemma_ranking(units: Seq<WorkUnit>)
    ensures
        descending(by_cpu_time(units)),
        by_cpu_time(units).len() == units.len(),
        by_cpu_time(units).to_multiset() == units.to_multiset(),
        forall|cpu_time: i64| #[trigger]
            with_cpu_time(by_cpu_time(units), cpu_time) == with_cpu_time(units, cpu_time),
    decreases units.len(),
{
    if units.len() == 0 {
        assert(units =~= Seq::<WorkUnit>::empty());
    } else {
        let rest = units.drop_last();
        let unit = units.last();
        let ranked = by_cpu_time(rest);
        lemma_ranking(rest);
        lemma_slot(ranked, unit.cpu_time);
        let p = slot(ranked, unit.cpu_time);
        let now = ranked.insert(p, unit);
        assert(now == by_cpu_time(units));
        assert forall|i: int, j: int| 0 <= i < j < now.len() implies (#[trigger] now[i]).cpu_time
            >= (#[trigger] now[j]).cpu_time by {
            if i < p && j > p {
                assert(now[i] == ranked[i] && now[j] == ranked[j - 1]);
                assert(ranked[i].cpu_time >= unit.cpu_time);
                assert(ranked[j - 1].cpu_time < unit.cpu_time);
            } else if i < p && j < p {
                assert(now[i] == ranked[i] && now[j] == ranked[j]);
            } else if i > p {
                assert(now[i] == ranked[i - 1] && now[j] == ranked[j - 1]);
            } else if i == p {
                assert(now[j] == ranked[j - 1]);
            } else {
                assert(now[i] == ranked[i]);
            }
        }
        vstd::seq_lib::to_multiset_insert(ranked, p, unit);
        assert(units =~= rest.push(unit));
        vstd::seq_lib::to_multiset_build(rest, unit);
        assert(now.to_multiset() =~= units.to_multiset());
        assert forall|cpu_time: i64| #[trigger]
            with_cpu_time(by_cpu_time(units), cpu_time) == with_cpu_time(units, cpu_time) by {
            let front = ranked.take(p);
            let back = ranked.skip(p);
            let one = seq![unit];
            assert(now =~= (front + one) + back);
            assert(ranked =~= front + back);
            lemma_with_cpu_time_concat(front + one, back, cpu_time);
            lemma_with_cpu_time_concat(front, one, cpu_time);
            lemma_with_cpu_time_concat(front, back, cpu_time);
            assert(one.drop_last() =~= Seq::<WorkUnit>::empty());
            assert(with_cpu_time(one.drop_last(), cpu_time) =~= Seq::<WorkUnit>::empty());
            if unit.cpu_time == cpu_time {
                assert forall|i: int| 0 <= i < back.len() implies (#[trigger] back[i]).cpu_time
                    != cpu_time by {
                    assert(back[i] == ranked[p + i]);
                }
                lemma_with_cpu_time_none(back, cpu_time);
                assert(with_cpu_time(one, cpu_time) =~= one);
                assert(with_cpu_time(now, cpu_time) =~= with_cpu_time(front, cpu_time).push(unit));
                assert(with_cpu_time(ranked, cpu_time) =~= with_cpu_time(front, cpu_time));
            } else {
                assert(with_cpu_time(one, cpu_time) =~= Seq::<WorkUnit>::empty());
                assert(with_cpu_time(front, cpu_time) + with_cpu_time(one, cpu_time)
                    =~= with_cpu_time(front, cpu_time));
            }
        }
    }
}

/// A copy of a unit.
pub fn copy_unit(unit: &WorkUnit) -> (copy: WorkUnit)
    ensures
        copy == *unit,
{
    WorkUnit { name: unit.name.clone(), cpu_time: unit.cpu_time, wakeups: unit.wakeups }
}

/// The name is that of a unit of the system itself: the kernel, the power
/// daemon, the power sampler or the launch daemon.
pub fn is_system_unit(name: &String) -> (system: bool)
    ensures
        system == is_system_name(name@),
{
    let kernel = String::from_str("kernel_task");
    let daemon = String::from_str("powerd");
    let sampler = String::from_str("powermetrics");
    let launcher = String::from_str("launchd");
    *name == kernel || *name == daemon || *name == sampler || *name == launcher
}

/// The units by falling processor time. Units with the same time keep the
/// order in which they came.
pub fn rank_by_cpu_time(units: &[WorkUnit]) -> (ranked: Vec<WorkUnit>)
    ensures
        ranked@ == by_cpu_time(units@),
        ranked@.len() == units@.len(),
{
    let mut ranked: Vec<WorkUnit> = Vec::new();
    let mut i: usize = 0;
    assert(units@.take(0) =~= Seq::<WorkUnit>::empty());
    while i < units.len()
        invariant
            i <= units.len(),
            ranked@ == by_cpu_time(units@.take(i as int)),
            ranked@.len() == i,
        decreases units.len() - i,
    {
        let unit = copy_unit(&units[i]);
        let mut at: usize = 0;
        assert(ranked@.skip(0) =~= ranked@);
        while at < ranked.len() && ranked[at].cpu_time >= unit.cpu_time
            invariant
                at <= ranked.len(),
                slot(ranked@, unit.cpu_time) == at + slot(ranked@.skip(at as int), unit.cpu_time),
            decreases ranked.len() - at,
        {
            assert(ranked@.skip(at as int).drop_first() =~= ranked@.skip(at + 1));
            at += 1;
        }
        proof {
            let now = units@.take(i + 1);
            assert(now.drop_last() =~= units@.take(i as int));
            assert(now.last() == unit);
        }
        ranked.insert(at, unit);
        i += 1;
    }
    assert(units@.take(i as int) =~= units@);
    ranked
}

/// The first `limit` units, or all where there are fewer.
pub fn take_first(units: &[WorkUnit], limit: usize) -> (first: Vec<WorkUnit>)
    ensures
        first@ == first_of(units@, limit as int),
{
    let mut first: Vec<WorkUnit> = Vec::new();
    let mut i: usize = 0;
    while i < units.len() && i < limit
        invariant
            i <= units.len(),
            i <= limit,
            first@ == units@.take(i as int),
        decreases units.len() - i,
    {
        first.push(copy_unit(&units[i]));
        assert(first@ =~= units@.take(i + 1));
        i += 1;
    }
    assert(units@.take(units@.len() as int) =~= units@);
    first
}

/// The units with more wakeups than `above`, in their order.
pub fn select_waking(units: &[WorkUnit], above: i64) -> (found: Vec<WorkUnit>)
    ensures
        found@ == waking(units@, above),
{
    let mut found: Vec<WorkUnit> = Vec::new();
    let mut i: usize = 0;
    assert(units@.take(0) =~= Seq::<WorkUnit>::empty());
    while i < units.len()
        invariant
            i <= units.len(),
            found@ == waking(units@.take(i as int), above),
        decreases units.len() - i,
    {
        proof {
            let now = units@.take(i + 1);
            assert(now.drop_last() =~= units@.take(i as int));
        }
        if units[i].wakeups > above {
            found.push(copy_unit(&units[i]));
        }
        i += 1;
    }
    assert(units@.take(i as int) =~= units@);
    found
}

/// The units that are not of the system itself, in their order.
pub fn select_listed(units: &[WorkUnit]) -> (found: Vec<WorkUnit>)
    ensures
        found@ == listed(units@),
{
    let mut found: Vec<WorkUnit> = Vec::new();
    let mut i: usize = 0;
    assert(units@.take(0) =~= Seq::<WorkUnit>::empty());
    while i < units.len()
        invariant
            i <= units.len(),
            found@ == listed(units@.take(i as int)),
        decreases units.len() - i,
    {
        proof {
            let now = units@.take(i + 1);
            assert(now.drop_last() =~= units@.take(i as int));
        }
        if !is_system_unit(&units[i].name) {
            found.push(copy_unit(&units[i]));
        }
        i += 1;
    }
    assert(units@.take(i as int) =~= units@);
    found
}

/// The sum of the wakeups of all units.
pub fn total_wakeups(units: &[WorkUnit]) -> (sum: i128)
    ensures
        sum == wakeups_of(units@),
{
    let mut sum: i128 = 0;
    let mut i: usize = 0;
    assert(units@.take(0) =~= Seq::<WorkUnit>::empty());
    while i < units.len()
        invariant
            i <= units.len(),
            sum == wakeups_of(units@.take(i as int)),
            i * i64::MIN <= sum <= i * i64::MAX,
        decreases units.len() - i,
    {
        proof {
            let now = units@.take(i + 1);
            assert(now.drop_last() =~= units@.take(i as int));
            assert(usize::MAX <= 0xFFFF_FFFF_FFFF_FFFF);
        }
        sum = sum + units[i].wakeups as i128;
        i += 1;
    }
    assert(units@.take(i as int) =~= units@);
    sum
}

/// What the contracts say of a summary of `units`.
pub open spec fn summary_of(units: Seq<WorkUnit>, summary: WorkSummary) -> bool {
    &&& summary.wakeups == wakeups_of(units)
    &&& summary.top_cpu@ == first_of(by_cpu_time(listed(units)), 5)
    &&& summary.high_wakeups@ == first_of(waking(by_cpu_time(listed(units)), 50_000), 5)
}

/// The summary of the work units of one sample: the wakeups of all of
/// them together; of those that are not of the system itself, the five
/// with the most processor time, most first; and, in the same order, the
/// first five that wake more than fifty times a second.
pub fn summarize(units: &[WorkUnit]) -> (summary: WorkSummary)
    ensures
        summary_of(units@, summary),
{
    let shown = select_listed(units);
    let ranked = rank_by_cpu_time(shown.as_slice());
    let often = select_waking(ranked.as_slice(), HIGH_WAKEUPS);
    WorkSummary {
        wakeups: total_wakeups(units),
        top_cpu: take_first(ranked.as_slice(), LIST_LIMIT),
        high_wakeups: take_first(often.as_slice(), LIST_LIMIT),
    }
}

} // verus!
