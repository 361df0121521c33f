//! Range gates and the arithmetic mean of the readings of one zone.

use crate::key::SensorKey;
use crate::zone::{has_prefix, key_has_prefix, zone_of, ClassificationTable, Rule, Zone};
use vstd::prelude::*;

verus! {

/// An open interval of plausible values: a value passes when it lies
/// strictly between `min` and `max`.
#[derive(Clone, Copy, Debug, PartialEq, Eq, Structural)]
pub struct ValidRange {
    pub min: i64,
    pub max: i64,
}

/// One value read from one sensor, in thousandths of the sensor's unit.
#[derive(Clone, Copy, Debug, PartialEq, Eq, Structural)]
pub struct SensorReading {
    pub key: SensorKey,
    pub value: i64,
}

impl ValidRange {
    /// `value` lies strictly inside the range.
    pub open spec fn admits(self, value: i64) -> bool {
        self.min < value < self.max
    }

    /// `value` lies strictly inside the range.
    pub fn contains(&self, value: i64) -> (inside: bool)
        ensures
            inside == self.admits(value),
    {
        self.min < value && value < self.max
    }

    /// The range of temperatures, in millidegrees Celsius, that is taken
    /// as plausible for a zone.
    pub open spec fn zone_default(zone: Zone) -> ValidRange {
        match zone {
            Zone::Battery => ValidRange { min: 0, max: 80_000 },
            Zone::Memory => ValidRange { min: 0, max: 100_000 },
            Zone::Storage => ValidRange { min: 0, max: 100_000 },
            _ => ValidRange { min: 0, max: 150_000 },
        }
    }

    /// The widest range of temperatures that is taken as plausible anywhere:
    /// above 0 and below 150 degrees Celsius, in millidegrees.
    pub fn widest() -> (range: ValidRange)
        ensures
            range == (ValidRange { min: 0, max: 150_000 }),
    {
        ValidRange { min: 0, max: 150_000 }
    }

    /// The range of temperatures, in millidegrees Celsius, that is taken
    /// as plausible for a zone: up to 80 degrees for the battery, up to 100
    /// for memory and storage, up to 150 elsewhere.
    pub fn for_zone(zone: Zone) -> (range: ValidRange)
        ensures
            range == Self::zone_default(zone),
    {
        match zone {
            Zone::Battery => ValidRange { min: 0, max: 80_000 },
            Zone::Memory => ValidRange { min: 0, max: 100_000 },
            Zone::Storage => ValidRange { min: 0, max: 100_000 },
            _ => ValidRange { min: 0, max: 150_000 },
        }
    }
}

/// The values of `values` that `range` admits, in their order.
pub open spec fn kept(values: Seq<i64>, range: ValidRange) -> Seq<i64>
    decreases values.len(),
{
    if values.len() == 0 {
        Seq::empty()
    } else if range.admits(values.last()) {
        kept(values.drop_last(), range).push(values.last())
    } else {
        kept(values.drop_last(), range)
    }
}

/// The sum of `values`.
pub open spec fn sum_of(values: Seq<i64>) -> int
    decreases values.len(),
{
    if values.len() == 0 {
        0
    } else {
        sum_of(values.drop_last()) + values.last()
    }
}

/// The arithmetic mean of `values`, rounded down to a whole number; none
/// for no values.
pub open spec fn mean(values: Seq<i64>) -> Option<int> {
    if values.len() == 0 {
        None
    } else {
        Some(sum_of(values) / (values.len() as int))
    }
}

/// The mean of the values that `range` admits.
pub open spec fn mean_in_range(values: Seq<i64>, range: ValidRange) -> Option<int> {
    mean(kept(values, range))
}

/// A reading with this key counts for `zone`. Nothing counts for
/// `Unclassified`: readings that no rule matches are dropped.
pub open spec fn assigned(rules: Seq<Rule>, key: SensorKey, zone: Zone) -> bool {
    zone != Zone::Unclassified && zone_of(rules, key.bytes()) == zone
}

/// The values of the readings that count for `zone`, in their order.
pub open spec fn zone_values(rules: Seq<Rule>, readings: Seq<SensorReading>, zone: Zone) -> Seq<
    i64,
>
    decreases readings.len(),
{
    if readings.len() == 0 {
        Seq::empty()
    } else if assigned(rules, readings.last().key, zone) {
        zone_values(rules, readings.drop_last(), zone).push(readings.last().value)
    } else {
        zone_values(rules, readings.drop_last(), zone)
    }
}

/// The representative value of a zone: the mean of its readings that the
/// range admits.
pub open spec fn zone_mean(
    rules: Seq<Rule>,
    zone: Zone,
    readings: Seq<SensorReading>,
    range: ValidRange,
) -> Option<int> {
    mean_in_range(zone_values(rules, readings, zone), range)
}

/// A whole-number result and what the contracts say of it agree.
pub open spec fn same_value(result: Option<i64>, expected: Option<int>) -> bool {
    match result {
        Some(v) => expected == Some(v as int),
        None => expected is None,
    }
}

/// What `kept` holds: only admitted values, and no more of them than it
/// was given.
pub proof fn lemma_kept_admitted(values: Seq<i64>, range: ValidRange)
    ensures
        kept(values, range).len() <= values.len(),
        forall|i: int|
            0 <= i < kept(values, range).len() ==> range.admits(#[trigger] kept(values, range)[i]),
    decreases values.len(),
{
    if values.len() > 0 {
        lemma_kept_admitted(values.drop_last(), range);
    }
}

/// The sum of values that all lie between `lo` and `hi` lies between the
/// count times `lo` and the count times `hi`.
pub proof fn lemma_sum_bounds(values: Seq<i64>, lo: int, hi: int)
    requires
        forall|i: int| 0 <= i < values.len() ==> lo <= #[trigger] values[i] <= hi,
    ensures
        values.len() * lo <= sum_of(values) <= values.len() * hi,
    decreases values.len(),
{
    if values.len() > 0 {
        let rest = values.drop_last();
        assert forall|i: int| 0 <= i < rest.len() implies lo <= #[trigger] rest[i] <= hi by {
            assert(rest[i] == values[i]);
        }
        lemma_sum_bounds(rest, lo, hi);
        let n: int = rest.len() as int;
        assert((n + 1) * lo == n * lo + lo) by (nonlinear_arith);
        assert((n + 1) * hi == n * hi + hi) by (nonlinear_arith);
    } else {
        assert(0 * lo == 0) by (nonlinear_arith);
        assert(0 * hi == 0) by (nonlinear_arith);
    }
}

/// A quotient that rounds down lies between the bounds of what was
/// averaged.
pub proof fn lemma_mean_between(sum: int, n: int, lo: int, hi: int)
    requires
        n > 0,
        n * lo <= sum <= n * hi,
    ensures
        lo <= sum / n <= hi,
{
    vstd::arithmetic::div_mod::lemma_fundamental_div_mod(sum, n);
    let q: int = sum / n;
    let r: int = sum % n;
    assert(0 <= r < n);
    assert(sum == n * q + r);
    assert(q >= lo) by (nonlinear_arith)
        requires
            n > 0,
            n * lo <= n * q + r,
            r < n,
    ;
    assert(q <= hi) by (nonlinear_arith)
        requires
            n > 0,
            n * q + r <= n * hi,
            0 <= r,
    ;
}

/// Filtering two sequences laid end to end filters each.
pub proof fn lemma_kept_concat(a: Seq<i64>, b: Seq<i64>, range: ValidRange)
    ensures
        kept(a + b, range) == kept(a, range) + kept(b, range),
    decreases b.len(),
{
    if b.len() == 0 {
        assert(a + b =~= a);
        assert(kept(a, range) + kept(b, range) =~= kept(a, range));
    } else {
        assert((a + b).drop_last() =~= a + b.drop_last());
        assert((a + b).last() == b.last());
        lemma_kept_concat(a, b.drop_last(), range);
        if range.admits(b.last()) {
            assert(kept(a + b, range) =~= kept(a, range) + kept(b, range));
        }
    }
}

/// The sum of two sequences laid end to end is the sum of their sums.
pub proof fn lemma_sum_concat(a: Seq<i64>, b: Seq<i64>)
    ensures
        sum_of(a + b) == sum_of(a) + sum_of(b),
    decreases b.len(),
{
    if b.len() == 0 {
        assert(a + b =~= a);
    } else {
        assert((a + b).drop_last() =~= a + b.drop_last());
        assert((a + b).last() == b.last());
        lemma_sum_concat(a, b.drop_last());
    }
}

/// Taking one value out changes what is kept, its count and its sum by
/// that value alone, and only if the range admits it.
pub proof fn lemma_kept_remove(values: Seq<i64>, i: int, range: ValidRange)
    requires
        0 <= i < values.len(),
    ensures
        !range.admits(values[i]) ==> kept(values.remove(i), range) == kept(values, range),
        range.admits(values[i]) ==> kept(values, range).len() == kept(
            values.remove(i),
            range,
        ).len() + 1,
        range.admits(values[i]) ==> sum_of(kept(values, range)) == sum_of(
            kept(values.remove(i), range),
        ) + values[i],
{
    let front = values.subrange(0, i);
    let one = seq![values[i]];
    let back = values.subrange(i + 1, values.len() as int);
    assert(values =~= (front + one) + back);
    assert(values.remove(i) =~= front + back);
    lemma_kept_concat(front + one, back, range);
    lemma_kept_concat(front, one, range);
    lemma_kept_concat(front, back, range);
    assert(one.drop_last() =~= Seq::<i64>::empty());
    assert(one.last() == values[i]);
    assert(kept(one.drop_last(), range) =~= Seq::<i64>::empty());
    if range.admits(values[i]) {
        assert(kept(one, range) =~= one);
        lemma_sum_concat(kept(front, range) + one, kept(back, range));
        lemma_sum_concat(kept(front, range), one);
        lemma_sum_concat(kept(front, range), kept(back, range));
        assert(sum_of(one.drop_last()) == 0);
        assert(sum_of(one) == values[i]);
    } else {
        assert(kept(one, range) =~= Seq::<i64>::empty());
        assert(kept(front, range) + kept(one, range) =~= kept(front, range));
    }
}

/// Dropping a value that the range does not admit leaves the mean as it
/// was: such a value never counted.
pub proof fn lemma_drop_out_of_range(values: Seq<i64>, i: int, range: ValidRange)
    requires
        0 <= i < values.len(),
        !range.admits(values[i]),
    ensures
        mean_in_range(values.remove(i), range) == mean_in_range(values, range),
{
    lemma_kept_remove(values, i, range);
}

/// The values of `values` at the places where `mask` is true, in their
/// order.
pub open spec fn retained(values: Seq<i64>, mask: Seq<bool>) -> Seq<i64>
    recommends
        mask.len() == values.len(),
    decreases values.len(),
{
    if values.len() == 0 || mask.len() != values.len() {
        Seq::empty()
    } else if mask.last() {
        retained(values.drop_last(), mask.drop_last()).push(values.last())
    } else {
        retained(values.drop_last(), mask.drop_last())
    }
}

/// A subset that drops only values that the range does not admit has the
/// mean of the whole: whichever of the out-of-range values stay, the
/// result is the same.
pub proof fn lemma_subset_same_mean(values: Seq<i64>, mask: Seq<bool>, range: ValidRange)
    requires
        mask.len() == values.len(),
        forall|i: int| 0 <= i < values.len() && !mask[i] ==> !range.admits(values[i]),
    ensures
        kept(retained(values, mask), range) == kept(values, range),
        mean_in_range(retained(values, mask), range) == mean_in_range(values, range),
    decreases values.len(),
{
    if values.len() > 0 {
        let rest = values.drop_last();
        let rest_mask = mask.drop_last();
        assert forall|i: int| 0 <= i < rest.len() && !rest_mask[i] implies !range.admits(
            rest[i],
        ) by {
            assert(rest[i] == values[i] && rest_mask[i] == mask[i]);
        }
        lemma_subset_same_mean(rest, rest_mask, range);
        if mask.last() {
            let r = retained(rest, rest_mask);
            assert(r.push(values.last()).drop_last() =~= r);
        } else {
            assert(!range.admits(values[values.len() - 1]));
        }
    }
}

/// Filtering is idempotent: what was kept is kept whole when filtered
/// again, so the mean of the filtered values is the mean of all of them.
pub proof fn lemma_filter_idempotent(values: Seq<i64>, range: ValidRange)
    ensures
        kept(kept(values, range), range) == kept(values, range),
        mean_in_range(kept(values, range), range) == mean_in_range(values, range),
    decreases values.len(),
{
    if values.len() > 0 {
        let rest = values.drop_last();
        lemma_filter_idempotent(rest, range);
        if range.admits(values.last()) {
            let k = kept(rest, range);
            assert(k.push(values.last()).drop_last() =~= k);
        }
    }
}

/// Two sequences with the same values, in whatever order, keep the same
/// number of values with the same sum.
pub proof fn lemma_kept_of_permutation(a: Seq<i64>, b: Seq<i64>, range: ValidRange)
    requires
        a.to_multiset() == b.to_multiset(),
    ensures
        kept(a, range).len() == kept(b, range).len(),
        sum_of(kept(a, range)) == sum_of(kept(b, range)),
    decreases a.len(),
{
    broadcast use vstd::seq_lib::to_multiset_contains;

    vstd::seq_lib::to_multiset_len(a);
    vstd::seq_lib::to_multiset_len(b);
    assert(a.len() == b.len());
    if a.len() > 0 {
        let x = a.last();
        assert(a.contains(x));
        assert(a.to_multiset().count(x) > 0);
        assert(b.contains(x));
        let j = choose|j: int| 0 <= j < b.len() && b[j] == x;
        let last = a.len() - 1;
        assert(a.remove(last) =~= a.drop_last());
        vstd::seq_lib::to_multiset_remove(a, last);
        vstd::seq_lib::to_multiset_remove(b, j);
        lemma_kept_of_permutation(a.drop_last(), b.remove(j), range);
        lemma_kept_remove(b, j, range);
        if range.admits(x) {
            let k = kept(a.drop_last(), range);
            assert(k.push(x).drop_last() =~= k);
        }
    }
}

/// The mean does not depend on the order of the values.
pub proof fn lemma_order_independent(a: Seq<i64>, b: Seq<i64>, range: ValidRange)
    requires
        a.to_multiset() == b.to_multiset(),
    ensures
        mean_in_range(a, range) == mean_in_range(b, range),
{
    lemma_kept_of_permutation(a, b, range);
}

/// `a / n` rounded down, for a positive `n`.
pub(crate) fn div_floor(a: i128, n: i128) -> (q: i128)
    requires
        n > 0,
    ensures
        q == a / n,
{
    if a >= 0 {
        a / n
    } else {
        let m: i128 = -(a + 1);
        let q0: i128 = m / n;
        proof {
            let r0: int = m as int % n as int;
            vstd::arithmetic::div_mod::lemma_fundamental_div_mod(m as int, n as int);
            assert(m as int == n as int * q0 as int + r0);
            assert(a as int == (-(q0 as int) - 1) * n as int + (n as int - 1 - r0))
                by (nonlinear_arith)
                requires
                    m as int == n as int * q0 as int + r0,
                    a as int == -(m as int) - 1,
            ;
            vstd::arithmetic::div_mod::lemma_fundamental_div_mod_converse(
                a as int,
                n as int,
                -(q0 as int) - 1,
                n as int - 1 - r0,
            );
        }
        -q0 - 1
    }
}

/// The mean, rounded down, of all of `values`; none for no values.
pub fn mean_of(values: &[i64]) -> (result: Option<i64>)
    ensures
        same_value(result, mean(values@)),
        result is Some <==> values@.len() > 0,
{
    let mut sum: i128 = 0;
    let mut i: usize = 0;
    assert(values@.take(0) =~= Seq::<i64>::empty());
    while i < values.len()
        invariant
            i <= values.len(),
            sum == sum_of(values@.take(i as int)),
        decreases values.len() - i,
    {
        proof {
            let now = values@.take(i + 1);
            assert(now.drop_last() =~= values@.take(i as int));
            lemma_sum_bounds(values@.take(i as int), i64::MIN as int, i64::MAX as int);
            assert(usize::MAX <= 0xFFFF_FFFF_FFFF_FFFF);
        }
        sum = sum + values[i] as i128;
        i += 1;
    }
    assert(values@.take(i as int) =~= values@);
    if i == 0 {
        None
    } else {
        proof {
            lemma_sum_bounds(values@, i64::MIN as int, i64::MAX as int);
            lemma_mean_between(
                sum_of(values@),
                values@.len() as int,
                i64::MIN as int,
                i64::MAX as int,
            );
        }
        let m: i128 = div_floor(sum, i as i128);
        Some(m as i64)
    }
}

/// The mean, rounded down, of the values that lie strictly inside `range`;
/// none when no value does. Values outside the range do not count, and no
/// value stands in for an absent mean.
pub fn aggregate_values(values: &[i64], range: ValidRange) -> (result: Option<i64>)
    ensures
        same_value(result, mean_in_range(values@, range)),
        result is Some <==> exists|i: int| 0 <= i < values@.len() && range.admits(values@[i]),
        result matches Some(m) ==> range.admits(m),
{
    let mut sum: i128 = 0;
    let mut count: usize = 0;
    let mut i: usize = 0;
    assert(values@.take(0) =~= Seq::<i64>::empty());
    while i < values.len()
        invariant
            i <= values.len(),
            count <= i,
            count == kept(values@.take(i as int), range).len(),
            sum == sum_of(kept(values@.take(i as int), range)),
            count > 0 <==> exists|k: int| 0 <= k < i && range.admits(values@[k]),
        decreases values.len() - i,
    {
        let v: i64 = values[i];
        proof {
            let before = values@.take(i as int);
            let now = values@.take(i + 1);
            assert(now.drop_last() =~= before);
            assert(now.last() == v);
            lemma_kept_admitted(before, range);
            lemma_sum_bounds(kept(before, range), i64::MIN as int, i64::MAX as int);
            assert(usize::MAX <= 0xFFFF_FFFF_FFFF_FFFF);
            assert(kept(before, range).push(v).drop_last() =~= kept(before, range));
        }
        if range.contains(v) {
            sum = sum + v as i128;
            count = count + 1;
        }
        i += 1;
    }
    assert(values@.take(i as int) =~= values@);
    if count == 0 {
        None
    } else {
        let ghost admitted = kept(values@, range);
        proof {
            lemma_kept_admitted(values@, range);
            lemma_sum_bounds(admitted, range.min + 1, range.max - 1);
            lemma_mean_between(
                sum_of(admitted),
                admitted.len() as int,
                range.min + 1,
                range.max - 1,
            );
        }
        let m: i128 = div_floor(sum, count as i128);
        Some(m as i64)
    }
}

/// The representative value of `zone`: the mean, rounded down, of the
/// readings whose key `table` assigns to `zone` and whose value lies
/// strictly inside `range`; none when there is no such reading.
pub fn aggregate(
    table: &ClassificationTable,
    zone: Zone,
    readings: &[SensorReading],
    range: ValidRange,
) -> (result: Option<i64>)
    ensures
        same_value(result, zone_mean(table@, zone, readings@, range)),
        zone == Zone::Unclassified ==> result is None,
        result matches Some(m) ==> range.admits(m),
{
    let mut values: Vec<i64> = Vec::new();
    let mut i: usize = 0;
    assert(readings@.take(0) =~= Seq::<SensorReading>::empty());
    while i < readings.len()
        invariant
            i <= readings.len(),
            values@ == zone_values(table@, readings@.take(i as int), zone),
            zone == Zone::Unclassified ==> values@.len() == 0,
        decreases readings.len() - i,
    {
        let reading: SensorReading = readings[i];
        proof {
            let now = readings@.take(i + 1);
            assert(now.drop_last() =~= readings@.take(i as int));
            assert(now.last() == reading);
        }
        if zone != Zone::Unclassified && table.classify(reading.key) == zone {
            values.push(reading.value);
        }
        i += 1;
    }
    assert(readings@.take(i as int) =~= readings@);
    aggregate_values(values.as_slice(), range)
}

/// The values of the readings whose key begins with `prefix`, in their
/// order.
pub open spec fn family_values(readings: Seq<SensorReading>, prefix: Seq<u8>) -> Seq<i64>
    decreases readings.len(),
{
    if readings.len() == 0 {
        Seq::empty()
    } else if has_prefix(readings.last().key.bytes(), prefix) {
        family_values(readings.drop_last(), prefix).push(readings.last().value)
    } else {
        family_values(readings.drop_last(), prefix)
    }
}

/// The mean of the readings whose key begins with `prefix` and whose value
/// lies strictly inside `range`, whatever their zone; none when there is no
/// such reading.
pub fn aggregate_family(readings: &[SensorReading], prefix: &[u8], range: ValidRange) -> (result:
    Option<i64>)
    ensures
        same_value(result, mean_in_range(family_values(readings@, prefix@), range)),
        result matches Some(m) ==> range.admits(m),
{
    let mut values: Vec<i64> = Vec::new();
    let mut i: usize = 0;
    assert(readings@.take(0) =~= Seq::<SensorReading>::empty());
    while i < readings.len()
        invariant
            i <= readings.len(),
            values@ == family_values(readings@.take(i as int), prefix@),
        decreases readings.len() - i,
    {
        let reading: SensorReading = readings[i];
        proof {
            let now = readings@.take(i + 1);
            assert(now.drop_last() =~= readings@.take(i as int));
            assert(now.last() == reading);
        }
        if key_has_prefix(reading.key, prefix) {
            values.push(reading.value);
        }
        i += 1;
    }
    assert(readings@.take(i as int) =~= readings@);
    aggregate_values(values.as_slice(), range)
}

/// The representative value of `zone` where it has one; where it has
/// none, the mean over the whole family of keys that begin with `family`.
pub fn aggregate_or_family(
    table: &ClassificationTable,
    zone: Zone,
    readings: &[SensorReading],
    range: ValidRange,
    family: &[u8],
) -> (result: Option<i64>)
    ensures
        zone_mean(table@, zone, readings@, range) is Some ==> same_value(
            result,
            zone_mean(table@, zone, readings@, range),
        ),
        zone_mean(table@, zone, readings@, range) is None ==> same_value(
            result,
            mean_in_range(family_values(readings@, family@), range),
        ),
        result matches Some(m) ==> range.admits(m),
{
    match aggregate(table, zone, readings, range) {
        Some(m) => Some(m),
        None => aggregate_family(readings, family, range),
    }
}

/// A mean as a number and a mark: the mean and `true` where there is
/// one, zero and `false` where there is none, so that a reader can tell a
/// measured zero from no measurement.
pub fn or_unavailable(result: Option<i64>) -> (shown: (i64, bool))
    ensures
        result matches Some(m) ==> shown == (m, true),
        result is None ==> shown == (0i64, false),
{
    match result {
        Some(m) => (m, true),
        None => (0, false),
    }
}

} // verus!
