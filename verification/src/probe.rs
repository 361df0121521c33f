//! The rules of the tools that are run by hand to find the keys of a
//! machine: when a key matches what the system reports, when a key has
//! moved, and where the thresholds between dark and bright content lie.

use crate::detector::{distance, distance_between};
use vstd::prelude::*;

verus! {

/// The change, in thousandths of a unit, above which a key has moved.
pub const MOVED_ABOVE: u64 = 500_000;

/// The distance, in thousandths of a milliwatt, below which a key matches
/// a report whatever the size of the report.
pub const MATCH_WITHIN: u64 = 200_000;

/// The range between a white and a black screen, in milliwatts, below
/// which no thresholds are given.
pub const LEAST_RANGE_MW: i64 = 500;

/// `value` is close to `reported`: the distance between them is less
/// than three tenths of `reported`, or less than the fixed bound.
pub open spec fn close_to(value: int, reported: int) -> bool {
    distance(value, reported) * 10 < reported * 3 || distance(value, reported) < 200_000
}

/// The two thresholds that part the range from `black` to `white` in
/// thirds, each third rounded down; none where the range is too small.
pub open spec fn thirds(white: int, black: int) -> Option<(int, int)> {
    if white - black < 500 {
        None
    } else {
        Some((black + (white - black) / 3, black + (white - black) / 3 * 2))
    }
}

/// The value of a key matches what the system reports, both in
/// thousandths of a milliwatt: they are less than three tenths of the
/// report apart, or less than 200 milliwatts.
pub fn matches_report(value: i64, reported: i64) -> (close: bool)
    ensures
        close == close_to(value as int, reported as int),
{
    let gap: u64 = distance_between(value, reported);
    gap as i128 * 10 < reported as i128 * 3 || gap < MATCH_WITHIN
}

/// A key has moved between two readings, both in thousandths of its unit:
/// they are more than 500 units apart.
pub fn has_moved(before: i64, after: i64) -> (moved: bool)
    ensures
        moved == (distance(before as int, after as int) > 500_000),
{
    distance_between(before, after) > MOVED_ABOVE
}

/// The thresholds, in milliwatts, between dark, middle and bright content
/// from the display power on a white and on a black screen: a third and
/// two thirds of the way from black to white. None where white is less
/// than 500 milliwatts above black.
pub fn content_thresholds(white_mw: i64, black_mw: i64) -> (found: Option<(i64, i64)>)
    ensures
        found matches Some(t) ==> thirds(white_mw as int, black_mw as int) == Some(
            (t.0 as int, t.1 as int),
        ),
        found is None <==> thirds(white_mw as int, black_mw as int) is None,
{
    let range: i128 = white_mw as i128 - black_mw as i128;
    if range < LEAST_RANGE_MW as i128 {
        None
    } else {
        let step: i128 = range / 3;
        Some(((black_mw as i128 + step) as i64, (black_mw as i128 + step * 2) as i64))
    }
}

} // verus!
