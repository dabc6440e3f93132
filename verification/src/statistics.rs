//! The figures of the statistics screen: how much was watched, and how
//! long the watched series run on average.

use crate::catalog::SeriesMainInformation;
use crate::collection::{total_episodes, total_seasons, SeriesCollection};
use vstd::prelude::*;

verus! {

pub const MINUTES_PER_HOUR: u128 = 60;

pub const MINUTES_PER_DAY: u128 = 1440;

/// Minutes of a month of thirty days.
pub const MINUTES_PER_MONTH: u128 = 43200;

/// Minutes of a year of 365 days.
pub const MINUTES_PER_YEAR: u128 = 525600;

/// How many series, seasons and episodes were watched.
#[derive(Debug, Clone, Copy, PartialEq, Eq, Structural)]
pub struct WatchCount {
    pub series: usize,
    pub seasons: u128,
    pub episodes: u128,
}

/// A number of minutes, and the same time in whole years, months of the
/// year, days of the month and hours of the day.
#[derive(Debug, Clone, Copy, PartialEq, Eq, Structural)]
pub struct TimeCount {
    pub minutes: u128,
    pub years: u128,
    pub months: u128,
    pub days: u128,
    pub hours: u128,
}

/// The sum of the minutes that stand beside the series.
pub open spec fn total_minutes(items: Seq<(SeriesMainInformation, u32)>) -> nat
    decreases items.len(),
{
    if items.len() == 0 {
        0
    } else {
        total_minutes(items.drop_last()) + items.last().1 as nat
    }
}

/// The time of so many minutes, in the units of the screen.
pub open spec fn time_of(minutes: nat) -> TimeCount {
    TimeCount {
        minutes: minutes as u128,
        years: (minutes / 525600) as u128,
        months: ((minutes / 43200) % 12) as u128,
        days: ((minutes / 1440) % 30) as u128,
        hours: ((minutes / 60) % 24) as u128,
    }
}

/// The numbers of series, seasons and watched episodes of the collection.
pub fn watch_count(collection: &SeriesCollection) -> (out: WatchCount)
    ensures
        out.series == collection@.len(),
        out.seasons == total_seasons(collection@),
        out.episodes == total_episodes(collection@),
{
    WatchCount {
        series: collection.get_total_series(),
        seasons: collection.get_total_seasons(),
        episodes: collection.get_total_episodes(),
    }
}

/// The minutes that stand beside the series, added up, and the same time in
/// years, months, days and hours.
pub fn time_count(series_infos_and_time: &[(SeriesMainInformation, u32)]) -> (out: TimeCount)
    ensures
        out == time_of(total_minutes(series_infos_and_time@)),
        out.minutes == total_minutes(series_infos_and_time@),
{
    let mut sum: u128 = 0;
    let mut i: usize = 0;
    while i < series_infos_and_time.len()
        invariant
            i <= series_infos_and_time.len(),
            sum == total_minutes(series_infos_and_time@.take(i as int)),
            sum <= i * 0xffff_ffff,
        decreases series_infos_and_time.len() - i,
    {
        assert(series_infos_and_time@.take(i + 1).drop_last() =~= series_infos_and_time@.take(
            i as int,
        ));
        assert((i + 1) * 0xffff_ffff == i * 0xffff_ffff + 0xffff_ffff) by (nonlinear_arith);
        assert((i + 1) * 0xffff_ffff <= 0x1_0000_0000_0000_0000 * 0xffff_ffff)
            by (nonlinear_arith)
            requires
                i + 1 <= 0x1_0000_0000_0000_0000,
        ;
        sum = sum + series_infos_and_time[i].1 as u128;
        i = i + 1;
    }
    assert(series_infos_and_time@.take(i as int) =~= series_infos_and_time@);
    TimeCount {
        minutes: sum,
        years: sum / MINUTES_PER_YEAR,
        months: (sum / MINUTES_PER_MONTH) % 12,
        days: (sum / MINUTES_PER_DAY) % 30,
        hours: (sum / MINUTES_PER_HOUR) % 24,
    }
}

} // verus!
