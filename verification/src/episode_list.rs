//! The schedule of one series, and the episode that airs next.

use crate::catalog::{Episode, FetchError};
use vstd::prelude::*;

verus! {

/// The episodes of one series, in the order in which the catalog gave them.
#[derive(Debug, Clone, PartialEq, Eq)]
pub struct EpisodeList {
    series_id: u32,
    episodes: Vec<Episode>,
}

/// Whether some episode airs after `now`.
pub open spec fn has_upcoming(episodes: Seq<Episode>, now: i64) -> bool {
    exists|i: int| 0 <= i < episodes.len() && (#[trigger] episodes[i]).air_date > now
}

/// Whether the episode at place `i` is the next to air after `now`: it airs
/// after `now`, no episode that airs after `now` airs earlier, and of those
/// that air at the same time it comes first.
pub open spec fn is_next(episodes: Seq<Episode>, now: i64, i: int) -> bool {
    &&& 0 <= i < episodes.len()
    &&& episodes[i].air_date > now
    &&& forall|j: int|
        0 <= j < episodes.len() && (#[trigger] episodes[j]).air_date > now
            ==> episodes[i].air_date <= episodes[j].air_date
    &&& forall|j: int| 0 <= j < i ==> (#[trigger] episodes[j]).air_date != episodes[i].air_date
}

/// The place of the episode that airs next after `now`, where there is one.
pub open spec fn next_place(episodes: Seq<Episode>, now: i64) -> int {
    choose|i: int| is_next(episodes, now, i)
}

/// Only one episode is the next to air.
pub proof fn lemma_next_is_unique(episodes: Seq<Episode>, now: i64, i: int, j: int)
    requires
        is_next(episodes, now, i),
        is_next(episodes, now, j),
    ensures
        i == j,
{
    assert(episodes[i].air_date <= episodes[j].air_date);
    assert(episodes[j].air_date <= episodes[i].air_date);
}

impl EpisodeList {
    /// The series that the schedule belongs to.
    pub closed spec fn spec_series_id(&self) -> u32 {
        self.series_id
    }

    /// The episodes of the schedule.
    pub closed spec fn spec_episodes(&self) -> Seq<Episode> {
        self.episodes@
    }

    /// The schedule of a series from what fetching it gave: the episodes as
    /// they came, or the failure as it came.
    pub fn new(series_id: u32, fetched: Result<Vec<Episode>, FetchError>) -> (out: Result<
        EpisodeList,
        FetchError,
    >)
        ensures
            match fetched {
                Ok(episodes) => out is Ok && out->Ok_0.spec_series_id() == series_id
                    && out->Ok_0.spec_episodes() == episodes@,
                Err(e) => out == Err::<EpisodeList, FetchError>(e),
            },
    {
        match fetched {
            Ok(episodes) => Ok(EpisodeList { series_id, episodes }),
            Err(e) => Err(e),
        }
    }

    #[verifier::when_used_as_spec(spec_series_id)]
    pub fn series_id(&self) -> (out: u32)
        ensures
            out == self.spec_series_id(),
    {
        self.series_id
    }

    /// The episodes of the schedule.
    pub fn get_episodes(&self) -> (out: &Vec<Episode>)
        ensures
            out@ == self.spec_episodes(),
    {
        &self.episodes
    }

    /// The episode that airs next after `now`: the earliest of those that
    /// air after `now`, and the first of the schedule where several air at
    /// that time. Nothing where no episode airs after `now`.
    pub fn get_next_episode(&self, now: i64) -> (out: Option<&Episode>)
        ensures
            out is Some <==> has_upcoming(self.spec_episodes(), now),
            out is Some ==> is_next(
                self.spec_episodes(),
                now,
                next_place(self.spec_episodes(), now),
            ) && *out->0 == self.spec_episodes()[next_place(self.spec_episodes(), now)],
    {
        let n = self.episodes.len();
        let mut best: Option<usize> = None;
        let mut i: usize = 0;
        while i < n
            invariant
                i <= n,
                n == self.episodes.len(),
                best is None <==> !has_upcoming(self.episodes@.take(i as int), now),
                best is Some ==> best->0 < i && is_next(
                    self.episodes@.take(i as int),
                    now,
                    best->0 as int,
                ),
            decreases n - i,
        {
            let ghost seen = self.episodes@.take(i as int);
            let ghost more = self.episodes@.take(i + 1);
            assert(forall|j: int| 0 <= j < i ==> more[j] == seen[j]);
            let better = self.episodes[i].air_date > now && match best {
                None => true,
                Some(b) => self.episodes[i].air_date < self.episodes[b].air_date,
            };
            proof {
                if has_upcoming(seen, now) {
                    let w = choose|w: int| 0 <= w < seen.len() && (#[trigger] seen[w]).air_date > now;
                    assert(more[w].air_date > now);
                }
                if has_upcoming(more, now) && !has_upcoming(seen, now) {
                    let w = choose|w: int| 0 <= w < more.len() && (#[trigger] more[w]).air_date > now;
                    if w < i {
                        assert(seen[w].air_date > now);
                    }
                }
            }
            if better {
                proof {
                    assert(more[i as int].air_date > now);
                    assert forall|j: int|
                        0 <= j < more.len() && (#[trigger] more[j]).air_date > now implies more[i as int].air_date
                        <= more[j].air_date by {
                        if j < i {
                            assert(seen[j].air_date > now);
                        }
                    }
                    assert forall|j: int| 0 <= j < i implies (#[trigger] more[j]).air_date
                        != more[i as int].air_date by {
                        if more[j].air_date == more[i as int].air_date {
                            assert(seen[j].air_date > now);
                        }
                    }
                }
                best = Some(i);
            } else {
                proof {
                    if best is Some {
                        let b = best->0 as int;
                        assert forall|j: int|
                            0 <= j < more.len() && (#[trigger] more[j]).air_date > now implies more[b].air_date
                            <= more[j].air_date by {
                            if j < i {
                                assert(seen[j].air_date > now);
                            }
                        }
                        assert forall|j: int| 0 <= j < b implies (#[trigger] more[j]).air_date
                            != more[b].air_date by {
                            assert(seen[j].air_date != seen[b].air_date);
                        }
                    } else {
                        assert(!(more[i as int].air_date > now));
                    }
                }
            }
            i = i + 1;
        }
        assert(self.episodes@.take(n as int) =~= self.episodes@);
        match best {
            None => None,
            Some(b) => {
                proof {
                    let p = next_place(self.episodes@, now);
                    assert(is_next(self.episodes@, now, p));
                    lemma_next_is_unique(self.episodes@, now, p, b as int);
                }
                Some(&self.episodes[b])
            },
        }
    }
}

} // verus!
