//! One series: which seasons and episodes were watched, how long an
//! episode lasts, and the totals that follow.

use crate::ordered::{
    increasing, increasing_pairs, insert_sorted, insert_sorted_pair,
    lemma_increasing_pairs_no_duplicates, lower_bound, lower_bound_pairs, pair_lt, remove_sorted,
    remove_sorted_pair,
};
use crate::range::{lemma_range_view, NumberRange};
use crate::text::{decimal, push_decimal};
use vstd::prelude::*;
use vstd::string::StringExecFns;

verus! {

/// Minutes that an episode lasts where the series gives no duration.
pub const DEFAULT_EPISODE_DURATION_MINUTES: u32 = 30;

/// Why an operation on a series was refused.
#[derive(Debug, Clone, Copy, PartialEq, Eq, Structural)]
pub enum SeriesError {
    SeasonAlreadyExists,
    SeasonNotFound,
    EpisodeAlreadyExists,
    EpisodeNotFound,
}

/// A series and what was watched of it.
#[derive(Debug, Clone, PartialEq, Eq)]
pub struct Series {
    id: u64,
    name: String,
    tracking: bool,
    seasons: Vec<u32>,
    episodes: Vec<(u32, u32)>,
    episode_duration: Option<u32>,
}

/// What a series holds: its identifier, its name, whether it is followed,
/// its seasons in increasing order, its watched episodes as pairs of season
/// and episode in increasing order, and the minutes of an episode where
/// they were set.
pub struct SeriesView {
    pub id: u64,
    pub name: Seq<char>,
    pub is_tracked: bool,
    pub seasons: Seq<u32>,
    pub episodes: Seq<(u32, u32)>,
    pub duration: Option<u32>,
}

impl SeriesView {
    /// The seasons are in increasing order, the watched episodes too, and
    /// each watched episode belongs to one of the seasons.
    pub open spec fn wf(self) -> bool {
        &&& increasing(self.seasons)
        &&& increasing_pairs(self.episodes)
        &&& forall|i: int|
            0 <= i < self.episodes.len() ==> self.seasons.contains(#[trigger] self.episodes[i].0)
    }

    pub open spec fn season_set(self) -> Set<u32> {
        self.seasons.to_set()
    }

    pub open spec fn watched(self) -> Set<(u32, u32)> {
        self.episodes.to_set()
    }

    /// Minutes of one episode: those that were set, else the default.
    pub open spec fn minutes_per_episode(self) -> nat {
        match self.duration {
            Some(minutes) => minutes as nat,
            None => DEFAULT_EPISODE_DURATION_MINUTES as nat,
        }
    }

    /// Minutes spent on all watched episodes.
    pub open spec fn total_watch_time(self) -> nat {
        self.episodes.len() * self.minutes_per_episode()
    }

    /// The same series with other seasons and watched episodes.
    pub open spec fn with_progress(self, seasons: Seq<u32>, episodes: Seq<(u32, u32)>) -> Self {
        SeriesView { seasons, episodes, ..self }
    }

    /// Whether the series has the season.
    pub open spec fn has_season(self, season: u32) -> bool {
        self.seasons.contains(season)
    }

    /// Whether the episode of the season is marked as watched.
    pub open spec fn has_episode(self, season: u32, episode: u32) -> bool {
        self.episodes.contains((season, episode))
    }

    /// What adding a season does: refused where the season is there, else
    /// the season joins the others and nothing else changes.
    pub open spec fn add_season_outcome(
        self,
        season: u32,
        out: Result<(), SeriesError>,
        after: SeriesView,
    ) -> bool {
        if self.has_season(season) {
            out == Err::<(), SeriesError>(SeriesError::SeasonAlreadyExists) && after == self
        } else {
            &&& out == Ok::<(), SeriesError>(())
            &&& after.wf()
            &&& after.season_set() == self.season_set().insert(season)
            &&& after == self.with_progress(after.seasons, self.episodes)
        }
    }

    /// What removing a season does: refused where the season is missing,
    /// else the season leaves with its watched episodes.
    pub open spec fn remove_season_outcome(
        self,
        season: u32,
        out: Result<(), SeriesError>,
        after: SeriesView,
    ) -> bool {
        if !self.has_season(season) {
            out == Err::<(), SeriesError>(SeriesError::SeasonNotFound) && after == self
        } else {
            &&& out == Ok::<(), SeriesError>(())
            &&& after.wf()
            &&& after.season_set() == self.season_set().remove(season)
            &&& after.watched() == without_season(self.watched(), season)
            &&& after == self.with_progress(after.seasons, after.episodes)
        }
    }

    /// What marking an episode does: refused where it is marked, else the
    /// episode joins the watched ones, and its season the seasons.
    pub open spec fn add_episode_outcome(
        self,
        season: u32,
        episode: u32,
        out: Result<(), SeriesError>,
        after: SeriesView,
    ) -> bool {
        if self.has_episode(season, episode) {
            out == Err::<(), SeriesError>(SeriesError::EpisodeAlreadyExists) && after == self
        } else {
            &&& out == Ok::<(), SeriesError>(())
            &&& after.wf()
            &&& after.season_set() == self.season_set().insert(season)
            &&& after.watched() == self.watched().insert((season, episode))
            &&& after.episodes.len() == self.episodes.len() + 1
            &&& after == self.with_progress(after.seasons, after.episodes)
        }
    }

    /// What unmarking an episode does: refused where the season is missing
    /// or the episode is not marked, else the episode leaves the watched
    /// ones and the seasons stay.
    pub open spec fn remove_episode_outcome(
        self,
        season: u32,
        episode: u32,
        out: Result<(), SeriesError>,
        after: SeriesView,
    ) -> bool {
        if !self.has_season(season) {
            out == Err::<(), SeriesError>(SeriesError::SeasonNotFound) && after == self
        } else if !self.has_episode(season, episode) {
            out == Err::<(), SeriesError>(SeriesError::EpisodeNotFound) && after == self
        } else {
            &&& out == Ok::<(), SeriesError>(())
            &&& after.wf()
            &&& after.watched() == self.watched().remove((season, episode))
            &&& after.episodes.len() == self.episodes.len() - 1
            &&& after == self.with_progress(self.seasons, after.episodes)
        }
    }

    /// What adding a range of seasons does.
    pub open spec fn add_season_range_outcome(self, first: u32, last: u32, after: SeriesView) -> bool {
        &&& after.wf()
        &&& after.season_set() == self.season_set().union(number_run(first, last))
        &&& after == self.with_progress(after.seasons, self.episodes)
    }

    /// What marking a range of episodes of a season does.
    pub open spec fn add_episode_range_outcome(
        self,
        season: u32,
        first: u32,
        last: u32,
        after: SeriesView,
    ) -> bool {
        &&& after.wf()
        &&& after.season_set() == self.season_set().insert(season)
        &&& after.watched() == self.watched().union(season_run(season, first, last))
        &&& after == self.with_progress(after.seasons, after.episodes)
    }

    /// What unmarking a range of episodes of a season does.
    pub open spec fn remove_episode_range_outcome(
        self,
        season: u32,
        first: u32,
        last: u32,
        after: SeriesView,
    ) -> bool {
        &&& after.wf()
        &&& after.watched() == self.watched().difference(season_run(season, first, last))
        &&& after == self.with_progress(self.seasons, after.episodes)
    }
}

/// The episodes of `season` among `episodes`, in their order.
pub open spec fn episodes_of(episodes: Seq<(u32, u32)>, season: u32) -> Seq<u32>
    decreases episodes.len(),
{
    if episodes.len() == 0 {
        Seq::empty()
    } else {
        let rest = episodes_of(episodes.drop_last(), season);
        if episodes.last().0 == season {
            rest.push(episodes.last().1)
        } else {
            rest
        }
    }
}

/// The pairs of `season` with each number from `first` to `last`.
pub open spec fn season_run(season: u32, first: u32, last: u32) -> Set<(u32, u32)> {
    Set::new(|p: (u32, u32)| p.0 == season && first <= p.1 <= last)
}

/// The pairs of `watched` that belong to another season than `season`.
pub open spec fn without_season(watched: Set<(u32, u32)>, season: u32) -> Set<(u32, u32)> {
    watched.filter(|p: (u32, u32)| p.0 != season)
}

/// The numbers from `first` to `last`.
pub open spec fn number_run(first: u32, last: u32) -> Set<u32> {
    Set::new(|n: u32| first <= n <= last)
}

/// The text of a list of numbers: each after a space.
pub open spec fn number_list(numbers: Seq<u32>) -> Seq<char>
    decreases numbers.len(),
{
    if numbers.len() == 0 {
        Seq::empty()
    } else {
        number_list(numbers.drop_last()) + " "@ + decimal(numbers.last() as nat)
    }
}

/// The line that sums up a season.
pub open spec fn season_line(season: u32, count: nat) -> Seq<char> {
    "Season "@ + decimal(season as nat) + ": "@ + decimal(count) + " episodes"@
}

/// The line that lists the watched episodes of a season.
pub open spec fn episodes_line(season: u32, numbers: Seq<u32>) -> Seq<char> {
    "Season "@ + decimal(season as nat) + ":"@ + number_list(numbers)
}

/// The report on a series.
pub open spec fn summary_text(v: SeriesView) -> Seq<char> {
    "Series: "@ + v.name + "\nEpisode duration: "@ + decimal(v.minutes_per_episode())
        + " minutes\nSeasons: "@ + decimal(v.seasons.len()) + "\nEpisodes: "@ + decimal(
        v.episodes.len(),
    ) + "\nWatch time: "@ + decimal(v.total_watch_time()) + " minutes"@
}

/// An episode is listed under a season exactly if the pair is watched.
pub proof fn lemma_episodes_of_contains(episodes: Seq<(u32, u32)>, season: u32, episode: u32)
    ensures
        episodes_of(episodes, season).contains(episode) <==> episodes.contains((season, episode)),
    decreases episodes.len(),
{
    if episodes.len() > 0 {
        let init = episodes.drop_last();
        let rest = episodes_of(init, season);
        lemma_episodes_of_contains(init, season, episode);
        if episodes.contains((season, episode)) {
            let k = choose|k: int| 0 <= k < episodes.len() && episodes[k] == (season, episode);
            if k < init.len() {
                assert(init[k] == (season, episode));
                assert(rest.contains(episode));
                let j = choose|j: int| 0 <= j < rest.len() && rest[j] == episode;
                assert(episodes_of(episodes, season)[j] == episode);
            } else {
                assert(episodes_of(episodes, season).last() == episode);
            }
        }
        if episodes_of(episodes, season).contains(episode) {
            let full = episodes_of(episodes, season);
            let j = choose|j: int| 0 <= j < full.len() && full[j] == episode;
            if j < rest.len() {
                assert(rest[j] == episode);
                assert(init.contains((season, episode)));
                let k = choose|k: int| 0 <= k < init.len() && init[k] == (season, episode);
                assert(episodes[k] == (season, episode));
            } else {
                assert(episodes[episodes.len() - 1] == (season, episode));
            }
        }
    }
}

impl View for Series {
    type V = SeriesView;

    closed spec fn view(&self) -> SeriesView {
        SeriesView {
            id: self.id,
            name: self.name@,
            is_tracked: self.tracking,
            seasons: self.seasons@,
            episodes: self.episodes@,
            duration: self.episode_duration,
        }
    }
}

impl Series {
    /// The invariant of a series: that of its view.
    pub open spec fn wf(&self) -> bool {
        self@.wf()
    }

    /// A series without seasons, marked as followed.
    pub fn new(id: u64, name: String, episode_duration: Option<u32>) -> (out: Series)
        ensures
            out.wf(),
            out@ == (SeriesView {
                id,
                name: name@,
                is_tracked: true,
                seasons: Seq::empty(),
                episodes: Seq::empty(),
                duration: episode_duration,
            }),
    {
        Series {
            id,
            name,
            tracking: true,
            seasons: Vec::new(),
            episodes: Vec::new(),
            episode_duration,
        }
    }

    /// The series with the given name, seasons and watched episodes, if the
    /// seasons are in increasing order, the watched episodes too, and each
    /// watched episode belongs to one of the seasons.
    pub fn from_parts(
        id: u64,
        name: String,
        is_tracked: bool,
        episode_duration: Option<u32>,
        seasons: Vec<u32>,
        episodes: Vec<(u32, u32)>,
    ) -> (out: Option<Series>)
        ensures
            out is Some <==> (SeriesView {
                id,
                name: name@,
                is_tracked,
                seasons: seasons@,
                episodes: episodes@,
                duration: episode_duration,
            }).wf(),
            out is Some ==> out->0@ == (SeriesView {
                id,
                name: name@,
                is_tracked,
                seasons: seasons@,
                episodes: episodes@,
                duration: episode_duration,
            }),
    {
        let mut i: usize = 1;
        while i < seasons.len()
            invariant
                1 <= i,
                forall|a: int|
                    0 <= a < i - 1 && a + 1 < seasons.len() ==> #[trigger] seasons@[a] < seasons@[a
                        + 1],
            decreases seasons.len() - i,
        {
            if seasons[i - 1] >= seasons[i] {
                return None;
            }
            i = i + 1;
        }
        proof {
            lemma_adjacent_increasing(seasons@);
        }
        let mut j: usize = 0;
        while j < episodes.len()
            invariant
                j <= episodes.len(),
                increasing(seasons@),
                forall|a: int| 0 <= a < j - 1 ==> pair_lt(#[trigger] episodes@[a], episodes@[a + 1]),
                forall|a: int| 0 <= a < j ==> seasons@.contains(#[trigger] episodes@[a].0),
            decreases episodes.len() - j,
        {
            if j > 0 && !crate::ordered::pair_before(episodes[j - 1], episodes[j]) {
                return None;
            }
            let at = lower_bound(&seasons, episodes[j].0);
            if !(at < seasons.len() && seasons[at] == episodes[j].0) {
                return None;
            }
            j = j + 1;
        }
        proof {
            lemma_adjacent_increasing_pairs(episodes@);
        }
        Some(Series { id, name, tracking: is_tracked, seasons, episodes, episode_duration })
    }

    /// The minutes of an episode, where they were set.
    pub fn get_episode_duration_override(&self) -> (out: Option<u32>)
        ensures
            out == self@.duration,
    {
        self.episode_duration
    }

    /// The seasons, in increasing order.
    pub fn get_season_list(&self) -> (out: &Vec<u32>)
        ensures
            out@ == self@.seasons,
    {
        &self.seasons
    }

    /// The watched episodes as pairs of season and episode, in increasing
    /// order.
    pub fn get_watched(&self) -> (out: &Vec<(u32, u32)>)
        ensures
            out@ == self@.episodes,
    {
        &self.episodes
    }

    /// The identifier of the series.
    pub fn get_id(&self) -> (out: u64)
        ensures
            out == self@.id,
    {
        self.id
    }

    /// A series that holds what this one holds.
    pub fn duplicate(&self) -> (out: Series)
        ensures
            out@ == self@,
    {
        let mut episodes: Vec<(u32, u32)> = Vec::new();
        let mut i: usize = 0;
        while i < self.episodes.len()
            invariant
                i <= self.episodes.len(),
                episodes@ == self.episodes@.take(i as int),
            decreases self.episodes.len() - i,
        {
            episodes.push(self.episodes[i]);
            assert(episodes@ =~= self.episodes@.take(i + 1));
            i = i + 1;
        }
        assert(self.episodes@.take(i as int) =~= self.episodes@);
        Series {
            id: self.id,
            name: self.name.clone(),
            tracking: self.tracking,
            seasons: self.seasons.clone(),
            episodes,
            episode_duration: self.episode_duration,
        }
    }

    /// The name of the series.
    pub fn get_name(&self) -> (out: &String)
        ensures
            out@ == self@.name,
    {
        &self.name
    }

    /// Gives the series another identifier.
    pub(crate) fn set_id(&mut self, id: u64)
        ensures
            final(self)@ == (SeriesView { id, ..old(self)@ }),
    {
        self.id = id;
    }

    /// Gives the series another name.
    pub(crate) fn set_name(&mut self, name: String)
        ensures
            final(self)@ == (SeriesView { name: name@, ..old(self)@ }),
    {
        self.name = name;
    }

    /// Whether the series is followed.
    pub fn is_tracked(&self) -> (out: bool)
        ensures
            out == self@.is_tracked,
    {
        self.tracking
    }

    /// Marks the series as followed.
    pub fn mark_tracked(&mut self)
        ensures
            final(self)@ == (SeriesView { is_tracked: true, ..old(self)@ }),
    {
        self.tracking = true;
    }

    /// Marks the series as no longer followed; what was watched stays.
    pub fn mark_untracked(&mut self)
        ensures
            final(self)@ == (SeriesView { is_tracked: false, ..old(self)@ }),
    {
        self.tracking = false;
    }

    /// Whether the series has the season.
    pub fn has_season(&self, season: u32) -> (out: bool)
        requires
            self.wf(),
        ensures
            out == self@.seasons.contains(season),
    {
        let at = lower_bound(&self.seasons, season);
        at < self.seasons.len() && self.seasons[at] == season
    }

    /// Whether the episode of the season is marked as watched.
    pub fn has_episode(&self, season: u32, episode: u32) -> (out: bool)
        requires
            self.wf(),
        ensures
            out == self@.episodes.contains((season, episode)),
    {
        let at = lower_bound_pairs(&self.episodes, (season, episode));
        at < self.episodes.len() && self.episodes[at].0 == season && self.episodes[at].1
            == episode
    }

    /// Adds a season without watched episodes.
    pub fn add_season(&mut self, season: u32) -> (out: Result<(), SeriesError>)
        requires
            old(self).wf(),
        ensures
            final(self).wf(),
            old(self)@.add_season_outcome(season, out, final(self)@),
    {
        let added = insert_sorted(&mut self.seasons, season);
        proof {
            assert forall|i: int| 0 <= i < self.episodes@.len() implies self.seasons@.contains(
                #[trigger] self.episodes@[i].0,
            ) by {
                assert(old(self)@.seasons.contains(self.episodes@[i].0));
                assert(old(self)@.seasons.to_set().contains(self.episodes@[i].0));
                assert(self.seasons@.to_set().contains(self.episodes@[i].0));
            }
        }
        if added {
            Ok(())
        } else {
            Err(SeriesError::SeasonAlreadyExists)
        }
    }

    /// Removes a season, and with it the season's watched episodes.
    pub fn remove_season(&mut self, season: u32) -> (out: Result<(), SeriesError>)
        requires
            old(self).wf(),
        ensures
            final(self).wf(),
            old(self)@.remove_season_outcome(season, out, final(self)@),
    {
        let removed = remove_sorted(&mut self.seasons, season);
        if !removed {
            return Err(SeriesError::SeasonNotFound);
        }
        let mut kept: Vec<(u32, u32)> = Vec::new();
        let mut i: usize = 0;
        while i < self.episodes.len()
            invariant
                i <= self.episodes.len(),
                self.episodes == old(self).episodes,
                increasing_pairs(self.episodes@),
                increasing_pairs(kept@),
                forall|a: int, j: int|
                    0 <= a < kept.len() && i <= j < self.episodes.len() ==> pair_lt(
                        kept@[a],
                        self.episodes@[j],
                    ),
                forall|p: (u32, u32)|
                    kept@.contains(p) <==> (self.episodes@.take(i as int).contains(p) && p.0
                        != season),
            decreases self.episodes.len() - i,
        {
            let p = self.episodes[i];
            let ghost before = kept@;
            if p.0 != season {
                kept.push(p);
            }
            proof {
                let eps = self.episodes@;
                let t0 = eps.take(i as int);
                let t1 = eps.take(i + 1);
                assert forall|q: (u32, u32)| kept@.contains(q) <==> (t1.contains(q) && q.0
                    != season) by {
                    if kept@.contains(q) {
                        let k = choose|k: int| 0 <= k < kept@.len() && kept@[k] == q;
                        if k < before.len() {
                            assert(before[k] == q);
                            assert(before.contains(q));
                            let m = choose|m: int| 0 <= m < t0.len() && t0[m] == q;
                            assert(t1[m] == q);
                        } else {
                            assert(t1[i as int] == q);
                        }
                    }
                    if t1.contains(q) && q.0 != season {
                        let m = choose|m: int| 0 <= m < t1.len() && t1[m] == q;
                        if m < i {
                            assert(t0[m] == q);
                            assert(before.contains(q));
                            let k = choose|k: int| 0 <= k < before.len() && before[k] == q;
                            assert(kept@[k] == q);
                        } else {
                            assert(kept@[kept@.len() - 1] == q);
                        }
                    }
                }
                assert forall|a: int, j: int|
                    0 <= a < kept.len() && i + 1 <= j < eps.len() implies pair_lt(
                    kept@[a],
                    eps[j],
                ) by {
                    if a < before.len() {
                        assert(pair_lt(before[a], eps[j]));
                    } else {
                        assert(pair_lt(eps[i as int], eps[j]));
                    }
                }
                assert forall|a: int, b: int| 0 <= a < b < kept@.len() implies pair_lt(
                    kept@[a],
                    kept@[b],
                ) by {
                    if b < before.len() {
                        assert(pair_lt(before[a], before[b]));
                    } else {
                        assert(pair_lt(before[a], eps[i as int]));
                    }
                }
            }
            i = i + 1;
        }
        proof {
            let eps = old(self)@.episodes;
            assert(eps.take(i as int) =~= eps);
            assert(kept@.to_set() =~= without_season(eps.to_set(), season));
            assert forall|k: int| 0 <= k < kept@.len() implies self.seasons@.contains(
                #[trigger] kept@[k].0,
            ) by {
                let q = kept@[k];
                assert(kept@.contains(q));
                assert(eps.contains(q));
                let m = choose|m: int| 0 <= m < eps.len() && eps[m] == q;
                assert(old(self)@.seasons.contains(eps[m].0));
                assert(old(self)@.seasons.to_set().remove(season).contains(q.0));
                assert(self.seasons@.to_set().contains(q.0));
            }
        }
        self.episodes = kept;
        Ok(())
    }

    /// Adds every season of the range that the series does not have yet.
    pub fn add_season_range(&mut self, range: &NumberRange)
        requires
            old(self).wf(),
            range.wf(),
        ensures
            final(self).wf(),
            old(self)@.add_season_range_outcome(
                range.spec_start(),
                range.spec_end(),
                final(self)@,
            ),
    {
        proof {
            lemma_range_view(*range);
        }
        let first = range.start();
        let last = range.end();
        let mut n: u32 = first;
        while n < last
            invariant
                first <= n <= last,
                self.wf(),
                self@ == old(self)@.with_progress(self@.seasons, old(self)@.episodes),
                self@.season_set() == old(self)@.season_set().union(
                    Set::new(|k: u32| first <= k < n),
                ),
            decreases last - n,
        {
            let ghost before = self@.season_set();
            let _ = self.add_season(n);
            assert(self@.season_set() == before.insert(n)) by {
                if before.contains(n) {
                    assert(before.insert(n) =~= before);
                }
            }
            n = n + 1;
            assert(self@.season_set() =~= old(self)@.season_set().union(
                Set::new(|k: u32| first <= k < n),
            ));
        }
        let ghost before = self@.season_set();
        let _ = self.add_season(last);
        proof {
            if before.contains(last) {
                assert(before.insert(last) =~= before);
            }
            assert(self@.season_set() =~= old(self)@.season_set().union(number_run(first, last)));
        }
    }

    /// Marks an episode as watched; the season is added where it is missing.
    pub fn add_episode(&mut self, season: u32, episode: u32) -> (out: Result<(), SeriesError>)
        requires
            old(self).wf(),
        ensures
            final(self).wf(),
            old(self)@.add_episode_outcome(season, episode, out, final(self)@),
    {
        if self.has_episode(season, episode) {
            return Err(SeriesError::EpisodeAlreadyExists);
        }
        let _ = insert_sorted(&mut self.seasons, season);
        let ghost seasons = self.seasons@;
        let _ = insert_sorted_pair(&mut self.episodes, (season, episode));
        proof {
            let eps = self.episodes@;
            assert forall|i: int| 0 <= i < eps.len() implies seasons.contains(
                #[trigger] eps[i].0,
            ) by {
                assert(eps.contains(eps[i]));
                assert(eps.to_set().contains(eps[i]));
                if eps[i] == (season, episode) {
                    assert(seasons.to_set().contains(season));
                } else {
                    assert(old(self)@.episodes.to_set().contains(eps[i]));
                    let m = choose|m: int|
                        0 <= m < old(self)@.episodes.len() && old(self)@.episodes[m] == eps[i];
                    assert(old(self)@.seasons.contains(old(self)@.episodes[m].0));
                    assert(old(self)@.seasons.to_set().contains(eps[i].0));
                    assert(seasons.to_set().contains(eps[i].0));
                }
            }
            lemma_increasing_pairs_no_duplicates(eps);
            lemma_increasing_pairs_no_duplicates(old(self)@.episodes);
            eps.unique_seq_to_set();
            old(self)@.episodes.unique_seq_to_set();
            assert(!old(self)@.episodes.to_set().contains((season, episode)));
        }
        Ok(())
    }

    /// Takes the watched mark off an episode.
    pub fn remove_episode(&mut self, season: u32, episode: u32) -> (out: Result<(), SeriesError>)
        requires
            old(self).wf(),
        ensures
            final(self).wf(),
            old(self)@.remove_episode_outcome(season, episode, out, final(self)@),
    {
        if !self.has_season(season) {
            proof {
                if self@.episodes.contains((season, episode)) {
                    let m = choose|m: int|
                        0 <= m < self@.episodes.len() && self@.episodes[m] == (season, episode);
                    assert(self@.seasons.contains(self@.episodes[m].0));
                }
            }
            return Err(SeriesError::SeasonNotFound);
        }
        let removed = remove_sorted_pair(&mut self.episodes, (season, episode));
        if !removed {
            return Err(SeriesError::EpisodeNotFound);
        }
        proof {
            let eps = self.episodes@;
            assert forall|i: int| 0 <= i < eps.len() implies self.seasons@.contains(
                #[trigger] eps[i].0,
            ) by {
                assert(eps.contains(eps[i]));
                assert(eps.to_set().contains(eps[i]));
                assert(old(self)@.episodes.to_set().contains(eps[i]));
                let m = choose|m: int|
                    0 <= m < old(self)@.episodes.len() && old(self)@.episodes[m] == eps[i];
                assert(old(self)@.seasons.contains(old(self)@.episodes[m].0));
            }
            lemma_increasing_pairs_no_duplicates(eps);
            lemma_increasing_pairs_no_duplicates(old(self)@.episodes);
            eps.unique_seq_to_set();
            old(self)@.episodes.unique_seq_to_set();
            assert(old(self)@.episodes.to_set().contains((season, episode)));
        }
        Ok(())
    }

    /// Marks every episode of the range as watched in the season; those
    /// that are watched already stay so. The season is added where it is
    /// missing.
    pub fn add_episode_range(&mut self, season: u32, range: &NumberRange)
        requires
            old(self).wf(),
            range.wf(),
        ensures
            final(self).wf(),
            old(self)@.add_episode_range_outcome(
                season,
                range.spec_start(),
                range.spec_end(),
                final(self)@,
            ),
    {
        proof {
            lemma_range_view(*range);
        }
        let first = range.start();
        let last = range.end();
        let mut n: u32 = first;
        while n < last
            invariant
                first <= n <= last,
                self.wf(),
                self@ == old(self)@.with_progress(self@.seasons, self@.episodes),
                n == first ==> self@ == old(self)@,
                n > first ==> self@.season_set() == old(self)@.season_set().insert(season),
                self@.watched() == old(self)@.watched().union(
                    Set::new(|p: (u32, u32)| p.0 == season && first <= p.1 < n),
                ),
            decreases last - n,
        {
            let ghost seasons_before = self@.season_set();
            let ghost before = self@.watched();
            let r = self.add_episode(season, n);
            proof {
                if r is Err {
                    let eps = self@.episodes;
                    let m = choose|m: int| 0 <= m < eps.len() && eps[m] == (season, n);
                    assert(self@.seasons.contains(eps[m].0));
                    assert(seasons_before.contains(season));
                    assert(before.contains((season, n)));
                    assert(before.insert((season, n)) =~= before);
                }
                assert(self@.watched() == before.insert((season, n)));
                assert(seasons_before.insert(season).insert(season) =~= seasons_before.insert(
                    season,
                ));
                assert(self@.season_set() =~= old(self)@.season_set().insert(season)) by {
                    if r is Err {
                        assert(seasons_before.insert(season) =~= seasons_before);
                    }
                }
            }
            n = n + 1;
            assert(self@.watched() =~= old(self)@.watched().union(
                Set::new(|p: (u32, u32)| p.0 == season && first <= p.1 < n),
            ));
        }
        let ghost seasons_before = self@.season_set();
        let ghost before = self@.watched();
        let r = self.add_episode(season, last);
        proof {
            if r is Err {
                let eps = self@.episodes;
                let m = choose|m: int| 0 <= m < eps.len() && eps[m] == (season, last);
                assert(self@.seasons.contains(eps[m].0));
                assert(seasons_before.contains(season));
                assert(before.contains((season, last)));
                assert(before.insert((season, last)) =~= before);
                assert(seasons_before.insert(season) =~= seasons_before);
            }
            assert(seasons_before.insert(season).insert(season) =~= seasons_before.insert(season));
            assert(self@.season_set() =~= old(self)@.season_set().insert(season));
            assert(self@.watched() =~= old(self)@.watched().union(
                season_run(season, first, last),
            ));
        }
    }

    /// Takes the watched mark off every episode of the range in the season;
    /// numbers that are not watched are passed over. The seasons stay.
    pub fn remove_episode_range(&mut self, season: u32, range: &NumberRange)
        requires
            old(self).wf(),
            range.wf(),
        ensures
            final(self).wf(),
            old(self)@.remove_episode_range_outcome(
                season,
                range.spec_start(),
                range.spec_end(),
                final(self)@,
            ),
    {
        proof {
            lemma_range_view(*range);
        }
        let first = range.start();
        let last = range.end();
        let mut n: u32 = first;
        while n < last
            invariant
                first <= n <= last,
                self.wf(),
                self@ == old(self)@.with_progress(old(self)@.seasons, self@.episodes),
                self@.watched() == old(self)@.watched().difference(
                    Set::new(|p: (u32, u32)| p.0 == season && first <= p.1 < n),
                ),
            decreases last - n,
        {
            let ghost before = self@.watched();
            let r = self.remove_episode(season, n);
            proof {
                if r is Err {
                    assert(!before.contains((season, n)));
                    assert(before.remove((season, n)) =~= before);
                }
                assert(self@.watched() == before.remove((season, n)));
            }
            n = n + 1;
            assert(self@.watched() =~= old(self)@.watched().difference(
                Set::new(|p: (u32, u32)| p.0 == season && first <= p.1 < n),
            ));
        }
        let ghost before = self@.watched();
        let r = self.remove_episode(season, last);
        proof {
            if r is Err {
                assert(!before.contains((season, last)));
                assert(before.remove((season, last)) =~= before);
            }
            assert(self@.watched() =~= old(self)@.watched().difference(
                season_run(season, first, last),
            ));
        }
    }

    /// Sets the minutes that an episode lasts.
    pub fn change_episode_duration(&mut self, minutes: u32)
        ensures
            final(self)@ == (SeriesView { duration: Some(minutes), ..old(self)@ }),
    {
        self.episode_duration = Some(minutes);
    }

    /// Minutes that an episode lasts: those that were set, else the default.
    pub fn get_episode_duration(&self) -> (out: u32)
        ensures
            out == self@.minutes_per_episode(),
    {
        match self.episode_duration {
            Some(minutes) => minutes,
            None => DEFAULT_EPISODE_DURATION_MINUTES,
        }
    }

    /// Minutes spent on the watched episodes: their number times the minutes
    /// of one episode.
    pub fn get_total_watch_time(&self) -> (out: u128)
        ensures
            out == self@.total_watch_time(),
    {
        let count: u128 = self.episodes.len() as u128;
        let minutes: u128 = self.get_episode_duration() as u128;
        assert(count * minutes <= 0xffff_ffff_ffff_ffff * 0xffff_ffff) by (nonlinear_arith)
            requires
                0 <= count <= 0xffff_ffff_ffff_ffff,
                0 <= minutes <= 0xffff_ffff,
        ;
        count * minutes
    }

    /// How many seasons the series has.
    pub fn get_total_seasons(&self) -> (out: usize)
        ensures
            out == self@.seasons.len(),
    {
        self.seasons.len()
    }

    /// How many episodes are marked as watched.
    pub fn get_total_episodes(&self) -> (out: usize)
        ensures
            out == self@.episodes.len(),
    {
        self.episodes.len()
    }

    /// The seasons, in increasing order.
    pub fn get_seasons(&self) -> (out: Vec<u32>)
        ensures
            out@ == self@.seasons,
    {
        self.seasons.clone()
    }

    /// The watched episodes of a season, in increasing order.
    pub fn get_episodes(&self, season: u32) -> (out: Result<Vec<u32>, SeriesError>)
        requires
            self.wf(),
        ensures
            out is Err <==> !self@.seasons.contains(season),
            out is Err ==> out == Err::<Vec<u32>, SeriesError>(SeriesError::SeasonNotFound),
            out is Ok ==> out->Ok_0@ == episodes_of(self@.episodes, season),
    {
        if !self.has_season(season) {
            return Err(SeriesError::SeasonNotFound);
        }
        Ok(self.collect_episodes(season))
    }

    fn collect_episodes(&self, season: u32) -> (out: Vec<u32>)
        ensures
            out@ == episodes_of(self@.episodes, season),
    {
        let mut out: Vec<u32> = Vec::new();
        let mut i: usize = 0;
        while i < self.episodes.len()
            invariant
                i <= self.episodes.len(),
                out@ == episodes_of(self.episodes@.take(i as int), season),
            decreases self.episodes.len() - i,
        {
            assert(self.episodes@.take(i + 1).drop_last() =~= self.episodes@.take(i as int));
            if self.episodes[i].0 == season {
                out.push(self.episodes[i].1);
            }
            i = i + 1;
        }
        assert(self.episodes@.take(i as int) =~= self.episodes@);
        out
    }

    /// One line for each season, in increasing order, with the number of its
    /// watched episodes; nothing where the series has no season.
    pub fn get_seasons_summary(&self) -> (out: Option<Vec<String>>)
        ensures
            out is None <==> self@.seasons.len() == 0,
            out is Some ==> out->0@.len() == self@.seasons.len() && forall|i: int|
                0 <= i < self@.seasons.len() ==> (#[trigger] out->0@[i])@ == season_line(
                    self@.seasons[i],
                    episodes_of(self@.episodes, self@.seasons[i]).len(),
                ),
    {
        if self.seasons.len() == 0 {
            return None;
        }
        let mut lines: Vec<String> = Vec::new();
        let mut i: usize = 0;
        while i < self.seasons.len()
            invariant
                i <= self.seasons.len(),
                lines@.len() == i,
                forall|k: int|
                    0 <= k < i ==> (#[trigger] lines@[k])@ == season_line(
                        self@.seasons[k],
                        episodes_of(self@.episodes, self@.seasons[k]).len(),
                    ),
            decreases self.seasons.len() - i,
        {
            let season = self.seasons[i];
            let count = self.collect_episodes(season).len();
            let mut line = String::from_str("Season ");
            push_decimal(&mut line, season as u128);
            line.append(": ");
            push_decimal(&mut line, count as u128);
            line.append(" episodes");
            lines.push(line);
            i = i + 1;
        }
        Some(lines)
    }

    /// One line that lists the watched episodes of a season, in increasing
    /// order.
    pub fn get_episodes_summary(&self, season: u32) -> (out: Result<String, SeriesError>)
        requires
            self.wf(),
        ensures
            out is Err <==> !self@.seasons.contains(season),
            out is Err ==> out == Err::<String, SeriesError>(SeriesError::SeasonNotFound),
            out is Ok ==> out->Ok_0@ == episodes_line(
                season,
                episodes_of(self@.episodes, season),
            ),
    {
        if !self.has_season(season) {
            return Err(SeriesError::SeasonNotFound);
        }
        let numbers = self.collect_episodes(season);
        let mut line = String::from_str("Season ");
        push_decimal(&mut line, season as u128);
        line.append(":");
        let ghost head = line@;
        let mut i: usize = 0;
        while i < numbers.len()
            invariant
                i <= numbers.len(),
                line@ == head + number_list(numbers@.take(i as int)),
            decreases numbers.len() - i,
        {
            assert(numbers@.take(i + 1).drop_last() =~= numbers@.take(i as int));
            line.append(" ");
            push_decimal(&mut line, numbers[i] as u128);
            assert(line@ =~= head + number_list(numbers@.take(i + 1)));
            i = i + 1;
        }
        assert(numbers@.take(i as int) =~= numbers@);
        Ok(line)
    }

    /// The report on the series: name, minutes of an episode, seasons,
    /// watched episodes and minutes spent.
    pub fn get_summary(&self) -> (out: String)
        ensures
            out@ == summary_text(self@),
    {
        let mut text = String::from_str("Series: ");
        text.append(self.name.as_str());
        text.append("\nEpisode duration: ");
        push_decimal(&mut text, self.get_episode_duration() as u128);
        text.append(" minutes\nSeasons: ");
        push_decimal(&mut text, self.seasons.len() as u128);
        text.append("\nEpisodes: ");
        push_decimal(&mut text, self.episodes.len() as u128);
        text.append("\nWatch time: ");
        push_decimal(&mut text, self.get_total_watch_time());
        text.append(" minutes");
        text
    }
}

/// A sequence in which each number is smaller than the next is increasing.
pub proof fn lemma_adjacent_increasing(s: Seq<u32>)
    requires
        forall|a: int| 0 <= a && a + 1 < s.len() ==> #[trigger] s[a] < s[a + 1],
    ensures
        increasing(s),
    decreases s.len(),
{
    if s.len() > 1 {
        let init = s.drop_last();
        lemma_adjacent_increasing(init);
        assert forall|i: int, j: int| 0 <= i < j < s.len() implies s[i] < s[j] by {
            if j == s.len() - 1 {
                assert(s[j - 1] < s[j]);
                if i < j - 1 {
                    assert(init[i] < init[j - 1]);
                }
            } else {
                assert(init[i] < init[j]);
            }
        }
    }
}

/// A sequence in which each pair comes before the next is increasing.
pub proof fn lemma_adjacent_increasing_pairs(s: Seq<(u32, u32)>)
    requires
        forall|a: int| 0 <= a && a + 1 < s.len() ==> pair_lt(#[trigger] s[a], s[a + 1]),
    ensures
        increasing_pairs(s),
    decreases s.len(),
{
    if s.len() > 1 {
        let init = s.drop_last();
        lemma_adjacent_increasing_pairs(init);
        assert forall|i: int, j: int| 0 <= i < j < s.len() implies pair_lt(s[i], s[j]) by {
            if j == s.len() - 1 {
                assert(pair_lt(s[j - 1], s[j]));
                if i < j - 1 {
                    assert(pair_lt(init[i], init[j - 1]));
                }
            } else {
                assert(pair_lt(init[i], init[j]));
            }
        }
    }
}

/// The episodes listed under a season come in increasing order.
pub proof fn lemma_episodes_of_increasing(episodes: Seq<(u32, u32)>, season: u32)
    requires
        increasing_pairs(episodes),
    ensures
        increasing(episodes_of(episodes, season)),
    decreases episodes.len(),
{
    if episodes.len() > 0 {
        let init = episodes.drop_last();
        let rest = episodes_of(init, season);
        lemma_episodes_of_increasing(init, season);
        if episodes.last().0 == season {
            let full = rest.push(episodes.last().1);
            assert forall|i: int, j: int| 0 <= i < j < full.len() implies full[i] < full[j] by {
                if j == rest.len() {
                    lemma_episodes_of_contains(init, season, rest[i]);
                    assert(rest.contains(rest[i]));
                    let k = choose|k: int| 0 <= k < init.len() && init[k] == (season, rest[i]);
                    assert(pair_lt(episodes[k], episodes[episodes.len() - 1]));
                }
            }
        }
    }
}

/// Adding a season a second time is refused with `SeasonAlreadyExists`, and
/// the refused call leaves the series as the first call left it.
pub proof fn lemma_add_season_twice(
    before: SeriesView,
    season: u32,
    first: Result<(), SeriesError>,
    between: SeriesView,
    second: Result<(), SeriesError>,
    after: SeriesView,
)
    requires
        before.wf(),
        before.add_season_outcome(season, first, between),
        between.add_season_outcome(season, second, after),
    ensures
        second == Err::<(), SeriesError>(SeriesError::SeasonAlreadyExists),
        after == between,
        after.season_set() == before.season_set().insert(season),
{
    assert(between.season_set().contains(season));
    assert(before.season_set().insert(season) =~= between.season_set());
}

/// Marking the episodes of one range and then unmarking those of another
/// leaves, in that season, what was marked before or lies in the first
/// range, less what lies in the second; the other seasons keep their
/// episodes.
pub proof fn lemma_add_then_remove_episode_range(
    before: SeriesView,
    season: u32,
    added: NumberRange,
    removed: NumberRange,
    between: SeriesView,
    after: SeriesView,
)
    requires
        before.wf(),
        added.wf(),
        removed.wf(),
        before.add_episode_range_outcome(season, added.spec_start(), added.spec_end(), between),
        between.remove_episode_range_outcome(
            season,
            removed.spec_start(),
            removed.spec_end(),
            after,
        ),
    ensures
        after.wf(),
        after.has_season(season),
        forall|e: u32|
            after.has_episode(season, e) <==> (before.has_episode(season, e) || added@.contains(
                e,
            )) && !removed@.contains(e),
        forall|s: u32, e: u32|
            s != season ==> (after.has_episode(s, e) <==> before.has_episode(s, e)),
{
    lemma_range_view(added);
    lemma_range_view(removed);
    assert(between.season_set().contains(season));
    assert forall|e: u32|
        after.has_episode(season, e) <==> (before.has_episode(season, e) || added@.contains(e))
            && !removed@.contains(e) by {
        assert(after.watched().contains((season, e)) <==> after.has_episode(season, e));
        assert(before.watched().contains((season, e)) <==> before.has_episode(season, e));
        assert(season_run(season, added.spec_start(), added.spec_end()).contains((season, e))
            <==> added@.contains(e));
        assert(season_run(season, removed.spec_start(), removed.spec_end()).contains(
            (season, e),
        ) <==> removed@.contains(e));
    }
    assert forall|s: u32, e: u32| s != season implies (after.has_episode(s, e)
        <==> before.has_episode(s, e)) by {
        assert(after.watched().contains((s, e)) <==> after.has_episode(s, e));
        assert(before.watched().contains((s, e)) <==> before.has_episode(s, e));
        assert(!season_run(season, added.spec_start(), added.spec_end()).contains((s, e)));
        assert(!season_run(season, removed.spec_start(), removed.spec_end()).contains((s, e)));
    }
}

/// In a season without watched episodes, marking the episodes one to three
/// and then unmarking the second leaves exactly the first and the third.
pub proof fn lemma_mark_three_unmark_second(
    before: SeriesView,
    season: u32,
    added: NumberRange,
    removed: NumberRange,
    between: SeriesView,
    after: SeriesView,
)
    requires
        before.wf(),
        forall|e: u32| !before.has_episode(season, e),
        added.wf(),
        added.spec_start() == 1,
        added.spec_end() == 3,
        removed.wf(),
        removed.spec_start() == 2,
        removed.spec_end() == 2,
        before.add_episode_range_outcome(season, 1, 3, between),
        between.remove_episode_range_outcome(season, 2, 2, after),
    ensures
        episodes_of(after.episodes, season) == seq![1u32, 3u32],
{
    lemma_add_then_remove_episode_range(before, season, added, removed, between, after);
    lemma_range_view(added);
    lemma_range_view(removed);
    let listed = episodes_of(after.episodes, season);
    let wanted = seq![1u32, 3u32];
    lemma_episodes_of_increasing(after.episodes, season);
    assert forall|e: u32| listed.to_set().contains(e) <==> wanted.to_set().contains(e) by {
        lemma_episodes_of_contains(after.episodes, season, e);
        assert(listed.contains(e) <==> after.has_episode(season, e));
        assert(added@.contains(e) <==> 1 <= e <= 3);
        assert(removed@.contains(e) <==> e == 2);
        assert(listed.contains(e) <==> (e == 1 || e == 3));
        if e == 1 {
            assert(wanted[0] == e);
        }
        if e == 3 {
            assert(wanted[1] == e);
        }
        if wanted.contains(e) {
            let k = choose|k: int| 0 <= k < wanted.len() && wanted[k] == e;
            assert(k == 0 || k == 1);
        }
    }
    assert(listed.to_set() =~= wanted.to_set());
    crate::ordered::lemma_increasing_unique(listed, wanted);
}

/// Marking one more episode adds the minutes of one episode to the time
/// spent on the series.
pub proof fn lemma_add_episode_watch_time(
    before: SeriesView,
    season: u32,
    episode: u32,
    after: SeriesView,
)
    requires
        before.add_episode_outcome(season, episode, Ok::<(), SeriesError>(()), after),
    ensures
        after.minutes_per_episode() == before.minutes_per_episode(),
        after.total_watch_time() == before.total_watch_time() + before.minutes_per_episode(),
{
    let n = before.episodes.len();
    let m = before.minutes_per_episode();
    assert((n + 1) * m == n * m + m) by (nonlinear_arith);
}

} // verus!
