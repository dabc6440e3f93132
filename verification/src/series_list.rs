//! The series of the store, split into those that are followed and the
//! others, and what the catalog says of those that are followed: which
//! have ended, which run, and for which of the running ones a next episode
//! is known.
//!
//! Nothing here reaches the catalog. The caller fetches, and hands in what
//! came back, in the order of the identifiers that it was given.

use crate::catalog::{gather, gathered, has_ended, Episode, FetchError, FetchFault, SeriesMainInformation};
use crate::episode_list::{has_upcoming, EpisodeList};
use crate::series::{Series, SeriesView};
use crate::text::{chars_of, number_token, parse_number};
use vstd::prelude::*;
use vstd::string::StringExecFns;

verus! {

/// The series of the store, each with its identifier, in the store's order.
#[derive(Debug, Clone, PartialEq, Eq)]
pub struct SeriesList {
    series_list: Vec<(String, Series)>,
}

/// The identifiers of the series that are followed (`followed` true) or of
/// those that are not (`followed` false), in the order of `v`.
pub open spec fn ids_where(v: Seq<(Seq<char>, SeriesView)>, followed: bool) -> Seq<Seq<char>>
    decreases v.len(),
{
    if v.len() == 0 {
        Seq::empty()
    } else {
        let rest = ids_where(v.drop_last(), followed);
        if v.last().1.is_tracked == followed {
            rest.push(v.last().0)
        } else {
            rest
        }
    }
}

/// The texts of a list of string slices.
pub open spec fn str_views(ids: Seq<&str>) -> Seq<Seq<char>> {
    Seq::new(ids.len(), |k: int| ids[k]@)
}

/// The numbers that the identifiers write, or the first identifier that
/// does not write a positive number of 32 bits.
pub open spec fn requests_of(ids: Seq<Seq<char>>) -> Result<Seq<u32>, FetchFault>
    decreases ids.len(),
{
    if ids.len() == 0 {
        Ok(Seq::empty())
    } else {
        match requests_of(ids.drop_last()) {
            Err(fault) => Err(fault),
            Ok(numbers) => match number_token(ids.last()) {
                Some(n) => Ok(numbers.push(n)),
                None => Err(FetchFault::InvalidId(ids.last())),
            },
        }
    }
}

/// What a batch of fetches for the identifiers gives: refused for the
/// first identifier that is none; else the first failure among the
/// outcomes; else all records, in their order.
pub open spec fn informations_of(
    ids: Seq<Seq<char>>,
    fetched: Seq<Result<SeriesMainInformation, FetchError>>,
) -> Result<Seq<SeriesMainInformation>, FetchFault> {
    match requests_of(ids) {
        Err(fault) => Err(fault),
        Ok(_) => match gathered(fetched) {
            Ok(infos) => Ok(infos),
            Err(e) => Err(e@),
        },
    }
}

/// The records of the series that have ended (`ended` true) or of those
/// that run (`ended` false), in their order.
pub open spec fn with_status(infos: Seq<SeriesMainInformation>, ended: bool) -> Seq<
    SeriesMainInformation,
>
    decreases infos.len(),
{
    if infos.len() == 0 {
        Seq::empty()
    } else {
        let rest = with_status(infos.drop_last(), ended);
        if has_ended(infos.last()) == ended {
            rest.push(infos.last())
        } else {
            rest
        }
    }
}

/// The same outcome with only the series of one status left in it.
pub open spec fn status_of(
    outcome: Result<Seq<SeriesMainInformation>, FetchFault>,
    ended: bool,
) -> Result<Seq<SeriesMainInformation>, FetchFault> {
    match outcome {
        Ok(infos) => Ok(with_status(infos, ended)),
        Err(fault) => Err(fault),
    }
}

/// The running series for which no next episode is known: the first
/// failure among the schedules of running series where one failed; else
/// each running series, in order, whose schedule holds no episode that airs
/// after `now`. Series that have ended are passed over.
pub open spec fn waiting_of(
    resolved: Seq<(SeriesMainInformation, Result<Vec<Episode>, FetchError>)>,
    now: i64,
) -> Result<Seq<SeriesMainInformation>, FetchFault>
    decreases resolved.len(),
{
    if resolved.len() == 0 {
        Ok(Seq::empty())
    } else {
        match waiting_of(resolved.drop_last(), now) {
            Err(fault) => Err(fault),
            Ok(infos) => if has_ended(resolved.last().0) {
                Ok(infos)
            } else {
                match resolved.last().1 {
                    Err(e) => Err(e@),
                    Ok(episodes) => if has_upcoming(episodes@, now) {
                        Ok(infos)
                    } else {
                        Ok(infos.push(resolved.last().0))
                    },
                }
            },
        }
    }
}

/// The running series for which a next episode is known, each with its
/// schedule: the first failure among the schedules of running series where
/// one failed; else each running series, in order, whose schedule holds an
/// episode that airs after `now`. Series that have ended are passed over.
pub open spec fn upcoming_of(
    resolved: Seq<(SeriesMainInformation, Result<Vec<Episode>, FetchError>)>,
    now: i64,
) -> Result<Seq<(SeriesMainInformation, Seq<Episode>)>, FetchFault>
    decreases resolved.len(),
{
    if resolved.len() == 0 {
        Ok(Seq::empty())
    } else {
        match upcoming_of(resolved.drop_last(), now) {
            Err(fault) => Err(fault),
            Ok(pairs) => if has_ended(resolved.last().0) {
                Ok(pairs)
            } else {
                match resolved.last().1 {
                    Err(e) => Err(e@),
                    Ok(episodes) => if has_upcoming(episodes@, now) {
                        Ok(pairs.push((resolved.last().0, episodes@)))
                    } else {
                        Ok(pairs)
                    },
                }
            },
        }
    }
}

/// Whether `info` is a running series of `resolved` whose schedule came
/// and holds no episode that airs after `now`.
pub open spec fn has_none_ahead(
    resolved: Seq<(SeriesMainInformation, Result<Vec<Episode>, FetchError>)>,
    now: i64,
    info: SeriesMainInformation,
) -> bool {
    exists|k: int|
        0 <= k < resolved.len() && (#[trigger] resolved[k]).0 == info && !has_ended(info)
            && resolved[k].1 is Ok && !has_upcoming(resolved[k].1->Ok_0@, now)
}

/// Whether `pair` is a running series of `resolved` with the schedule that
/// came for it, and that schedule holds an episode that airs after `now`.
pub open spec fn has_one_ahead(
    resolved: Seq<(SeriesMainInformation, Result<Vec<Episode>, FetchError>)>,
    now: i64,
    pair: (SeriesMainInformation, Seq<Episode>),
) -> bool {
    exists|k: int|
        0 <= k < resolved.len() && (#[trigger] resolved[k]).1 is Ok && !has_ended(resolved[k].0)
            && (resolved[k].0, resolved[k].1->Ok_0@) == pair && has_upcoming(
            resolved[k].1->Ok_0@,
            now,
        )
}

/// What a list of records, or the failure in its place, says.
pub open spec fn informations_view(out: Result<Vec<SeriesMainInformation>, FetchError>) -> Result<
    Seq<SeriesMainInformation>,
    FetchFault,
> {
    match out {
        Ok(infos) => Ok(infos@),
        Err(e) => Err(e@),
    }
}

/// What a list of numbers, or the failure in its place, says.
pub open spec fn requests_view(out: Result<Vec<u32>, FetchError>) -> Result<Seq<u32>, FetchFault> {
    match out {
        Ok(numbers) => Ok(numbers@),
        Err(e) => Err(e@),
    }
}

/// What a list of series with their schedules, or the failure in its
/// place, says.
pub open spec fn schedules_view(out: Result<Vec<(SeriesMainInformation, EpisodeList)>, FetchError>) -> Result<
    Seq<(SeriesMainInformation, Seq<Episode>)>,
    FetchFault,
> {
    match out {
        Ok(pairs) => Ok(Seq::new(pairs@.len(), |k: int| (pairs@[k].0, pairs@[k].1.spec_episodes()))),
        Err(e) => Err(e@),
    }
}

/// Reads the identifier of a series: the numeral of a positive number of
/// 32 bits.
pub fn parse_series_id(id: &str) -> (out: Result<u32, FetchError>)
    ensures
        match number_token(id@) {
            Some(n) => out == Ok::<u32, FetchError>(n),
            None => out is Err && out->Err_0@ == FetchFault::InvalidId(id@),
        },
{
    let chars = chars_of(id);
    assert(chars@.subrange(0, chars@.len() as int) =~= id@);
    match parse_number(&chars, 0, chars.len()) {
        Some(n) => Ok(n),
        None => Err(FetchError::InvalidId(String::from_str(id))),
    }
}

impl View for SeriesList {
    type V = Seq<(Seq<char>, SeriesView)>;

    closed spec fn view(&self) -> Seq<(Seq<char>, SeriesView)> {
        Seq::new(self.series_list@.len(), |i: int| (self.series_list@[i].0@, self.series_list@[i].1@))
    }
}

impl SeriesList {
    /// The list of the given series, each with its identifier.
    pub fn new(series_list: Vec<(String, Series)>) -> (out: SeriesList)
        ensures
            out@ == Seq::new(series_list@.len(), |i: int| (series_list@[i].0@, series_list@[i].1@)),
    {
        SeriesList { series_list }
    }

    fn ids_with(&self, followed: bool) -> (out: Vec<&str>)
        ensures
            str_views(out@) == ids_where(self@, followed),
    {
        let mut out: Vec<&str> = Vec::new();
        let mut i: usize = 0;
        while i < self.series_list.len()
            invariant
                i <= self.series_list.len(),
                str_views(out@) == ids_where(self@.take(i as int), followed),
            decreases self.series_list.len() - i,
        {
            assert(self@.take(i + 1).drop_last() =~= self@.take(i as int));
            let ghost before = str_views(out@);
            if self.series_list[i].1.is_tracked() == followed {
                out.push(self.series_list[i].0.as_str());
                assert(str_views(out@) =~= before.push(self@[i as int].0));
            }
            i = i + 1;
        }
        assert(self@.take(i as int) =~= self@);
        out
    }

    /// The identifiers of the series that are followed, in the store's
    /// order.
    pub fn get_tracked_series_ids(&self) -> (out: Vec<&str>)
        ensures
            str_views(out@) == ids_where(self@, true),
    {
        self.ids_with(true)
    }

    /// The identifiers of the series that are not followed, in the store's
    /// order.
    pub fn get_untracked_series_ids(&self) -> (out: Vec<&str>)
        ensures
            str_views(out@) == ids_where(self@, false),
    {
        self.ids_with(false)
    }

    fn requests_with(&self, followed: bool) -> (out: Result<Vec<u32>, FetchError>)
        ensures
            requests_view(out) == requests_of(ids_where(self@, followed)),
    {
        let ids = self.ids_with(followed);
        let ghost texts = str_views(ids@);
        let mut numbers: Vec<u32> = Vec::new();
        let mut i: usize = 0;
        while i < ids.len()
            invariant
                i <= ids.len(),
                texts == str_views(ids@),
                texts == ids_where(self@, followed),
                requests_of(texts.take(i as int)) == Ok::<Seq<u32>, FetchFault>(numbers@),
            decreases ids.len() - i,
        {
            assert(texts.take(i + 1).drop_last() =~= texts.take(i as int));
            assert(texts.take(i + 1).last() == ids@[i as int]@);
            match parse_series_id(ids[i]) {
                Ok(n) => {
                    numbers.push(n);
                },
                Err(e) => {
                    proof {
                        assert(number_token(texts.take(i + 1).last()) is None);
                        assert(requests_of(texts.take(i + 1)) == Err::<Seq<u32>, FetchFault>(
                            FetchFault::InvalidId(ids@[i as int]@),
                        ));
                        lemma_requests_prefix_failure(texts, i + 1);
                    }
                    return Err(e);
                },
            }
            i = i + 1;
        }
        assert(texts.take(i as int) =~= texts);
        Ok(numbers)
    }

    /// The numbers under which the catalog knows the series that are
    /// followed, in the store's order; refused with `InvalidId` for the
    /// first identifier that writes no such number.
    pub fn get_tracked_series_requests(&self) -> (out: Result<Vec<u32>, FetchError>)
        ensures
            requests_view(out) == requests_of(ids_where(self@, true)),
    {
        self.requests_with(true)
    }

    /// The numbers under which the catalog knows the series that are not
    /// followed, in the store's order; refused with `InvalidId` for the
    /// first identifier that writes no such number.
    pub fn get_untracked_series_requests(&self) -> (out: Result<Vec<u32>, FetchError>)
        ensures
            requests_view(out) == requests_of(ids_where(self@, false)),
    {
        self.requests_with(false)
    }

    fn informations_with(
        &self,
        followed: bool,
        fetched: Vec<Result<SeriesMainInformation, FetchError>>,
    ) -> (out: Result<Vec<SeriesMainInformation>, FetchError>)
        ensures
            informations_view(out) == informations_of(ids_where(self@, followed), fetched@),
    {
        match self.requests_with(followed) {
            Err(e) => Err(e),
            Ok(_) => gather(fetched),
        }
    }

    /// The records of the series that are not followed, from the outcomes
    /// of fetching each: all of them, in the order of the outcomes, or the
    /// first failure and no record at all.
    pub fn get_untracked_series_informations(
        &self,
        fetched: Vec<Result<SeriesMainInformation, FetchError>>,
    ) -> (out: Result<Vec<SeriesMainInformation>, FetchError>)
        ensures
            informations_view(out) == informations_of(ids_where(self@, false), fetched@),
    {
        self.informations_with(false, fetched)
    }

    /// The records of the series that are followed, from the outcomes of
    /// fetching each: all of them, in the order of the outcomes, or the
    /// first failure and no record at all.
    pub fn get_tracked_series_informations(
        &self,
        fetched: Vec<Result<SeriesMainInformation, FetchError>>,
    ) -> (out: Result<Vec<SeriesMainInformation>, FetchError>)
        ensures
            informations_view(out) == informations_of(ids_where(self@, true), fetched@),
    {
        self.informations_with(true, fetched)
    }

    fn informations_with_status(
        &self,
        ended: bool,
        fetched: Vec<Result<SeriesMainInformation, FetchError>>,
    ) -> (out: Result<Vec<SeriesMainInformation>, FetchError>)
        ensures
            informations_view(out) == status_of(
                informations_of(ids_where(self@, true), fetched@),
                ended,
            ),
    {
        match self.informations_with(true, fetched) {
            Err(e) => Err(e),
            Ok(infos) => {
                let mut kept: Vec<SeriesMainInformation> = Vec::new();
                for info in it: infos
                    invariant
                        it.seq() == infos@,
                        kept@ == with_status(infos@.take(it.index() as int), ended),
                {
                    assert(infos@.take(it.index() + 1).drop_last() =~= infos@.take(
                        it.index() as int,
                    ));
                    if info.is_ended() == ended {
                        kept.push(info);
                    }
                }
                assert(infos@.take(infos@.len() as int) =~= infos@);
                Ok(kept)
            },
        }
    }

    /// The records of the followed series that run: those whose status is
    /// anything but `Ended`.
    pub fn get_running_tracked_series_informations(
        &self,
        fetched: Vec<Result<SeriesMainInformation, FetchError>>,
    ) -> (out: Result<Vec<SeriesMainInformation>, FetchError>)
        ensures
            informations_view(out) == status_of(
                informations_of(ids_where(self@, true), fetched@),
                false,
            ),
    {
        self.informations_with_status(false, fetched)
    }

    /// The records of the followed series that have ended: those whose
    /// status is `Ended`.
    pub fn get_ended_tracked_series_informations(
        &self,
        fetched: Vec<Result<SeriesMainInformation, FetchError>>,
    ) -> (out: Result<Vec<SeriesMainInformation>, FetchError>)
        ensures
            informations_view(out) == status_of(
                informations_of(ids_where(self@, true), fetched@),
                true,
            ),
    {
        self.informations_with_status(true, fetched)
    }

    /// The running series that wait for a release: `resolved` holds each
    /// running series with the outcome of fetching its schedule, and a
    /// series waits where its schedule holds no episode that airs after
    /// `now`. The first failed schedule of a running series fails the
    /// whole. A series that has ended neither waits nor fails anything.
    pub fn get_waiting_release_series_informations(
        resolved: Vec<(SeriesMainInformation, Result<Vec<Episode>, FetchError>)>,
        now: i64,
    ) -> (out: Result<Vec<SeriesMainInformation>, FetchError>)
        ensures
            informations_view(out) == waiting_of(resolved@, now),
    {
        let mut waiting: Vec<SeriesMainInformation> = Vec::new();
        for pair in it: resolved
            invariant
                it.seq() == resolved@,
                waiting_of(resolved@.take(it.index() as int), now) == Ok::<
                    Seq<SeriesMainInformation>,
                    FetchFault,
                >(waiting@),
        {
            assert(resolved@.take(it.index() + 1).drop_last() =~= resolved@.take(
                it.index() as int,
            ));
            let (info, outcome) = pair;
            if !info.is_ended() {
                match EpisodeList::new(info.id, outcome) {
                    Err(e) => {
                        proof {
                            lemma_waiting_prefix_failure(resolved@, now, it.index() + 1);
                        }
                        return Err(e);
                    },
                    Ok(episode_list) => {
                        if episode_list.get_next_episode(now).is_none() {
                            waiting.push(info);
                        }
                    },
                }
            }
        }
        assert(resolved@.take(resolved@.len() as int) =~= resolved@);
        Ok(waiting)
    }

    /// The running series with a release ahead, each with the schedule that
    /// was fetched for it: `resolved` holds each running series with the
    /// outcome of fetching its schedule, and a release is ahead where the
    /// schedule holds an episode that airs after `now`. The first failed
    /// schedule of a running series fails the whole. A series that has
    /// ended has no release ahead and fails nothing.
    pub fn get_upcoming_release_series_informations_and_episodes(
        resolved: Vec<(SeriesMainInformation, Result<Vec<Episode>, FetchError>)>,
        now: i64,
    ) -> (out: Result<Vec<(SeriesMainInformation, EpisodeList)>, FetchError>)
        ensures
            schedules_view(out) == upcoming_of(resolved@, now),
            out is Ok ==> forall|k: int|
                0 <= k < out->Ok_0@.len() ==> (#[trigger] out->Ok_0@[k]).1.spec_series_id()
                    == out->Ok_0@[k].0.id,
    {
        let mut upcoming: Vec<(SeriesMainInformation, EpisodeList)> = Vec::new();
        assert(schedules_view(
            Ok::<Vec<(SeriesMainInformation, EpisodeList)>, FetchError>(upcoming),
        )->Ok_0 =~= Seq::empty());
        for pair in it: resolved
            invariant
                it.seq() == resolved@,
                upcoming_of(resolved@.take(it.index() as int), now) == schedules_view(
                    Ok::<Vec<(SeriesMainInformation, EpisodeList)>, FetchError>(upcoming),
                ),
                forall|k: int|
                    0 <= k < upcoming@.len() ==> (#[trigger] upcoming@[k]).1.spec_series_id()
                        == upcoming@[k].0.id,
        {
            assert(resolved@.take(it.index() + 1).drop_last() =~= resolved@.take(
                it.index() as int,
            ));
            let ghost before = schedules_view(
                Ok::<Vec<(SeriesMainInformation, EpisodeList)>, FetchError>(upcoming),
            )->Ok_0;
            let (info, outcome) = pair;
            if !info.is_ended() {
                match EpisodeList::new(info.id, outcome) {
                    Err(e) => {
                        proof {
                            lemma_upcoming_prefix_failure(resolved@, now, it.index() + 1);
                        }
                        return Err(e);
                    },
                    Ok(episode_list) => {
                        if episode_list.get_next_episode(now).is_some() {
                            let ghost added = (info, episode_list.spec_episodes());
                            upcoming.push((info, episode_list));
                            assert(schedules_view(
                                Ok::<Vec<(SeriesMainInformation, EpisodeList)>, FetchError>(
                                    upcoming,
                                ),
                            )->Ok_0 =~= before.push(added));
                        }
                    },
                }
            }
        }
        assert(resolved@.take(resolved@.len() as int) =~= resolved@);
        Ok(upcoming)
    }
}

/// Where the first identifiers hold one that is none, the whole list is
/// refused for it.
pub proof fn lemma_requests_prefix_failure(ids: Seq<Seq<char>>, k: int)
    requires
        0 <= k <= ids.len(),
        requests_of(ids.take(k)) is Err,
    ensures
        requests_of(ids) == requests_of(ids.take(k)),
    decreases ids.len() - k,
{
    if k == ids.len() {
        assert(ids.take(k) =~= ids);
    } else {
        assert(ids.drop_last().take(k) =~= ids.take(k));
        lemma_requests_prefix_failure(ids.drop_last(), k);
    }
}

/// Where the first schedules hold a failure, the whole fails with it.
pub proof fn lemma_waiting_prefix_failure(
    resolved: Seq<(SeriesMainInformation, Result<Vec<Episode>, FetchError>)>,
    now: i64,
    k: int,
)
    requires
        0 <= k <= resolved.len(),
        waiting_of(resolved.take(k), now) is Err,
    ensures
        waiting_of(resolved, now) == waiting_of(resolved.take(k), now),
    decreases resolved.len() - k,
{
    if k == resolved.len() {
        assert(resolved.take(k) =~= resolved);
    } else {
        assert(resolved.drop_last().take(k) =~= resolved.take(k));
        lemma_waiting_prefix_failure(resolved.drop_last(), now, k);
    }
}

/// Where the first schedules hold a failure, the whole fails with it.
pub proof fn lemma_upcoming_prefix_failure(
    resolved: Seq<(SeriesMainInformation, Result<Vec<Episode>, FetchError>)>,
    now: i64,
    k: int,
)
    requires
        0 <= k <= resolved.len(),
        upcoming_of(resolved.take(k), now) is Err,
    ensures
        upcoming_of(resolved, now) == upcoming_of(resolved.take(k), now),
    decreases resolved.len() - k,
{
    if k == resolved.len() {
        assert(resolved.take(k) =~= resolved);
    } else {
        assert(resolved.drop_last().take(k) =~= resolved.take(k));
        lemma_upcoming_prefix_failure(resolved.drop_last(), now, k);
    }
}

/// A batch in which one fetch failed gives that failure, or that of an
/// earlier fetch, and never a list of the records that did come.
pub proof fn lemma_batch_fails_whole(
    ids: Seq<Seq<char>>,
    fetched: Seq<Result<SeriesMainInformation, FetchError>>,
    i: int,
)
    requires
        0 <= i < fetched.len(),
        fetched[i] is Err,
    ensures
        informations_of(ids, fetched) is Err,
        requests_of(ids) is Ok ==> exists|j: int|
            0 <= j <= i && (#[trigger] fetched[j]) is Err && informations_of(ids, fetched)
                == Err::<Seq<SeriesMainInformation>, FetchFault>(fetched[j]->Err_0@)
                && forall|k: int| 0 <= k < j ==> (#[trigger] fetched[k]) is Ok,
{
    crate::catalog::lemma_gathered(fetched);
    if requests_of(ids) is Ok {
        let e = gathered(fetched)->Err_0;
        let j = choose|j: int|
            0 <= j < fetched.len() && (#[trigger] fetched[j]) == Err::<
                SeriesMainInformation,
                FetchError,
            >(e) && forall|k: int| 0 <= k < j ==> (#[trigger] fetched[k]) is Ok;
        if j > i {
            assert(fetched[i] is Ok);
        }
        assert(fetched[j] is Err);
    }
}

/// Where every schedule came, each running series falls in one of two
/// classes: it waits for a release where its schedule holds no episode that
/// airs after `now`, and has a release ahead where it holds one; there it
/// stands with the very schedule that was handed in for it.
pub proof fn lemma_release_classes(
    resolved: Seq<(SeriesMainInformation, Result<Vec<Episode>, FetchError>)>,
    now: i64,
)
    requires
        forall|k: int|
            0 <= k < resolved.len() ==> (#[trigger] resolved[k]).1 is Ok && !has_ended(
                resolved[k].0,
            ),
    ensures
        waiting_of(resolved, now) is Ok,
        upcoming_of(resolved, now) is Ok,
        waiting_of(resolved, now)->Ok_0.len() + upcoming_of(resolved, now)->Ok_0.len()
            == resolved.len(),
        forall|k: int|
            0 <= k < resolved.len() && !has_upcoming((#[trigger] resolved[k]).1->Ok_0@, now)
                ==> waiting_of(resolved, now)->Ok_0.contains(resolved[k].0),
        forall|k: int|
            0 <= k < resolved.len() && has_upcoming((#[trigger] resolved[k]).1->Ok_0@, now)
                ==> upcoming_of(resolved, now)->Ok_0.contains(
                (resolved[k].0, resolved[k].1->Ok_0@),
            ),
        forall|w: int|
            0 <= w < waiting_of(resolved, now)->Ok_0.len() ==> has_none_ahead(
                resolved,
                now,
                #[trigger] waiting_of(resolved, now)->Ok_0[w],
            ),
        forall|u: int|
            0 <= u < upcoming_of(resolved, now)->Ok_0.len() ==> has_one_ahead(
                resolved,
                now,
                #[trigger] upcoming_of(resolved, now)->Ok_0[u],
            ),
    decreases resolved.len(),
{
    if resolved.len() > 0 {
        let init = resolved.drop_last();
        let last = resolved.last();
        let n = init.len() as int;
        assert forall|k: int| 0 <= k < init.len() implies (#[trigger] init[k]).1 is Ok
            && !has_ended(init[k].0) by {
            assert(resolved[k].1 is Ok);
        }
        lemma_release_classes(init, now);
        let w0 = waiting_of(init, now)->Ok_0;
        let u0 = upcoming_of(init, now)->Ok_0;
        let w1 = waiting_of(resolved, now)->Ok_0;
        let u1 = upcoming_of(resolved, now)->Ok_0;
        let ahead = has_upcoming(last.1->Ok_0@, now);
        assert(resolved[n] == last);
        assert forall|k: int|
            0 <= k < resolved.len() && !has_upcoming(
                (#[trigger] resolved[k]).1->Ok_0@,
                now,
            ) implies w1.contains(resolved[k].0) by {
            if k < n {
                assert(init[k] == resolved[k]);
                assert(w0.contains(init[k].0));
                let x = choose|x: int| 0 <= x < w0.len() && w0[x] == init[k].0;
                assert(w1[x] == init[k].0);
            } else {
                assert(w1[w1.len() - 1] == last.0);
            }
        }
        assert forall|k: int|
            0 <= k < resolved.len() && has_upcoming(
                (#[trigger] resolved[k]).1->Ok_0@,
                now,
            ) implies u1.contains((resolved[k].0, resolved[k].1->Ok_0@)) by {
            if k < n {
                assert(init[k] == resolved[k]);
                assert(u0.contains((init[k].0, init[k].1->Ok_0@)));
                let x = choose|x: int|
                    0 <= x < u0.len() && u0[x] == (init[k].0, init[k].1->Ok_0@);
                assert(u1[x] == (init[k].0, init[k].1->Ok_0@));
            } else {
                assert(u1[u1.len() - 1] == (last.0, last.1->Ok_0@));
            }
        }
        assert forall|w: int| 0 <= w < w1.len() implies has_none_ahead(
            resolved,
            now,
            #[trigger] w1[w],
        ) by {
            if w < w0.len() {
                assert(w1[w] == w0[w]);
                assert(has_none_ahead(init, now, w0[w]));
                let k = choose|k: int|
                    0 <= k < init.len() && (#[trigger] init[k]).0 == w0[w] && !has_ended(w0[w])
                        && init[k].1 is Ok && !has_upcoming(init[k].1->Ok_0@, now);
                assert(resolved[k] == init[k]);
            } else {
                assert(resolved[n].0 == w1[w]);
            }
        }
        assert forall|u: int| 0 <= u < u1.len() implies has_one_ahead(
            resolved,
            now,
            #[trigger] u1[u],
        ) by {
            if u < u0.len() {
                assert(u1[u] == u0[u]);
                assert(has_one_ahead(init, now, u0[u]));
                let k = choose|k: int|
                    0 <= k < init.len() && (#[trigger] init[k]).1 is Ok && !has_ended(init[k].0)
                        && (init[k].0, init[k].1->Ok_0@) == u0[u] && has_upcoming(
                        init[k].1->Ok_0@,
                        now,
                    );
                assert(resolved[k] == init[k]);
            } else {
                assert((resolved[n].0, resolved[n].1->Ok_0@) == u1[u]);
            }
        }
    }
}

} // verus!
