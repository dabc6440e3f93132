//! The commands of the terminal front end, carried out on a collection.
//!
//! A command changes the collection or reads from it. What comes back says
//! what is to be printed and whether the collection is to be saved; reading
//! the collection from disk, writing it and printing are the caller's.

use crate::collection::{
    added_series, collection_wf, free_place, has_name, lists_in_order, name_views, position, total_episodes, total_seasons,
    total_watch_time, CollectionError, SeriesCollection, SeriesSort,
};
use crate::range::{parse_range, range_of, RangeFault, RangeParseError};
use crate::series::{
    episodes_line, episodes_of, season_line, summary_text, SeriesError, SeriesView,
};
use crate::text::{decimal, push_decimal};
use vstd::prelude::*;
use vstd::string::StringExecFns;

verus! {

/// The unit in which a time is to be printed.
#[derive(Debug, Clone, Copy, PartialEq, Eq, Structural)]
pub enum WatchTimeCommand {
    Seconds,
    Minutes,
    Hours,
    Days,
}

/// The commands on series.
#[derive(Debug, Clone, PartialEq, Eq)]
pub enum SeriesCommand {
    List(Option<SeriesSort>),
    Add { name: String, episode_duration: u32 },
    Remove { name: String },
    Summary { name: String },
    ChangeName { old_name: String, new_name: String },
    SeasonSummary { name: String },
    ChangeEpisodeDuration { name: String, episode_duration: u32 },
    WatchTime { name: String, unit: WatchTimeCommand },
    TotalWatchTime { unit: WatchTimeCommand },
    TotalEpisodes,
    TotalSeasons,
    TotalSeries,
}

/// The commands on the seasons of a series.
#[derive(Debug, Clone, PartialEq, Eq)]
pub enum SeasonCommand {
    Add { series: String, season: u32 },
    Remove { series: String, season: u32 },
    AddRange { series: String, season_range: String },
}

/// The commands on the episodes of a season.
#[derive(Debug, Clone, PartialEq, Eq)]
pub enum EpisodeCommand {
    Add { series: String, season: u32, episode: u32 },
    Remove { series: String, season: u32, episode: u32 },
    List { series: String, season: u32 },
    AddRange { series: String, season: u32, episode_range: String },
}

/// Why a command was not carried out.
#[derive(Debug, Clone, PartialEq, Eq)]
pub enum CommandError {
    Collection(CollectionError),
    Series(SeriesError),
    Range(RangeParseError),
}

/// What a `CommandError` says, over plain sequences of characters.
pub enum CommandFault {
    Collection(CollectionError),
    Series(SeriesError),
    Range(RangeFault),
}

impl View for CommandError {
    type V = CommandFault;

    open spec fn view(&self) -> CommandFault {
        match self {
            CommandError::Collection(e) => CommandFault::Collection(*e),
            CommandError::Series(e) => CommandFault::Series(*e),
            CommandError::Range(e) => CommandFault::Range(e@),
        }
    }
}

/// What is to be done after a command was carried out.
#[derive(Debug, Clone, PartialEq, Eq)]
pub enum Outcome {
    /// Print the lines.
    Print(Vec<String>),
    /// Print the time, which is given in minutes, in the unit.
    PrintWatchTime { minutes: u128, unit: WatchTimeCommand },
    /// Save the collection.
    Save,
    /// Print the lines and save the collection.
    PrintAndSave(Vec<String>),
}

/// What an `Outcome` says, over plain sequences of characters.
pub enum OutcomeView {
    Print(Seq<Seq<char>>),
    PrintWatchTime { minutes: u128, unit: WatchTimeCommand },
    Save,
    PrintAndSave(Seq<Seq<char>>),
}

impl View for Outcome {
    type V = OutcomeView;

    open spec fn view(&self) -> OutcomeView {
        match self {
            Outcome::Print(lines) => OutcomeView::Print(name_views(lines@)),
            Outcome::PrintWatchTime { minutes, unit } => OutcomeView::PrintWatchTime {
                minutes: *minutes,
                unit: *unit,
            },
            Outcome::Save => OutcomeView::Save,
            Outcome::PrintAndSave(lines) => OutcomeView::PrintAndSave(name_views(lines@)),
        }
    }
}

/// What the result of a command says.
pub open spec fn result_view(out: Result<Outcome, CommandError>) -> Result<
    OutcomeView,
    CommandFault,
> {
    match out {
        Ok(outcome) => Ok(outcome@),
        Err(e) => Err(e@),
    }
}

/// The result of a command that changes one series: to save, or the reason
/// for which the series refused.
pub open spec fn saved_or(r: Result<(), SeriesError>) -> Result<OutcomeView, CommandFault> {
    match r {
        Ok(_) => Ok(OutcomeView::Save),
        Err(e) => Err(CommandFault::Series(e)),
    }
}

/// The result that a series gave, read back from the result of the
/// command.
pub open spec fn series_part(out: Result<OutcomeView, CommandFault>) -> Result<(), SeriesError> {
    match out {
        Err(CommandFault::Series(e)) => Err(e),
        _ => Ok(()),
    }
}

/// The result of a command on a series that the collection does not hold.
pub open spec fn not_found() -> Result<OutcomeView, CommandFault> {
    Err(CommandFault::Collection(CollectionError::SeriesNotFound))
}

/// The lines of the summary of the seasons of a series: for each season its
/// line and an empty one; where there is no season, one line that says so.
pub open spec fn season_summary_lines(v: SeriesView) -> Seq<Seq<char>> {
    if v.seasons.len() == 0 {
        seq!["No seasons found for series "@ + v.name]
    } else {
        Seq::new(
            2 * v.seasons.len(),
            |k: int|
                if k % 2 == 0 {
                    season_line(v.seasons[k / 2], episodes_of(v.episodes, v.seasons[k / 2]).len())
                } else {
                    Seq::empty()
                },
        )
    }
}

/// A number and what was counted, as one line.
pub open spec fn count_line(count: nat, what: Seq<char>) -> Seq<char> {
    decimal(count) + " "@ + what
}

/// What a command on series does to a collection, and what comes back.
pub open spec fn series_command_outcome(
    before: Seq<SeriesView>,
    command: SeriesCommand,
    out: Result<OutcomeView, CommandFault>,
    after: Seq<SeriesView>,
) -> bool {
    match command {
        SeriesCommand::List(mode) => {
            &&& after == before
            &&& out is Ok
            &&& out->Ok_0 is Print
            &&& lists_in_order(
                before,
                match mode {
                    Some(m) => m,
                    None => SeriesSort::Default,
                },
                out->Ok_0->Print_0,
            )
        },
        SeriesCommand::Add { name, episode_duration } => {
            if has_name(before, name@) {
                out == Err::<OutcomeView, CommandFault>(
                    CommandFault::Collection(CollectionError::DuplicateName),
                ) && after == before
            } else {
                out == Ok::<OutcomeView, CommandFault>(OutcomeView::Save) && after
                    == before.insert(
                    free_place(before),
                    added_series(before, name@, Some(episode_duration)),
                )
            }
        },
        SeriesCommand::Remove { name } => {
            if !has_name(before, name@) {
                out == not_found() && after == before
            } else {
                out == Ok::<OutcomeView, CommandFault>(OutcomeView::Save) && after
                    == before.remove(position(before, name@))
            }
        },
        SeriesCommand::Summary { name } => {
            &&& after == before
            &&& if !has_name(before, name@) {
                out == not_found()
            } else {
                out == Ok::<OutcomeView, CommandFault>(
                    OutcomeView::Print(seq![summary_text(before[position(before, name@)])]),
                )
            }
        },
        SeriesCommand::ChangeName { old_name, new_name } => {
            if !has_name(before, old_name@) {
                out == not_found() && after == before
            } else if has_name(before, new_name@) {
                out == Err::<OutcomeView, CommandFault>(
                    CommandFault::Collection(CollectionError::DuplicateName),
                ) && after == before
            } else {
                out == Ok::<OutcomeView, CommandFault>(OutcomeView::Save) && after
                    == before.update(
                    position(before, old_name@),
                    SeriesView { name: new_name@, ..before[position(before, old_name@)] },
                )
            }
        },
        SeriesCommand::SeasonSummary { name } => {
            &&& after == before
            &&& if !has_name(before, name@) {
                out == not_found()
            } else {
                out == Ok::<OutcomeView, CommandFault>(
                    OutcomeView::Print(season_summary_lines(before[position(before, name@)])),
                )
            }
        },
        SeriesCommand::ChangeEpisodeDuration { name, episode_duration } => {
            if !has_name(before, name@) {
                out == not_found() && after == before
            } else {
                out == Ok::<OutcomeView, CommandFault>(OutcomeView::Save) && after
                    == before.update(
                    position(before, name@),
                    SeriesView {
                        duration: Some(episode_duration),
                        ..before[position(before, name@)]
                    },
                )
            }
        },
        SeriesCommand::WatchTime { name, unit } => {
            &&& after == before
            &&& if !has_name(before, name@) {
                out == not_found()
            } else {
                out == Ok::<OutcomeView, CommandFault>(
                    OutcomeView::PrintWatchTime {
                        minutes: before[position(before, name@)].total_watch_time() as u128,
                        unit,
                    },
                )
            }
        },
        SeriesCommand::TotalWatchTime { unit } => {
            &&& after == before
            &&& out == Ok::<OutcomeView, CommandFault>(
                OutcomeView::PrintWatchTime { minutes: total_watch_time(before) as u128, unit },
            )
        },
        SeriesCommand::TotalEpisodes => {
            &&& after == before
            &&& out == Ok::<OutcomeView, CommandFault>(
                OutcomeView::Print(seq![count_line(total_episodes(before), "episodes"@)]),
            )
        },
        SeriesCommand::TotalSeasons => {
            &&& after == before
            &&& out == Ok::<OutcomeView, CommandFault>(
                OutcomeView::Print(seq![count_line(total_seasons(before), "seasons"@)]),
            )
        },
        SeriesCommand::TotalSeries => {
            &&& after == before
            &&& out == Ok::<OutcomeView, CommandFault>(
                OutcomeView::Print(seq![count_line(before.len(), "series"@)]),
            )
        },
    }
}

/// What a command on seasons does to a collection, and what comes back.
pub open spec fn season_command_outcome(
    before: Seq<SeriesView>,
    command: SeasonCommand,
    out: Result<OutcomeView, CommandFault>,
    after: Seq<SeriesView>,
) -> bool {
    match command {
        SeasonCommand::Add { series, season } => {
            if !has_name(before, series@) {
                out == not_found() && after == before
            } else {
                let at = position(before, series@);
                &&& after.len() == before.len()
                &&& after == before.update(at, after[at])
                &&& out == saved_or(series_part(out))
                &&& before[at].add_season_outcome(season, series_part(out), after[at])
            }
        },
        SeasonCommand::Remove { series, season } => {
            if !has_name(before, series@) {
                out == not_found() && after == before
            } else {
                let at = position(before, series@);
                &&& after.len() == before.len()
                &&& after == before.update(at, after[at])
                &&& out == saved_or(series_part(out))
                &&& before[at].remove_season_outcome(season, series_part(out), after[at])
            }
        },
        SeasonCommand::AddRange { series, season_range } => {
            match range_of(season_range@) {
                Err(fault) => out == Err::<OutcomeView, CommandFault>(CommandFault::Range(fault))
                    && after == before,
                Ok((first, last)) => if !has_name(before, series@) {
                    out == not_found() && after == before
                } else {
                    let at = position(before, series@);
                    &&& after.len() == before.len()
                    &&& after == before.update(at, after[at])
                    &&& out == Ok::<OutcomeView, CommandFault>(OutcomeView::Save)
                    &&& before[at].add_season_range_outcome(first, last, after[at])
                },
            }
        },
    }
}

/// What a command on episodes does to a collection, and what comes back.
pub open spec fn episode_command_outcome(
    before: Seq<SeriesView>,
    command: EpisodeCommand,
    out: Result<OutcomeView, CommandFault>,
    after: Seq<SeriesView>,
) -> bool {
    match command {
        EpisodeCommand::Add { series, season, episode } => {
            if !has_name(before, series@) {
                out == not_found() && after == before
            } else {
                let at = position(before, series@);
                &&& after.len() == before.len()
                &&& after == before.update(at, after[at])
                &&& out == saved_or(series_part(out))
                &&& before[at].add_episode_outcome(season, episode, series_part(out), after[at])
            }
        },
        EpisodeCommand::Remove { series, season, episode } => {
            if !has_name(before, series@) {
                out == not_found() && after == before
            } else {
                let at = position(before, series@);
                &&& after.len() == before.len()
                &&& after == before.update(at, after[at])
                &&& out == saved_or(series_part(out))
                &&& before[at].remove_episode_outcome(season, episode, series_part(out), after[at])
            }
        },
        EpisodeCommand::List { series, season } => {
            &&& after == before
            &&& if !has_name(before, series@) {
                out == not_found()
            } else {
                let v = before[position(before, series@)];
                if !v.has_season(season) {
                    out == Err::<OutcomeView, CommandFault>(
                        CommandFault::Series(SeriesError::SeasonNotFound),
                    )
                } else {
                    out == Ok::<OutcomeView, CommandFault>(
                        OutcomeView::PrintAndSave(
                            seq![episodes_line(season, episodes_of(v.episodes, season))],
                        ),
                    )
                }
            }
        },
        EpisodeCommand::AddRange { series, season, episode_range } => {
            match range_of(episode_range@) {
                Err(fault) => out == Err::<OutcomeView, CommandFault>(CommandFault::Range(fault))
                    && after == before,
                Ok((first, last)) => if !has_name(before, series@) {
                    out == not_found() && after == before
                } else {
                    let at = position(before, series@);
                    &&& after.len() == before.len()
                    &&& after == before.update(at, after[at])
                    &&& out == Ok::<OutcomeView, CommandFault>(OutcomeView::Save)
                    &&& before[at].add_episode_range_outcome(season, first, last, after[at])
                },
            }
        },
    }
}

/// A collection stays well formed when one of its series is replaced by a
/// well-formed one of the same name.
pub proof fn lemma_update_keeps_wf(v: Seq<SeriesView>, at: int, changed: SeriesView)
    requires
        collection_wf(v),
        0 <= at < v.len(),
        changed.wf(),
        changed.name == v[at].name,
        changed.id == v[at].id,
    ensures
        collection_wf(v.update(at, changed)),
{
    let w = v.update(at, changed);
    assert forall|i: int, j: int| 0 <= i < w.len() && 0 <= j < w.len() && i != j implies (
    #[trigger] w[i]).name != (#[trigger] w[j]).name by {
        assert(v[i].name != v[j].name);
    }
    assert forall|i: int| 0 <= i < w.len() implies (#[trigger] w[i]).wf() && w[i].id >= 1 by {
        assert(v[i].wf() && v[i].id >= 1);
    }
    assert forall|i: int, j: int| 0 <= i < j < w.len() implies (#[trigger] w[i]).id < (
    #[trigger] w[j]).id by {
        assert(v[i].id < v[j].id);
    }
}

fn one_line(line: String) -> (out: Vec<String>)
    ensures
        name_views(out@) == seq![line@],
{
    let mut lines: Vec<String> = Vec::new();
    lines.push(line);
    assert(name_views(lines@) =~= seq![line@]);
    lines
}

fn count_text(count: u128, what: &str) -> (out: String)
    ensures
        out@ == count_line(count as nat, what@),
{
    let mut line = String::new();
    push_decimal(&mut line, count);
    line.append(" ");
    line.append(what);
    line
}

/// Carries out a command on series.
pub fn run_series_command(collection: &mut SeriesCollection, command: SeriesCommand) -> (out:
    Result<Outcome, CommandError>)
    requires
        old(collection).wf(),
        command is TotalWatchTime ==> total_watch_time(old(collection)@) <= u128::MAX,
    ensures
        final(collection).wf(),
        series_command_outcome(old(collection)@, command, result_view(out), final(collection)@),
{
    match command {
        SeriesCommand::List(mode) => {
            let mode = match mode {
                Some(m) => m,
                None => SeriesSort::Default,
            };
            Ok(Outcome::Print(collection.get_series_names_sorted(mode)))
        },
        SeriesCommand::Add { name, episode_duration } => {
            match collection.add_series(name, Some(episode_duration)) {
                Ok(_) => Ok(Outcome::Save),
                Err(e) => Err(CommandError::Collection(e)),
            }
        },
        SeriesCommand::Remove { name } => {
            match collection.remove_series(name.as_str()) {
                Ok(_) => Ok(Outcome::Save),
                Err(e) => Err(CommandError::Collection(e)),
            }
        },
        SeriesCommand::Summary { name } => {
            match collection.get_summary(name.as_str()) {
                Ok(text) => Ok(Outcome::Print(one_line(text))),
                Err(e) => Err(CommandError::Collection(e)),
            }
        },
        SeriesCommand::ChangeName { old_name, new_name } => {
            match collection.change_series_name(old_name.as_str(), new_name) {
                Ok(_) => Ok(Outcome::Save),
                Err(e) => Err(CommandError::Collection(e)),
            }
        },
        SeriesCommand::SeasonSummary { name } => {
            match collection.get_series(name.as_str()) {
                Err(e) => Err(CommandError::Collection(e)),
                Ok(series) => {
                    let ghost v = series@;
                    match series.get_seasons_summary() {
                        None => {
                            let mut line = String::from_str("No seasons found for series ");
                            line.append(name.as_str());
                            Ok(Outcome::Print(one_line(line)))
                        },
                        Some(summaries) => {
                            let n = summaries.len();
                            let mut lines: Vec<String> = Vec::new();
                            for i in 0..n
                                invariant
                                    n == summaries@.len(),
                                    n == v.seasons.len(),
                                    lines@.len() == 2 * i,
                                    forall|k: int|
                                        0 <= k < n ==> (#[trigger] summaries@[k])@ == season_line(
                                            v.seasons[k],
                                            episodes_of(v.episodes, v.seasons[k]).len(),
                                        ),
                                    forall|k: int|
                                        0 <= k < 2 * i ==> (#[trigger] lines@[k])@
                                            == season_summary_lines(v)[k],
                            {
                                lines.push(summaries[i].clone());
                                lines.push(String::new());
                            }
                            assert(name_views(lines@) =~= season_summary_lines(v));
                            Ok(Outcome::Print(lines))
                        },
                    }
                },
            }
        },
        SeriesCommand::ChangeEpisodeDuration { name, episode_duration } => {
            match collection.get_series_mut(name.as_str()) {
                Err(e) => Err(CommandError::Collection(e)),
                Ok(series) => {
                    series.change_episode_duration(episode_duration);
                    proof {
                        let at = position(old(collection)@, name@);
                        lemma_update_keeps_wf(old(collection)@, at, series@);
                    }
                    Ok(Outcome::Save)
                },
            }
        },
        SeriesCommand::WatchTime { name, unit } => {
            match collection.get_series(name.as_str()) {
                Err(e) => Err(CommandError::Collection(e)),
                Ok(series) => Ok(
                    Outcome::PrintWatchTime { minutes: series.get_total_watch_time(), unit },
                ),
            }
        },
        SeriesCommand::TotalWatchTime { unit } => {
            Ok(Outcome::PrintWatchTime { minutes: collection.get_total_watch_time(), unit })
        },
        SeriesCommand::TotalEpisodes => {
            Ok(Outcome::Print(one_line(count_text(collection.get_total_episodes(), "episodes"))))
        },
        SeriesCommand::TotalSeasons => {
            Ok(Outcome::Print(one_line(count_text(collection.get_total_seasons(), "seasons"))))
        },
        SeriesCommand::TotalSeries => {
            Ok(
                Outcome::Print(
                    one_line(count_text(collection.get_total_series() as u128, "series")),
                ),
            )
        },
    }
}

/// Carries out a command on the seasons of a series.
pub fn run_season_command(collection: &mut SeriesCollection, command: SeasonCommand) -> (out:
    Result<Outcome, CommandError>)
    requires
        old(collection).wf(),
    ensures
        final(collection).wf(),
        season_command_outcome(old(collection)@, command, result_view(out), final(collection)@),
{
    match command {
        SeasonCommand::Add { series, season } => {
            match collection.get_series_mut(series.as_str()) {
                Err(e) => Err(CommandError::Collection(e)),
                Ok(found) => {
                    let r = found.add_season(season);
                    proof {
                        let at = position(old(collection)@, series@);
                        lemma_update_keeps_wf(old(collection)@, at, found@);
                    }
                    match r {
                        Ok(_) => Ok(Outcome::Save),
                        Err(e) => Err(CommandError::Series(e)),
                    }
                },
            }
        },
        SeasonCommand::Remove { series, season } => {
            match collection.get_series_mut(series.as_str()) {
                Err(e) => Err(CommandError::Collection(e)),
                Ok(found) => {
                    let r = found.remove_season(season);
                    proof {
                        let at = position(old(collection)@, series@);
                        lemma_update_keeps_wf(old(collection)@, at, found@);
                    }
                    match r {
                        Ok(_) => Ok(Outcome::Save),
                        Err(e) => Err(CommandError::Series(e)),
                    }
                },
            }
        },
        SeasonCommand::AddRange { series, season_range } => {
            match parse_range(season_range.as_str()) {
                Err(e) => Err(CommandError::Range(e)),
                Ok(range) => match collection.get_series_mut(series.as_str()) {
                    Err(e) => Err(CommandError::Collection(e)),
                    Ok(found) => {
                        found.add_season_range(&range);
                        proof {
                            let at = position(old(collection)@, series@);
                            lemma_update_keeps_wf(old(collection)@, at, found@);
                        }
                        Ok(Outcome::Save)
                    },
                },
            }
        },
    }
}

/// Carries out a command on the episodes of a season.
pub fn run_episode_command(collection: &mut SeriesCollection, command: EpisodeCommand) -> (out:
    Result<Outcome, CommandError>)
    requires
        old(collection).wf(),
    ensures
        final(collection).wf(),
        episode_command_outcome(old(collection)@, command, result_view(out), final(collection)@),
{
    match command {
        EpisodeCommand::Add { series, season, episode } => {
            match collection.get_series_mut(series.as_str()) {
                Err(e) => Err(CommandError::Collection(e)),
                Ok(found) => {
                    let r = found.add_episode(season, episode);
                    proof {
                        let at = position(old(collection)@, series@);
                        lemma_update_keeps_wf(old(collection)@, at, found@);
                    }
                    match r {
                        Ok(_) => Ok(Outcome::Save),
                        Err(e) => Err(CommandError::Series(e)),
                    }
                },
            }
        },
        EpisodeCommand::Remove { series, season, episode } => {
            match collection.get_series_mut(series.as_str()) {
                Err(e) => Err(CommandError::Collection(e)),
                Ok(found) => {
                    let r = found.remove_episode(season, episode);
                    proof {
                        let at = position(old(collection)@, series@);
                        lemma_update_keeps_wf(old(collection)@, at, found@);
                    }
                    match r {
                        Ok(_) => Ok(Outcome::Save),
                        Err(e) => Err(CommandError::Series(e)),
                    }
                },
            }
        },
        EpisodeCommand::List { series, season } => {
            match collection.get_series(series.as_str()) {
                Err(e) => Err(CommandError::Collection(e)),
                Ok(found) => match found.get_episodes_summary(season) {
                    Err(e) => Err(CommandError::Series(e)),
                    Ok(line) => Ok(Outcome::PrintAndSave(one_line(line))),
                },
            }
        },
        EpisodeCommand::AddRange { series, season, episode_range } => {
            match parse_range(episode_range.as_str()) {
                Err(e) => Err(CommandError::Range(e)),
                Ok(range) => match collection.get_series_mut(series.as_str()) {
                    Err(e) => Err(CommandError::Collection(e)),
                    Ok(found) => {
                        found.add_episode_range(season, &range);
                        proof {
                            let at = position(old(collection)@, series@);
                            lemma_update_keeps_wf(old(collection)@, at, found@);
                        }
                        Ok(Outcome::Save)
                    },
                },
            }
        },
    }
}

} // verus!
