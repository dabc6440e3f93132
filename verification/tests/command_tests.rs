use series_troxide::collection::{CollectionError, SeriesCollection, SeriesSort};
use series_troxide::commands::{
    run_episode_command, run_season_command, run_series_command, CommandError, EpisodeCommand,
    Outcome, SeasonCommand, SeriesCommand, WatchTimeCommand,
};
use series_troxide::range::RangeParseError;
use series_troxide::series::SeriesError;

fn s(text: &str) -> String {
    text.to_string()
}

fn sample() -> SeriesCollection {
    let mut c = SeriesCollection::new();
    for (name, minutes) in [("Dark", 50), ("Andor", 40)] {
        assert_eq!(
            run_series_command(
                &mut c,
                SeriesCommand::Add { name: s(name), episode_duration: minutes }
            ),
            Ok(Outcome::Save)
        );
    }
    assert_eq!(
        run_episode_command(
            &mut c,
            EpisodeCommand::AddRange { series: s("Dark"), season: 1, episode_range: s("1-10") }
        ),
        Ok(Outcome::Save)
    );
    assert_eq!(
        run_episode_command(
            &mut c,
            EpisodeCommand::AddRange { series: s("Andor"), season: 1, episode_range: s("1-12") }
        ),
        Ok(Outcome::Save)
    );
    c
}

#[test]
fn list_command_prints_the_names() {
    let mut c = sample();
    assert_eq!(
        run_series_command(&mut c, SeriesCommand::List(None)),
        Ok(Outcome::Print(vec![s("Dark"), s("Andor")]))
    );
    assert_eq!(
        run_series_command(&mut c, SeriesCommand::List(Some(SeriesSort::Name))),
        Ok(Outcome::Print(vec![s("Andor"), s("Dark")]))
    );
    assert_eq!(
        run_series_command(&mut c, SeriesCommand::List(Some(SeriesSort::WatchTime))),
        Ok(Outcome::Print(vec![s("Dark"), s("Andor")]))
    );
}

#[test]
fn add_command_refuses_a_name_in_use() {
    let mut c = sample();
    let before = c.clone();
    assert_eq!(
        run_series_command(&mut c, SeriesCommand::Add { name: s("Dark"), episode_duration: 1 }),
        Err(CommandError::Collection(CollectionError::DuplicateName))
    );
    assert_eq!(c, before);
}

#[test]
fn remove_and_rename_commands() {
    let mut c = sample();
    assert_eq!(
        run_series_command(&mut c, SeriesCommand::Remove { name: s("Lost") }),
        Err(CommandError::Collection(CollectionError::SeriesNotFound))
    );
    assert_eq!(
        run_series_command(
            &mut c,
            SeriesCommand::ChangeName { old_name: s("Dark"), new_name: s("Andor") }
        ),
        Err(CommandError::Collection(CollectionError::DuplicateName))
    );
    assert_eq!(
        run_series_command(
            &mut c,
            SeriesCommand::ChangeName { old_name: s("Lost"), new_name: s("Found") }
        ),
        Err(CommandError::Collection(CollectionError::SeriesNotFound))
    );
    assert_eq!(
        run_series_command(
            &mut c,
            SeriesCommand::ChangeName { old_name: s("Dark"), new_name: s("Darker") }
        ),
        Ok(Outcome::Save)
    );
    assert_eq!(
        run_series_command(&mut c, SeriesCommand::Remove { name: s("Andor") }),
        Ok(Outcome::Save)
    );
    assert_eq!(
        run_series_command(&mut c, SeriesCommand::List(None)),
        Ok(Outcome::Print(vec![s("Darker")]))
    );
}

#[test]
fn summary_commands() {
    let mut c = sample();
    assert_eq!(
        run_series_command(&mut c, SeriesCommand::Summary { name: s("Dark") }),
        Ok(Outcome::Print(vec![s(
            "Series: Dark\nEpisode duration: 50 minutes\nSeasons: 1\nEpisodes: 10\nWatch time: 500 minutes"
        )]))
    );
    assert_eq!(
        run_series_command(&mut c, SeriesCommand::Summary { name: s("Lost") }),
        Err(CommandError::Collection(CollectionError::SeriesNotFound))
    );
    run_season_command(&mut c, SeasonCommand::Add { series: s("Dark"), season: 2 }).unwrap();
    assert_eq!(
        run_series_command(&mut c, SeriesCommand::SeasonSummary { name: s("Dark") }),
        Ok(Outcome::Print(vec![
            s("Season 1: 10 episodes"),
            s(""),
            s("Season 2: 0 episodes"),
            s(""),
        ]))
    );
    run_series_command(&mut c, SeriesCommand::Add { name: s("Lost"), episode_duration: 1 })
        .unwrap();
    assert_eq!(
        run_series_command(&mut c, SeriesCommand::SeasonSummary { name: s("Lost") }),
        Ok(Outcome::Print(vec![s("No seasons found for series Lost")]))
    );
    assert_eq!(
        run_series_command(&mut c, SeriesCommand::SeasonSummary { name: s("Found") }),
        Err(CommandError::Collection(CollectionError::SeriesNotFound))
    );
}

#[test]
fn watch_time_commands() {
    let mut c = sample();
    assert_eq!(
        run_series_command(
            &mut c,
            SeriesCommand::WatchTime { name: s("Dark"), unit: WatchTimeCommand::Hours }
        ),
        Ok(Outcome::PrintWatchTime { minutes: 500, unit: WatchTimeCommand::Hours })
    );
    assert_eq!(
        run_series_command(
            &mut c,
            SeriesCommand::WatchTime { name: s("Lost"), unit: WatchTimeCommand::Days }
        ),
        Err(CommandError::Collection(CollectionError::SeriesNotFound))
    );
    assert_eq!(
        run_series_command(
            &mut c,
            SeriesCommand::TotalWatchTime { unit: WatchTimeCommand::Seconds }
        ),
        Ok(Outcome::PrintWatchTime { minutes: 980, unit: WatchTimeCommand::Seconds })
    );
    assert_eq!(
        run_series_command(
            &mut c,
            SeriesCommand::ChangeEpisodeDuration { name: s("Dark"), episode_duration: 60 }
        ),
        Ok(Outcome::Save)
    );
    assert_eq!(
        run_series_command(
            &mut c,
            SeriesCommand::TotalWatchTime { unit: WatchTimeCommand::Minutes }
        ),
        Ok(Outcome::PrintWatchTime { minutes: 1080, unit: WatchTimeCommand::Minutes })
    );
    assert_eq!(
        run_series_command(
            &mut c,
            SeriesCommand::ChangeEpisodeDuration { name: s("Lost"), episode_duration: 60 }
        ),
        Err(CommandError::Collection(CollectionError::SeriesNotFound))
    );
}

#[test]
fn total_commands() {
    let mut c = sample();
    assert_eq!(
        run_series_command(&mut c, SeriesCommand::TotalEpisodes),
        Ok(Outcome::Print(vec![s("22 episodes")]))
    );
    assert_eq!(
        run_series_command(&mut c, SeriesCommand::TotalSeasons),
        Ok(Outcome::Print(vec![s("2 seasons")]))
    );
    assert_eq!(
        run_series_command(&mut c, SeriesCommand::TotalSeries),
        Ok(Outcome::Print(vec![s("2 series")]))
    );
}

#[test]
fn season_commands() {
    let mut c = sample();
    assert_eq!(
        run_season_command(&mut c, SeasonCommand::Add { series: s("Dark"), season: 1 }),
        Err(CommandError::Series(SeriesError::SeasonAlreadyExists))
    );
    assert_eq!(
        run_season_command(&mut c, SeasonCommand::Add { series: s("Lost"), season: 1 }),
        Err(CommandError::Collection(CollectionError::SeriesNotFound))
    );
    assert_eq!(
        run_season_command(&mut c, SeasonCommand::Add { series: s("Dark"), season: 3 }),
        Ok(Outcome::Save)
    );
    assert_eq!(
        run_season_command(&mut c, SeasonCommand::Remove { series: s("Dark"), season: 2 }),
        Err(CommandError::Series(SeriesError::SeasonNotFound))
    );
    assert_eq!(
        run_season_command(&mut c, SeasonCommand::Remove { series: s("Dark"), season: 1 }),
        Ok(Outcome::Save)
    );
    assert_eq!(c.get_series("Dark").unwrap().get_seasons(), vec![3]);
    assert_eq!(c.get_series("Dark").unwrap().get_total_episodes(), 0);
    assert_eq!(
        run_season_command(
            &mut c,
            SeasonCommand::AddRange { series: s("Dark"), season_range: s("2-5") }
        ),
        Ok(Outcome::Save)
    );
    assert_eq!(c.get_series("Dark").unwrap().get_seasons(), vec![2, 3, 4, 5]);
    assert_eq!(
        run_season_command(
            &mut c,
            SeasonCommand::AddRange { series: s("Dark"), season_range: s("5-2") }
        ),
        Err(CommandError::Range(RangeParseError::StartAfterEnd(s("5-2"))))
    );
    assert_eq!(
        run_season_command(
            &mut c,
            SeasonCommand::AddRange { series: s("Lost"), season_range: s("x") }
        ),
        Err(CommandError::Range(RangeParseError::InvalidNumber(s("x"))))
    );
    assert_eq!(
        run_season_command(
            &mut c,
            SeasonCommand::AddRange { series: s("Lost"), season_range: s("1-2") }
        ),
        Err(CommandError::Collection(CollectionError::SeriesNotFound))
    );
}

#[test]
fn episode_commands() {
    let mut c = sample();
    assert_eq!(
        run_episode_command(
            &mut c,
            EpisodeCommand::Add { series: s("Dark"), season: 1, episode: 3 }
        ),
        Err(CommandError::Series(SeriesError::EpisodeAlreadyExists))
    );
    assert_eq!(
        run_episode_command(
            &mut c,
            EpisodeCommand::Add { series: s("Dark"), season: 2, episode: 3 }
        ),
        Ok(Outcome::Save)
    );
    assert_eq!(
        run_episode_command(&mut c, EpisodeCommand::List { series: s("Dark"), season: 2 }),
        Ok(Outcome::PrintAndSave(vec![s("Season 2: 3")]))
    );
    assert_eq!(
        run_episode_command(
            &mut c,
            EpisodeCommand::Remove { series: s("Dark"), season: 2, episode: 4 }
        ),
        Err(CommandError::Series(SeriesError::EpisodeNotFound))
    );
    assert_eq!(
        run_episode_command(
            &mut c,
            EpisodeCommand::Remove { series: s("Dark"), season: 9, episode: 4 }
        ),
        Err(CommandError::Series(SeriesError::SeasonNotFound))
    );
    assert_eq!(
        run_episode_command(
            &mut c,
            EpisodeCommand::Remove { series: s("Dark"), season: 2, episode: 3 }
        ),
        Ok(Outcome::Save)
    );
    assert_eq!(
        run_episode_command(&mut c, EpisodeCommand::List { series: s("Dark"), season: 2 }),
        Ok(Outcome::PrintAndSave(vec![s("Season 2:")]))
    );
    assert_eq!(
        run_episode_command(&mut c, EpisodeCommand::List { series: s("Dark"), season: 7 }),
        Err(CommandError::Series(SeriesError::SeasonNotFound))
    );
    assert_eq!(
        run_episode_command(&mut c, EpisodeCommand::List { series: s("Lost"), season: 1 }),
        Err(CommandError::Collection(CollectionError::SeriesNotFound))
    );
    assert_eq!(
        run_episode_command(
            &mut c,
            EpisodeCommand::AddRange { series: s("Dark"), season: 1, episode_range: s("1-") }
        ),
        Err(CommandError::Range(RangeParseError::InvalidNumber(s(""))))
    );
    assert_eq!(
        run_episode_command(
            &mut c,
            EpisodeCommand::Add { series: s("Lost"), season: 1, episode: 1 }
        ),
        Err(CommandError::Collection(CollectionError::SeriesNotFound))
    );
}
