use bytes::Bytes;
use series_troxide::catalog::{Episode, FetchError, SeriesMainInformation};
use series_troxide::collection::SeriesCollection;
use series_troxide::discover::{Command as DiscoverCommand, Discover, LoadState, Message as DiscoverMessage};
use series_troxide::episode_poster::{
    retry_after_failure, Command as PosterCommand, EpisodePoster, Message as PosterMessage, Retry,
    RETRY_DELAY_MILLIS,
};
use series_troxide::range::parse_range;
use series_troxide::series_banner::{Message as BannerMessage, SeriesBanner};
use series_troxide::settings::{Config, Message as SettingsMessage, Settings, Theme};
use series_troxide::statistics::{time_count, watch_count, TimeCount, WatchCount};

fn info(id: u32, name: &str, image: Option<&str>) -> SeriesMainInformation {
    SeriesMainInformation {
        id,
        name: name.to_string(),
        status: "Running".to_string(),
        image_url: image.map(|s| s.to_string()),
        average_runtime: None,
    }
}

fn episode(name: &str, show: &str) -> Episode {
    Episode {
        name: name.to_string(),
        season: 1,
        number: 1,
        air_date: 0,
        image_url: None,
        show_url: show.to_string(),
    }
}

#[test]
fn settings_show_the_config_in_force() {
    let settings = Settings::new(Config { theme: Theme::Dark });
    assert_eq!(settings.get_config_settings(), &Config { theme: Theme::Dark });
    assert!(!settings.has_unsaved_changes());
    assert_eq!(Settings::default().get_config_settings(), &Config::default());
    assert_eq!(Config::default(), Config { theme: Theme::Light });
}

#[test]
fn selecting_a_theme_edits_without_saving() {
    let mut settings = Settings::new(Config { theme: Theme::Light });
    assert_eq!(settings.update(SettingsMessage::ThemeSelected(Theme::Dark)), None);
    assert_eq!(settings.get_config_settings(), &Config { theme: Theme::Dark });
    assert!(settings.has_unsaved_changes());
    assert_eq!(settings.update(SettingsMessage::ThemeSelected(Theme::Light)), None);
    assert_eq!(settings.get_config_settings(), &Config { theme: Theme::Light });
    assert!(!settings.has_unsaved_changes());
}

#[test]
fn saving_puts_the_edited_config_in_force() {
    let mut settings = Settings::new(Config { theme: Theme::Light });
    assert_eq!(settings.update(SettingsMessage::SaveSettings), None);
    settings.update(SettingsMessage::ThemeSelected(Theme::Dark));
    assert_eq!(
        settings.update(SettingsMessage::SaveSettings),
        Some(Config { theme: Theme::Dark })
    );
    assert_eq!(settings, Settings::new(Config { theme: Theme::Dark }));
    assert!(!settings.has_unsaved_changes());
    assert_eq!(settings.update(SettingsMessage::SaveSettings), None);
}

#[test]
fn new_poster_asks_for_its_series() {
    let (poster, command) = EpisodePoster::new(3, episode("pilot", "https://c.example/shows/9"));
    assert_eq!(poster.get_index(), 3);
    assert_eq!(poster.get_episode(), &episode("pilot", "https://c.example/shows/9"));
    assert_eq!(poster.get_image(), &None);
    assert_eq!(poster.get_series(), &None);
    assert_eq!(
        command,
        PosterCommand::LoadSeriesInformation {
            index: 3,
            url: "https://c.example/shows/9".to_string()
        }
    );
}

#[test]
fn poster_asks_for_the_image_that_the_series_names() {
    let (mut poster, _) = EpisodePoster::new(3, episode("pilot", "u"));
    let with_image = info(9, "nine", Some("https://c.example/img/9.jpg"));
    assert_eq!(
        poster.update(PosterMessage::SeriesInformationLoaded(with_image.clone())),
        PosterCommand::LoadImage {
            index: 3,
            url: "https://c.example/img/9.jpg".to_string()
        }
    );
    assert_eq!(poster.get_series(), &Some(with_image));
    assert_eq!(
        poster.update(PosterMessage::ImageLoaded(Some(vec![1, 2, 3]))),
        PosterCommand::Nothing
    );
    assert_eq!(poster.get_image(), &Some(vec![1, 2, 3]));
    assert_eq!(
        poster.update(PosterMessage::SeriesInformationLoaded(info(9, "nine", None))),
        PosterCommand::Nothing
    );
    assert_eq!(poster.get_image(), &Some(vec![1, 2, 3]));
    assert_eq!(poster.update(PosterMessage::ImageLoaded(None)), PosterCommand::Nothing);
    assert_eq!(poster.get_image(), &None);
    assert_eq!(poster.get_index(), 3);
}

#[test]
fn only_a_request_that_did_not_get_through_is_made_again() {
    assert_eq!(
        retry_after_failure(&FetchError::Transient("timeout".to_string())),
        Retry::After(5)
    );
    assert_eq!(RETRY_DELAY_MILLIS, 5);
    assert_eq!(
        retry_after_failure(&FetchError::Permanent("bad answer".to_string())),
        Retry::GiveUp
    );
    assert_eq!(retry_after_failure(&FetchError::Aborted), Retry::GiveUp);
    assert_eq!(
        retry_after_failure(&FetchError::InvalidId("x".to_string())),
        Retry::GiveUp
    );
}

#[test]
fn discover_asks_for_the_schedule_once() {
    let mut screen = Discover::default();
    assert_eq!(screen.get_load_state(), LoadState::Loading);
    assert_eq!(screen.update(DiscoverMessage::LoadSchedule), DiscoverCommand::LoadSchedule);
    assert_eq!(screen.get_load_state(), LoadState::Loading);
    screen.update(DiscoverMessage::ScheduleLoaded(Vec::new()));
    assert_eq!(screen.get_load_state(), LoadState::Loaded);
    assert_eq!(screen.update(DiscoverMessage::LoadSchedule), DiscoverCommand::Nothing);
}

#[test]
fn discover_makes_a_poster_for_each_episode() {
    let mut screen = Discover::default();
    let command = screen.update(DiscoverMessage::ScheduleLoaded(vec![
        episode("a", "url a"),
        episode("b", "url b"),
    ]));
    assert_eq!(
        command,
        DiscoverCommand::Posters(vec![
            PosterCommand::LoadSeriesInformation { index: 0, url: "url a".to_string() },
            PosterCommand::LoadSeriesInformation { index: 1, url: "url b".to_string() },
        ])
    );
    assert_eq!(screen.get_posters().len(), 2);
    assert_eq!(screen.get_posters()[0].get_index(), 0);
    assert_eq!(screen.get_posters()[1].get_index(), 1);
    assert_eq!(screen.get_posters()[1].get_episode(), &episode("b", "url b"));
}

#[test]
fn discover_hands_a_message_to_its_poster() {
    let mut screen = Discover::default();
    screen.update(DiscoverMessage::ScheduleLoaded(vec![
        episode("a", "url a"),
        episode("b", "url b"),
    ]));
    let message = DiscoverMessage::EpisodePosterAction(
        1,
        PosterMessage::SeriesInformationLoaded(info(4, "four", Some("img"))),
    );
    assert!(screen.can_update(&message));
    assert_eq!(
        screen.update(message),
        DiscoverCommand::Poster(PosterCommand::LoadImage { index: 1, url: "img".to_string() })
    );
    assert_eq!(screen.get_posters()[0].get_series(), &None);
    assert_eq!(screen.get_posters()[1].get_series(), &Some(info(4, "four", Some("img"))));
    assert!(!screen.can_update(&DiscoverMessage::EpisodePosterAction(
        2,
        PosterMessage::ImageLoaded(None)
    )));
    assert!(screen.can_update(&DiscoverMessage::LoadSchedule));
}

#[test]
fn banner_asks_for_the_image_that_the_series_names() {
    let (banner, url) = SeriesBanner::new(0, (info(5, "five", Some("img 5")), 150));
    assert_eq!(url, Some("img 5".to_string()));
    assert_eq!(banner.get_id(), 0);
    assert_eq!(banner.get_banner(), &None);
    assert_eq!(banner.get_series_info(), &info(5, "five", Some("img 5")));
    let (_, none) = SeriesBanner::new(1, (info(6, "six", None), 0));
    assert_eq!(none, None);
}

#[test]
fn banner_keeps_the_image_that_came() {
    let (mut banner, _) = SeriesBanner::new(2, (info(5, "five", None), 150));
    let message = BannerMessage::BannerReceived(2, Some(Bytes::from_static(b"png")));
    assert_eq!(message.get_id(), 2);
    banner.update(message);
    assert_eq!(banner.get_banner(), &Some(Bytes::from_static(b"png")));
    banner.update(BannerMessage::BannerReceived(2, None));
    assert_eq!(banner.get_banner(), &None);
    assert_eq!(banner.get_id(), 2);
}

#[test]
fn banner_heading_counts_from_one() {
    let (banner, _) = SeriesBanner::new(0, (info(5, "Dark", None), 150));
    assert_eq!(banner.title(), "1: Dark");
    assert_eq!(banner.hours(), 2);
    let (banner, _) = SeriesBanner::new(41, (info(5, "Andor", None), 59));
    assert_eq!(banner.title(), "42: Andor");
    assert_eq!(banner.hours(), 0);
    let (banner, _) = SeriesBanner::new(usize::MAX, (info(5, "", None), u32::MAX));
    assert_eq!(banner.title(), format!("{}: ", usize::MAX as u128 + 1));
    assert_eq!(banner.hours(), 71582788);
}

#[test]
fn watch_count_of_a_collection() {
    let mut c = SeriesCollection::new();
    c.add_series("Dark".to_string(), None).unwrap();
    c.add_series("Andor".to_string(), None).unwrap();
    c.get_series_mut("Dark")
        .unwrap()
        .add_episode_range(1, &parse_range("1-10").unwrap());
    c.get_series_mut("Dark")
        .unwrap()
        .add_episode_range(2, &parse_range("1-8").unwrap());
    c.get_series_mut("Andor").unwrap().add_season(1).unwrap();
    assert_eq!(
        watch_count(&c),
        WatchCount { series: 2, seasons: 3, episodes: 18 }
    );
    assert_eq!(
        watch_count(&SeriesCollection::new()),
        WatchCount { series: 0, seasons: 0, episodes: 0 }
    );
}

#[test]
fn time_count_of_no_series() {
    assert_eq!(
        time_count(&[]),
        TimeCount { minutes: 0, years: 0, months: 0, days: 0, hours: 0 }
    );
}

#[test]
fn time_count_splits_the_minutes() {
    // 428 days, 4 hours and 5 minutes: 1 whole year, 14 whole months of which
    // 2 are left after the year, 428 whole days of which 8 are left after
    // the months.
    let minutes = 525600 + 2 * 43200 + 3 * 1440 + 4 * 60 + 5;
    let items = vec![
        (info(1, "a", None), 525600),
        (info(2, "b", None), 2 * 43200 + 3 * 1440),
        (info(3, "c", None), 4 * 60 + 5),
    ];
    assert_eq!(
        time_count(&items),
        TimeCount { minutes, years: 1, months: 2, days: 8, hours: 4 }
    );
    assert_eq!(
        time_count(&[(info(1, "a", None), 59)]),
        TimeCount { minutes: 59, years: 0, months: 0, days: 0, hours: 0 }
    );
    assert_eq!(
        time_count(&[(info(1, "a", None), 43200)]),
        TimeCount { minutes: 43200, years: 0, months: 1, days: 0, hours: 0 }
    );
}

#[test]
fn time_count_does_not_wrap() {
    let items = vec![(info(1, "a", None), u32::MAX), (info(2, "b", None), u32::MAX)];
    let minutes = 2 * (u32::MAX as u128);
    assert_eq!(
        time_count(&items),
        TimeCount {
            minutes,
            years: minutes / 525600,
            months: (minutes / 43200) % 12,
            days: (minutes / 1440) % 30,
            hours: (minutes / 60) % 24,
        }
    );
    assert_eq!(time_count(&items).years, 16343);
}
