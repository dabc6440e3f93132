use series_troxide::range::parse_range;
use series_troxide::series::{Series, SeriesError, DEFAULT_EPISODE_DURATION_MINUTES};

fn series(name: &str, minutes: Option<u32>) -> Series {
    Series::new(7, name.to_string(), minutes)
}

#[test]
fn new_series_is_empty_and_followed() {
    let s = series("Dark", Some(50));
    assert_eq!(s.get_id(), 7);
    assert_eq!(s.get_name(), "Dark");
    assert!(s.is_tracked());
    assert_eq!(s.get_total_seasons(), 0);
    assert_eq!(s.get_total_episodes(), 0);
    assert_eq!(s.get_total_watch_time(), 0);
    assert_eq!(s.get_episode_duration(), 50);
    assert_eq!(s.get_seasons(), Vec::<u32>::new());
}

#[test]
fn following_can_be_switched() {
    let mut s = series("Dark", None);
    s.mark_untracked();
    assert!(!s.is_tracked());
    s.mark_tracked();
    assert!(s.is_tracked());
}

#[test]
fn adding_a_season_twice_is_refused() {
    let mut s = series("Dark", None);
    assert_eq!(s.add_season(2), Ok(()));
    let before = s.clone();
    assert_eq!(s.add_season(2), Err(SeriesError::SeasonAlreadyExists));
    assert_eq!(s, before);
    assert_eq!(s.get_seasons(), vec![2]);
}

#[test]
fn seasons_are_kept_in_increasing_order() {
    let mut s = series("Dark", None);
    for n in [3, 1, 2, 10, 0] {
        assert_eq!(s.add_season(n), Ok(()));
    }
    assert_eq!(s.get_seasons(), vec![0, 1, 2, 3, 10]);
    assert_eq!(s.get_total_seasons(), 5);
    assert!(s.has_season(0));
    assert!(!s.has_season(4));
}

#[test]
fn removing_a_missing_season_is_refused() {
    let mut s = series("Dark", None);
    s.add_season(1).unwrap();
    let before = s.clone();
    assert_eq!(s.remove_season(2), Err(SeriesError::SeasonNotFound));
    assert_eq!(s, before);
}

#[test]
fn removing_a_season_takes_its_episodes_along() {
    let mut s = series("Dark", None);
    s.add_episode(1, 1).unwrap();
    s.add_episode(1, 2).unwrap();
    s.add_episode(2, 1).unwrap();
    s.add_episode(3, 7).unwrap();
    assert_eq!(s.remove_season(2), Ok(()));
    assert_eq!(s.get_seasons(), vec![1, 3]);
    assert_eq!(s.get_total_episodes(), 3);
    assert_eq!(s.get_episodes(1), Ok(vec![1, 2]));
    assert_eq!(s.get_episodes(2), Err(SeriesError::SeasonNotFound));
    assert_eq!(s.get_episodes(3), Ok(vec![7]));
    assert_eq!(s.remove_season(1), Ok(()));
    assert_eq!(s.get_seasons(), vec![3]);
    assert_eq!(s.get_total_episodes(), 1);
}

#[test]
fn season_range_adds_what_is_missing() {
    let mut s = series("Dark", None);
    s.add_season(2).unwrap();
    s.add_episode(2, 5).unwrap();
    s.add_season_range(&parse_range("1-4").unwrap());
    assert_eq!(s.get_seasons(), vec![1, 2, 3, 4]);
    assert_eq!(s.get_episodes(2), Ok(vec![5]));
    s.add_season_range(&parse_range("3-5").unwrap());
    assert_eq!(s.get_seasons(), vec![1, 2, 3, 4, 5]);
}

#[test]
fn adding_an_episode_adds_its_season() {
    let mut s = series("Dark", None);
    assert_eq!(s.add_episode(4, 9), Ok(()));
    assert!(s.has_season(4));
    assert!(s.has_episode(4, 9));
    assert!(!s.has_episode(4, 8));
    assert!(!s.has_episode(9, 4));
    assert_eq!(s.get_episodes(4), Ok(vec![9]));
}

#[test]
fn adding_an_episode_twice_is_refused() {
    let mut s = series("Dark", None);
    s.add_episode(1, 1).unwrap();
    let before = s.clone();
    assert_eq!(s.add_episode(1, 1), Err(SeriesError::EpisodeAlreadyExists));
    assert_eq!(s, before);
}

#[test]
fn removing_an_episode() {
    let mut s = series("Dark", None);
    s.add_episode(1, 1).unwrap();
    s.add_episode(1, 2).unwrap();
    assert_eq!(s.remove_episode(2, 1), Err(SeriesError::SeasonNotFound));
    assert_eq!(s.remove_episode(1, 3), Err(SeriesError::EpisodeNotFound));
    assert_eq!(s.remove_episode(1, 1), Ok(()));
    assert_eq!(s.get_episodes(1), Ok(vec![2]));
    assert_eq!(s.remove_episode(1, 2), Ok(()));
    assert_eq!(s.get_episodes(1), Ok(vec![]));
    assert!(s.has_season(1));
}

#[test]
fn episode_range_then_removal_of_the_middle() {
    let mut s = series("Dark", None);
    s.add_episode_range(1, &parse_range("1-3").unwrap());
    s.remove_episode_range(1, &parse_range("2-2").unwrap());
    assert_eq!(s.get_episodes(1), Ok(vec![1, 3]));
    assert_eq!(s.get_total_episodes(), 2);
}

#[test]
fn episode_ranges_are_unions_and_differences() {
    let mut s = series("Dark", None);
    s.add_episode(1, 2).unwrap();
    s.add_episode(2, 2).unwrap();
    s.add_episode_range(1, &parse_range("1-4").unwrap());
    assert_eq!(s.get_episodes(1), Ok(vec![1, 2, 3, 4]));
    s.add_episode_range(1, &parse_range("3-6").unwrap());
    assert_eq!(s.get_episodes(1), Ok(vec![1, 2, 3, 4, 5, 6]));
    s.remove_episode_range(1, &parse_range("5-9").unwrap());
    assert_eq!(s.get_episodes(1), Ok(vec![1, 2, 3, 4]));
    s.remove_episode_range(1, &parse_range("7-9").unwrap());
    assert_eq!(s.get_episodes(1), Ok(vec![1, 2, 3, 4]));
    assert_eq!(s.get_episodes(2), Ok(vec![2]));
    s.remove_episode_range(3, &parse_range("1-2").unwrap());
    assert_eq!(s.get_seasons(), vec![1, 2]);
    s.remove_episode_range(1, &parse_range("1-4").unwrap());
    assert_eq!(s.get_episodes(1), Ok(vec![]));
    assert_eq!(s.get_seasons(), vec![1, 2]);
}

#[test]
fn watch_time_is_episodes_times_minutes() {
    let mut s = series("Dark", Some(50));
    s.add_episode_range(1, &parse_range("1-10").unwrap());
    s.add_episode_range(2, &parse_range("1-8").unwrap());
    assert_eq!(s.get_total_episodes(), 18);
    assert_eq!(s.get_total_watch_time(), 900);
    let before = s.get_total_watch_time();
    s.add_episode(3, 1).unwrap();
    assert_eq!(s.get_total_watch_time(), before + 50);
    s.change_episode_duration(10);
    assert_eq!(s.get_episode_duration(), 10);
    assert_eq!(s.get_total_watch_time(), 190);
}

#[test]
fn watch_time_falls_back_to_the_default_minutes() {
    let mut s = series("Dark", None);
    assert_eq!(s.get_episode_duration(), DEFAULT_EPISODE_DURATION_MINUTES);
    s.add_episode_range(1, &parse_range("1-3").unwrap());
    assert_eq!(
        s.get_total_watch_time(),
        3 * DEFAULT_EPISODE_DURATION_MINUTES as u128
    );
    assert_eq!(s.get_total_watch_time(), 90);
}

#[test]
fn watch_time_of_the_longest_episodes() {
    let mut s = series("Dark", Some(u32::MAX));
    s.add_episode(1, 1).unwrap();
    s.add_episode(1, 2).unwrap();
    assert_eq!(s.get_total_watch_time(), 2 * (u32::MAX as u128));
}

#[test]
fn seasons_summary_has_one_line_for_each_season() {
    let mut s = series("Dark", None);
    assert_eq!(s.get_seasons_summary(), None);
    s.add_episode_range(2, &parse_range("1-12").unwrap());
    s.add_season(1).unwrap();
    s.add_episode(10, 3).unwrap();
    assert_eq!(
        s.get_seasons_summary(),
        Some(vec![
            "Season 1: 0 episodes".to_string(),
            "Season 2: 12 episodes".to_string(),
            "Season 10: 1 episodes".to_string(),
        ])
    );
}

#[test]
fn episodes_summary_lists_the_watched_episodes() {
    let mut s = series("Dark", None);
    s.add_episode(3, 11).unwrap();
    s.add_episode(3, 2).unwrap();
    s.add_episode(3, 100).unwrap();
    s.add_season(4).unwrap();
    assert_eq!(s.get_episodes_summary(3), Ok("Season 3: 2 11 100".to_string()));
    assert_eq!(s.get_episodes_summary(4), Ok("Season 4:".to_string()));
    assert_eq!(s.get_episodes_summary(5), Err(SeriesError::SeasonNotFound));
}

#[test]
fn summary_of_a_series() {
    let mut s = series("Dark", Some(45));
    s.add_episode_range(1, &parse_range("1-10").unwrap());
    s.add_season(2).unwrap();
    assert_eq!(
        s.get_summary(),
        "Series: Dark\nEpisode duration: 45 minutes\nSeasons: 2\nEpisodes: 10\nWatch time: 450 minutes"
    );
}

#[test]
fn season_zero_is_a_season_of_its_own() {
    let mut s = series("Dark", None);
    s.add_episode(0, 1).unwrap();
    s.add_episode(1, 1).unwrap();
    assert_eq!(s.get_seasons(), vec![0, 1]);
    assert_eq!(s.get_episodes(0), Ok(vec![1]));
    assert_eq!(s.get_episodes(1), Ok(vec![1]));
    s.remove_episode(0, 1).unwrap();
    assert_eq!(s.get_episodes(1), Ok(vec![1]));
}

#[test]
fn largest_numbers_are_kept() {
    let mut s = series("Dark", None);
    s.add_episode(u32::MAX, u32::MAX).unwrap();
    s.add_episode(u32::MAX, 1).unwrap();
    s.add_season_range(&parse_range("4294967294-4294967295").unwrap());
    assert_eq!(s.get_seasons(), vec![u32::MAX - 1, u32::MAX]);
    assert_eq!(s.get_episodes(u32::MAX), Ok(vec![1, u32::MAX]));
    s.add_episode_range(7, &parse_range("4294967293-4294967295").unwrap());
    assert_eq!(
        s.get_episodes(7),
        Ok(vec![u32::MAX - 2, u32::MAX - 1, u32::MAX])
    );
}

#[test]
fn duplicate_holds_what_the_series_holds() {
    let mut s = series("Dark", Some(12));
    s.add_episode_range(2, &parse_range("3-5").unwrap());
    s.add_season(9).unwrap();
    s.mark_untracked();
    let copy = s.duplicate();
    assert_eq!(copy, s);
    assert_eq!(copy.get_id(), 7);
    assert_eq!(copy.get_watched(), &vec![(2, 3), (2, 4), (2, 5)]);
    assert_eq!(copy.get_season_list(), &vec![2, 9]);
}

#[test]
fn series_from_its_parts() {
    let s = Series::from_parts(
        4,
        "Dark".to_string(),
        false,
        Some(50),
        vec![1, 2],
        vec![(1, 1), (1, 2), (2, 1)],
    )
    .unwrap();
    assert_eq!(s.get_id(), 4);
    assert!(!s.is_tracked());
    assert_eq!(s.get_episode_duration_override(), Some(50));
    assert_eq!(s.get_episodes(1), Ok(vec![1, 2]));
    assert_eq!(s.get_total_watch_time(), 150);
    let name = || "Dark".to_string();
    // Seasons out of order or twice.
    assert_eq!(Series::from_parts(4, name(), true, None, vec![2, 1], vec![]), None);
    assert_eq!(Series::from_parts(4, name(), true, None, vec![1, 1], vec![]), None);
    // Watched episodes out of order or twice.
    assert_eq!(
        Series::from_parts(4, name(), true, None, vec![1], vec![(1, 2), (1, 1)]),
        None
    );
    assert_eq!(
        Series::from_parts(4, name(), true, None, vec![1], vec![(1, 1), (1, 1)]),
        None
    );
    // A watched episode of a season that is missing.
    assert_eq!(Series::from_parts(4, name(), true, None, vec![1], vec![(2, 1)]), None);
    assert!(Series::from_parts(4, name(), true, None, vec![], vec![]).is_some());
}
