use series_troxide::catalog::{gather, Episode, FetchError, SeriesMainInformation};
use series_troxide::episode_list::EpisodeList;
use series_troxide::series::Series;
use series_troxide::series_list::{parse_series_id, SeriesList};

fn info(id: u32, name: &str, status: &str) -> SeriesMainInformation {
    SeriesMainInformation {
        id,
        name: name.to_string(),
        status: status.to_string(),
        image_url: None,
        average_runtime: Some(45),
    }
}

fn episode(name: &str, season: u32, number: u32, air_date: i64) -> Episode {
    Episode {
        name: name.to_string(),
        season,
        number,
        air_date,
        image_url: None,
        show_url: format!("https://catalog.example/shows/{}", season),
    }
}

fn entry(id: &str, followed: bool) -> (String, Series) {
    let mut series = Series::new(1, format!("series {}", id), None);
    if !followed {
        series.mark_untracked();
    }
    (id.to_string(), series)
}

fn list_of_three() -> SeriesList {
    SeriesList::new(vec![entry("1", true), entry("2", true), entry("3", true)])
}

#[test]
fn ids_are_split_by_following_and_keep_the_order() {
    let list = SeriesList::new(vec![
        entry("30", true),
        entry("4", false),
        entry("17", true),
        entry("2", false),
        entry("9", true),
    ]);
    assert_eq!(list.get_tracked_series_ids(), vec!["30", "17", "9"]);
    assert_eq!(list.get_untracked_series_ids(), vec!["4", "2"]);
    assert_eq!(list.get_tracked_series_requests(), Ok(vec![30, 17, 9]));
    assert_eq!(list.get_untracked_series_requests(), Ok(vec![4, 2]));
}

#[test]
fn empty_list_has_no_ids() {
    let list = SeriesList::new(Vec::new());
    assert_eq!(list.get_tracked_series_ids(), Vec::<&str>::new());
    assert_eq!(list.get_untracked_series_ids(), Vec::<&str>::new());
    assert_eq!(list.get_tracked_series_informations(Vec::new()), Ok(Vec::new()));
}

#[test]
fn identifier_is_a_positive_number() {
    assert_eq!(parse_series_id("82"), Ok(82));
    assert_eq!(parse_series_id("4294967295"), Ok(u32::MAX));
    assert_eq!(
        parse_series_id("4294967296"),
        Err(FetchError::InvalidId("4294967296".to_string()))
    );
    assert_eq!(parse_series_id("0"), Err(FetchError::InvalidId("0".to_string())));
    assert_eq!(parse_series_id(""), Err(FetchError::InvalidId(String::new())));
    assert_eq!(
        parse_series_id("tt82"),
        Err(FetchError::InvalidId("tt82".to_string()))
    );
    assert_eq!(parse_series_id("-3"), Err(FetchError::InvalidId("-3".to_string())));
}

#[test]
fn batch_with_all_records_keeps_their_order() {
    let list = list_of_three();
    let fetched = vec![
        Ok(info(1, "one", "Running")),
        Ok(info(2, "two", "Ended")),
        Ok(info(3, "three", "")),
    ];
    assert_eq!(
        list.get_tracked_series_informations(fetched),
        Ok(vec![
            info(1, "one", "Running"),
            info(2, "two", "Ended"),
            info(3, "three", ""),
        ])
    );
}

#[test]
fn one_failed_fetch_fails_the_batch() {
    let list = list_of_three();
    let fetched = vec![
        Ok(info(1, "one", "Running")),
        Err(FetchError::Transient("no route".to_string())),
        Ok(info(3, "three", "Running")),
    ];
    assert_eq!(
        list.get_tracked_series_informations(fetched),
        Err(FetchError::Transient("no route".to_string()))
    );
}

#[test]
fn first_failure_of_a_batch_wins() {
    let list = list_of_three();
    let fetched = vec![
        Ok(info(1, "one", "Running")),
        Err(FetchError::Permanent("not found".to_string())),
        Err(FetchError::Aborted),
    ];
    assert_eq!(
        list.get_tracked_series_informations(fetched.clone()),
        Err(FetchError::Permanent("not found".to_string()))
    );
    assert_eq!(
        list.get_running_tracked_series_informations(fetched.clone()),
        Err(FetchError::Permanent("not found".to_string()))
    );
    assert_eq!(
        list.get_ended_tracked_series_informations(fetched.clone()),
        Err(FetchError::Permanent("not found".to_string()))
    );
    assert_eq!(gather(fetched), Err(FetchError::Permanent("not found".to_string())));
}

#[test]
fn identifier_that_is_no_number_fails_the_batch() {
    let list = SeriesList::new(vec![
        entry("1", true),
        entry("x2", true),
        entry("y3", false),
        entry("z4", true),
    ]);
    assert_eq!(
        list.get_tracked_series_requests(),
        Err(FetchError::InvalidId("x2".to_string()))
    );
    assert_eq!(
        list.get_untracked_series_requests(),
        Err(FetchError::InvalidId("y3".to_string()))
    );
    assert_eq!(
        list.get_tracked_series_informations(vec![Ok(info(1, "one", "Running"))]),
        Err(FetchError::InvalidId("x2".to_string()))
    );
    assert_eq!(
        list.get_untracked_series_informations(Vec::new()),
        Err(FetchError::InvalidId("y3".to_string()))
    );
}

#[test]
fn records_of_series_that_are_not_followed() {
    let list = SeriesList::new(vec![entry("1", true), entry("2", false)]);
    assert_eq!(
        list.get_untracked_series_informations(vec![Ok(info(2, "two", "Ended"))]),
        Ok(vec![info(2, "two", "Ended")])
    );
    assert_eq!(
        list.get_untracked_series_informations(vec![Err(FetchError::Aborted)]),
        Err(FetchError::Aborted)
    );
}

#[test]
fn ended_is_told_from_running_by_the_exact_status() {
    let list = SeriesList::new(vec![
        entry("1", true),
        entry("2", true),
        entry("3", true),
        entry("4", true),
        entry("5", true),
    ]);
    let fetched = vec![
        Ok(info(1, "one", "Running")),
        Ok(info(2, "two", "Ended")),
        Ok(info(3, "three", "")),
        Ok(info(4, "four", "ended")),
        Ok(info(5, "five", "To Be Determined")),
    ];
    assert_eq!(
        list.get_running_tracked_series_informations(fetched.clone()),
        Ok(vec![
            info(1, "one", "Running"),
            info(3, "three", ""),
            info(4, "four", "ended"),
            info(5, "five", "To Be Determined"),
        ])
    );
    assert_eq!(
        list.get_ended_tracked_series_informations(fetched),
        Ok(vec![info(2, "two", "Ended")])
    );
    assert!(info(2, "two", "Ended").is_ended());
    assert!(!info(2, "two", "Ended ").is_ended());
}

#[test]
fn schedule_keeps_what_was_fetched() {
    let episodes = vec![episode("a", 1, 1, 10), episode("b", 1, 2, 20)];
    let list = EpisodeList::new(7, Ok(episodes.clone())).unwrap();
    assert_eq!(list.series_id(), 7);
    assert_eq!(list.get_episodes(), &episodes);
    assert_eq!(
        EpisodeList::new(7, Err(FetchError::Transient("down".to_string()))),
        Err(FetchError::Transient("down".to_string()))
    );
}

#[test]
fn next_episode_is_the_earliest_after_now() {
    let list = EpisodeList::new(
        7,
        Ok(vec![
            episode("late", 2, 1, 500),
            episode("past", 1, 1, 50),
            episode("soon", 1, 3, 200),
            episode("now", 1, 2, 100),
            episode("also soon", 1, 4, 200),
        ]),
    )
    .unwrap();
    assert_eq!(list.get_next_episode(100), Some(&episode("soon", 1, 3, 200)));
    assert_eq!(list.get_next_episode(99), Some(&episode("now", 1, 2, 100)));
    assert_eq!(list.get_next_episode(200), Some(&episode("late", 2, 1, 500)));
    assert_eq!(list.get_next_episode(499), Some(&episode("late", 2, 1, 500)));
    assert_eq!(list.get_next_episode(500), None);
    assert_eq!(list.get_next_episode(i64::MAX), None);
    assert_eq!(list.get_next_episode(i64::MIN), Some(&episode("past", 1, 1, 50)));
}

#[test]
fn empty_schedule_has_no_next_episode() {
    let list = EpisodeList::new(7, Ok(Vec::new())).unwrap();
    assert_eq!(list.get_next_episode(0), None);
}

#[test]
fn series_without_a_future_episode_waits_for_a_release() {
    let waiting = info(1, "waiting", "Running");
    let ahead = info(2, "ahead", "Running");
    let unscheduled = info(3, "unscheduled", "In Development");
    let schedule = vec![episode("past", 1, 1, 50), episode("future", 1, 2, 150)];
    let resolved = vec![
        (waiting.clone(), Ok(vec![episode("past", 1, 1, 50), episode("now", 1, 2, 100)])),
        (ahead.clone(), Ok(schedule.clone())),
        (unscheduled.clone(), Ok(Vec::new())),
    ];
    assert_eq!(
        SeriesList::get_waiting_release_series_informations(resolved.clone(), 100),
        Ok(vec![waiting, unscheduled])
    );
    assert_eq!(
        SeriesList::get_upcoming_release_series_informations_and_episodes(resolved, 100),
        Ok(vec![(ahead, EpisodeList::new(2, Ok(schedule)).unwrap())])
    );
}

#[test]
fn failed_schedule_fails_the_classification() {
    let resolved = vec![
        (info(1, "one", "Running"), Ok(vec![episode("future", 1, 1, 150)])),
        (info(2, "two", "Running"), Err(FetchError::Transient("down".to_string()))),
        (info(3, "three", "Running"), Err(FetchError::Aborted)),
    ];
    assert_eq!(
        SeriesList::get_waiting_release_series_informations(resolved.clone(), 100),
        Err(FetchError::Transient("down".to_string()))
    );
    assert_eq!(
        SeriesList::get_upcoming_release_series_informations_and_episodes(resolved, 100),
        Err(FetchError::Transient("down".to_string()))
    );
}

#[test]
fn no_running_series_gives_empty_classes() {
    assert_eq!(
        SeriesList::get_waiting_release_series_informations(Vec::new(), 0),
        Ok(Vec::new())
    );
    assert_eq!(
        SeriesList::get_upcoming_release_series_informations_and_episodes(Vec::new(), 0),
        Ok(Vec::new())
    );
}

#[test]
fn gathering_keeps_every_result() {
    let outcomes: Vec<Result<u32, FetchError>> = vec![Ok(3), Ok(1), Ok(2)];
    assert_eq!(gather(outcomes), Ok(vec![3, 1, 2]));
    let none: Vec<Result<u32, FetchError>> = Vec::new();
    assert_eq!(gather(none), Ok(Vec::new()));
}

#[test]
fn only_a_request_that_did_not_get_through_is_transient() {
    assert!(FetchError::Transient(String::new()).is_transient());
    assert!(!FetchError::Permanent(String::new()).is_transient());
    assert!(!FetchError::InvalidId(String::new()).is_transient());
    assert!(!FetchError::Aborted.is_transient());
}

#[test]
fn ended_series_are_passed_over_by_the_release_classes() {
    let running = info(1, "running", "Running");
    let ended = info(2, "ended", "Ended");
    let resolved = vec![
        (ended.clone(), Err(FetchError::Aborted)),
        (running.clone(), Ok(Vec::new())),
        (ended, Ok(vec![episode("future", 1, 1, 150)])),
    ];
    assert_eq!(
        SeriesList::get_waiting_release_series_informations(resolved.clone(), 100),
        Ok(vec![running])
    );
    assert_eq!(
        SeriesList::get_upcoming_release_series_informations_and_episodes(resolved, 100),
        Ok(Vec::new())
    );
}

#[test]
fn exactly_one_future_episode_is_a_release_ahead() {
    let ahead = info(8, "ahead", "Running");
    let schedule = vec![
        episode("first", 1, 1, 10),
        episode("second", 1, 2, 20),
        episode("third", 1, 3, 30),
    ];
    let resolved = vec![(ahead.clone(), Ok(schedule.clone()))];
    let upcoming =
        SeriesList::get_upcoming_release_series_informations_and_episodes(resolved.clone(), 20)
            .unwrap();
    assert_eq!(upcoming.len(), 1);
    assert_eq!(upcoming[0].0, ahead);
    assert_eq!(upcoming[0].1.series_id(), 8);
    assert_eq!(upcoming[0].1.get_episodes(), &schedule);
    assert_eq!(upcoming[0].1.get_next_episode(20), Some(&episode("third", 1, 3, 30)));
    assert_eq!(
        SeriesList::get_waiting_release_series_informations(resolved, 20),
        Ok(Vec::new())
    );
}

#[test]
fn list_of_a_collection_carries_its_identifiers() {
    let mut collection = series_troxide::collection::SeriesCollection::new();
    collection.add_series("Dark".to_string(), None).unwrap();
    collection.add_series("Andor".to_string(), None).unwrap();
    collection.add_series("Lost".to_string(), None).unwrap();
    collection.get_series_mut("Andor").unwrap().mark_untracked();
    let list = SeriesList::new(collection.get_ids_and_series());
    assert_eq!(list.get_tracked_series_ids(), vec!["1", "3"]);
    assert_eq!(list.get_untracked_series_ids(), vec!["2"]);
    assert_eq!(list.get_tracked_series_requests(), Ok(vec![1, 3]));
}
