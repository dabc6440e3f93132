use series_troxide::collection::{SeriesCollection, SeriesSort};
use series_troxide::range::parse_range;
use series_troxide::storage::{decode, encode, pack, unpack, LoadError};

fn words(list: &[u64]) -> Vec<u8> {
    pack(&list.to_vec())
}

fn sample() -> SeriesCollection {
    let mut c = SeriesCollection::new();
    c.add_series("Dark".to_string(), Some(50)).unwrap();
    c.add_series("Élite".to_string(), None).unwrap();
    c.add_series("".to_string(), Some(0)).unwrap();
    c.add_series("Andor".to_string(), Some(u32::MAX)).unwrap();
    {
        let dark = c.get_series_mut("Dark").unwrap();
        dark.add_episode_range(1, &parse_range("1-10").unwrap());
        dark.add_season(3).unwrap();
        dark.add_episode(u32::MAX, u32::MAX).unwrap();
        dark.add_episode(0, 7).unwrap();
    }
    c.get_series_mut("Élite").unwrap().mark_untracked();
    c.get_series_mut("Andor").unwrap().add_episode(2, 1).unwrap();
    c
}

#[test]
fn words_are_written_lowest_byte_first() {
    assert_eq!(pack(&vec![]), Vec::<u8>::new());
    assert_eq!(
        pack(&vec![1, 0x0102030405060708]),
        vec![1, 0, 0, 0, 0, 0, 0, 0, 8, 7, 6, 5, 4, 3, 2, 1]
    );
    assert_eq!(
        unpack(&[1, 0, 0, 0, 0, 0, 0, 0, 8, 7, 6, 5, 4, 3, 2, 1]),
        Some(vec![1, 0x0102030405060708])
    );
    assert_eq!(unpack(&[]), Some(vec![]));
    assert_eq!(unpack(&[0; 7]), None);
    assert_eq!(unpack(&[0; 9]), None);
    assert_eq!(unpack(&[0xff; 8]), Some(vec![u64::MAX]));
}

#[test]
fn empty_collection_is_one_word() {
    assert_eq!(encode(&SeriesCollection::new()), words(&[0]));
    assert_eq!(decode(&words(&[0])), Ok(SeriesCollection::new()));
}

#[test]
fn stored_form_of_a_small_collection() {
    let mut c = SeriesCollection::new();
    c.add_series("Hi".to_string(), Some(45)).unwrap();
    c.get_series_mut("Hi").unwrap().add_episode(2, 3).unwrap();
    c.get_series_mut("Hi").unwrap().add_season(1).unwrap();
    let stored = words(&[
        1,
        2, 'H' as u64, 'i' as u64,
        1,
        1,
        46,
        2, 1, 2,
        1, (2 << 32) + 3,
    ]);
    assert_eq!(encode(&c), stored);
    assert_eq!(decode(&stored), Ok(c));
}

#[test]
fn stored_collection_is_read_back() {
    let c = sample();
    let back = decode(&encode(&c)).unwrap();
    assert_eq!(back, c);
    assert_eq!(
        back.get_series_names_sorted(SeriesSort::Default),
        vec!["Dark".to_string(), "Élite".to_string(), String::new(), "Andor".to_string()]
    );
    let dark = back.get_series("Dark").unwrap();
    assert!(dark.is_tracked());
    assert_eq!(dark.get_episode_duration_override(), Some(50));
    assert_eq!(dark.get_seasons(), vec![0, 1, 3, u32::MAX]);
    assert_eq!(dark.get_episodes(1), Ok((1..=10).collect::<Vec<u32>>()));
    assert_eq!(dark.get_episodes(u32::MAX), Ok(vec![u32::MAX]));
    let elite = back.get_series("Élite").unwrap();
    assert!(!elite.is_tracked());
    assert_eq!(elite.get_episode_duration_override(), None);
    assert_eq!(back.get_series("").unwrap().get_episode_duration_override(), Some(0));
    assert_eq!(
        back.get_series("Andor").unwrap().get_episode_duration_override(),
        Some(u32::MAX)
    );
    assert_eq!(encode(&back), encode(&c));
    for name in ["Dark", "Élite", "", "Andor"] {
        assert_eq!(back.get_id(name), c.get_id(name));
    }
}

#[test]
fn identifiers_are_stored() {
    let mut c = sample();
    c.remove_series("Élite").unwrap();
    c.remove_series("Dark").unwrap();
    let back = decode(&encode(&c)).unwrap();
    assert_eq!(back.get_id(""), Ok(3));
    assert_eq!(back.get_id("Andor"), Ok(4));
    assert_eq!(back, c);
}

#[test]
fn name_is_stored_as_utf8_text() {
    let mut c = SeriesCollection::new();
    c.add_series("é".to_string(), None).unwrap();
    let stored = words(&[1, 2, 0xc3, 0xa9, 1, 1, 0, 0, 0]);
    assert_eq!(encode(&c), stored);
    assert_eq!(decode(&stored), Ok(c));
    // A lone continuation byte is no text.
    assert_eq!(decode(&words(&[1, 1, 0xa9, 1, 1, 0, 0, 0])), Err(LoadError::Malformed));
    // Nor is a word that is no byte.
    assert_eq!(decode(&words(&[1, 1, 256, 1, 1, 0, 0, 0])), Err(LoadError::Malformed));
}

#[test]
fn bytes_that_store_nothing_are_refused() {
    assert_eq!(decode(&[]), Err(LoadError::Malformed));
    assert_eq!(decode(&[0; 7]), Err(LoadError::Malformed));
    // A series is announced and none follows.
    assert_eq!(decode(&words(&[1])), Err(LoadError::Malformed));
    // Words are left over.
    assert_eq!(decode(&words(&[0, 0])), Err(LoadError::Malformed));
    // The name is longer than what is there.
    assert_eq!(decode(&words(&[1, 9, 65, 1, 1, 0, 0, 0])), Err(LoadError::Malformed));
    assert_eq!(
        decode(&words(&[1, u64::MAX, 65, 1, 1, 0, 0, 0])),
        Err(LoadError::Malformed)
    );
    // The series stops after its name.
    assert_eq!(decode(&words(&[1, 1, 65])), Err(LoadError::Malformed));
    assert_eq!(decode(&words(&[1, 1, 65, 1])), Err(LoadError::Malformed));
    assert_eq!(decode(&words(&[1, 1, 65, 1, 1])), Err(LoadError::Malformed));
    assert_eq!(decode(&words(&[1, 1, 65, 1, 1, 0])), Err(LoadError::Malformed));
    assert_eq!(decode(&words(&[1, 1, 65, 1, 1, 0, 0])), Err(LoadError::Malformed));
    assert_eq!(
        decode(&words(&[1, 1, 65, 1, 1, 0, 0, 0])).map(|c| c.get_total_series()),
        Ok(1)
    );
    // More series are announced than there are words.
    assert_eq!(
        decode(&words(&[u64::MAX, 1, 65, 1, 1, 0, 0, 0])),
        Err(LoadError::Malformed)
    );
}

#[test]
fn words_out_of_range_are_refused() {
    // The mark is neither zero nor one.
    assert_eq!(decode(&words(&[1, 1, 65, 1, 2, 0, 0, 0])), Err(LoadError::Malformed));
    // The minutes do not fit in 32 bits.
    assert_eq!(
        decode(&words(&[1, 1, 65, 1, 1, (1 << 32) + 1, 0, 0])),
        Err(LoadError::Malformed)
    );
    assert_eq!(
        decode(&words(&[1, 1, 65, 1, 1, 1 << 32, 0, 0]))
            .map(|c| c.get_series("A").unwrap().get_episode_duration_override()),
        Ok(Some(u32::MAX))
    );
    // A season does not fit in 32 bits.
    assert_eq!(
        decode(&words(&[1, 1, 65, 1, 1, 0, 1, 1 << 32, 0])),
        Err(LoadError::Malformed)
    );
    // The identifier is zero.
    assert_eq!(decode(&words(&[1, 1, 65, 0, 1, 0, 0, 0])), Err(LoadError::Malformed));
    assert_eq!(
        decode(&words(&[1, 1, 65, u64::MAX, 1, 0, 0, 0])).map(|c| c.get_id("A")),
        Ok(Ok(u64::MAX))
    );
}

#[test]
fn collections_that_are_not_well_formed_are_refused() {
    // Seasons out of order, and a season twice.
    assert_eq!(decode(&words(&[1, 1, 65, 1, 1, 0, 2, 2, 1, 0])), Err(LoadError::Malformed));
    assert_eq!(decode(&words(&[1, 1, 65, 1, 1, 0, 2, 1, 1, 0])), Err(LoadError::Malformed));
    // A watched episode of a season that the series does not have.
    assert_eq!(
        decode(&words(&[1, 1, 65, 1, 1, 0, 1, 1, 1, (2 << 32) + 1])),
        Err(LoadError::Malformed)
    );
    // Watched episodes out of order.
    assert_eq!(
        decode(&words(&[1, 1, 65, 1, 1, 0, 1, 1, 2, (1 << 32) + 2, (1 << 32) + 1])),
        Err(LoadError::Malformed)
    );
    assert_eq!(
        decode(&words(&[1, 1, 65, 1, 1, 0, 1, 1, 2, (1 << 32) + 1, (1 << 32) + 2]))
            .map(|c| c.get_total_episodes()),
        Ok(2)
    );
    // Two series of one name.
    assert_eq!(
        decode(&words(&[2, 1, 65, 1, 1, 0, 0, 0, 1, 65, 2, 0, 0, 0, 0])),
        Err(LoadError::Malformed)
    );
    // Two series of one identifier, and identifiers out of order.
    assert_eq!(
        decode(&words(&[2, 1, 65, 1, 1, 0, 0, 0, 1, 66, 1, 0, 0, 0, 0])),
        Err(LoadError::Malformed)
    );
    assert_eq!(
        decode(&words(&[2, 1, 65, 2, 1, 0, 0, 0, 1, 66, 1, 0, 0, 0, 0])),
        Err(LoadError::Malformed)
    );
    assert_eq!(
        decode(&words(&[2, 1, 65, 1, 1, 0, 0, 0, 1, 66, 7, 0, 0, 0, 0]))
            .map(|c| c.get_series_names_sorted(SeriesSort::Default)),
        Ok(vec!["A".to_string(), "B".to_string()])
    );
}
