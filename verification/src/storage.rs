//! The stored form of a collection.
//!
//! A stored collection is a run of words of 64 bits, each written as eight
//! bytes with the lowest first. The first word counts the series. A series
//! is its name, its identifier, one word that says whether it is followed,
//! one word for the minutes of an episode, its seasons and its watched
//! episodes. A list is
//! the count of its elements and then one word for each: a byte of the
//! name's UTF-8 text, a season, or a watched episode as its season times
//! 2^32 plus its number. The word of the minutes is zero where none were
//! set, else the minutes plus one.

use crate::collection::{collection_wf, SeriesCollection};
use crate::series::{Series, SeriesView};
use vstd::bytes::{
    lemma_auto_spec_u64_to_from_le_bytes, spec_u64_from_le_bytes, spec_u64_to_le_bytes,
    u64_from_le_bytes, u64_to_le_bytes,
};
use vstd::prelude::*;
use vstd::slice::slice_subrange;
use vstd::utf8::{decode_utf8, encode_utf8, valid_utf8};

verus! {

/// The bytes of a run of words: eight for each, the lowest first.
pub open spec fn bytes_of_words(words: Seq<u64>) -> Seq<u8>
    decreases words.len(),
{
    if words.len() == 0 {
        Seq::empty()
    } else {
        bytes_of_words(words.drop_last()) + spec_u64_to_le_bytes(words.last())
    }
}

/// The words that the bytes write, where their number is a multiple of
/// eight.
pub open spec fn words_of_bytes(bytes: Seq<u8>) -> Option<Seq<u64>> {
    if bytes.len() % 8 != 0 {
        None
    } else {
        Some(
            Seq::new(
                bytes.len() / 8,
                |i: int| spec_u64_from_le_bytes(bytes.subrange(8 * i, 8 * i + 8)),
            ),
        )
    }
}

/// The bytes of a run of words are eight times as many, and each word is
/// read back from its eight bytes.
pub proof fn lemma_bytes_of_words(words: Seq<u64>)
    ensures
        bytes_of_words(words).len() == 8 * words.len(),
        forall|i: int|
            0 <= i < words.len() ==> #[trigger] bytes_of_words(words).subrange(8 * i, 8 * i + 8)
                == spec_u64_to_le_bytes(words[i]),
        words_of_bytes(bytes_of_words(words)) == Some(words),
    decreases words.len(),
{
    lemma_auto_spec_u64_to_from_le_bytes();
    if words.len() > 0 {
        let init = words.drop_last();
        lemma_bytes_of_words(init);
        let all = bytes_of_words(words);
        assert forall|i: int| 0 <= i < words.len() implies #[trigger] all.subrange(
            8 * i,
            8 * i + 8,
        ) == spec_u64_to_le_bytes(words[i]) by {
            if i < init.len() {
                assert(all.subrange(8 * i, 8 * i + 8) =~= bytes_of_words(init).subrange(
                    8 * i,
                    8 * i + 8,
                ));
            } else {
                assert(all.subrange(8 * i, 8 * i + 8) =~= spec_u64_to_le_bytes(words.last()));
            }
        }
    }
    let back = words_of_bytes(bytes_of_words(words));
    assert(back is Some);
    assert(back->0 =~= words) by {
        assert forall|i: int| 0 <= i < words.len() implies back->0[i] == words[i] by {
            assert(bytes_of_words(words).subrange(8 * i, 8 * i + 8) == spec_u64_to_le_bytes(
                words[i],
            ));
        }
    }
}

/// Writes the words out as bytes.
pub fn pack(words: &Vec<u64>) -> (out: Vec<u8>)
    ensures
        out@ == bytes_of_words(words@),
{
    let mut out: Vec<u8> = Vec::new();
    let mut i: usize = 0;
    while i < words.len()
        invariant
            i <= words.len(),
            out@ == bytes_of_words(words@.take(i as int)),
        decreases words.len() - i,
    {
        assert(words@.take(i + 1).drop_last() =~= words@.take(i as int));
        let mut eight = u64_to_le_bytes(words[i]);
        out.append(&mut eight);
        i = i + 1;
    }
    assert(words@.take(i as int) =~= words@);
    out
}

/// Reads the bytes as words, where their number is a multiple of eight.
pub fn unpack(bytes: &[u8]) -> (out: Option<Vec<u64>>)
    ensures
        match words_of_bytes(bytes@) {
            Some(words) => out is Some && out->0@ == words,
            None => out is None,
        },
{
    if bytes.len() % 8 != 0 {
        return None;
    }
    let n = bytes.len() / 8;
    let mut words: Vec<u64> = Vec::new();
    let mut i: usize = 0;
    while i < n
        invariant
            i <= n,
            n == bytes@.len() / 8,
            bytes@.len() % 8 == 0,
            bytes@.len() <= usize::MAX,
            words@.len() == i,
            forall|k: int|
                0 <= k < i ==> words@[k] == spec_u64_from_le_bytes(
                    bytes@.subrange(8 * k, 8 * k + 8),
                ),
        decreases n - i,
    {
        assert(8 * i + 8 <= bytes@.len());
        let eight = slice_subrange(bytes, 8 * i, 8 * i + 8);
        words.push(u64_from_le_bytes(eight));
        i = i + 1;
    }
    assert(words@ =~= words_of_bytes(bytes@)->0);
    Some(words)
}

/// A list as words: the count of its elements, then the elements.
pub open spec fn list(words: Seq<u64>) -> Seq<u64> {
    seq![words.len() as u64] + words
}

/// The words of a name: one for each byte of its UTF-8 text.
pub open spec fn words_of_text(text: Seq<char>) -> Seq<u64> {
    encode_utf8(text).map_values(|b: u8| b as u64)
}

/// The words of a list of seasons.
pub open spec fn words_of_numbers(numbers: Seq<u32>) -> Seq<u64> {
    numbers.map_values(|n: u32| n as u64)
}

/// The word of a watched episode: its season times 2^32 plus its number.
pub open spec fn word_of_pair(pair: (u32, u32)) -> u64 {
    (pair.0 as u64 * 0x1_0000_0000 + pair.1 as u64) as u64
}

/// The words of a list of watched episodes.
pub open spec fn words_of_pairs(pairs: Seq<(u32, u32)>) -> Seq<u64> {
    pairs.map_values(|p: (u32, u32)| word_of_pair(p))
}

/// The word that says whether a series is followed.
pub open spec fn word_of_flag(flag: bool) -> u64 {
    if flag {
        1
    } else {
        0
    }
}

/// The word of the minutes of an episode: zero where none were set, else
/// the minutes plus one.
pub open spec fn word_of_duration(duration: Option<u32>) -> u64 {
    match duration {
        None => 0,
        Some(minutes) => (minutes as u64 + 1) as u64,
    }
}

/// The words of a series.
pub open spec fn words_of_series(v: SeriesView) -> Seq<u64> {
    list(words_of_text(v.name)) + seq![
        v.id,
        word_of_flag(v.is_tracked),
        word_of_duration(v.duration),
    ] + list(words_of_numbers(v.seasons)) + list(words_of_pairs(v.episodes))
}

/// The words of some series, one after the other.
pub open spec fn words_of_all(vs: Seq<SeriesView>) -> Seq<u64>
    decreases vs.len(),
{
    if vs.len() == 0 {
        Seq::empty()
    } else {
        words_of_all(vs.drop_last()) + words_of_series(vs.last())
    }
}

/// The words of a collection: the count of its series, then the series.
pub open spec fn words_of_collection(vs: Seq<SeriesView>) -> Seq<u64> {
    seq![vs.len() as u64] + words_of_all(vs)
}

/// The stored form of a collection.
pub open spec fn stored_bytes(vs: Seq<SeriesView>) -> Seq<u8> {
    bytes_of_words(words_of_collection(vs))
}

/// Whether the lists of a series are short enough for their counts to be
/// written as words.
pub open spec fn series_storable(v: SeriesView) -> bool {
    &&& encode_utf8(v.name).len() <= u64::MAX
    &&& v.seasons.len() <= u64::MAX
    &&& v.episodes.len() <= u64::MAX
}

/// Whether a collection and the lists of its series are short enough for
/// their counts to be written as words.
pub open spec fn storable(vs: Seq<SeriesView>) -> bool {
    &&& vs.len() <= u64::MAX
    &&& forall|i: int| 0 <= i < vs.len() ==> series_storable(#[trigger] vs[i])
}

/// The list that starts at `pos`, and the place after it.
pub open spec fn take_list(words: Seq<u64>, pos: int) -> Option<(Seq<u64>, int)> {
    if 0 <= pos < words.len() && pos + 1 + words[pos] <= words.len() {
        Some((words.subrange(pos + 1, pos + 1 + words[pos]), pos + 1 + words[pos]))
    } else {
        None
    }
}

/// The bytes that the words of a name stand for.
pub open spec fn bytes_of_text_words(words: Seq<u64>) -> Seq<u8> {
    words.map_values(|w: u64| w as u8)
}

/// The name that the words write, where each is a byte and the bytes are
/// UTF-8 text.
pub open spec fn text_of_words(words: Seq<u64>) -> Option<Seq<char>> {
    if (forall|i: int| 0 <= i < words.len() ==> #[trigger] words[i] < 256) && valid_utf8(
        bytes_of_text_words(words),
    ) {
        Some(decode_utf8(bytes_of_text_words(words)))
    } else {
        None
    }
}

/// The seasons that the words write, where each fits in 32 bits.
pub open spec fn numbers_of_words(words: Seq<u64>) -> Option<Seq<u32>> {
    if forall|i: int| 0 <= i < words.len() ==> #[trigger] words[i] <= u32::MAX {
        Some(words.map_values(|w: u64| w as u32))
    } else {
        None
    }
}

/// The watched episode that a word writes.
pub open spec fn pair_of_word(word: u64) -> (u32, u32) {
    ((word / 0x1_0000_0000) as u32, (word % 0x1_0000_0000) as u32)
}

/// The watched episodes that the words write.
pub open spec fn pairs_of_words(words: Seq<u64>) -> Seq<(u32, u32)> {
    words.map_values(|w: u64| pair_of_word(w))
}

/// Whether a series is followed, as the word says.
pub open spec fn flag_of_word(word: u64) -> Option<bool> {
    if word == 0 {
        Some(false)
    } else if word == 1 {
        Some(true)
    } else {
        None
    }
}

/// The minutes of an episode, as the word says.
pub open spec fn duration_of_word(word: u64) -> Option<Option<u32>> {
    if word == 0 {
        Some(None)
    } else if word <= 0x1_0000_0000 {
        Some(Some((word - 1) as u32))
    } else {
        None
    }
}

/// The series that starts at `pos`, and the place after it. There is none
/// where a list runs over the end, a word is out of its range, the name is
/// no text, or what the words write is no well-formed series.
pub open spec fn parse_series(words: Seq<u64>, pos: int) -> Option<(SeriesView, int)> {
    match take_list(words, pos) {
        None => None,
        Some((name_words, after_name)) => if after_name + 3 > words.len() {
            None
        } else {
            match take_list(words, after_name + 3) {
                None => None,
                Some((season_words, after_seasons)) => match take_list(words, after_seasons) {
                    None => None,
                    Some((episode_words, after_episodes)) => match (
                        text_of_words(name_words),
                        flag_of_word(words[after_name + 1]),
                        duration_of_word(words[after_name + 2]),
                        numbers_of_words(season_words),
                    ) {
                        (Some(name), Some(is_tracked), Some(duration), Some(seasons)) => {
                            let v = SeriesView {
                                id: words[after_name],
                                name,
                                is_tracked,
                                seasons,
                                episodes: pairs_of_words(episode_words),
                                duration,
                            };
                            if v.wf() {
                                Some((v, after_episodes))
                            } else {
                                None
                            }
                        },
                        _ => None,
                    },
                },
            }
        },
    }
}

/// The collection made of `read` and of `remaining` more series that start
/// at `pos`. There is none where a series is missing, words are left over,
/// or two series have the same name.
pub open spec fn parse_rest(
    words: Seq<u64>,
    pos: int,
    remaining: nat,
    read: Seq<SeriesView>,
) -> Option<Seq<SeriesView>>
    decreases remaining,
{
    if remaining == 0 {
        if pos == words.len() && collection_wf(read) {
            Some(read)
        } else {
            None
        }
    } else {
        match parse_series(words, pos) {
            None => None,
            Some((v, next)) => parse_rest(words, next, (remaining - 1) as nat, read.push(v)),
        }
    }
}

/// The collection that the words write.
pub open spec fn parse_words(words: Seq<u64>) -> Option<Seq<SeriesView>> {
    if words.len() == 0 {
        None
    } else {
        parse_rest(words, 1, words[0] as nat, Seq::empty())
    }
}

/// The collection that the bytes store.
pub open spec fn parse_bytes(bytes: Seq<u8>) -> Option<Seq<SeriesView>> {
    match words_of_bytes(bytes) {
        None => None,
        Some(words) => parse_words(words),
    }
}

fn push_list_of_bytes(words: &mut Vec<u64>, bytes: &[u8])
    ensures
        final(words)@ == old(words)@ + list(bytes@.map_values(|b: u8| b as u64)),
{
    words.push(bytes.len() as u64);
    let mut i: usize = 0;
    while i < bytes.len()
        invariant
            i <= bytes.len(),
            words@ == old(words)@ + list(bytes@.map_values(|b: u8| b as u64)).take(1 + i),
        decreases bytes.len() - i,
    {
        words.push(bytes[i] as u64);
        assert(words@ =~= old(words)@ + list(bytes@.map_values(|b: u8| b as u64)).take(
            1 + i + 1,
        ));
        i = i + 1;
    }
    assert(list(bytes@.map_values(|b: u8| b as u64)).take(1 + i) =~= list(
        bytes@.map_values(|b: u8| b as u64),
    ));
}

fn push_list_of_numbers(words: &mut Vec<u64>, numbers: &Vec<u32>)
    ensures
        final(words)@ == old(words)@ + list(words_of_numbers(numbers@)),
{
    words.push(numbers.len() as u64);
    let mut i: usize = 0;
    while i < numbers.len()
        invariant
            i <= numbers.len(),
            words@ == old(words)@ + list(words_of_numbers(numbers@)).take(1 + i),
        decreases numbers.len() - i,
    {
        words.push(numbers[i] as u64);
        assert(words@ =~= old(words)@ + list(words_of_numbers(numbers@)).take(1 + i + 1));
        i = i + 1;
    }
    assert(list(words_of_numbers(numbers@)).take(1 + i) =~= list(words_of_numbers(numbers@)));
}

fn push_list_of_pairs(words: &mut Vec<u64>, pairs: &Vec<(u32, u32)>)
    ensures
        final(words)@ == old(words)@ + list(words_of_pairs(pairs@)),
{
    words.push(pairs.len() as u64);
    let mut i: usize = 0;
    while i < pairs.len()
        invariant
            i <= pairs.len(),
            words@ == old(words)@ + list(words_of_pairs(pairs@)).take(1 + i),
        decreases pairs.len() - i,
    {
        let word: u64 = pairs[i].0 as u64 * 0x1_0000_0000 + pairs[i].1 as u64;
        words.push(word);
        assert(words@ =~= old(words)@ + list(words_of_pairs(pairs@)).take(1 + i + 1));
        i = i + 1;
    }
    assert(list(words_of_pairs(pairs@)).take(1 + i) =~= list(words_of_pairs(pairs@)));
}

fn push_series(words: &mut Vec<u64>, series: &Series)
    ensures
        final(words)@ == old(words)@ + words_of_series(series@),
        series_storable(series@),
{
    let name_bytes = series.get_name().as_str().as_bytes();
    assert(name_bytes@ == encode_utf8(series@.name));
    let name_len = name_bytes.len();
    assert(name_bytes@.len() == name_len);
    push_list_of_bytes(words, name_bytes);
    words.push(series.get_id());
    words.push(if series.is_tracked() { 1 } else { 0 });
    words.push(
        match series.get_episode_duration_override() {
            None => 0,
            Some(minutes) => minutes as u64 + 1,
        },
    );
    let seasons = series.get_season_list();
    let watched = series.get_watched();
    let season_count = seasons.len();
    let watched_count = watched.len();
    assert(seasons@.len() == season_count && watched@.len() == watched_count);
    push_list_of_numbers(words, seasons);
    push_list_of_pairs(words, watched);
    assert(words@ =~= old(words)@ + words_of_series(series@));
}

/// The stored form of the collection.
pub fn encode(collection: &SeriesCollection) -> (out: Vec<u8>)
    ensures
        out@ == stored_bytes(collection@),
        storable(collection@),
{
    let all = collection.get_series_list();
    let mut words: Vec<u64> = Vec::new();
    words.push(all.len() as u64);
    let mut i: usize = 0;
    while i < all.len()
        invariant
            i <= all.len(),
            all@.len() == collection@.len(),
            forall|k: int| 0 <= k < all@.len() ==> (#[trigger] all@[k])@ == collection@[k],
            words@ == seq![all@.len() as u64] + words_of_all(collection@.take(i as int)),
            forall|k: int| 0 <= k < i ==> series_storable(#[trigger] collection@[k]),
        decreases all.len() - i,
    {
        assert(collection@.take(i + 1).drop_last() =~= collection@.take(i as int));
        assert(collection@.take(i + 1).last() == all@[i as int]@);
        push_series(&mut words, &all[i]);
        assert(words@ =~= seq![all@.len() as u64] + words_of_all(collection@.take(i + 1)));
        i = i + 1;
    }
    assert(collection@.take(i as int) =~= collection@);
    pack(&words)
}

/// Why bytes could not be read as a stored collection.
#[derive(Debug, Clone, Copy, PartialEq, Eq, Structural)]
pub enum LoadError {
    /// The bytes are not the stored form of any collection.
    Malformed,
}

/// `String::from_utf8`: a string is made exactly where the bytes are UTF-8
/// text, and it then holds the bytes that were given.
#[verifier::external_body]
fn string_from_utf8(bytes: Vec<u8>) -> (out: Option<String>)
    ensures
        out is Some <==> valid_utf8(bytes@),
        out is Some ==> encode_utf8(out->0@) == bytes@,
{
    String::from_utf8(bytes).ok()
}

fn read_list(words: &Vec<u64>, pos: usize) -> (out: Option<(usize, usize)>)
    ensures
        match take_list(words@, pos as int) {
            Some((part, next)) => out matches Some(range) && range.0 == pos + 1 && range.1
                == next && pos + 1 <= next <= words@.len() && part == words@.subrange(
                pos + 1,
                next,
            ),
            None => out is None,
        },
{
    if pos >= words.len() {
        return None;
    }
    let count = words[pos];
    let room = words.len() - pos - 1;
    if count > room as u64 {
        return None;
    }
    Some((pos + 1, pos + 1 + count as usize))
}

fn read_text(words: &Vec<u64>, from: usize, to: usize) -> (out: Option<String>)
    requires
        from <= to <= words@.len(),
    ensures
        match text_of_words(words@.subrange(from as int, to as int)) {
            Some(text) => out is Some && out->0@ == text,
            None => out is None,
        },
{
    let ghost part = words@.subrange(from as int, to as int);
    let mut bytes: Vec<u8> = Vec::new();
    let mut i: usize = from;
    while i < to
        invariant
            from <= i <= to <= words@.len(),
            part == words@.subrange(from as int, to as int),
            bytes@.len() == i - from,
            forall|k: int| 0 <= k < i - from ==> #[trigger] part[k] < 256,
            forall|k: int| 0 <= k < i - from ==> bytes@[k] == part[k] as u8,
        decreases to - i,
    {
        let word = words[i];
        assert(part[i - from] == word);
        if word >= 256 {
            return None;
        }
        bytes.push(word as u8);
        i = i + 1;
    }
    assert(bytes@ =~= bytes_of_text_words(part));
    match string_from_utf8(bytes) {
        None => None,
        Some(text) => {
            proof {
                vstd::utf8::encode_utf8_decode_utf8(text@);
            }
            Some(text)
        },
    }
}

fn read_numbers(words: &Vec<u64>, from: usize, to: usize) -> (out: Option<Vec<u32>>)
    requires
        from <= to <= words@.len(),
    ensures
        match numbers_of_words(words@.subrange(from as int, to as int)) {
            Some(numbers) => out is Some && out->0@ == numbers,
            None => out is None,
        },
{
    let ghost part = words@.subrange(from as int, to as int);
    let mut numbers: Vec<u32> = Vec::new();
    let mut i: usize = from;
    while i < to
        invariant
            from <= i <= to <= words@.len(),
            part == words@.subrange(from as int, to as int),
            numbers@.len() == i - from,
            forall|k: int| 0 <= k < i - from ==> #[trigger] part[k] <= u32::MAX,
            forall|k: int| 0 <= k < i - from ==> numbers@[k] == part[k] as u32,
        decreases to - i,
    {
        let word = words[i];
        assert(part[i - from] == word);
        if word > 0xffff_ffff {
            return None;
        }
        numbers.push(word as u32);
        i = i + 1;
    }
    assert(numbers@ =~= part.map_values(|w: u64| w as u32));
    Some(numbers)
}

fn read_pairs(words: &Vec<u64>, from: usize, to: usize) -> (out: Vec<(u32, u32)>)
    requires
        from <= to <= words@.len(),
    ensures
        out@ == pairs_of_words(words@.subrange(from as int, to as int)),
{
    let ghost part = words@.subrange(from as int, to as int);
    let mut pairs: Vec<(u32, u32)> = Vec::new();
    let mut i: usize = from;
    while i < to
        invariant
            from <= i <= to <= words@.len(),
            part == words@.subrange(from as int, to as int),
            pairs@.len() == i - from,
            forall|k: int| 0 <= k < i - from ==> pairs@[k] == pair_of_word(#[trigger] part[k]),
        decreases to - i,
    {
        let word = words[i];
        assert(part[i - from] == word);
        pairs.push(((word / 0x1_0000_0000) as u32, (word % 0x1_0000_0000) as u32));
        i = i + 1;
    }
    assert(pairs@ =~= pairs_of_words(part));
    pairs
}

fn read_series(words: &Vec<u64>, pos: usize) -> (out: Option<(Series, usize)>)
    ensures
        match parse_series(words@, pos as int) {
            Some((v, next)) => out matches Some(got) && got.0@ == v && got.0.wf() && got.1
                == next && next <= words@.len(),
            None => out is None,
        },
{
    let (name_from, name_to) = match read_list(words, pos) {
        None => {
            return None;
        },
        Some(range) => range,
    };
    if words.len() - name_to < 3 {
        return None;
    }
    let (seasons_from, seasons_to) = match read_list(words, name_to + 3) {
        None => {
            return None;
        },
        Some(range) => range,
    };
    let (episodes_from, episodes_to) = match read_list(words, seasons_to) {
        None => {
            return None;
        },
        Some(range) => range,
    };
    let name = match read_text(words, name_from, name_to) {
        None => {
            return None;
        },
        Some(name) => name,
    };
    let id = words[name_to];
    let flag_word = words[name_to + 1];
    if flag_word > 1 {
        return None;
    }
    let duration_word = words[name_to + 2];
    if duration_word > 0x1_0000_0000 {
        return None;
    }
    let duration = if duration_word == 0 {
        None
    } else {
        Some((duration_word - 1) as u32)
    };
    let seasons = match read_numbers(words, seasons_from, seasons_to) {
        None => {
            return None;
        },
        Some(seasons) => seasons,
    };
    let episodes = read_pairs(words, episodes_from, episodes_to);
    match Series::from_parts(id, name, flag_word == 1, duration, seasons, episodes) {
        None => None,
        Some(series) => Some((series, episodes_to)),
    }
}

/// The views of some series.
pub open spec fn views_of(series: Seq<Series>) -> Seq<SeriesView> {
    Seq::new(series.len(), |i: int| series[i]@)
}

/// Reads a stored collection.
///
/// Succeeds exactly on the bytes that store a collection, and gives that
/// collection.
pub fn decode(bytes: &[u8]) -> (out: Result<SeriesCollection, LoadError>)
    ensures
        match parse_bytes(bytes@) {
            Some(vs) => out is Ok && out->Ok_0@ == vs && out->Ok_0.wf(),
            None => out == Err::<SeriesCollection, LoadError>(LoadError::Malformed),
        },
{
    let words = match unpack(bytes) {
        None => {
            return Err(LoadError::Malformed);
        },
        Some(words) => words,
    };
    if words.len() == 0 {
        return Err(LoadError::Malformed);
    }
    let count = words[0];
    let mut read: Vec<Series> = Vec::new();
    let mut pos: usize = 1;
    let mut done: u64 = 0;
    assert(views_of(read@) =~= Seq::<SeriesView>::empty());
    while done < count
        invariant
            done <= count,
            words_of_bytes(bytes@) == Some(words@),
            words@.len() > 0,
            count == words@[0],
            1 <= pos <= words@.len(),
            parse_words(words@) == parse_rest(
                words@,
                pos as int,
                (count - done) as nat,
                views_of(read@),
            ),
            forall|i: int| 0 <= i < read@.len() ==> (#[trigger] read@[i]).wf(),
        decreases count - done,
    {
        let ghost before = views_of(read@);
        match read_series(&words, pos) {
            None => {
                return Err(LoadError::Malformed);
            },
            Some((series, next)) => {
                read.push(series);
                assert(views_of(read@) =~= before.push(series@));
                pos = next;
            },
        }
        done = done + 1;
    }
    if pos != words.len() {
        return Err(LoadError::Malformed);
    }
    let ghost views = views_of(read@);
    assert(forall|i: int| 0 <= i < views.len() ==> (#[trigger] views[i]).wf());
    match SeriesCollection::from_series(read) {
        None => Err(LoadError::Malformed),
        Some(collection) => Ok(collection),
    }
}

/// The word of a watched episode writes that episode back.
pub proof fn lemma_pair_of_word(pair: (u32, u32))
    ensures
        pair_of_word(word_of_pair(pair)) == pair,
{
    let s = pair.0 as int;
    let e = pair.1 as int;
    assert(s * 0x1_0000_0000 + e <= 0xffff_ffff_ffff_ffff);
    assert((s * 0x1_0000_0000 + e) / 0x1_0000_0000 == s);
    assert((s * 0x1_0000_0000 + e) % 0x1_0000_0000 == e);
}

/// The words of a name write that name back.
pub proof fn lemma_text_of_words(text: Seq<char>)
    ensures
        text_of_words(words_of_text(text)) == Some(text),
{
    let words = words_of_text(text);
    assert(bytes_of_text_words(words) =~= encode_utf8(text));
    vstd::utf8::encode_utf8_valid_utf8(text);
    vstd::utf8::encode_utf8_decode_utf8(text);
}

/// The words of a series, wherever they stand among other words, are read
/// back as that series.
pub proof fn lemma_parse_series(words: Seq<u64>, pos: int, v: SeriesView)
    requires
        v.wf(),
        series_storable(v),
        0 <= pos,
        pos + words_of_series(v).len() <= words.len(),
        words.subrange(pos, pos + words_of_series(v).len()) == words_of_series(v),
    ensures
        parse_series(words, pos) == Some((v, pos + words_of_series(v).len())),
{
    let a = words_of_text(v.name);
    let b = words_of_numbers(v.seasons);
    let c = words_of_pairs(v.episodes);
    let la = a.len() as int;
    let lb = b.len() as int;
    let lc = c.len() as int;
    let all = words_of_series(v);
    let part = words.subrange(pos, pos + all.len());
    assert forall|i: int| 0 <= i < all.len() implies words[pos + i] == all[i] by {
        assert(part[i] == words[pos + i]);
    }
    let after_name = pos + 1 + la;
    let after_seasons = after_name + 3 + 1 + lb;
    let after_episodes = after_seasons + 1 + lc;
    assert(all.len() == 1 + la + 3 + 1 + lb + 1 + lc);
    assert(words[pos] == all[0]);
    assert(all[0] == a.len() as u64);
    assert(words.subrange(pos + 1, after_name) =~= a) by {
        assert forall|i: int| 0 <= i < a.len() implies words[pos + 1 + i] == a[i] by {
            assert(all[1 + i] == a[i]);
        }
    }
    assert(words[after_name] == v.id) by {
        assert(all[1 + la] == v.id);
    }
    assert(words[after_name + 1] == word_of_flag(v.is_tracked)) by {
        assert(all[1 + la + 1] == word_of_flag(v.is_tracked));
    }
    assert(words[after_name + 2] == word_of_duration(v.duration)) by {
        assert(all[1 + la + 2] == word_of_duration(v.duration));
    }
    assert(words[after_name + 3] == b.len() as u64) by {
        assert(all[1 + la + 3] == b.len() as u64);
    }
    assert(words.subrange(after_name + 4, after_seasons) =~= b) by {
        assert forall|i: int| 0 <= i < b.len() implies words[after_name + 4 + i] == b[i] by {
            assert(all[1 + la + 4 + i] == b[i]);
        }
    }
    assert(words[after_seasons] == c.len() as u64) by {
        assert(all[1 + la + 4 + lb] == c.len() as u64);
    }
    assert(words.subrange(after_seasons + 1, after_episodes) =~= c) by {
        assert forall|i: int| 0 <= i < c.len() implies words[after_seasons + 1 + i] == c[i] by {
            assert(all[1 + la + 4 + lb + 1 + i] == c[i]);
        }
    }
    assert(take_list(words, pos) == Some((a, after_name)));
    assert(take_list(words, after_name + 3) == Some((b, after_seasons)));
    assert(take_list(words, after_seasons) == Some((c, after_episodes)));
    lemma_text_of_words(v.name);
    assert(numbers_of_words(b) == Some(v.seasons)) by {
        assert(b.map_values(|w: u64| w as u32) =~= v.seasons);
    }
    assert(pairs_of_words(c) =~= v.episodes) by {
        assert forall|i: int| 0 <= i < v.episodes.len() implies pairs_of_words(c)[i]
            == v.episodes[i] by {
            lemma_pair_of_word(v.episodes[i]);
        }
    }
    assert(flag_of_word(word_of_flag(v.is_tracked)) == Some(v.is_tracked));
    assert(duration_of_word(word_of_duration(v.duration)) == Some(v.duration));
}

/// The words of the first series of a collection stand at the start of
/// the words of all.
pub proof fn lemma_words_of_all_prefix(vs: Seq<SeriesView>, k: int)
    requires
        0 <= k <= vs.len(),
    ensures
        words_of_all(vs.take(k)).len() <= words_of_all(vs).len(),
        words_of_all(vs).take(words_of_all(vs.take(k)).len() as int) == words_of_all(vs.take(k)),
    decreases vs.len() - k,
{
    if k == vs.len() {
        assert(vs.take(k) =~= vs);
        assert(words_of_all(vs).take(words_of_all(vs).len() as int) =~= words_of_all(vs));
    } else {
        lemma_words_of_all_prefix(vs.drop_last(), k);
        assert(vs.drop_last().take(k) =~= vs.take(k));
        let shorter = words_of_all(vs.drop_last());
        let n = words_of_all(vs.take(k)).len() as int;
        assert(words_of_all(vs).take(n) =~= shorter.take(n));
    }
}

/// Reading on from behind the first `k` series of a stored collection
/// gives the whole collection.
pub proof fn lemma_parse_rest(vs: Seq<SeriesView>, k: int)
    requires
        collection_wf(vs),
        storable(vs),
        0 <= k <= vs.len(),
    ensures
        parse_rest(
            words_of_collection(vs),
            1 + words_of_all(vs.take(k)).len() as int,
            (vs.len() - k) as nat,
            vs.take(k),
        ) == Some(vs),
    decreases vs.len() - k,
{
    let words = words_of_collection(vs);
    let pos = 1 + words_of_all(vs.take(k)).len() as int;
    if k == vs.len() {
        assert(vs.take(k) =~= vs);
    } else {
        let v = vs[k];
        let here = words_of_series(v);
        assert(vs.take(k + 1).drop_last() =~= vs.take(k));
        assert(vs.take(k + 1).last() == v);
        let upto = words_of_all(vs.take(k + 1));
        assert(upto == words_of_all(vs.take(k)) + here);
        lemma_words_of_all_prefix(vs, k + 1);
        assert(words.subrange(pos, pos + here.len()) =~= here) by {
            assert forall|i: int| 0 <= i < here.len() implies words[pos + i] == here[i] by {
                assert(words[pos + i] == words_of_all(vs)[pos - 1 + i]);
                assert(words_of_all(vs).take(upto.len() as int)[pos - 1 + i] == upto[pos - 1
                    + i]);
            }
        }
        assert(v.wf());
        assert(series_storable(v));
        lemma_parse_series(words, pos, v);
        assert(vs.take(k).push(v) =~= vs.take(k + 1));
        lemma_parse_rest(vs, k + 1);
    }
}

/// What was stored is read back: the stored form of a collection is read as
/// that collection, with every name, mark, season, watched episode and
/// number of minutes as it was.
pub proof fn lemma_stored_collection_is_read_back(vs: Seq<SeriesView>)
    requires
        collection_wf(vs),
        storable(vs),
    ensures
        parse_bytes(stored_bytes(vs)) == Some(vs),
{
    let words = words_of_collection(vs);
    lemma_bytes_of_words(words);
    lemma_parse_rest(vs, 0);
    assert(vs.take(0) =~= Seq::<SeriesView>::empty());
    assert(words_of_all(vs.take(0)).len() == 0);
    assert(words[0] == vs.len() as u64);
}

} // verus!
