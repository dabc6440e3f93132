//! One poster of the discover screen: an episode of the schedule, the
//! series it belongs to once that is known, and the series' image once that
//! has come.

use crate::catalog::{Episode, FetchError, SeriesMainInformation};
use vstd::prelude::*;

verus! {

/// Milliseconds to wait before a request that did not get through is made
/// again.
pub const RETRY_DELAY_MILLIS: u64 = 5;

/// What came back for a poster.
#[derive(Debug, Clone, PartialEq, Eq)]
pub enum Message {
    ImageLoaded(Option<Vec<u8>>),
    SeriesInformationLoaded(SeriesMainInformation),
}

/// What is to be fetched for a poster next.
#[derive(Debug, Clone, PartialEq, Eq)]
pub enum Command {
    /// Nothing.
    Nothing,
    /// The record of the series at the address, for the poster at `index`.
    LoadSeriesInformation { index: usize, url: String },
    /// The image at the address, for the poster at `index`.
    LoadImage { index: usize, url: String },
}

/// What to do when fetching the record of a poster's series failed.
#[derive(Debug, Clone, Copy, PartialEq, Eq, Structural)]
pub enum Retry {
    /// Make the same request again after so many milliseconds.
    After(u64),
    /// The failure will not go away.
    GiveUp,
}

/// A poster of the discover screen.
#[derive(Debug, Clone, PartialEq, Eq)]
pub struct EpisodePoster {
    index: usize,
    episode: Episode,
    image: Option<Vec<u8>>,
    series_belonging: Option<SeriesMainInformation>,
}

/// A request that did not get through is made again after a short wait; any
/// other failure is final.
pub fn retry_after_failure(error: &FetchError) -> (out: Retry)
    ensures
        out == if *error is Transient {
            Retry::After(RETRY_DELAY_MILLIS)
        } else {
            Retry::GiveUp
        },
{
    if error.is_transient() {
        Retry::After(RETRY_DELAY_MILLIS)
    } else {
        Retry::GiveUp
    }
}

/// What taking a message in does to a poster, and what the poster then
/// asks for.
pub open spec fn updated(
    before: EpisodePoster,
    message: Message,
    after: EpisodePoster,
    out: Command,
) -> bool {
    &&& after.spec_index() == before.spec_index()
    &&& after.spec_episode() == before.spec_episode()
    &&& match message {
        Message::ImageLoaded(image) => {
            &&& after.spec_image() == image
            &&& after.spec_series() == before.spec_series()
            &&& out is Nothing
        },
        Message::SeriesInformationLoaded(info) => {
            &&& after.spec_image() == before.spec_image()
            &&& after.spec_series() == Some(info)
            &&& match info.image_url {
                Some(url) => out is LoadImage && out->LoadImage_index == before.spec_index()
                    && out->LoadImage_url@ == url@,
                None => out is Nothing,
            }
        },
    }
}

impl EpisodePoster {
    pub closed spec fn spec_index(&self) -> usize {
        self.index
    }

    pub closed spec fn spec_episode(&self) -> Episode {
        self.episode
    }

    pub closed spec fn spec_image(&self) -> Option<Vec<u8>> {
        self.image
    }

    pub closed spec fn spec_series(&self) -> Option<SeriesMainInformation> {
        self.series_belonging
    }

    /// The poster of an episode, with nothing loaded yet, and the request
    /// for the record of the episode's series.
    pub fn new(index: usize, episode: Episode) -> (out: (EpisodePoster, Command))
        ensures
            out.0.spec_index() == index,
            out.0.spec_episode() == episode,
            out.0.spec_image() is None,
            out.0.spec_series() is None,
            out.1 is LoadSeriesInformation,
            out.1->LoadSeriesInformation_index == index,
            out.1->LoadSeriesInformation_url@ == episode.show_url@,
    {
        let url = episode.show_url.clone();
        let poster = EpisodePoster { index, episode, image: None, series_belonging: None };
        (poster, Command::LoadSeriesInformation { index, url })
    }

    /// Takes in what came back. An image is kept. A series is kept too, and
    /// where its record names an image, that image is asked for.
    pub fn update(&mut self, message: Message) -> (out: Command)
        ensures
            updated(*old(self), message, *final(self), out),
    {
        match message {
            Message::ImageLoaded(image) => {
                self.image = image;
                Command::Nothing
            },
            Message::SeriesInformationLoaded(info) => {
                let command = match &info.image_url {
                    Some(url) => Command::LoadImage { index: self.index, url: url.clone() },
                    None => Command::Nothing,
                };
                self.series_belonging = Some(info);
                command
            },
        }
    }

    /// Where the poster stands on the screen.
    pub fn get_index(&self) -> (out: usize)
        ensures
            out == self.spec_index(),
    {
        self.index
    }

    /// The episode of the poster.
    pub fn get_episode(&self) -> (out: &Episode)
        ensures
            *out == self.spec_episode(),
    {
        &self.episode
    }

    /// The image of the poster, once it has come.
    pub fn get_image(&self) -> (out: &Option<Vec<u8>>)
        ensures
            *out == self.spec_image(),
    {
        &self.image
    }

    /// The series of the poster's episode, once it is known.
    pub fn get_series(&self) -> (out: &Option<SeriesMainInformation>)
        ensures
            *out == self.spec_series(),
    {
        &self.series_belonging
    }
}

} // verus!
