//! The banner of one series on the statistics screen.

use crate::catalog::SeriesMainInformation;
use crate::text::{decimal, push_decimal};
use bytes::Bytes;
use vstd::prelude::*;
use vstd::string::StringExecFns;

verus! {

/// `bytes::Bytes`: the bytes of an image as they came. Nothing is said of
/// what such a value holds; it is only kept and handed on.
#[verifier::external_type_specification]
#[verifier::external_body]
pub struct ExBytes(bytes::Bytes);

/// What came back for a banner.
#[derive(Debug, Clone, PartialEq, Eq)]
pub enum Message {
    BannerReceived(usize, Option<Bytes>),
}

impl Message {
    /// The banner that the message is for.
    pub fn get_id(&self) -> (out: usize)
        ensures
            out == self->BannerReceived_0,
    {
        match self {
            Message::BannerReceived(id, _) => *id,
        }
    }
}

/// The banner of a series: its place on the screen, the catalog's record of
/// the series with the minutes of its average runtime, and the image once
/// it has come.
#[derive(Debug, PartialEq, Eq)]
pub struct SeriesBanner {
    id: usize,
    series_info_and_time: (SeriesMainInformation, u32),
    banner: Option<Bytes>,
}

/// The heading of the banner at place `id`: the place counted from one,
/// then the name of the series.
pub open spec fn banner_title(id: usize, name: Seq<char>) -> Seq<char> {
    decimal((id + 1) as nat) + ": "@ + name
}

impl SeriesBanner {
    pub closed spec fn spec_id(&self) -> usize {
        self.id
    }

    pub closed spec fn spec_info(&self) -> SeriesMainInformation {
        self.series_info_and_time.0
    }

    pub closed spec fn spec_minutes(&self) -> u32 {
        self.series_info_and_time.1
    }

    pub closed spec fn spec_banner(&self) -> Option<Bytes> {
        self.banner
    }

    /// The banner of a series, without its image yet, and the address of
    /// the image that is to be loaded for it, where the record names one.
    pub fn new(id: usize, series_info_and_time: (SeriesMainInformation, u32)) -> (out: (
        SeriesBanner,
        Option<String>,
    ))
        ensures
            out.0.spec_id() == id,
            out.0.spec_info() == series_info_and_time.0,
            out.0.spec_minutes() == series_info_and_time.1,
            out.0.spec_banner() is None,
            match series_info_and_time.0.image_url {
                Some(url) => out.1 is Some && out.1->0@ == url@,
                None => out.1 is None,
            },
    {
        let image_url = match &series_info_and_time.0.image_url {
            Some(url) => Some(url.clone()),
            None => None,
        };
        (SeriesBanner { id, series_info_and_time, banner: None }, image_url)
    }

    /// Takes in the image that came, or that none came.
    pub fn update(&mut self, message: Message)
        ensures
            final(self).spec_id() == old(self).spec_id(),
            final(self).spec_info() == old(self).spec_info(),
            final(self).spec_minutes() == old(self).spec_minutes(),
            final(self).spec_banner() == message->BannerReceived_1,
    {
        match message {
            Message::BannerReceived(_, banner) => {
                self.banner = banner;
            },
        }
    }

    /// The place of the banner on the screen.
    pub fn get_id(&self) -> (out: usize)
        ensures
            out == self.spec_id(),
    {
        self.id
    }

    /// The catalog's record of the banner's series.
    pub fn get_series_info(&self) -> (out: &SeriesMainInformation)
        ensures
            *out == self.spec_info(),
    {
        &self.series_info_and_time.0
    }

    /// The image of the banner, once it has come.
    pub fn get_banner(&self) -> (out: &Option<Bytes>)
        ensures
            *out == self.spec_banner(),
    {
        &self.banner
    }

    /// The heading of the banner.
    pub fn title(&self) -> (out: String)
        ensures
            out@ == banner_title(self.spec_id(), self.spec_info().name@),
    {
        let mut text = String::new();
        push_decimal(&mut text, self.id as u128 + 1);
        text.append(": ");
        text.append(self.series_info_and_time.0.name.as_str());
        text
    }

    /// The whole hours of the series' average runtime.
    pub fn hours(&self) -> (out: u32)
        ensures
            out == self.spec_minutes() / 60,
    {
        self.series_info_and_time.1 / 60
    }
}

} // verus!
