//! Keeps account of watched television series: range expressions over
//! seasons and episodes, the state of one series, the collection of series
//! and its stored form, the classification of the catalog's records of the
//! series that are followed, and the state of the screens and the commands
//! of the terminal that show and change all this.

pub mod catalog;
pub mod collection;
pub mod commands;
pub mod discover;
pub mod episode_list;
pub mod episode_poster;
pub mod ordered;
pub mod range;
pub mod series;
pub mod series_banner;
pub mod series_list;
pub mod settings;
pub mod statistics;
pub mod storage;
pub mod text;
