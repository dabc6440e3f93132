//! The discover screen: the episodes of the day's schedule, one poster
//! each.

use crate::catalog::Episode;
use crate::episode_poster::{
    updated, Command as PosterCommand, EpisodePoster, Message as PosterMessage,
};
use vstd::prelude::*;

verus! {

/// Whether the schedule has come.
#[derive(Debug, Clone, Copy, PartialEq, Eq, Structural)]
pub enum LoadState {
    Loading,
    Loaded,
}

/// What happened on the discover screen.
#[derive(Debug, Clone, PartialEq, Eq)]
pub enum Message {
    LoadSchedule,
    ScheduleLoaded(Vec<Episode>),
    EpisodePosterAction(usize, PosterMessage),
}

/// What is to be fetched for the discover screen next.
#[derive(Debug, Clone, PartialEq, Eq)]
pub enum Command {
    /// Nothing.
    Nothing,
    /// The schedule of the day.
    LoadSchedule,
    /// What each poster of a new schedule asks for, in the posters' order.
    Posters(Vec<PosterCommand>),
    /// What one poster asks for.
    Poster(PosterCommand),
}

/// The state of the discover screen.
#[derive(Debug, Clone, PartialEq, Eq)]
pub struct Discover {
    load_state: LoadState,
    episodes: Vec<EpisodePoster>,
}

impl Default for Discover {
    fn default() -> (out: Discover)
        ensures
            out.spec_load_state() == LoadState::Loading,
            out.spec_posters().len() == 0,
    {
        Discover { load_state: LoadState::Loading, episodes: Vec::new() }
    }
}

impl Discover {
    pub closed spec fn spec_load_state(&self) -> LoadState {
        self.load_state
    }

    pub closed spec fn spec_posters(&self) -> Seq<EpisodePoster> {
        self.episodes@
    }

    /// Whether the schedule has come.
    pub fn get_load_state(&self) -> (out: LoadState)
        ensures
            out == self.spec_load_state(),
    {
        self.load_state
    }

    /// The posters of the screen.
    pub fn get_posters(&self) -> (out: &Vec<EpisodePoster>)
        ensures
            out@ == self.spec_posters(),
    {
        &self.episodes
    }

    /// Whether the screen can take the message in: a message for a poster
    /// names one of the screen's posters.
    pub open spec fn accepts(&self, message: Message) -> bool {
        message matches Message::EpisodePosterAction(index, _) ==> index
            < self.spec_posters().len()
    }

    /// Whether the screen can take the message in.
    pub fn can_update(&self, message: &Message) -> (out: bool)
        ensures
            out == self.accepts(*message),
    {
        match message {
            Message::EpisodePosterAction(index, _) => *index < self.episodes.len(),
            _ => true,
        }
    }

    /// Takes in what happened, and says what is to be fetched next.
    ///
    /// Asked to load, the screen asks for the schedule unless it has come.
    /// When the schedule comes, the screen gets one poster for each of its
    /// episodes, in order, and each poster asks for its series. A message
    /// for a poster goes to that poster.
    pub fn update(&mut self, message: Message) -> (out: Command)
        requires
            old(self).accepts(message),
        ensures
            match message {
                Message::LoadSchedule => {
                    &&& final(self).spec_load_state() == old(self).spec_load_state()
                    &&& final(self).spec_posters() == old(self).spec_posters()
                    &&& out == if old(self).spec_load_state() == LoadState::Loaded {
                        Command::Nothing
                    } else {
                        Command::LoadSchedule
                    }
                },
                Message::ScheduleLoaded(episodes) => {
                    &&& final(self).spec_load_state() == LoadState::Loaded
                    &&& final(self).spec_posters().len() == episodes@.len()
                    &&& out is Posters
                    &&& out->Posters_0@.len() == episodes@.len()
                    &&& forall|i: int|
                        0 <= i < episodes@.len() ==> {
                            let poster = #[trigger] final(self).spec_posters()[i];
                            let command = out->Posters_0@[i];
                            &&& poster.spec_index() == i
                            &&& poster.spec_episode() == episodes@[i]
                            &&& poster.spec_image() is None
                            &&& poster.spec_series() is None
                            &&& command is LoadSeriesInformation
                            &&& command->LoadSeriesInformation_index == i
                            &&& command->LoadSeriesInformation_url@ == episodes@[i].show_url@
                        }
                },
                Message::EpisodePosterAction(index, poster_message) => {
                    &&& final(self).spec_load_state() == old(self).spec_load_state()
                    &&& final(self).spec_posters().len() == old(self).spec_posters().len()
                    &&& forall|i: int|
                        0 <= i < old(self).spec_posters().len() && i != index ==> final(
                            self
                        ).spec_posters()[i] == old(self).spec_posters()[i]
                    &&& out is Poster
                    &&& updated(
                        old(self).spec_posters()[index as int],
                        poster_message,
                        final(self).spec_posters()[index as int],
                        out->Poster_0,
                    )
                },
            },
    {
        match message {
            Message::LoadSchedule => {
                match self.load_state {
                    LoadState::Loaded => Command::Nothing,
                    LoadState::Loading => Command::LoadSchedule,
                }
            },
            Message::ScheduleLoaded(episodes) => {
                self.load_state = LoadState::Loaded;
                let mut posters: Vec<EpisodePoster> = Vec::new();
                let mut commands: Vec<PosterCommand> = Vec::new();
                for episode in it: episodes
                    invariant
                        it.seq() == episodes@,
                        posters@.len() == it.index(),
                        commands@.len() == it.index(),
                        forall|i: int|
                            0 <= i < it.index() ==> {
                                let poster = #[trigger] posters@[i];
                                let command = commands@[i];
                                &&& poster.spec_index() == i
                                &&& poster.spec_episode() == episodes@[i]
                                &&& poster.spec_image() is None
                                &&& poster.spec_series() is None
                                &&& command is LoadSeriesInformation
                                &&& command->LoadSeriesInformation_index == i
                                &&& command->LoadSeriesInformation_url@
                                    == episodes@[i].show_url@
                            },
                {
                    let (poster, command) = EpisodePoster::new(posters.len(), episode);
                    posters.push(poster);
                    commands.push(command);
                }
                self.episodes = posters;
                Command::Posters(commands)
            },
            Message::EpisodePosterAction(index, message) => {
                let command = self.episodes[index].update(message);
                Command::Poster(command)
            },
        }
    }
}

} // verus!
