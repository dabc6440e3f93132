//! The collection of series, each found by its name.
//!
//! Each series has a positive identifier of its own, and the series stand
//! in the order of their identifiers. No two of them have the same name.

use crate::series::{Series, SeriesError, SeriesView};
use crate::text::{
    chars_lt, chars_of, lemma_lex_lt_irreflexive, lemma_lex_lt_total, lemma_lex_lt_transitive,
    lex_lt,
};
use vstd::prelude::*;
use vstd::string::StringExecFns;

verus! {

/// Why an operation on the collection was refused.
#[derive(Debug, Clone, Copy, PartialEq, Eq, Structural)]
pub enum CollectionError {
    SeriesNotFound,
    DuplicateName,
}

/// The orders in which the names of the series can be listed.
#[derive(Debug, Clone, Copy, PartialEq, Eq, Structural)]
pub enum SeriesSort {
    /// By identifier.
    Default,
    /// By name, in the lexicographic order of the characters.
    Name,
    /// By the time spent on the series, longest first; series with the same
    /// time by identifier.
    WatchTime,
}

/// The series of a collection, in the order of their identifiers.
#[derive(Debug, Clone, PartialEq, Eq)]
pub struct SeriesCollection {
    series: Vec<Series>,
}

/// Every series is well formed, no two have the same name, and the series
/// stand in the order of their identifiers, which are positive and all
/// different.
pub open spec fn collection_wf(v: Seq<SeriesView>) -> bool {
    &&& forall|i: int| 0 <= i < v.len() ==> (#[trigger] v[i]).wf()
    &&& forall|i: int, j: int|
        0 <= i < v.len() && 0 <= j < v.len() && i != j ==> (#[trigger] v[i]).name != (
        #[trigger] v[j]).name
    &&& forall|i: int| 0 <= i < v.len() ==> (#[trigger] v[i]).id >= 1
    &&& forall|i: int, j: int| 0 <= i < j < v.len() ==> (#[trigger] v[i]).id < (#[trigger] v[j]).id
}

/// The series that is added to `v` under the name: it has the first
/// identifier that is free, no season, and is followed.
pub open spec fn added_series(v: Seq<SeriesView>, name: Seq<char>, duration: Option<u32>) -> SeriesView {
    SeriesView {
        id: (free_place(v) + 1) as u64,
        name,
        is_tracked: true,
        seasons: Seq::empty(),
        episodes: Seq::empty(),
        duration,
    }
}

/// Whether `i` is the first place of `v` at which the identifier is not the
/// place counted from one, or the end of `v` where there is none.
pub open spec fn is_free_place(v: Seq<SeriesView>, i: int) -> bool {
    &&& 0 <= i <= v.len()
    &&& forall|j: int| 0 <= j < i ==> (#[trigger] v[j]).id == j + 1
    &&& i < v.len() ==> v[i].id != i + 1
}

/// The place at which the next series is put: behind the series whose
/// identifiers count up from one without a gap.
pub open spec fn free_place(v: Seq<SeriesView>) -> int {
    choose|i: int| is_free_place(v, i)
}

/// There is one free place only.
pub proof fn lemma_free_place(v: Seq<SeriesView>, i: int)
    requires
        is_free_place(v, i),
    ensures
        free_place(v) == i,
{
    let p = free_place(v);
    assert(is_free_place(v, p));
    if p < i {
        assert(v[p].id == p + 1);
    } else if i < p {
        assert(v[i].id == i + 1);
    }
}

/// Whether a series of `v` has the name.
pub open spec fn has_name(v: Seq<SeriesView>, name: Seq<char>) -> bool {
    exists|i: int| 0 <= i < v.len() && (#[trigger] v[i]).name == name
}

/// The place of the series with the name, where there is one.
pub open spec fn position(v: Seq<SeriesView>, name: Seq<char>) -> int {
    choose|i: int| 0 <= i < v.len() && (#[trigger] v[i]).name == name
}

/// In a well-formed collection a name is found at one place only.
pub proof fn lemma_position(v: Seq<SeriesView>, name: Seq<char>, i: int)
    requires
        collection_wf(v),
        0 <= i < v.len(),
        v[i].name == name,
    ensures
        has_name(v, name),
        position(v, name) == i,
{
    let p = position(v, name);
    assert(0 <= p < v.len() && v[p].name == name);
}

/// The seasons of all series together.
pub open spec fn total_seasons(v: Seq<SeriesView>) -> nat
    decreases v.len(),
{
    if v.len() == 0 {
        0
    } else {
        total_seasons(v.drop_last()) + v.last().seasons.len()
    }
}

/// The watched episodes of all series together.
pub open spec fn total_episodes(v: Seq<SeriesView>) -> nat
    decreases v.len(),
{
    if v.len() == 0 {
        0
    } else {
        total_episodes(v.drop_last()) + v.last().episodes.len()
    }
}

/// The minutes spent on all series together.
pub open spec fn total_watch_time(v: Seq<SeriesView>) -> nat
    decreases v.len(),
{
    if v.len() == 0 {
        0
    } else {
        total_watch_time(v.drop_last()) + v.last().total_watch_time()
    }
}

/// Whether the series at place `i` is listed before the one at place `j`.
/// Where the order of `mode` does not tell two series apart, the one with
/// the smaller identifier comes first.
pub open spec fn comes_before(v: Seq<SeriesView>, mode: SeriesSort, i: int, j: int) -> bool {
    match mode {
        SeriesSort::Default => v[i].id < v[j].id,
        SeriesSort::Name => lex_lt(v[i].name, v[j].name) || (v[i].name == v[j].name && v[i].id
            < v[j].id),
        SeriesSort::WatchTime => v[i].total_watch_time() > v[j].total_watch_time() || (
        v[i].total_watch_time() == v[j].total_watch_time() && v[i].id < v[j].id),
    }
}

/// Whether `names` lists the name of every series of `v` once, each before
/// those that come after it in the order of `mode`.
pub open spec fn lists_in_order(v: Seq<SeriesView>, mode: SeriesSort, names: Seq<Seq<char>>) -> bool {
    &&& names.len() == v.len()
    &&& forall|k: int| 0 <= k < names.len() ==> has_name(v, #[trigger] names[k])
    &&& forall|a: int, b: int|
        0 <= a < b < names.len() ==> comes_before(
            v,
            mode,
            position(v, #[trigger] names[a]),
            position(v, #[trigger] names[b]),
        )
}

/// The texts of a list of names.
pub open spec fn name_views(names: Seq<String>) -> Seq<Seq<char>> {
    Seq::new(names.len(), |k: int| names[k]@)
}

/// Of two different places one comes before the other, never both.
pub proof fn lemma_comes_before_total(v: Seq<SeriesView>, mode: SeriesSort, i: int, j: int)
    requires
        collection_wf(v),
        0 <= i < v.len(),
        0 <= j < v.len(),
    ensures
        i != j ==> comes_before(v, mode, i, j) || comes_before(v, mode, j, i),
        !(comes_before(v, mode, i, j) && comes_before(v, mode, j, i)),
        !comes_before(v, mode, i, i),
{
    lemma_lex_lt_total(v[i].name, v[j].name);
    lemma_lex_lt_irreflexive(v[i].name);
    if i < j {
        assert(v[i].id < v[j].id);
    } else if j < i {
        assert(v[j].id < v[i].id);
    }
}

/// The listing order is transitive.
pub proof fn lemma_comes_before_transitive(
    v: Seq<SeriesView>,
    mode: SeriesSort,
    i: int,
    j: int,
    k: int,
)
    requires
        comes_before(v, mode, i, j),
        comes_before(v, mode, j, k),
    ensures
        comes_before(v, mode, i, k),
{
    if mode == SeriesSort::Name {
        lemma_lex_lt_irreflexive(v[i].name);
        if lex_lt(v[i].name, v[j].name) && lex_lt(v[j].name, v[k].name) {
            lemma_lex_lt_transitive(v[i].name, v[j].name, v[k].name);
        }
    }
}

impl View for SeriesCollection {
    type V = Seq<SeriesView>;

    closed spec fn view(&self) -> Seq<SeriesView> {
        Seq::new(self.series@.len(), |i: int| self.series@[i]@)
    }
}

impl SeriesCollection {
    /// The invariant of a collection.
    pub open spec fn wf(&self) -> bool {
        collection_wf(self@)
    }

    /// A collection without series.
    pub fn new() -> (out: SeriesCollection)
        ensures
            out.wf(),
            out@ == Seq::<SeriesView>::empty(),
    {
        let out = SeriesCollection { series: Vec::new() };
        assert(out@ =~= Seq::<SeriesView>::empty());
        out
    }

    /// A collection of the given series, in their order, if no two have the
    /// same name and they stand in the order of their identifiers, which
    /// are positive and all different.
    pub fn from_series(series: Vec<Series>) -> (out: Option<SeriesCollection>)
        requires
            forall|i: int| 0 <= i < series@.len() ==> (#[trigger] series@[i]).wf(),
        ensures
            out is Some <==> collection_wf(Seq::new(series@.len(), |i: int| series@[i]@)),
            out is Some ==> out->0.wf() && out->0@ == Seq::new(
                series@.len(),
                |i: int| series@[i]@,
            ),
    {
        let ghost views = Seq::new(series@.len(), |i: int| series@[i]@);
        let mut i: usize = 0;
        while i < series.len()
            invariant
                i <= series.len(),
                views == Seq::new(series@.len(), |i: int| series@[i]@),
                forall|a: int, b: int|
                    0 <= a < i && 0 <= b < i && a != b ==> (#[trigger] views[a]).name != (
                    #[trigger] views[b]).name,
                forall|a: int| 0 <= a < i ==> (#[trigger] views[a]).id >= 1,
                forall|a: int, b: int|
                    0 <= a < b < i ==> (#[trigger] views[a]).id < (#[trigger] views[b]).id,
            decreases series.len() - i,
        {
            assert(views[i as int] == series@[i as int]@);
            if series[i].get_id() == 0 {
                return None;
            }
            if i > 0 {
                assert(views[i - 1] == series@[i - 1]@);
                if series[i - 1].get_id() >= series[i].get_id() {
                    return None;
                }
                assert forall|a: int| 0 <= a < i implies (#[trigger] views[a]).id
                    < views[i as int].id by {
                    if a < i - 1 {
                        assert(views[a].id < views[i - 1].id);
                    }
                }
            }
            let mut j: usize = 0;
            while j < i
                invariant
                    j <= i < series.len(),
                    views == Seq::new(series@.len(), |i: int| series@[i]@),
                    forall|b: int| 0 <= b < j ==> (#[trigger] views[b]).name != views[i as int].name,
                decreases i - j,
            {
                assert(views[j as int] == series@[j as int]@);
                if *series[j].get_name() == *series[i].get_name() {
                    return None;
                }
                j = j + 1;
            }
            i = i + 1;
        }
        let out = SeriesCollection { series };
        assert(out@ =~= views);
        assert forall|a: int| 0 <= a < views.len() implies (#[trigger] views[a]).wf() by {
            assert(series@[a].wf());
        }
        Some(out)
    }

    /// The series with their identifiers written as text, in the order of
    /// the collection.
    pub fn get_ids_and_series(&self) -> (out: Vec<(String, Series)>)
        ensures
            out@.len() == self@.len(),
            forall|i: int|
                0 <= i < out@.len() ==> (#[trigger] out@[i]).0@ == crate::text::decimal(
                    self@[i].id as nat,
                ) && out@[i].1@ == self@[i],
    {
        let mut out: Vec<(String, Series)> = Vec::new();
        let mut i: usize = 0;
        while i < self.series.len()
            invariant
                i <= self.series.len(),
                out@.len() == i,
                forall|k: int|
                    0 <= k < i ==> (#[trigger] out@[k]).0@ == crate::text::decimal(
                        self@[k].id as nat,
                    ) && out@[k].1@ == self@[k],
            decreases self.series.len() - i,
        {
            assert(self@[i as int] == self.series@[i as int]@);
            let mut id = String::new();
            crate::text::push_decimal(&mut id, self.series[i].get_id() as u128);
            assert(id@ =~= crate::text::decimal(self@[i as int].id as nat));
            out.push((id, self.series[i].duplicate()));
            i = i + 1;
        }
        out
    }

    /// The series of the collection, in the order of their identifiers.
    pub fn get_series_list(&self) -> (out: &Vec<Series>)
        ensures
            out@.len() == self@.len(),
            forall|i: int| 0 <= i < out@.len() ==> (#[trigger] out@[i])@ == self@[i],
    {
        &self.series
    }

    /// The place of the series with the name.
    fn find(&self, name: &str) -> (out: Option<usize>)
        requires
            self.wf(),
        ensures
            out is Some <==> has_name(self@, name@),
            out is Some ==> out->0 < self@.len() && self@[out->0 as int].name == name@
                && position(self@, name@) == out->0,
            out is Some ==> out->0 < self.series@.len(),
    {
        let wanted = String::from_str(name);
        let mut i: usize = 0;
        while i < self.series.len()
            invariant
                i <= self.series.len(),
                self.wf(),
                wanted@ == name@,
                forall|j: int| 0 <= j < i ==> (#[trigger] self@[j]).name != name@,
            decreases self.series.len() - i,
        {
            if *self.series[i].get_name() == wanted {
                proof {
                    lemma_position(self@, name@, i as int);
                }
                return Some(i);
            }
            i = i + 1;
        }
        None
    }

    /// Whether a series has the name.
    pub fn contains(&self, name: &str) -> (out: bool)
        requires
            self.wf(),
        ensures
            out == has_name(self@, name@),
    {
        self.find(name).is_some()
    }

    /// The identifier of the series with the name.
    ///
    /// Refused with `SeriesNotFound` exactly where no series has the name.
    pub fn get_id(&self, name: &str) -> (out: Result<u64, CollectionError>)
        requires
            self.wf(),
        ensures
            out is Err <==> !has_name(self@, name@),
            out is Err ==> out->Err_0 == CollectionError::SeriesNotFound,
            out is Ok ==> out->Ok_0 == self@[position(self@, name@)].id,
    {
        match self.find(name) {
            None => Err(CollectionError::SeriesNotFound),
            Some(at) => {
                assert(self@[at as int] == self.series@[at as int]@);
                Ok(self.series[at].get_id())
            },
        }
    }

    /// Adds a series without seasons under the name. The series gets the
    /// smallest positive identifier that no series of the collection has.
    ///
    /// Refused with `DuplicateName` exactly where a series has the name.
    pub fn add_series(&mut self, name: String, episode_duration: Option<u32>) -> (out: Result<
        (),
        CollectionError,
    >)
        requires
            old(self).wf(),
        ensures
            final(self).wf(),
            out is Err <==> has_name(old(self)@, name@),
            out is Err ==> out->Err_0 == CollectionError::DuplicateName && final(self)@ == old(self)@,
            out is Ok ==> final(self)@ == old(self)@.insert(
                free_place(old(self)@),
                added_series(old(self)@, name@, episode_duration),
            ),
    {
        if self.find(name.as_str()).is_some() {
            return Err(CollectionError::DuplicateName);
        }
        let mut at: usize = 0;
        let mut found = false;
        while !found && at < self.series.len()
            invariant
                at <= self.series.len(),
                self.wf(),
                *self == *old(self),
                forall|j: int| 0 <= j < at ==> (#[trigger] self@[j]).id == j + 1,
                found ==> at < self.series.len() && self@[at as int].id != at + 1,
            decreases self.series.len() - at + if found { 0int } else { 1int },
        {
            assert(self@[at as int] == self.series@[at as int]@);
            if self.series[at].get_id() == at as u64 + 1 {
                at = at + 1;
            } else {
                found = true;
            }
        }
        proof {
            lemma_free_place(self@, at as int);
        }
        let ghost added = added_series(old(self)@, name@, episode_duration);
        self.series.insert(at, Series::new(0, name, episode_duration));
        let count = self.series.len();
        self.series[at].set_id(at as u64 + 1);
        proof {
            let before = old(self)@;
            assert(self@ =~= before.insert(at as int, added));
            assert forall|i: int, j: int|
                0 <= i < self@.len() && 0 <= j < self@.len() && i != j implies (
            #[trigger] self@[i]).name != (#[trigger] self@[j]).name by {
                let oi = if i < at { i } else { i - 1 };
                let oj = if j < at { j } else { j - 1 };
                if i != at && j != at {
                    assert(before[oi].name != before[oj].name);
                } else if i == at {
                    assert(before[oj].name != added.name);
                } else {
                    assert(before[oi].name != added.name);
                }
            }
            assert forall|i: int| 0 <= i < self@.len() implies (#[trigger] self@[i]).wf()
                && self@[i].id >= 1 by {
                if i != at {
                    let oi = if i < at { i } else { i - 1 };
                    assert(before[oi].wf() && before[oi].id >= 1);
                }
            }
            assert forall|i: int, j: int| 0 <= i < j < self@.len() implies (
            #[trigger] self@[i]).id < (#[trigger] self@[j]).id by {
                let oi = if i < at { i } else { i - 1 };
                let oj = if j < at { j } else { j - 1 };
                if i != at && j != at {
                    assert(before[oi].id < before[oj].id);
                } else if j == at {
                    assert(before[i].id == i + 1);
                } else {
                    // The series that stood at the free place, and every later
                    // one, has an identifier above the place counted from one.
                    assert(before[at as int].id >= 1);
                    if at > 0 {
                        assert(before[at - 1].id == at);
                        assert(before[at - 1].id < before[at as int].id);
                    }
                    if oj > at {
                        assert(before[at as int].id < before[oj].id);
                    }
                }
            }
        }
        Ok(())
    }

    /// Removes the series with the name.
    ///
    /// Refused with `SeriesNotFound` exactly where no series has the name.
    pub fn remove_series(&mut self, name: &str) -> (out: Result<(), CollectionError>)
        requires
            old(self).wf(),
        ensures
            final(self).wf(),
            out is Err <==> !has_name(old(self)@, name@),
            out is Err ==> out->Err_0 == CollectionError::SeriesNotFound && final(self)@ == old(self)@,
            out is Ok ==> final(self)@ == old(self)@.remove(position(old(self)@, name@)),
    {
        match self.find(name) {
            None => Err(CollectionError::SeriesNotFound),
            Some(at) => {
                let _ = self.series.remove(at);
                proof {
                    assert(self@ =~= old(self)@.remove(at as int));
                    assert forall|i: int, j: int|
                        0 <= i < self@.len() && 0 <= j < self@.len() && i != j implies (
                    #[trigger] self@[i]).name != (#[trigger] self@[j]).name by {
                        let oi = if i < at { i } else { i + 1 };
                        let oj = if j < at { j } else { j + 1 };
                        assert(old(self)@[oi].name != old(self)@[oj].name);
                    }
                    assert forall|i: int| 0 <= i < self@.len() implies (#[trigger] self@[i]).wf() by {
                        let oi = if i < at { i } else { i + 1 };
                        assert(old(self)@[oi].wf());
                    }
                }
                Ok(())
            },
        }
    }

    /// The series with the name.
    ///
    /// Refused with `SeriesNotFound` exactly where no series has the name.
    pub fn get_series(&self, name: &str) -> (out: Result<&Series, CollectionError>)
        requires
            self.wf(),
        ensures
            out is Err <==> !has_name(self@, name@),
            out is Err ==> out->Err_0 == CollectionError::SeriesNotFound,
            out is Ok ==> out->Ok_0@ == self@[position(self@, name@)] && out->Ok_0.wf(),
    {
        match self.find(name) {
            None => Err(CollectionError::SeriesNotFound),
            Some(at) => {
                assert(self@[at as int] == self.series@[at as int]@);
                Ok(&self.series[at])
            },
        }
    }

    /// The series with the name, to be changed in place.
    ///
    /// Refused with `SeriesNotFound` exactly where no series has the name.
    /// The collection then holds, at the same place, the series as the
    /// caller leaves it; it stays well formed as long as the series does
    /// and keeps its name.
    pub fn get_series_mut(&mut self, name: &str) -> (out: Result<&mut Series, CollectionError>)
        requires
            old(self).wf(),
        ensures
            out is Err <==> !has_name(old(self)@, name@),
            out is Err ==> out->Err_0 == CollectionError::SeriesNotFound && final(self)@ == old(self)@,
            out is Ok ==> (*out->Ok_0)@ == old(self)@[position(old(self)@, name@)] && (
            *out->Ok_0).wf() && final(self)@ =~= old(self)@.update(
                position(old(self)@, name@),
                (*final(out->Ok_0))@,
            ),
    {
        match self.find(name) {
            None => Err(CollectionError::SeriesNotFound),
            Some(at) => {
                assert(self@[at as int] == self.series@[at as int]@);
                Ok(&mut self.series[at])
            },
        }
    }

    /// Gives the series called `old_name` the name `new_name`.
    ///
    /// Refused with `SeriesNotFound` where no series is called `old_name`;
    /// else with `DuplicateName` where a series is called `new_name`.
    pub fn change_series_name(&mut self, old_name: &str, new_name: String) -> (out: Result<
        (),
        CollectionError,
    >)
        requires
            old(self).wf(),
        ensures
            final(self).wf(),
            out == Err::<(), CollectionError>(CollectionError::SeriesNotFound) <==> !has_name(
                old(self)@,
                old_name@,
            ),
            out == Err::<(), CollectionError>(CollectionError::DuplicateName) <==> has_name(
                old(self)@,
                old_name@,
            ) && has_name(old(self)@, new_name@),
            out is Err ==> final(self)@ == old(self)@,
            out is Ok ==> final(self)@ == old(self)@.update(
                position(old(self)@, old_name@),
                SeriesView { name: new_name@, ..old(self)@[position(old(self)@, old_name@)] },
            ),
    {
        match self.find(old_name) {
            None => Err(CollectionError::SeriesNotFound),
            Some(at) => {
                if self.find(new_name.as_str()).is_some() {
                    return Err(CollectionError::DuplicateName);
                }
                let ghost renamed = SeriesView { name: new_name@, ..old(self)@[at as int] };
                assert(self@[at as int] == self.series@[at as int]@);
                self.series[at].set_name(new_name);
                proof {
                    assert(self@ =~= old(self)@.update(at as int, renamed));
                    assert forall|i: int, j: int|
                        0 <= i < self@.len() && 0 <= j < self@.len() && i != j implies (
                    #[trigger] self@[i]).name != (#[trigger] self@[j]).name by {
                        if i != at && j != at {
                            assert(old(self)@[i].name != old(self)@[j].name);
                        } else if i == at {
                            assert(old(self)@[j].name != new_name@);
                        } else {
                            assert(old(self)@[i].name != new_name@);
                        }
                    }
                    assert forall|i: int| 0 <= i < self@.len() implies (#[trigger] self@[i]).wf() by {
                        assert(old(self)@[i].wf());
                    }
                }
                Ok(())
            },
        }
    }

    /// How many series the collection holds.
    pub fn get_total_series(&self) -> (out: usize)
        ensures
            out == self@.len(),
    {
        self.series.len()
    }

    /// The seasons of all series together.
    pub fn get_total_seasons(&self) -> (out: u128)
        ensures
            out == total_seasons(self@),
    {
        let mut sum: u128 = 0;
        let mut i: usize = 0;
        while i < self.series.len()
            invariant
                i <= self.series.len(),
                sum == total_seasons(self@.take(i as int)),
                sum <= i * 0xffff_ffff_ffff_ffff,
            decreases self.series.len() - i,
        {
            assert(self@.take(i + 1).drop_last() =~= self@.take(i as int));
            let count: u128 = self.series[i].get_total_seasons() as u128;
            assert((i + 1) * 0xffff_ffff_ffff_ffff == i * 0xffff_ffff_ffff_ffff
                + 0xffff_ffff_ffff_ffff) by (nonlinear_arith);
            assert((i + 1) * 0xffff_ffff_ffff_ffff <= 0x1_0000_0000_0000_0000
                * 0xffff_ffff_ffff_ffff) by (nonlinear_arith)
                requires
                    i + 1 <= 0x1_0000_0000_0000_0000,
            ;
            sum = sum + count;
            i = i + 1;
        }
        assert(self@.take(i as int) =~= self@);
        sum
    }

    /// The watched episodes of all series together.
    pub fn get_total_episodes(&self) -> (out: u128)
        ensures
            out == total_episodes(self@),
    {
        let mut sum: u128 = 0;
        let mut i: usize = 0;
        while i < self.series.len()
            invariant
                i <= self.series.len(),
                sum == total_episodes(self@.take(i as int)),
                sum <= i * 0xffff_ffff_ffff_ffff,
            decreases self.series.len() - i,
        {
            assert(self@.take(i + 1).drop_last() =~= self@.take(i as int));
            let count: u128 = self.series[i].get_total_episodes() as u128;
            assert((i + 1) * 0xffff_ffff_ffff_ffff == i * 0xffff_ffff_ffff_ffff
                + 0xffff_ffff_ffff_ffff) by (nonlinear_arith);
            assert((i + 1) * 0xffff_ffff_ffff_ffff <= 0x1_0000_0000_0000_0000
                * 0xffff_ffff_ffff_ffff) by (nonlinear_arith)
                requires
                    i + 1 <= 0x1_0000_0000_0000_0000,
            ;
            sum = sum + count;
            i = i + 1;
        }
        assert(self@.take(i as int) =~= self@);
        sum
    }

    /// The minutes spent on all series together, where that number can be
    /// held in 128 bits.
    pub fn checked_total_watch_time(&self) -> (out: Option<u128>)
        ensures
            out is Some <==> total_watch_time(self@) <= u128::MAX,
            out is Some ==> out->0 == total_watch_time(self@),
    {
        let mut sum: u128 = 0;
        let mut i: usize = 0;
        while i < self.series.len()
            invariant
                i <= self.series.len(),
                sum == total_watch_time(self@.take(i as int)),
            decreases self.series.len() - i,
        {
            assert(self@.take(i + 1).drop_last() =~= self@.take(i as int));
            match sum.checked_add(self.series[i].get_total_watch_time()) {
                Some(next) => {
                    sum = next;
                },
                None => {
                    proof {
                        lemma_total_watch_time_prefix(self@, i + 1);
                    }
                    return None;
                },
            }
            i = i + 1;
        }
        assert(self@.take(i as int) =~= self@);
        Some(sum)
    }

    /// The minutes spent on all series together.
    pub fn get_total_watch_time(&self) -> (out: u128)
        requires
            total_watch_time(self@) <= u128::MAX,
        ensures
            out == total_watch_time(self@),
    {
        match self.checked_total_watch_time() {
            Some(total) => total,
            None => 0,
        }
    }

    /// Whether the series at place `i` is listed before the one at `j`.
    fn listed_before(&self, mode: SeriesSort, i: usize, j: usize) -> (out: bool)
        requires
            i < self@.len(),
            j < self@.len(),
        ensures
            out == comes_before(self@, mode, i as int, j as int),
    {
        assert(self@[i as int] == self.series@[i as int]@);
        assert(self@[j as int] == self.series@[j as int]@);
        let by_id = self.series[i].get_id() < self.series[j].get_id();
        match mode {
            SeriesSort::Default => by_id,
            SeriesSort::Name => {
                let a = chars_of(self.series[i].get_name().as_str());
                let b = chars_of(self.series[j].get_name().as_str());
                proof {
                    lemma_lex_lt_total(a@, b@);
                }
                chars_lt(&a, &b) || (!chars_lt(&b, &a) && by_id)
            },
            SeriesSort::WatchTime => {
                let a = self.series[i].get_total_watch_time();
                let b = self.series[j].get_total_watch_time();
                a > b || (a == b && by_id)
            },
        }
    }

    /// The names of the series, each once, in the order of `mode`.
    pub fn get_series_names_sorted(&self, mode: SeriesSort) -> (out: Vec<String>)
        requires
            self.wf(),
        ensures
            lists_in_order(self@, mode, name_views(out@)),
    {
        let n = self.series.len();
        let mut order: Vec<usize> = Vec::new();
        let mut k: usize = 0;
        while k < n
            invariant
                self.wf(),
                n == self.series.len(),
                n == self@.len(),
                k <= n,
                order@.len() == k,
                forall|a: int| 0 <= a < k ==> (#[trigger] order@[a]) < k,
                forall|a: int, b: int|
                    0 <= a < b < k ==> comes_before(
                        self@,
                        mode,
                        (#[trigger] order@[a]) as int,
                        (#[trigger] order@[b]) as int,
                    ),
            decreases n - k,
        {
            let mut p: usize = 0;
            while p < k && !self.listed_before(mode, k, order[p])
                invariant
                    self.wf(),
                    p <= k < n,
                    n == self@.len(),
                    order@.len() == k,
                    forall|a: int| 0 <= a < k ==> (#[trigger] order@[a]) < k,
                    forall|a: int|
                        0 <= a < p ==> !comes_before(
                            self@,
                            mode,
                            k as int,
                            (#[trigger] order@[a]) as int,
                        ),
                decreases k - p,
            {
                p = p + 1;
            }
            let ghost before = order@;
            order.insert(p, k);
            proof {
                assert forall|a: int, b: int| 0 <= a < b < k + 1 implies comes_before(
                    self@,
                    mode,
                    (#[trigger] order@[a]) as int,
                    (#[trigger] order@[b]) as int,
                ) by {
                    if b == p {
                        assert(order@[a] == before[a]);
                        lemma_comes_before_total(self@, mode, k as int, before[a] as int);
                    } else if a == p {
                        assert(order@[b] == before[b - 1]);
                        assert(comes_before(self@, mode, k as int, before[p as int] as int));
                        if b - 1 > p {
                            assert(comes_before(
                                self@,
                                mode,
                                before[p as int] as int,
                                before[b - 1] as int,
                            ));
                            lemma_comes_before_transitive(
                                self@,
                                mode,
                                k as int,
                                before[p as int] as int,
                                before[b - 1] as int,
                            );
                        }
                    } else {
                        let oa = if a < p { a } else { a - 1 };
                        let ob = if b < p { b } else { b - 1 };
                        assert(order@[a] == before[oa]);
                        assert(order@[b] == before[ob]);
                        assert(comes_before(self@, mode, before[oa] as int, before[ob] as int));
                    }
                }
                assert forall|a: int| 0 <= a < k + 1 implies (#[trigger] order@[a]) < k + 1 by {
                    if a != p {
                        let oa = if a < p { a } else { a - 1 };
                        assert(order@[a] == before[oa]);
                    }
                }
            }
            k = k + 1;
        }
        let mut names: Vec<String> = Vec::new();
        let mut a: usize = 0;
        while a < n
            invariant
                a <= n,
                n == self.series.len(),
                n == self@.len(),
                order@.len() == n,
                forall|i: int| 0 <= i < n ==> (#[trigger] order@[i]) < n,
                names@.len() == a,
                forall|i: int|
                    0 <= i < a ==> (#[trigger] names@[i])@ == self@[order@[i] as int].name,
            decreases n - a,
        {
            let at = order[a];
            assert(self@[at as int] == self.series@[at as int]@);
            names.push(self.series[at].get_name().clone());
            a = a + 1;
        }
        proof {
            let listed = name_views(names@);
            assert forall|i: int| 0 <= i < listed.len() implies has_name(
                self@,
                #[trigger] listed[i],
            ) && position(self@, listed[i]) == order@[i] by {
                lemma_position(self@, listed[i], order@[i] as int);
            }
            assert forall|i: int, j: int| 0 <= i < j < listed.len() implies comes_before(
                self@,
                mode,
                position(self@, #[trigger] listed[i]),
                position(self@, #[trigger] listed[j]),
            ) by {
                assert(position(self@, listed[i]) == order@[i]);
                assert(position(self@, listed[j]) == order@[j]);
            }
        }
        names
    }

    /// The report on the series with the name.
    ///
    /// Refused with `SeriesNotFound` exactly where no series has the name.
    pub fn get_summary(&self, name: &str) -> (out: Result<String, CollectionError>)
        requires
            self.wf(),
        ensures
            out is Err <==> !has_name(self@, name@),
            out is Err ==> out->Err_0 == CollectionError::SeriesNotFound,
            out is Ok ==> out->Ok_0@ == crate::series::summary_text(
                self@[position(self@, name@)],
            ),
    {
        match self.find(name) {
            None => Err(CollectionError::SeriesNotFound),
            Some(at) => {
                assert(self@[at as int] == self.series@[at as int]@);
                Ok(self.series[at].get_summary())
            },
        }
    }
}

/// The minutes spent on the first series of a collection are not more than
/// those spent on all.
pub proof fn lemma_total_watch_time_prefix(v: Seq<SeriesView>, k: int)
    requires
        0 <= k <= v.len(),
    ensures
        total_watch_time(v.take(k)) <= total_watch_time(v),
    decreases v.len() - k,
{
    if k == v.len() {
        assert(v.take(k) =~= v);
    } else {
        lemma_total_watch_time_prefix(v.drop_last(), k);
        assert(v.drop_last().take(k) =~= v.take(k));
    }
}

/// Changing one series changes the minutes spent on all by as much as it
/// changes the minutes spent on that series.
pub proof fn lemma_total_watch_time_update(v: Seq<SeriesView>, i: int, changed: SeriesView)
    requires
        0 <= i < v.len(),
    ensures
        total_watch_time(v.update(i, changed)) + v[i].total_watch_time() == total_watch_time(v)
            + changed.total_watch_time(),
    decreases v.len(),
{
    let w = v.update(i, changed);
    if i == v.len() - 1 {
        assert(w.drop_last() =~= v.drop_last());
    } else {
        lemma_total_watch_time_update(v.drop_last(), i, changed);
        assert(w.drop_last() =~= v.drop_last().update(i, changed));
    }
}

/// Marking one more episode of a series as watched adds the minutes of one
/// episode of that series to the minutes spent on all series.
pub proof fn lemma_add_episode_total_watch_time(
    before: Seq<SeriesView>,
    name: Seq<char>,
    season: u32,
    episode: u32,
    changed: SeriesView,
)
    requires
        collection_wf(before),
        has_name(before, name),
        before[position(before, name)].add_episode_outcome(
            season,
            episode,
            Ok::<(), SeriesError>(()),
            changed,
        ),
    ensures
        collection_wf(before.update(position(before, name), changed)),
        total_watch_time(before.update(position(before, name), changed)) == total_watch_time(
            before,
        ) + before[position(before, name)].minutes_per_episode(),
{
    let at = position(before, name);
    let after = before.update(at, changed);
    lemma_total_watch_time_update(before, at, changed);
    crate::series::lemma_add_episode_watch_time(before[at], season, episode, changed);
    assert forall|i: int, j: int|
        0 <= i < after.len() && 0 <= j < after.len() && i != j implies (#[trigger] after[i]).name
        != (#[trigger] after[j]).name by {
        assert(before[i].name != before[j].name);
    }
    assert forall|i: int| 0 <= i < after.len() implies (#[trigger] after[i]).wf() by {
        assert(before[i].wf());
    }
}

/// A listing in order holds no name twice, and the name of every series.
pub proof fn lemma_listing_is_permutation(v: Seq<SeriesView>, mode: SeriesSort, names: Seq<Seq<char>>)
    requires
        collection_wf(v),
        lists_in_order(v, mode, names),
    ensures
        names.no_duplicates(),
        forall|i: int| 0 <= i < v.len() ==> names.contains(#[trigger] v[i].name),
{
    assert forall|a: int, b: int| 0 <= a < names.len() && 0 <= b < names.len() && a
        != b implies names[a] != names[b] by {
        lemma_comes_before_total(v, mode, position(v, names[a]), position(v, names[a]));
        if a < b {
            assert(comes_before(v, mode, position(v, names[a]), position(v, names[b])));
        } else {
            assert(comes_before(v, mode, position(v, names[b]), position(v, names[a])));
        }
    }
    let places = Seq::new(names.len(), |k: int| position(v, names[k]));
    assert forall|a: int, b: int| 0 <= a < places.len() && 0 <= b < places.len() && a
        != b implies places[a] != places[b] by {
        assert(has_name(v, names[a]));
        assert(has_name(v, names[b]));
        assert(v[places[a]].name == names[a]);
        assert(v[places[b]].name == names[b]);
    }
    assert forall|k: int| 0 <= k < places.len() implies 0 <= #[trigger] places[k] < v.len() by {
        assert(has_name(v, names[k]));
    }
    lemma_all_places_taken(places, v.len() as int);
    assert forall|i: int| 0 <= i < v.len() implies names.contains(#[trigger] v[i].name) by {
        assert(places.contains(i));
        let k = choose|k: int| 0 <= k < places.len() && places[k] == i;
        assert(has_name(v, names[k]));
        assert(v[places[k]].name == names[k]);
    }
}

/// A sequence of `n` different numbers below `n` holds each of them.
proof fn lemma_all_places_taken(places: Seq<int>, n: int)
    requires
        places.len() == n,
        places.no_duplicates(),
        forall|k: int| 0 <= k < places.len() ==> 0 <= #[trigger] places[k] < n,
    ensures
        forall|i: int| 0 <= i < n ==> places.contains(i),
{
    let taken = places.to_set();
    let all = vstd::set_lib::set_int_range(0, n);
    places.unique_seq_to_set();
    vstd::set_lib::lemma_int_range(0, n);
    assert(taken.subset_of(all)) by {
        assert forall|x: int| taken.contains(x) implies all.contains(x) by {
            let k = choose|k: int| 0 <= k < places.len() && places[k] == x;
            assert(0 <= places[k] < n);
        }
    }
    vstd::set_lib::lemma_subset_equality(taken, all);
    assert forall|i: int| 0 <= i < n implies places.contains(i) by {
        assert(all.contains(i));
        assert(taken.contains(i));
    }
}

} // verus!
