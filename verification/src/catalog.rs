//! What the remote catalog hands out: the record of a series, the episodes
//! of a schedule, and the ways in which fetching them fails.

use vstd::prelude::*;
use vstd::string::StringExecFns;

verus! {

/// Why a record could not be had from the catalog.
#[derive(Debug, Clone, PartialEq, Eq)]
pub enum FetchError {
    /// The request did not get through; it may be tried again.
    Transient(String),
    /// The catalog has no such record, or its answer could not be read.
    Permanent(String),
    /// The text is not the identifier of a series.
    InvalidId(String),
    /// The task that was to fetch the record did not finish.
    Aborted,
}

/// What a `FetchError` says, over plain sequences of characters.
pub enum FetchFault {
    Transient(Seq<char>),
    Permanent(Seq<char>),
    InvalidId(Seq<char>),
    Aborted,
}

impl View for FetchError {
    type V = FetchFault;

    open spec fn view(&self) -> FetchFault {
        match self {
            FetchError::Transient(text) => FetchFault::Transient(text@),
            FetchError::Permanent(text) => FetchFault::Permanent(text@),
            FetchError::InvalidId(text) => FetchFault::InvalidId(text@),
            FetchError::Aborted => FetchFault::Aborted,
        }
    }
}

/// The catalog's record of a series.
#[derive(Debug, Clone, PartialEq, Eq)]
pub struct SeriesMainInformation {
    pub id: u32,
    pub name: String,
    pub status: String,
    pub image_url: Option<String>,
    pub average_runtime: Option<u32>,
}

/// One episode of a schedule. The air date counts seconds from the epoch.
#[derive(Debug, Clone, PartialEq, Eq)]
pub struct Episode {
    pub name: String,
    pub season: u32,
    pub number: u32,
    pub air_date: i64,
    pub image_url: Option<String>,
    pub show_url: String,
}

/// Whether the catalog's status says that the series has ended. Every
/// other status, the empty one too, stands for a running series.
pub open spec fn has_ended(info: SeriesMainInformation) -> bool {
    info.status@ == "Ended"@
}

impl SeriesMainInformation {
    /// Whether the series has ended.
    pub fn is_ended(&self) -> (out: bool)
        ensures
            out == has_ended(*self),
    {
        let ended = String::from_str("Ended");
        self.status == ended
    }
}

impl FetchError {
    /// Whether the same request may succeed when it is made again.
    pub fn is_transient(&self) -> (out: bool)
        ensures
            out == (*self is Transient),
    {
        match self {
            FetchError::Transient(_) => true,
            _ => false,
        }
    }
}

/// All results of a batch where none failed, else the first failure.
pub open spec fn gathered<T>(outcomes: Seq<Result<T, FetchError>>) -> Result<Seq<T>, FetchError>
    decreases outcomes.len(),
{
    if outcomes.len() == 0 {
        Ok(Seq::empty())
    } else {
        match gathered(outcomes.drop_last()) {
            Err(e) => Err(e),
            Ok(items) => match outcomes.last() {
                Ok(item) => Ok(items.push(item)),
                Err(e) => Err(e),
            },
        }
    }
}

/// A batch is gathered whole exactly where no outcome is a failure; else
/// the failure is that of the first outcome that failed.
pub proof fn lemma_gathered<T>(outcomes: Seq<Result<T, FetchError>>)
    ensures
        gathered(outcomes) is Ok <==> forall|i: int|
            0 <= i < outcomes.len() ==> (#[trigger] outcomes[i]) is Ok,
        gathered(outcomes) is Ok ==> gathered(outcomes)->Ok_0.len() == outcomes.len()
            && forall|i: int|
            0 <= i < outcomes.len() ==> (#[trigger] gathered(outcomes)->Ok_0[i])
                == outcomes[i]->Ok_0,
        gathered(outcomes) is Err ==> exists|i: int|
            0 <= i < outcomes.len() && (#[trigger] outcomes[i]) == Err::<T, FetchError>(
                gathered(outcomes)->Err_0,
            ) && forall|j: int| 0 <= j < i ==> (#[trigger] outcomes[j]) is Ok,
    decreases outcomes.len(),
{
    if outcomes.len() > 0 {
        let init = outcomes.drop_last();
        lemma_gathered(init);
        match gathered(init) {
            Err(e) => {
                let i = choose|i: int|
                    0 <= i < init.len() && (#[trigger] init[i]) == Err::<T, FetchError>(e)
                        && forall|j: int| 0 <= j < i ==> (#[trigger] init[j]) is Ok;
                assert(outcomes[i] == init[i]);
                assert forall|j: int| 0 <= j < i implies (#[trigger] outcomes[j]) is Ok by {
                    assert(init[j] is Ok);
                }
            },
            Ok(items) => {
                assert forall|i: int| 0 <= i < init.len() implies (#[trigger] outcomes[i]) is Ok by {
                    assert(init[i] is Ok);
                }
                match outcomes.last() {
                    Ok(item) => {
                        assert forall|i: int| 0 <= i < outcomes.len() implies (
                        #[trigger] gathered(outcomes)->Ok_0[i]) == outcomes[i]->Ok_0 by {
                            if i < init.len() {
                                assert(items[i] == init[i]->Ok_0);
                            }
                        }
                    },
                    Err(e) => {
                        let i = outcomes.len() - 1;
                        assert(outcomes[i] == Err::<T, FetchError>(e));
                    },
                }
            },
        }
    }
}

/// Gathers the outcomes of a batch of fetches: all results, in their order,
/// where none failed; else the first failure, and no result at all.
pub fn gather<T>(outcomes: Vec<Result<T, FetchError>>) -> (out: Result<Vec<T>, FetchError>)
    ensures
        match out {
            Ok(items) => gathered(outcomes@) == Ok::<Seq<T>, FetchError>(items@),
            Err(e) => gathered(outcomes@) == Err::<Seq<T>, FetchError>(e),
        },
{
    let mut items: Vec<T> = Vec::new();
    for outcome in it: outcomes
        invariant
            it.seq() == outcomes@,
            gathered(outcomes@.take(it.index() as int)) == Ok::<Seq<T>, FetchError>(items@),
    {
        assert(outcomes@.take(it.index() + 1).drop_last() =~= outcomes@.take(it.index() as int));
        match outcome {
            Ok(item) => {
                items.push(item);
            },
            Err(e) => {
                proof {
                    lemma_gathered_prefix_failure(outcomes@, it.index() + 1);
                }
                return Err(e);
            },
        }
    }
    assert(outcomes@.take(outcomes@.len() as int) =~= outcomes@);
    Ok(items)
}

/// Where the first outcomes of a batch hold a failure, the whole batch
/// fails with it.
pub proof fn lemma_gathered_prefix_failure<T>(outcomes: Seq<Result<T, FetchError>>, k: int)
    requires
        0 <= k <= outcomes.len(),
        gathered(outcomes.take(k)) is Err,
    ensures
        gathered(outcomes) == gathered(outcomes.take(k)),
    decreases outcomes.len() - k,
{
    if k == outcomes.len() {
        assert(outcomes.take(k) =~= outcomes);
    } else {
        assert(outcomes.drop_last().take(k) =~= outcomes.take(k));
        lemma_gathered_prefix_failure(outcomes.drop_last(), k);
    }
}

} // verus!
