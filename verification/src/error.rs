//! The ways in which standings data can fail to be usable.

use vstd::prelude::*;

verus! {

/// Why a response could not be turned into standings.
#[derive(Debug, Clone, PartialEq, Eq)]
pub enum Error {
    /// A field that the computation needs was absent.
    MissingField,
    /// A points text did not denote a score.
    InvalidNumber,
    /// No entity was given, so there is nothing to take round labels from.
    EmptyInput,
    /// The request itself failed; the message is the transport's own and is
    /// handed on unread.
    Transport(String),
}

/// The first error among `items`, in order, where `error_of` says why an
/// item is refused, if it is.
pub open spec fn first_error<R>(items: Seq<R>, error_of: spec_fn(R) -> Option<Error>) -> Option<
    Error,
>
    decreases items.len(),
{
    if items.len() == 0 {
        None
    } else {
        match first_error(items.drop_last(), error_of) {
            Some(error) => Some(error),
            None => error_of(items.last()),
        }
    }
}

/// An error found among the first `k` items is the error of the whole run.
pub proof fn lemma_first_error_is_kept<R>(
    items: Seq<R>,
    error_of: spec_fn(R) -> Option<Error>,
    k: int,
)
    requires
        0 <= k <= items.len(),
    ensures
        first_error(items.take(k), error_of) is Some ==> first_error(items, error_of)
            == first_error(items.take(k), error_of),
    decreases items.len(),
{
    if k < items.len() {
        assert(items.drop_last().take(k) =~= items.take(k));
        lemma_first_error_is_kept(items.drop_last(), error_of, k);
    } else {
        assert(items.take(k) =~= items);
    }
}

/// A run has no first error exactly where none of its items is refused.
pub proof fn lemma_first_error_is_none<R>(items: Seq<R>, error_of: spec_fn(R) -> Option<Error>)
    ensures
        first_error(items, error_of) is None <==> forall|i: int|
            0 <= i < items.len() ==> error_of(#[trigger] items[i]) is None,
    decreases items.len(),
{
    if items.len() > 0 {
        let rest = items.drop_last();
        lemma_first_error_is_none(rest, error_of);
        if first_error(items, error_of) is None {
            assert forall|i: int| 0 <= i < items.len() implies error_of(
                #[trigger] items[i],
            ) is None by {
                if i < rest.len() {
                    assert(rest[i] == items[i]);
                }
            }
        } else if first_error(rest, error_of) is Some {
            let i = choose|i: int| 0 <= i < rest.len() && !(error_of(#[trigger] rest[i]) is None);
            assert(rest[i] == items[i]);
        }
    }
}

/// The first error of a run is the error of the first item that is refused.
pub proof fn lemma_first_error_is_earliest<R>(
    items: Seq<R>,
    error_of: spec_fn(R) -> Option<Error>,
    k: int,
)
    requires
        0 <= k < items.len(),
        error_of(items[k]) is Some,
        forall|i: int| 0 <= i < k ==> error_of(#[trigger] items[i]) is None,
    ensures
        first_error(items, error_of) == error_of(items[k]),
{
    let upto = items.take(k + 1);
    assert(upto.drop_last() =~= items.take(k));
    assert forall|i: int| 0 <= i < k implies error_of(#[trigger] items.take(k)[i]) is None by {
        assert(items.take(k)[i] == items[i]);
    }
    lemma_first_error_is_none(items.take(k), error_of);
    assert(upto.last() == items[k]);
    lemma_first_error_is_kept(items, error_of, k + 1);
}

} // verus!
