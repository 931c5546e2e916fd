//! The life of one view: which season it shows, what is ticked in it, and
//! how far its request has come.
//!
//! The view decides; whoever runs it performs what it asks for and reports
//! back. A change of season starts a request and clears the selection. An
//! answer counts only while the view waits for it and only for the season
//! the view now shows, so an answer that a later request has overtaken
//! changes nothing. A click on a checkbox counts only while data is shown.

use vstd::prelude::*;
use crate::error::Error;
use crate::season::{SeasonView, SeasonYear};
use crate::selection::SelectionSet;

verus! {

/// How far a view's request has come.
#[derive(Debug)]
pub enum Phase<T> {
    /// Nothing was asked for yet.
    Idle,
    /// A request is under way.
    Loading,
    /// The request was answered with data.
    Ready(T),
    /// The request failed.
    Failed(Error),
}

/// What happened to a view.
#[derive(Debug)]
pub enum Event<T> {
    /// The user chose a season.
    YearChanged(SeasonYear),
    /// A request was answered with data.
    Loaded {
        /// The season that the request was for.
        year: SeasonYear,
        /// What the answer held.
        data: T,
    },
    /// A request failed.
    Failed {
        /// The season that the request was for.
        year: SeasonYear,
        /// Why it failed.
        error: Error,
    },
    /// The user clicked the checkbox of an entity.
    Toggled {
        /// The entity's code.
        code: String,
        /// Whether the box is checked now.
        checked: bool,
    },
}

/// What a view asks its runner to do after an event.
#[derive(Debug, Clone, Copy, PartialEq, Eq, Structural)]
pub enum Action {
    /// Nothing.
    Nothing,
    /// Request the data of this season; any request still under way is
    /// thereby overtaken.
    Fetch(SeasonYear),
}

/// One view.
#[derive(Debug)]
pub struct ViewState<T> {
    /// The season shown.
    pub year: SeasonYear,
    /// The entities ticked for comparison.
    pub selection: SelectionSet,
    /// How far the request for `year` has come.
    pub phase: Phase<T>,
}

/// A view as a mathematical value.
pub ghost struct ViewStateView<T> {
    /// The season shown.
    pub year: SeasonYear,
    /// The codes ticked for comparison.
    pub selection: Set<Seq<char>>,
    /// How far the request for `year` has come.
    pub phase: Phase<T>,
}

impl<T> View for ViewState<T> {
    type V = ViewStateView<T>;

    open spec fn view(&self) -> ViewStateView<T> {
        ViewStateView { year: self.year, selection: self.selection@, phase: self.phase }
    }
}

/// The view that follows `state` on `event`.
pub open spec fn next_state<T>(state: ViewStateView<T>, event: Event<T>) -> ViewStateView<T> {
    match event {
        Event::YearChanged(year) => ViewStateView {
            year,
            selection: Set::empty(),
            phase: Phase::Loading,
        },
        Event::Loaded { year, data } => if state.phase is Loading && year == state.year {
            ViewStateView { phase: Phase::Ready(data), ..state }
        } else {
            state
        },
        Event::Failed { year, error } => if state.phase is Loading && year == state.year {
            ViewStateView { phase: Phase::Failed(error), ..state }
        } else {
            state
        },
        Event::Toggled { code, checked } => if state.phase is Ready {
            ViewStateView {
                selection: if checked {
                    state.selection.insert(code@)
                } else {
                    state.selection.remove(code@)
                },
                ..state
            }
        } else {
            state
        },
    }
}

/// What `event` asks the runner to do: a change of season asks for that
/// season's data, and nothing else asks for anything.
pub open spec fn next_action<T>(event: Event<T>) -> Action {
    match event {
        Event::YearChanged(year) => Action::Fetch(year),
        _ => Action::Nothing,
    }
}

/// Whatever state a view is in, a change of season leaves it waiting for
/// that season with nothing ticked.
pub proof fn lemma_year_change_resets<T>(state: ViewStateView<T>, year: SeasonYear)
    ensures
        next_state(state, Event::YearChanged(year)).phase is Loading,
        next_state(state, Event::YearChanged(year)).year == year,
        next_state(state, Event::YearChanged(year)).selection == Set::<Seq<char>>::empty(),
        next_action(Event::<T>::YearChanged(year)) == Action::Fetch(year),
{
}

/// An answer for another season than the one shown changes nothing.
pub proof fn lemma_stale_answer_is_ignored<T>(
    state: ViewStateView<T>,
    year: SeasonYear,
    data: T,
    error: Error,
)
    requires
        year != state.year,
    ensures
        next_state(state, Event::Loaded { year, data }) == state,
        next_state(state, Event::<T>::Failed { year, error }) == state,
{
}

/// A click on a checkbox changes nothing unless data is shown, and never
/// changes the season or the phase.
pub proof fn lemma_toggle_needs_data<T>(state: ViewStateView<T>, code: String, checked: bool)
    ensures
        !(state.phase is Ready) ==> next_state(state, Event::<T>::Toggled { code, checked })
            == state,
        next_state(state, Event::<T>::Toggled { code, checked }).phase == state.phase,
        next_state(state, Event::<T>::Toggled { code, checked }).year == state.year,
{
}

impl<T> ViewState<T> {
    /// A view that has asked for nothing yet: the season under way, nothing
    /// ticked.
    pub fn new() -> (state: ViewState<T>)
        ensures
            state.year@ == SeasonView::Current,
            state.selection@ == Set::<Seq<char>>::empty(),
            state.phase is Idle,
    {
        ViewState { year: SeasonYear::current(), selection: SelectionSet::new(), phase: Phase::Idle }
    }

    /// Takes one event: returns the view that follows and what the runner
    /// is to do.
    pub fn step(self, event: Event<T>) -> (next: (ViewState<T>, Action))
        ensures
            next.0@ == next_state(self@, event),
            next.1 == next_action(event),
    {
        match event {
            Event::YearChanged(year) => (
                ViewState { year, selection: SelectionSet::new(), phase: Phase::Loading },
                Action::Fetch(year),
            ),
            Event::Loaded { year, data } => {
                let waiting = match &self.phase {
                    Phase::Loading => true,
                    _ => false,
                };
                if waiting && year == self.year {
                    (
                        ViewState {
                            year: self.year,
                            selection: self.selection,
                            phase: Phase::Ready(data),
                        },
                        Action::Nothing,
                    )
                } else {
                    (self, Action::Nothing)
                }
            },
            Event::Failed { year, error } => {
                let waiting = match &self.phase {
                    Phase::Loading => true,
                    _ => false,
                };
                if waiting && year == self.year {
                    (
                        ViewState {
                            year: self.year,
                            selection: self.selection,
                            phase: Phase::Failed(error),
                        },
                        Action::Nothing,
                    )
                } else {
                    (self, Action::Nothing)
                }
            },
            Event::Toggled { code, checked } => {
                let shown = match &self.phase {
                    Phase::Ready(_) => true,
                    _ => false,
                };
                if shown {
                    let selection = self.selection.toggled(code.as_str(), checked);
                    (ViewState { year: self.year, selection, phase: self.phase }, Action::Nothing)
                } else {
                    (self, Action::Nothing)
                }
            },
        }
    }
}

} // verus!
