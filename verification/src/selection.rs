//! The set of entities a user has ticked for comparison, and the narrowing
//! of a chart's series to that set.

use vstd::prelude::*;
use crate::series::{texts, CumulativeSeries, EntryView, SeriesMap};

verus! {

/// The codes a user has ticked. Empty means that nothing is narrowed.
#[derive(Debug)]
pub struct SelectionSet {
    codes: Vec<String>,
}

impl View for SelectionSet {
    type V = Set<Seq<char>>;

    /// The ticked codes.
    closed spec fn view(&self) -> Set<Seq<char>> {
        texts(self.codes@).to_set()
    }
}

impl Clone for SelectionSet {
    fn clone(&self) -> (copy: Self)
        ensures
            copy@ == self@,
    {
        proof {
            use_type_invariant(self);
        }
        let mut codes: Vec<String> = Vec::new();
        let mut at: usize = 0;
        while at < self.codes.len()
            invariant
                at <= self.codes.len(),
                texts(codes@) == texts(self.codes@).take(at as int),
                texts(self.codes@).no_duplicates(),
            decreases self.codes.len() - at,
        {
            let ghost copied = codes@;
            codes.push(self.codes[at].clone());
            assert(texts(codes@) =~= texts(copied).push(self.codes[at as int]@));
            assert(texts(self.codes@).take(at + 1) =~= texts(self.codes@).take(at as int).push(
                self.codes[at as int]@,
            ));
            at += 1;
        }
        assert(texts(self.codes@).take(at as int) =~= texts(self.codes@));
        SelectionSet { codes }
    }
}

impl SelectionSet {
    #[verifier::type_invariant]
    spec fn no_code_twice(&self) -> bool {
        texts(self.codes@).no_duplicates()
    }

    /// The empty selection.
    pub fn new() -> (selection: SelectionSet)
        ensures
            selection@ == Set::<Seq<char>>::empty(),
    {
        let selection = SelectionSet { codes: Vec::new() };
        assert(selection@ =~= Set::<Seq<char>>::empty());
        selection
    }

    /// How many codes are ticked.
    pub fn len(&self) -> (len: usize)
        ensures
            self@.finite(),
            len == self@.len(),
    {
        proof {
            use_type_invariant(self);
            texts(self.codes@).unique_seq_to_set();
        }
        self.codes.len()
    }

    /// Whether nothing is ticked.
    pub fn is_empty(&self) -> (empty: bool)
        ensures
            empty == self@.is_empty(),
    {
        proof {
            if self.codes.len() > 0 {
                assert(texts(self.codes@)[0] == self.codes[0]@);
                assert(self@.contains(self.codes[0]@));
            } else {
                assert(self@ =~= Set::<Seq<char>>::empty());
            }
        }
        self.codes.len() == 0
    }

    /// Where `code` stands among the ticked codes, if it is ticked.
    fn position(&self, code: &str) -> (position: Option<usize>)
        ensures
            position is Some <==> self@.contains(code@),
            position matches Some(i) ==> i < self.codes.len() && self.codes[i as int]@ == code@,
    {
        let wanted = code.to_owned();
        let mut at: usize = 0;
        while at < self.codes.len()
            invariant
                at <= self.codes.len(),
                wanted@ == code@,
                forall|j: int| 0 <= j < at ==> (#[trigger] self.codes[j])@ != code@,
            decreases self.codes.len() - at,
        {
            if self.codes[at] == wanted {
                assert(texts(self.codes@)[at as int] == code@);
                return Some(at);
            }
            at += 1;
        }
        proof {
            if self@.contains(code@) {
                let k = choose|k: int|
                    0 <= k < texts(self.codes@).len() && texts(self.codes@)[k] == code@;
                assert(self.codes[k]@ == code@);
            }
        }
        None
    }

    /// Whether `code` is ticked.
    pub fn contains(&self, code: &str) -> (ticked: bool)
        ensures
            ticked == self@.contains(code@),
    {
        self.position(code).is_some()
    }

    /// Ticks `code`. Returns whether it was not ticked before.
    pub fn insert(&mut self, code: String) -> (added: bool)
        ensures
            final(self)@ == old(self)@.insert(code@),
            added == !old(self)@.contains(code@),
    {
        proof {
            use_type_invariant(&*self);
        }
        let ghost before = texts(self.codes@);
        match self.position(code.as_str()) {
            Some(_) => {
                assert(self@ =~= self@.insert(code@));
                false
            },
            None => {
                let mut codes: Vec<String> = Vec::new();
                core::mem::swap(&mut codes, &mut self.codes);
                codes.push(code);
                proof {
                    let after = texts(codes@);
                    assert(after =~= before.push(code@));
                    assert(!before.contains(code@));
                    assert(after.to_set() =~= before.to_set().insert(code@)) by {
                        assert forall|c: Seq<char>| after.to_set().contains(c) implies before.to_set().insert(
                            code@,
                        ).contains(c) by {
                            let k = choose|k: int| 0 <= k < after.len() && after[k] == c;
                            if k < before.len() {
                                assert(before[k] == c);
                            }
                        }
                        assert forall|c: Seq<char>|
                            before.to_set().insert(code@).contains(c) implies after.to_set().contains(
                            c,
                        ) by {
                            if c == code@ {
                                assert(after[before.len() as int] == c);
                            } else {
                                let k = choose|k: int| 0 <= k < before.len() && before[k] == c;
                                assert(after[k] == c);
                            }
                        }
                    }
                }
                self.codes = codes;
                true
            },
        }
    }

    /// Unticks `code`. Returns whether it was ticked before.
    pub fn remove(&mut self, code: &str) -> (removed: bool)
        ensures
            final(self)@ == old(self)@.remove(code@),
            removed == old(self)@.contains(code@),
    {
        proof {
            use_type_invariant(&*self);
        }
        let ghost before = texts(self.codes@);
        match self.position(code) {
            None => {
                assert(self@ =~= self@.remove(code@));
                false
            },
            Some(i) => {
                let mut codes: Vec<String> = Vec::new();
                core::mem::swap(&mut codes, &mut self.codes);
                let _ = codes.remove(i);
                proof {
                    let after = texts(codes@);
                    assert(after =~= before.remove(i as int));
                    assert(after.no_duplicates());
                    assert(after.to_set() =~= before.to_set().remove(code@)) by {
                        assert forall|c: Seq<char>| after.to_set().contains(c) implies before.to_set().remove(
                            code@,
                        ).contains(c) by {
                            let k = choose|k: int| 0 <= k < after.len() && after[k] == c;
                            assert(before[i as int] == code@);
                            if k < i {
                                assert(before[k] == c);
                            } else {
                                assert(before[k + 1] == c);
                            }
                        }
                        assert forall|c: Seq<char>|
                            before.to_set().remove(code@).contains(c) implies after.to_set().contains(
                            c,
                        ) by {
                            let k = choose|k: int| 0 <= k < before.len() && before[k] == c;
                            if k < i {
                                assert(after[k] == c);
                            } else {
                                assert(after[k - 1] == c);
                            }
                        }
                    }
                }
                self.codes = codes;
                true
            },
        }
    }

    /// The selection after one click on an entity's checkbox: with `code`
    /// where the box is now checked, without it where it is not. The
    /// selection that was there is left as it is.
    pub fn toggled(&self, code: &str, checked: bool) -> (next: SelectionSet)
        ensures
            next@ == (if checked {
                self@.insert(code@)
            } else {
                self@.remove(code@)
            }),
    {
        let mut next = self.clone();
        if checked {
            let _ = next.insert(code.to_owned());
        } else {
            let _ = next.remove(code);
        }
        next
    }
}

/// What a chart shows of `entries` under `selection`: everything where the
/// selection is empty, else the entries whose code is selected, in the
/// entries' own order.
pub open spec fn selected(entries: Seq<EntryView>, selection: Set<Seq<char>>) -> Seq<EntryView> {
    if selection.is_empty() {
        entries
    } else {
        entries.filter(|entry: EntryView| selection.contains(entry.code))
    }
}

/// The totals of a run of entries, in order.
pub open spec fn totals_of(entries: Seq<EntryView>) -> Seq<Seq<nat>> {
    entries.map_values(|entry: EntryView| entry.totals)
}

/// The codes of a run of entries, in order.
pub open spec fn codes_of(entries: Seq<EntryView>) -> Seq<Seq<char>> {
    entries.map_values(|entry: EntryView| entry.code)
}

/// The totals of a run of series, in order.
pub open spec fn series_views(series: Seq<CumulativeSeries>) -> Seq<Seq<nat>> {
    series.map_values(|one: CumulativeSeries| one@)
}

/// A selection that holds none of the codes of `entries`, and is not empty,
/// leaves nothing to show.
pub proof fn lemma_disjoint_selection_shows_nothing(
    entries: Seq<EntryView>,
    selection: Set<Seq<char>>,
)
    requires
        !selection.is_empty(),
        forall|i: int| 0 <= i < entries.len() ==> !selection.contains((#[trigger] entries[i]).code),
    ensures
        selected(entries, selection) == Seq::<EntryView>::empty(),
    decreases entries.len(),
{
    reveal(Seq::filter);
    if entries.len() > 0 {
        let rest = entries.drop_last();
        assert forall|i: int| 0 <= i < rest.len() implies !selection.contains(
            (#[trigger] rest[i]).code,
        ) by {
            assert(rest[i] == entries[i]);
        }
        lemma_disjoint_selection_shows_nothing(rest, selection);
        assert(!selection.contains(entries[entries.len() - 1].code));
    }
}

/// The empty selection shows every entry, in order.
pub proof fn lemma_empty_selection_shows_all(entries: Seq<EntryView>)
    ensures
        selected(entries, Set::<Seq<char>>::empty()) == entries,
{
}

/// Narrows a chart's series to a selection.
pub struct SeriesSelector;

impl SeriesSelector {
    /// The series and codes to chart: all of them, in the map's order, where
    /// the selection is empty; else those whose code is selected, still in
    /// the map's order. An empty map gives two empty results.
    pub fn select(all: &SeriesMap, selection: &SelectionSet) -> (chosen: (
        Vec<CumulativeSeries>,
        Vec<String>,
    ))
        ensures
            series_views(chosen.0@) == totals_of(selected(all@, selection@)),
            texts(chosen.1@) == codes_of(selected(all@, selection@)),
    {
        let everything = selection.is_empty();
        let ghost pick = |entry: EntryView| selection@.contains(entry.code);
        let ghost shown = |entries: Seq<EntryView>|
            if everything {
                entries
            } else {
                entries.filter(pick)
            };
        let mut series: Vec<CumulativeSeries> = Vec::new();
        let mut codes: Vec<String> = Vec::new();
        let n = all.len();
        let mut at: usize = 0;
        proof {
            reveal(Seq::filter);
            assert(all@.take(0) =~= Seq::<EntryView>::empty());
            assert(series_views(series@) =~= totals_of(shown(all@.take(0))));
            assert(texts(codes@) =~= codes_of(shown(all@.take(0))));
        }
        while at < n
            invariant
                at <= n,
                n == all@.len(),
                everything == selection@.is_empty(),
                pick == (|entry: EntryView| selection@.contains(entry.code)),
                shown == (|entries: Seq<EntryView>|
                    if everything {
                        entries
                    } else {
                        entries.filter(pick)
                    }),
                series_views(series@) == totals_of(shown(all@.take(at as int))),
                texts(codes@) == codes_of(shown(all@.take(at as int))),
            decreases n - at,
        {
            let code = all.code_at(at);
            let ghost next = all@.take(at + 1);
            proof {
                reveal(Seq::filter);
                assert(next.drop_last() =~= all@.take(at as int));
                assert(next.last() == all@[at as int]);
            }
            if everything || selection.contains(code.as_str()) {
                let ghost old_series = series@;
                let ghost old_codes = codes@;
                series.push(all.series_at(at).clone());
                codes.push(code.clone());
                proof {
                    assert(shown(next) =~= shown(all@.take(at as int)).push(all@[at as int]));
                    assert(series_views(series@) =~= series_views(old_series).push(
                        all@[at as int].totals,
                    ));
                    assert(texts(codes@) =~= texts(old_codes).push(all@[at as int].code));
                    assert(series_views(series@) =~= totals_of(shown(next)));
                    assert(texts(codes@) =~= codes_of(shown(next)));
                }
            } else {
                assert(shown(next) =~= shown(all@.take(at as int)));
            }
            at += 1;
        }
        assert(all@.take(at as int) =~= all@);
        (series, codes)
    }
}

} // verus!
